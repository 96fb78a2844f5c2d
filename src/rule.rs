use vstd::prelude::*;

verus! {

/// What a rule holds: its name, its command template and its optional
/// attributes, an empty string or `false` standing for an attribute that is unset.
pub struct RuleModel {
    pub name: Seq<char>,
    pub command: Seq<char>,
    pub description: Seq<char>,
    pub depfile: Seq<char>,
    pub generator: bool,
    pub pool: Seq<char>,
    pub restat: bool,
    pub rspfile: Seq<char>,
    pub rspfile_content: Seq<char>,
    pub deps: Seq<char>,
}

/// A named command template with its optional attributes.
pub struct NinjaRule {
    pub(crate) name: String,
    pub(crate) command: String,
    pub(crate) description: String,
    pub(crate) depfile: String,
    pub(crate) generator: bool,
    pub(crate) pool: String,
    pub(crate) restat: bool,
    pub(crate) rspfile: String,
    pub(crate) rspfile_content: String,
    pub(crate) deps: String,
}

impl View for NinjaRule {
    type V = RuleModel;

    open(crate) spec fn view(&self) -> RuleModel {
        RuleModel {
            name: self.name@,
            command: self.command@,
            description: self.description@,
            depfile: self.depfile@,
            generator: self.generator,
            pool: self.pool@,
            restat: self.restat,
            rspfile: self.rspfile@,
            rspfile_content: self.rspfile_content@,
            deps: self.deps@,
        }
    }
}

impl NinjaRule {
    /// A rule with the given name and command and every other attribute unset.
    pub fn new(name: &str, command: &str) -> (r: Self)
        ensures
            r@ == (RuleModel {
                name: name@,
                command: command@,
                description: Seq::empty(),
                depfile: Seq::empty(),
                generator: false,
                pool: Seq::empty(),
                restat: false,
                rspfile: Seq::empty(),
                rspfile_content: Seq::empty(),
                deps: Seq::empty(),
            }),
    {
        NinjaRule {
            name: name.to_owned(),
            command: command.to_owned(),
            description: String::new(),
            depfile: String::new(),
            generator: false,
            pool: String::new(),
            restat: false,
            rspfile: String::new(),
            rspfile_content: String::new(),
            deps: String::new(),
        }
    }

    /// Sets the name.
    pub fn name(&mut self, val: &str) -> (r: &mut Self)
        ensures
            r@ == (RuleModel { name: val@, ..old(self)@ }),
            *final(self) == *final(r),
    {
        self.name = val.to_owned();
        self
    }

    /// Sets the command template.
    pub fn command(&mut self, val: &str) -> (r: &mut Self)
        ensures
            r@ == (RuleModel { command: val@, ..old(self)@ }),
            *final(self) == *final(r),
    {
        self.command = val.to_owned();
        self
    }

    /// Sets the description.
    pub fn description(&mut self, val: &str) -> (r: &mut Self)
        ensures
            r@ == (RuleModel { description: val@, ..old(self)@ }),
            *final(self) == *final(r),
    {
        self.description = val.to_owned();
        self
    }

    /// Sets the dependency file.
    pub fn depfile(&mut self, val: &str) -> (r: &mut Self)
        ensures
            r@ == (RuleModel { depfile: val@, ..old(self)@ }),
            *final(self) == *final(r),
    {
        self.depfile = val.to_owned();
        self
    }

    /// Sets whether the rule generates the build file itself.
    pub fn generator(&mut self, val: bool) -> (r: &mut Self)
        ensures
            r@ == (RuleModel { generator: val, ..old(self)@ }),
            *final(self) == *final(r),
    {
        self.generator = val;
        self
    }

    /// Sets the pool.
    pub fn pool(&mut self, val: &str) -> (r: &mut Self)
        ensures
            r@ == (RuleModel { pool: val@, ..old(self)@ }),
            *final(self) == *final(r),
    {
        self.pool = val.to_owned();
        self
    }

    /// Sets whether outputs are stat-ed again after the command.
    pub fn restat(&mut self, val: bool) -> (r: &mut Self)
        ensures
            r@ == (RuleModel { restat: val, ..old(self)@ }),
            *final(self) == *final(r),
    {
        self.restat = val;
        self
    }

    /// Sets the response file.
    pub fn rspfile(&mut self, val: &str) -> (r: &mut Self)
        ensures
            r@ == (RuleModel { rspfile: val@, ..old(self)@ }),
            *final(self) == *final(r),
    {
        self.rspfile = val.to_owned();
        self
    }

    /// Sets what the response file holds.
    pub fn rspfile_content(&mut self, val: &str) -> (r: &mut Self)
        ensures
            r@ == (RuleModel { rspfile_content: val@, ..old(self)@ }),
            *final(self) == *final(r),
    {
        self.rspfile_content = val.to_owned();
        self
    }

    /// Sets the dependency format.
    pub fn deps(&mut self, val: &str) -> (r: &mut Self)
        ensures
            r@ == (RuleModel { deps: val@, ..old(self)@ }),
            *final(self) == *final(r),
    {
        self.deps = val.to_owned();
        self
    }
}

} // verus!
