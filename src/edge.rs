use vstd::prelude::*;
use crate::text::{str_views, to_vec_string, views};

verus! {

/// The views of key/value pairs of string slices.
pub open spec fn pair_views(v: Seq<(&str, &str)>) -> Seq<(Seq<char>, Seq<char>)> {
    v.map_values(|p: (&str, &str)| (p.0@, p.1@))
}

/// The views of key/value pairs of strings.
pub open spec fn owned_pair_views(v: Seq<(String, String)>) -> Seq<(Seq<char>, Seq<char>)> {
    v.map_values(|p: (String, String)| (p.0@, p.1@))
}

/// No key occurs twice.
pub open spec fn keys_unique(v: Seq<(Seq<char>, Seq<char>)>) -> bool {
    forall|i: int, j: int| 0 <= i < j < v.len() ==> v[i].0 != v[j].0
}

/// What a build edge holds: its outputs, the rule that makes them, its inputs
/// of each kind, its pool and dynamic dependency file (empty when unset) and
/// the variables it overrides, in the order given.
pub struct BuildModel {
    pub outputs: Seq<Seq<char>>,
    pub rule: Seq<char>,
    pub inputs: Seq<Seq<char>>,
    pub implicit: Seq<Seq<char>>,
    pub order_only: Seq<Seq<char>>,
    pub variables: Seq<(Seq<char>, Seq<char>)>,
    pub implicit_outputs: Seq<Seq<char>>,
    pub pool: Seq<char>,
    pub dyndep: Seq<char>,
}

/// One build statement: outputs, a rule, inputs and variable overrides.
pub struct NinjaBuild {
    pub(crate) outputs: Vec<String>,
    pub(crate) rule: String,
    pub(crate) inputs: Vec<String>,
    pub(crate) implicit: Vec<String>,
    pub(crate) order_only: Vec<String>,
    pub(crate) variables: Vec<(String, String)>,
    pub(crate) implicit_outputs: Vec<String>,
    pub(crate) pool: String,
    pub(crate) dyndep: String,
}

impl View for NinjaBuild {
    type V = BuildModel;

    open(crate) spec fn view(&self) -> BuildModel {
        BuildModel {
            outputs: views(self.outputs@),
            rule: self.rule@,
            inputs: views(self.inputs@),
            implicit: views(self.implicit@),
            order_only: views(self.order_only@),
            variables: owned_pair_views(self.variables@),
            implicit_outputs: views(self.implicit_outputs@),
            pool: self.pool@,
            dyndep: self.dyndep@,
        }
    }
}

impl NinjaBuild {
    /// A build edge is well formed when it has an output and no variable is
    /// overridden twice.
    pub open spec fn wf(&self) -> bool {
        self@.outputs.len() > 0 && keys_unique(self@.variables)
    }

    /// An edge that makes `outputs` with `rule`, with no inputs and nothing else set.
    pub fn new(outputs: &[&str], rule: &str) -> (r: Self)
        requires
            outputs@.len() > 0,
        ensures
            r.wf(),
            r@ == (BuildModel {
                outputs: str_views(outputs@),
                rule: rule@,
                inputs: Seq::empty(),
                implicit: Seq::empty(),
                order_only: Seq::empty(),
                variables: Seq::empty(),
                implicit_outputs: Seq::empty(),
                pool: Seq::empty(),
                dyndep: Seq::empty(),
            }),
    {
        let ovec = to_vec_string(outputs);
        let r = NinjaBuild {
            outputs: ovec,
            rule: rule.to_owned(),
            inputs: Vec::new(),
            implicit: Vec::new(),
            order_only: Vec::new(),
            variables: Vec::new(),
            implicit_outputs: Vec::new(),
            pool: String::new(),
            dyndep: String::new(),
        };
        assert(views(r.inputs@) =~= Seq::empty());
        assert(views(r.implicit@) =~= Seq::empty());
        assert(views(r.order_only@) =~= Seq::empty());
        assert(views(r.implicit_outputs@) =~= Seq::empty());
        assert(owned_pair_views(r.variables@) =~= Seq::empty());
        r
    }

    /// Sets the outputs.
    pub fn outputs(&mut self, outputs: &[&str]) -> (r: &mut Self)
        requires
            old(self).wf(),
            outputs@.len() > 0,
        ensures
            r.wf(),
            r@ == (BuildModel { outputs: str_views(outputs@), ..old(self)@ }),
            *final(self) == *final(r),
    {
        self.outputs = to_vec_string(outputs);
        self
    }

    /// Sets the variables that the edge overrides, replacing any set before.
    pub fn variables(&mut self, variables: &[(&str, &str)]) -> (r: &mut Self)
        requires
            old(self).wf(),
            keys_unique(pair_views(variables@)),
        ensures
            r.wf(),
            r@ == (BuildModel { variables: pair_views(variables@), ..old(self)@ }),
            *final(self) == *final(r),
    {
        let mut vars: Vec<(String, String)> = Vec::new();
        let mut i: usize = 0;
        while i < variables.len()
            invariant
                i <= variables@.len(),
                owned_pair_views(vars@) == pair_views(variables@).take(i as int),
            decreases variables@.len() - i,
        {
            let (k, v) = variables[i];
            let p = (k.to_owned(), v.to_owned());
            let ghost before = vars@;
            vars.push(p);
            assert(owned_pair_views(before.push(p)) =~= owned_pair_views(before).push((p.0@, p.1@)));
            assert(pair_views(variables@).take(i + 1) =~= pair_views(variables@).take(i as int).push(
                (p.0@, p.1@),
            ));
            i += 1;
        }
        assert(pair_views(variables@).take(i as int) =~= pair_views(variables@));
        self.variables = vars;
        self
    }

    /// Sets the rule.
    pub fn rule(&mut self, rule: &str) -> (r: &mut Self)
        requires
            old(self).wf(),
        ensures
            r.wf(),
            r@ == (BuildModel { rule: rule@, ..old(self)@ }),
            *final(self) == *final(r),
    {
        self.rule = rule.to_owned();
        self
    }

    /// Sets the explicit inputs.
    pub fn inputs(&mut self, inputs: &[&str]) -> (r: &mut Self)
        requires
            old(self).wf(),
        ensures
            r.wf(),
            r@ == (BuildModel { inputs: str_views(inputs@), ..old(self)@ }),
            *final(self) == *final(r),
    {
        self.inputs = to_vec_string(inputs);
        self
    }

    /// Sets the implicit inputs, listed after `|`.
    pub fn implicit(&mut self, implicit: &[&str]) -> (r: &mut Self)
        requires
            old(self).wf(),
        ensures
            r.wf(),
            r@ == (BuildModel { implicit: str_views(implicit@), ..old(self)@ }),
            *final(self) == *final(r),
    {
        self.implicit = to_vec_string(implicit);
        self
    }

    /// Sets the order-only inputs, listed after `||`.
    pub fn order_only(&mut self, order_only: &[&str]) -> (r: &mut Self)
        requires
            old(self).wf(),
        ensures
            r.wf(),
            r@ == (BuildModel { order_only: str_views(order_only@), ..old(self)@ }),
            *final(self) == *final(r),
    {
        self.order_only = to_vec_string(order_only);
        self
    }

    /// Sets the implicit outputs, listed after `|` among the outputs.
    pub fn implicit_outputs(&mut self, implicit_outputs: &[&str]) -> (r: &mut Self)
        requires
            old(self).wf(),
        ensures
            r.wf(),
            r@ == (BuildModel { implicit_outputs: str_views(implicit_outputs@), ..old(self)@ }),
            *final(self) == *final(r),
    {
        self.implicit_outputs = to_vec_string(implicit_outputs);
        self
    }

    /// Sets the pool.
    pub fn pool(&mut self, pool: &str) -> (r: &mut Self)
        requires
            old(self).wf(),
        ensures
            r.wf(),
            r@ == (BuildModel { pool: pool@, ..old(self)@ }),
            *final(self) == *final(r),
    {
        self.pool = pool.to_owned();
        self
    }

    /// Sets the dynamic dependency file.
    pub fn dyndep(&mut self, dyndep: &str) -> (r: &mut Self)
        requires
            old(self).wf(),
        ensures
            r.wf(),
            r@ == (BuildModel { dyndep: dyndep@, ..old(self)@ }),
            *final(self) == *final(r),
    {
        self.dyndep = dyndep.to_owned();
        self
    }
}

} // verus!
