use vstd::prelude::*;
use vstd::string::*;
use std::path::{Path, PathBuf};
use crate::edge::{BuildModel, NinjaBuild};
use crate::rule::{NinjaRule, RuleModel};
use crate::text::{decimal, escape_all, join, push_decimal, push_escaped_all, str_views, to_vec_string, join_strings, views};
use crate::wrap::{push_wrapped, wrapped};

verus! {

/// `std::path::Path`, the borrowed path that a writer is created with; carried
/// through unread.
#[verifier::external_type_specification]
#[verifier::external_body]
pub struct ExPath(Path);

/// `std::path::PathBuf`, the owned path that a writer keeps; carried through unread.
#[verifier::external_type_specification]
#[verifier::external_body]
pub struct ExPathBuf(PathBuf);

/// Relies on `Path::to_path_buf`, which copies the path; nothing about the
/// copy is used.
pub assume_specification[ Path::to_path_buf ](p: &Path) -> PathBuf;

/// `key = value`.
pub open spec fn assignment(key: Seq<char>, value: Seq<char>) -> Seq<char> {
    key + seq![' ', '=', ' '] + value
}

/// The text of a comment.
pub open spec fn comment_text(c: Seq<char>) -> Seq<char> {
    seq!['#', ' '] + c + seq!['\n']
}

/// The text of a variable at indentation level `indent`.
pub open spec fn variable_text(key: Seq<char>, value: Seq<char>, indent: nat) -> Seq<char> {
    wrapped(assignment(key, value), indent)
}

/// The text of a pool: its name line and its depth beneath it.
pub open spec fn pool_text(name: Seq<char>, depth: nat) -> Seq<char> {
    seq!['p', 'o', 'o', 'l', ' '] + name + seq!['\n'] + variable_text(
        seq!['d', 'e', 'p', 't', 'h'],
        decimal(depth),
        1,
    )
}

/// An attribute line at indentation level 1, or nothing when `value` is empty.
pub open spec fn optional_text(key: Seq<char>, value: Seq<char>) -> Seq<char> {
    if value.len() == 0 {
        Seq::empty()
    } else {
        variable_text(key, value, 1)
    }
}

/// The line `key = 1` at indentation level 1 when `flag` is set, else nothing.
pub open spec fn flag_text(key: Seq<char>, flag: bool) -> Seq<char> {
    if flag {
        variable_text(key, seq!['1'], 1)
    } else {
        Seq::empty()
    }
}

/// The text of a rule: its name line, its command, then each attribute that is
/// set, in a fixed order.
pub open spec fn rule_text(r: RuleModel) -> Seq<char> {
    wrapped(seq!['r', 'u', 'l', 'e', ' '] + r.name, 0)
        + variable_text("command"@, r.command, 1)
        + optional_text("description"@, r.description)
        + optional_text("depfile"@, r.depfile)
        + flag_text("generator"@, r.generator)
        + optional_text("pool"@, r.pool)
        + flag_text("restat"@, r.restat)
        + optional_text("rspfile"@, r.rspfile)
        + optional_text("rspfile_content"@, r.rspfile_content)
        + optional_text("deps"@, r.deps)
}

/// The output side of a build line: the escaped outputs, then `|` and the
/// escaped implicit outputs when there are any.
pub open spec fn output_tokens(b: BuildModel) -> Seq<Seq<char>> {
    escape_all(b.outputs) + if b.implicit_outputs.len() > 0 {
        seq![seq!['|']] + escape_all(b.implicit_outputs)
    } else {
        Seq::empty()
    }
}

/// The input side of a build line: the rule, the escaped inputs, then `|` and
/// the escaped implicit inputs, then `||` and the escaped order-only inputs,
/// each of the last two only when there are any.
pub open spec fn input_tokens(b: BuildModel) -> Seq<Seq<char>> {
    seq![b.rule] + escape_all(b.inputs) + (if b.implicit.len() > 0 {
        seq![seq!['|']] + escape_all(b.implicit)
    } else {
        Seq::empty()
    }) + (if b.order_only.len() > 0 {
        seq![seq!['|', '|']] + escape_all(b.order_only)
    } else {
        Seq::empty()
    })
}

/// The statement `build outputs: rule inputs`, before wrapping.
pub open spec fn build_line(b: BuildModel) -> Seq<char> {
    "build "@ + join(output_tokens(b)) + seq![':', ' '] + join(input_tokens(b))
}

/// Variable lines at indentation level 1, one per pair, in order.
pub open spec fn variables_text(vs: Seq<(Seq<char>, Seq<char>)>) -> Seq<char>
    decreases vs.len(),
{
    if vs.len() == 0 {
        Seq::empty()
    } else {
        variables_text(vs.drop_last()) + variable_text(vs.last().0, vs.last().1, 1)
    }
}

/// The text of a build edge: the wrapped build line, then its pool, its
/// dynamic dependency file and its variables, each only when set.
pub open spec fn build_text(b: BuildModel) -> Seq<char> {
    wrapped(build_line(b), 0) + optional_text("pool"@, b.pool) + optional_text("dyndep"@, b.dyndep)
        + variables_text(b.variables)
}

/// Formatting one build edge into two fresh writers leaves both holding the
/// same text, character for character.
pub proof fn lemma_build_idempotent(
    first_before: Seq<char>,
    first_after: Seq<char>,
    second_before: Seq<char>,
    second_after: Seq<char>,
    b: BuildModel,
)
    requires
        first_before.len() == 0,
        second_before.len() == 0,
        first_after == first_before + build_text(b),
        second_after == second_before + build_text(b),
    ensures
        first_after == second_after,
        first_after == build_text(b),
{
    assert(first_after =~= build_text(b));
    assert(second_after =~= build_text(b));
}

/// Formatting one rule into two fresh writers leaves both holding the same
/// text, character for character.
pub proof fn lemma_rule_idempotent(
    first_before: Seq<char>,
    first_after: Seq<char>,
    second_before: Seq<char>,
    second_after: Seq<char>,
    r: RuleModel,
)
    requires
        first_before.len() == 0,
        second_before.len() == 0,
        first_after == first_before + rule_text(r),
        second_after == second_before + rule_text(r),
    ensures
        first_after == second_after,
        first_after == rule_text(r),
{
    assert(first_after =~= rule_text(r));
    assert(second_after =~= rule_text(r));
}

/// A writer of build files: it appends statements to a text buffer, to be
/// written to its path on request.
pub struct NinjaWriter {
    file_path: PathBuf,
    buffer: String,
}

impl View for NinjaWriter {
    type V = Seq<char>;

    closed spec fn view(&self) -> Seq<char> {
        self.buffer@
    }
}

impl NinjaWriter {
    /// A writer for the file at `file_path`, with nothing written yet.
    pub fn new(file_path: &Path) -> (r: Self)
        ensures
            r@ == Seq::<char>::empty(),
    {
        NinjaWriter { file_path: file_path.to_path_buf(), buffer: String::new() }
    }

    /// The file that the text is meant for.
    pub fn file_path(&self) -> &PathBuf {
        &self.file_path
    }

    fn write_line(&mut self, line: &str)
        ensures
            final(self)@ == old(self)@ + line@ + seq!['\n'],
    {
        self.buffer.append(line);
        proof { reveal_strlit("\n"); }
        self.buffer.append("\n");
    }

    /// The text written so far.
    pub fn as_string(&self) -> (r: &str)
        ensures
            r@ == self@,
    {
        self.buffer.as_str()
    }

    /// Appends the comment line `# comment`.
    pub fn comment(&mut self, comment: &str) -> (r: &mut Self)
        ensures
            r@ == old(self)@ + comment_text(comment@),
            *final(self) == *final(r),
    {
        let mut line = String::new();
        proof { reveal_strlit("# "); }
        line.append("# ");
        line.append(comment);
        self.write_line(line.as_str());
        assert(self@ =~= old(self)@ + comment_text(comment@));
        self
    }

    /// Appends an empty line.
    pub fn newline(&mut self) -> (r: &mut Self)
        ensures
            r@ == old(self)@ + seq!['\n'],
            *final(self) == *final(r),
    {
        proof { reveal_strlit(""); }
        self.write_line("");
        assert(self@ =~= old(self)@ + seq!['\n']);
        self
    }

    /// Appends `key = value` at indentation level `indent`, wrapped.
    pub fn variable(&mut self, key: &str, value: &str, indent: u8) -> (r: &mut Self)
        ensures
            r@ == old(self)@ + variable_text(key@, value@, indent as nat),
            *final(self) == *final(r),
    {
        let mut line = String::new();
        line.append(key);
        proof { reveal_strlit(" = "); }
        line.append(" = ");
        line.append(value);
        assert(line@ =~= assignment(key@, value@));
        push_wrapped(&mut self.buffer, line.as_str(), indent);
        self
    }

    /// Appends `key = ` and the values joined by spaces, at indentation level
    /// `indent`, wrapped.
    pub fn variable_list(&mut self, key: &str, value: &[&str], indent: u8) -> (r: &mut Self)
        ensures
            r@ == old(self)@ + variable_text(key@, join(str_views(value@)), indent as nat),
            *final(self) == *final(r),
    {
        let value_str = join_strings(&to_vec_string(value));
        self.variable(key, value_str.as_str(), indent)
    }

    /// Appends `pool name` and the pool's depth.
    pub fn pool(&mut self, name: &str, depth: u8) -> (r: &mut Self)
        ensures
            r@ == old(self)@ + pool_text(name@, depth as nat),
            *final(self) == *final(r),
    {
        let mut line = String::new();
        proof { reveal_strlit("pool "); }
        line.append("pool ");
        line.append(name);
        assert(line@ =~= seq!['p', 'o', 'o', 'l', ' '] + name@);
        let ghost mid = self@;
        self.write_line(line.as_str());
        let mut d = String::new();
        push_decimal(&mut d, depth);
        proof { reveal_strlit("depth"); }
        assert("depth"@ =~= seq!['d', 'e', 'p', 't', 'h']);
        self.variable("depth", d.as_str(), 1);
        assert(self@ =~= old(self)@ + pool_text(name@, depth as nat));
        self
    }


    fn optional_variable(&mut self, key: &str, value: &String)
        ensures
            final(self)@ == old(self)@ + optional_text(key@, value@),
    {
        if !value.as_str().is_empty() {
            self.variable(key, value.as_str(), 1);
        } else {
            assert(self@ =~= old(self)@ + optional_text(key@, value@));
        }
    }

    fn flag_variable(&mut self, key: &str, flag: bool)
        ensures
            final(self)@ == old(self)@ + flag_text(key@, flag),
    {
        if flag {
            proof { reveal_strlit("1"); }
            assert("1"@ =~= seq!['1']);
            self.variable(key, "1", 1);
        } else {
            assert(self@ =~= old(self)@ + flag_text(key@, flag));
        }
    }

    /// Appends a rule: `rule name`, then its attributes one per line.
    pub fn rule(&mut self, rule: &NinjaRule) -> (r: &mut Self)
        ensures
            r@ == old(self)@ + rule_text(rule@),
            *final(self) == *final(r),
    {
        let mut line = String::new();
        proof { reveal_strlit("rule "); }
        line.append("rule ");
        line.append(rule.name.as_str());
        assert(line@ =~= seq!['r', 'u', 'l', 'e', ' '] + rule@.name);
        push_wrapped(&mut self.buffer, line.as_str(), 0);
        let ghost s0 = self@;
        self.variable("command", rule.command.as_str(), 1);
        let ghost s1 = self@;
        self.optional_variable("description", &rule.description);
        let ghost s2 = self@;
        self.optional_variable("depfile", &rule.depfile);
        let ghost s3 = self@;
        self.flag_variable("generator", rule.generator);
        let ghost s4 = self@;
        self.optional_variable("pool", &rule.pool);
        let ghost s5 = self@;
        self.flag_variable("restat", rule.restat);
        let ghost s6 = self@;
        self.optional_variable("rspfile", &rule.rspfile);
        let ghost s7 = self@;
        self.optional_variable("rspfile_content", &rule.rspfile_content);
        let ghost s8 = self@;
        self.optional_variable("deps", &rule.deps);
        assert(self@ =~= old(self)@ + rule_text(rule@));
        self
    }

    fn push_token(toks: &mut Vec<String>, tok: &str)
        ensures
            views(final(toks)@) == views(old(toks)@).push(tok@),
    {
        let t = tok.to_owned();
        toks.push(t);
        assert(views(toks@) =~= views(old(toks)@).push(tok@));
    }

    /// Appends a build edge: the build line, wrapped, then its attributes and
    /// variables one per line.
    pub fn build(&mut self, build: &NinjaBuild) -> (r: &mut Self)
        requires
            build.wf(),
        ensures
            r@ == old(self)@ + build_text(build@),
            *final(self) == *final(r),
    {
        let ghost b = build@;
        let mut outs: Vec<String> = Vec::new();
        push_escaped_all(&mut outs, &build.outputs);
        assert(views(outs@) =~= escape_all(b.outputs));
        if build.implicit_outputs.len() > 0 {
            proof {
                reveal_strlit("|");
                assert("|"@ =~= seq!['|']);
            }
            Self::push_token(&mut outs, "|");
            push_escaped_all(&mut outs, &build.implicit_outputs);
            assert(views(outs@) =~= output_tokens(b));
        } else {
            assert(views(outs@) =~= output_tokens(b));
        }
        let mut ins: Vec<String> = Vec::new();
        Self::push_token(&mut ins, build.rule.as_str());
        push_escaped_all(&mut ins, &build.inputs);
        let ghost i1 = views(ins@);
        assert(i1 =~= seq![b.rule] + escape_all(b.inputs));
        if build.implicit.len() > 0 {
            proof {
                reveal_strlit("|");
                assert("|"@ =~= seq!['|']);
            }
            Self::push_token(&mut ins, "|");
            push_escaped_all(&mut ins, &build.implicit);
        }
        let ghost i2 = views(ins@);
        assert(i2 =~= i1 + (if b.implicit.len() > 0 {
            seq![seq!['|']] + escape_all(b.implicit)
        } else {
            Seq::empty()
        }));
        if build.order_only.len() > 0 {
            proof {
                reveal_strlit("||");
                assert("||"@ =~= seq!['|', '|']);
            }
            Self::push_token(&mut ins, "||");
            push_escaped_all(&mut ins, &build.order_only);
        }
        assert(views(ins@) =~= input_tokens(b));
        let mut line = String::new();
        line.append("build ");
        line.append(join_strings(&outs).as_str());
        proof { reveal_strlit(": "); }
        line.append(": ");
        line.append(join_strings(&ins).as_str());
        assert(line@ =~= build_line(b));
        push_wrapped(&mut self.buffer, line.as_str(), 0);
        self.optional_variable("pool", &build.pool);
        self.optional_variable("dyndep", &build.dyndep);
        let ghost head = self@;
        let mut i: usize = 0;
        while i < build.variables.len()
            invariant
                i <= build.variables@.len(),
                b == build@,
                head == old(self)@ + wrapped(build_line(b), 0) + optional_text("pool"@, b.pool)
                    + optional_text("dyndep"@, b.dyndep),
                self@ == head + variables_text(b.variables.take(i as int)),
            decreases build.variables@.len() - i,
        {
            let (key, value) = (&build.variables[i].0, &build.variables[i].1);
            self.variable(key.as_str(), value.as_str(), 1);
            i += 1;
            assert(b.variables.take(i as int).drop_last() =~= b.variables.take(i - 1));
            assert(self@ =~= head + variables_text(b.variables.take(i as int)));
        }
        assert(b.variables.take(i as int) =~= b.variables);
        assert(self@ =~= old(self)@ + build_text(b));
        self
    }
}

} // verus!
