use vstd::prelude::*;
use vstd::string::*;
use crate::text::chars_of;

verus! {

/// The column at which lines are wrapped.
pub const WIDTH: usize = 78;

/// How many sigils (`$`, the character that begins a variable reference) `s` holds.
pub open spec fn count_sigils(s: Seq<char>) -> nat
    decreases s.len(),
{
    if s.len() == 0 {
        0
    } else {
        count_sigils(s.drop_last()) + if s.last() == '$' { 1nat } else { 0nat }
    }
}

/// A space at `i` that a line may be broken at: the text before it holds an
/// even number of sigils, so the break falls outside any variable reference.
pub open spec fn is_break(t: Seq<char>, i: int) -> bool {
    0 <= i < t.len() && t[i] == ' ' && count_sigils(t.take(i)) % 2 == 0
}

/// The rightmost break before index `k`, or -1.
pub open spec fn last_break_below(t: Seq<char>, k: int) -> int
    decreases k,
{
    if k <= 0 {
        -1
    } else if is_break(t, k - 1) {
        k - 1
    } else {
        last_break_below(t, k - 1)
    }
}

/// The leftmost break at index `k` or after it, or -1.
pub open spec fn first_break_from(t: Seq<char>, k: int) -> int
    decreases t.len() - k,
{
    if k < 0 || k >= t.len() {
        -1
    } else if is_break(t, k) {
        k
    } else {
        first_break_from(t, k + 1)
    }
}

/// The columns that text may fill on a line indented by `lead` spaces, two being
/// kept for the continuation marker.
pub open spec fn avail(lead: nat) -> int {
    if lead + 2 >= WIDTH {
        0
    } else {
        WIDTH - lead - 2
    }
}

/// Where text that does not fit on a line indented by `lead` is broken: the
/// rightmost break within the available columns, else the leftmost one after
/// them, else -1.
pub open spec fn split_point(t: Seq<char>, lead: nat) -> int {
    let b = last_break_below(t, avail(lead));
    if b >= 0 {
        b
    } else {
        first_break_from(t, avail(lead))
    }
}

/// `n` spaces.
pub open spec fn spaces(n: nat) -> Seq<char> {
    Seq::new(n, |i: int| ' ')
}

/// The physical lines, without their line ends, that text `t` becomes when its
/// first line is indented by `lead` spaces and each continuation line by `cont`.
#[verifier::opaque]
pub open spec fn wrap_lines(t: Seq<char>, lead: nat, cont: nat) -> Seq<Seq<char>>
    decreases t.len(),
{
    if lead + t.len() <= WIDTH {
        seq![spaces(lead) + t]
    } else {
        let i = split_point(t, lead);
        if 0 <= i < t.len() {
            seq![spaces(lead) + t.take(i) + seq![' ', '$']] + wrap_lines(t.skip(i + 1), cont, cont)
        } else {
            seq![spaces(lead) + t]
        }
    }
}

/// Lines, each ended by a newline.
#[verifier::opaque]
pub open spec fn text_of(ls: Seq<Seq<char>>) -> Seq<char>
    decreases ls.len(),
{
    if ls.len() == 0 {
        Seq::empty()
    } else {
        ls[0] + seq!['\n'] + text_of(ls.skip(1))
    }
}

/// The lines of a statement at indentation level `indent`: two spaces per level,
/// continuation lines two levels deeper.
pub open spec fn statement_lines(t: Seq<char>, indent: nat) -> Seq<Seq<char>> {
    wrap_lines(t, 2 * indent, 2 * indent + 4)
}

/// The text of a statement at indentation level `indent`.
pub open spec fn wrapped(t: Seq<char>, indent: nat) -> Seq<char> {
    text_of(statement_lines(t, indent))
}

proof fn lemma_last_break_below(t: Seq<char>, k: int)
    ensures
        -1 <= last_break_below(t, k) < k || (k <= 0 && last_break_below(t, k) == -1),
        last_break_below(t, k) >= 0 ==> is_break(t, last_break_below(t, k)),
    decreases k,
{
    if k > 0 && !is_break(t, k - 1) {
        lemma_last_break_below(t, k - 1);
    }
}

proof fn lemma_first_break_from(t: Seq<char>, k: int)
    ensures
        first_break_from(t, k) == -1 || (k <= first_break_from(t, k) < t.len()),
        first_break_from(t, k) >= 0 ==> is_break(t, first_break_from(t, k)),
    decreases t.len() - k,
{
    if 0 <= k < t.len() && !is_break(t, k) {
        lemma_first_break_from(t, k + 1);
    }
}

/// The number of sigils among `t[from..to]`.
fn sigils_between(t: &Vec<char>, from: usize, to: usize) -> (r: usize)
    requires
        from <= to <= t.len(),
    ensures
        r == count_sigils(t@.subrange(from as int, to as int)),
{
    let mut r: usize = 0;
    let mut j: usize = from;
    while j < to
        invariant
            from <= j <= to <= t.len(),
            r == count_sigils(t@.subrange(from as int, j as int)),
            r <= j - from,
        decreases to - j,
    {
        assert(t@.subrange(from as int, j + 1).drop_last() =~= t@.subrange(from as int, j as int));
        if t[j] == '$' {
            r += 1;
        }
        j += 1;
    }
    r
}

/// Whether `t[pos + i]` is a break of the text that starts at `pos`.
fn break_at(t: &Vec<char>, pos: usize, i: usize) -> (r: bool)
    requires
        pos + i < t.len(),
    ensures
        r == is_break(t@.skip(pos as int), i as int),
{
    assert(t@.skip(pos as int).take(i as int) =~= t@.subrange(pos as int, (pos + i) as int));
    t[pos + i] == ' ' && sigils_between(t, pos, pos + i) % 2 == 0
}

/// Where the text that starts at `pos` is broken on a line indented by `lead`.
fn find_split(t: &Vec<char>, pos: usize, lead: usize) -> (r: Option<usize>)
    requires
        pos <= t.len(),
        lead <= 1000,
        lead + (t.len() - pos) > WIDTH,
    ensures
        match r {
            Some(i) => i == split_point(t@.skip(pos as int), lead as nat) && pos + i < t.len(),
            None => split_point(t@.skip(pos as int), lead as nat) < 0,
        },
{
    let ghost rest = t@.skip(pos as int);
    let n = t.len() - pos;
    let a: usize = if lead + 2 >= WIDTH { 0 } else { WIDTH - lead - 2 };
    assert(a as int == avail(lead as nat));
    let mut k: usize = a;
    while k > 0
        invariant
            k <= a <= n,
            rest.len() == n,
            a as int == avail(lead as nat),
            pos + n == t.len(),
            rest == t@.skip(pos as int),
            last_break_below(rest, a as int) == last_break_below(rest, k as int),
        decreases k,
    {
        if break_at(t, pos, k - 1) {
            assert(last_break_below(rest, k as int) == k - 1);
            assert(split_point(rest, lead as nat) == k - 1);
            return Some(k - 1);
        }
        k -= 1;
    }
    assert(last_break_below(rest, 0) == -1);
    let mut j: usize = a;
    while j < n
        invariant
            a <= j <= n,
            pos + n == t.len(),
            rest == t@.skip(pos as int),
            last_break_below(rest, a as int) == -1,
            rest.len() == n,
            a as int == avail(lead as nat),
            first_break_from(rest, a as int) == first_break_from(rest, j as int),
        decreases n - j,
    {
        if break_at(t, pos, j) {
            assert(first_break_from(rest, j as int) == j);
            assert(split_point(rest, lead as nat) == j);
            return Some(j);
        }
        j += 1;
    }
    assert(first_break_from(rest, n as int) == -1);
    None
}

/// Appends `n` spaces.
fn push_spaces(buf: &mut String, n: usize)
    ensures
        final(buf)@ == old(buf)@ + spaces(n as nat),
{
    let mut i: usize = 0;
    while i < n
        invariant
            i <= n,
            buf@ == old(buf)@ + spaces(i as nat),
        decreases n - i,
    {
        proof { reveal_strlit(" "); }
        buf.append(" ");
        i += 1;
        assert(buf@ =~= old(buf)@ + spaces(i as nat));
    }
}

/// Appends the statement `t` at indentation level `indent`, wrapped at
/// [`WIDTH`] columns with ` $` continuation markers.
#[verifier::rlimit(40)]
pub fn push_wrapped(buf: &mut String, t: &str, indent: u8)
    ensures
        final(buf)@ == old(buf)@ + wrapped(t@, indent as nat),
{
    let cs = chars_of(t);
    let n = cs.len();
    let cont: usize = 2 * (indent as usize) + 4;
    let mut lead: usize = 2 * (indent as usize);
    let mut pos: usize = 0;
    assert(cs@.skip(0) =~= t@);
    while lead > WIDTH || n - pos > WIDTH - lead
        invariant
            cs@ == t@,
            n == cs.len(),
            pos <= n,
            cont == 2 * (indent as usize) + 4,
            lead == 2 * (indent as usize) || lead == cont,
            old(buf)@ + wrapped(t@, indent as nat) == buf@ + text_of(
                wrap_lines(cs@.skip(pos as int), lead as nat, cont as nat),
            ),
        ensures
            pos <= n,
            lead == 2 * (indent as usize) || lead == cont,
            old(buf)@ + wrapped(t@, indent as nat) == buf@ + text_of(
                wrap_lines(cs@.skip(pos as int), lead as nat, cont as nat),
            ),
            lead + (n - pos) <= WIDTH || split_point(cs@.skip(pos as int), lead as nat) < 0,
        decreases n - pos,
    {
        let ghost rest = cs@.skip(pos as int);
        match find_split(&cs, pos, lead) {
            None => {
                break;
            },
            Some(i) => {
                let ghost before = buf@;
                push_spaces(buf, lead);
                buf.append(t.substring_char(pos, pos + i));
                proof { reveal_strlit(" $\n"); }
                buf.append(" $\n");
                proof {
                    lemma_text_of_split(rest, lead as nat, cont as nat, i as int);
                    assert(rest.take(i as int) =~= t@.subrange(pos as int, pos + i));
                    assert(rest.skip(i + 1) =~= cs@.skip(pos + i + 1));
                    let line = spaces(lead as nat) + rest.take(i as int) + seq![' ', '$'];
                    let later = text_of(wrap_lines(cs@.skip(pos + i + 1), cont as nat, cont as nat));
                    assert(buf@ =~= before + line + seq!['\n']);
                    assert(before + (line + seq!['\n'] + later) =~= buf@ + later);
                }
                pos = pos + i + 1;
                lead = cont;
            },
        }
    }
    let ghost rest = cs@.skip(pos as int);
    let ghost before = buf@;
    push_spaces(buf, lead);
    buf.append(t.substring_char(pos, n));
    proof { reveal_strlit("\n"); }
    buf.append("\n");
    proof {
        lemma_text_of_last(rest, lead as nat, cont as nat);
        assert(rest =~= t@.subrange(pos as int, n as int));
        assert(buf@ =~= before + (spaces(lead as nat) + rest) + seq!['\n']);
    }
}

proof fn lemma_text_of_split(t: Seq<char>, lead: nat, cont: nat, i: int)
    requires
        lead + t.len() > WIDTH,
        i == split_point(t, lead),
        0 <= i < t.len(),
    ensures
        text_of(wrap_lines(t, lead, cont)) == (spaces(lead) + t.take(i) + seq![' ', '$']) + seq!['\n']
            + text_of(wrap_lines(t.skip(i + 1), cont, cont)),
{
    reveal(wrap_lines);
    reveal(text_of);
    let line = spaces(lead) + t.take(i) + seq![' ', '$'];
    let later = wrap_lines(t.skip(i + 1), cont, cont);
    assert(wrap_lines(t, lead, cont) == seq![line] + later);
    assert((seq![line] + later).skip(1) =~= later);
    assert((seq![line] + later)[0] == line);
}

proof fn lemma_text_of_last(t: Seq<char>, lead: nat, cont: nat)
    requires
        lead + t.len() <= WIDTH || split_point(t, lead) < 0,
    ensures
        text_of(wrap_lines(t, lead, cont)) == (spaces(lead) + t) + seq!['\n'],
{
    reveal(wrap_lines);
    reveal(text_of);
    let line = spaces(lead) + t;
    assert(wrap_lines(t, lead, cont) == seq![line]);
    assert(seq![line].skip(1) =~= Seq::<Seq<char>>::empty());
    assert(text_of(Seq::<Seq<char>>::empty()) == Seq::<char>::empty());
    assert(text_of(seq![line]) =~= line + seq!['\n']);
}

/// A wrapped line that is not the last ends with the continuation marker ` $`.
pub open spec fn ends_with_marker(l: Seq<char>) -> bool {
    l.len() >= 2 && l[l.len() - 2] == ' ' && l[l.len() - 1] == '$'
}

/// No column of `l` from its indentation `ind` up to the reserved margin holds a
/// break: a line that has none could not have been broken within the width.
pub open spec fn no_break_before_margin(l: Seq<char>, ind: nat) -> bool {
    forall|p: int|
        ind <= p < WIDTH - 2 && p < l.len() ==> !(#[trigger] l[p] == ' ' && count_sigils(l.take(p)) % 2
            == 0)
}

proof fn lemma_count_concat(a: Seq<char>, b: Seq<char>)
    ensures
        count_sigils(a + b) == count_sigils(a) + count_sigils(b),
    decreases b.len(),
{
    if b.len() == 0 {
        assert(a + b =~= a);
    } else {
        lemma_count_concat(a, b.drop_last());
        assert((a + b).drop_last() =~= a + b.drop_last());
    }
}

proof fn lemma_count_spaces(n: nat)
    ensures
        count_sigils(spaces(n)) == 0,
    decreases n,
{
    if n > 0 {
        lemma_count_spaces((n - 1) as nat);
        assert(spaces(n).drop_last() =~= spaces((n - 1) as nat));
    }
}

proof fn lemma_no_break_below(t: Seq<char>, k: int)
    requires
        last_break_below(t, k) == -1,
    ensures
        forall|j: int| 0 <= j < k ==> !is_break(t, j),
    decreases k,
{
    if k > 0 {
        lemma_no_break_below(t, k - 1);
    }
}

/// Line `l` is `lead` spaces followed by `body`, and no break of `t` comes before
/// `avail(lead)`: then `l` has no break before the margin.
proof fn lemma_unbreakable_line(t: Seq<char>, lead: nat, body: Seq<char>, l: Seq<char>)
    requires
        last_break_below(t, avail(lead)) == -1,
        l == spaces(lead) + body,
        forall|j: int|
            0 <= j < body.len() && j < avail(lead) ==> j < t.len() && #[trigger] body[j] == t[j],
    ensures
        no_break_before_margin(l, lead),
{
    lemma_no_break_below(t, avail(lead));
    lemma_count_spaces(lead);
    assert forall|p: int| lead <= p < WIDTH - 2 && p < l.len() implies !(#[trigger] l[p] == ' '
        && count_sigils(l.take(p)) % 2 == 0) by {
        let j = p - lead;
        assert(j < avail(lead));
        assert(l[p] == body[j]);
        assert(body.take(j) =~= t.take(j));
        assert(l.take(p) =~= spaces(lead) + body.take(j));
        lemma_count_concat(spaces(lead), body.take(j));
        assert(!is_break(t, j));
    }
}

proof fn lemma_wrap_shape(t: Seq<char>, lead: nat, cont: nat)
    ensures
        wrap_lines(t, lead, cont).len() >= 1,
        forall|k: int|
            0 <= k < wrap_lines(t, lead, cont).len() - 1 ==> {
                let l = #[trigger] wrap_lines(t, lead, cont)[k];
                &&& ends_with_marker(l)
                &&& count_sigils(l.take(l.len() - 2)) % 2 == 0
            },
        forall|k: int|
            0 <= k < wrap_lines(t, lead, cont).len() ==> {
                let l = #[trigger] wrap_lines(t, lead, cont)[k];
                l.len() <= WIDTH || no_break_before_margin(l, if k == 0 { lead } else { cont })
            },
    decreases t.len(),
{
    reveal(wrap_lines);
    let ls = wrap_lines(t, lead, cont);
    if lead + t.len() <= WIDTH {
        assert(ls == seq![spaces(lead) + t]);
    } else {
        let i = split_point(t, lead);
        lemma_last_break_below(t, avail(lead));
        lemma_first_break_from(t, avail(lead));
        if 0 <= i < t.len() {
            let first = spaces(lead) + t.take(i) + seq![' ', '$'];
            let later = wrap_lines(t.skip(i + 1), cont, cont);
            lemma_wrap_shape(t.skip(i + 1), cont, cont);
            assert(ls == seq![first] + later);
            assert(is_break(t, i));
            assert(first.take(first.len() - 2) =~= spaces(lead) + t.take(i));
            lemma_count_concat(spaces(lead), t.take(i));
            lemma_count_spaces(lead);
            if last_break_below(t, avail(lead)) < 0 {
                let body = t.take(i) + seq![' ', '$'];
                assert(first =~= spaces(lead) + body);
                lemma_unbreakable_line(t, lead, body, first);
            }
            assert forall|k: int| 0 <= k < ls.len() - 1 implies {
                let l = #[trigger] ls[k];
                &&& ends_with_marker(l)
                &&& count_sigils(l.take(l.len() - 2)) % 2 == 0
            } by {
                if k > 0 {
                    assert(ls[k] == later[k - 1]);
                }
            }
            assert forall|k: int| 0 <= k < ls.len() implies {
                let l = #[trigger] ls[k];
                l.len() <= WIDTH || no_break_before_margin(l, if k == 0 { lead } else { cont })
            } by {
                if k > 0 {
                    assert(ls[k] == later[k - 1]);
                }
            }
        } else {
            let l = spaces(lead) + t;
            assert(ls == seq![l]);
            lemma_unbreakable_line(t, lead, t, l);
        }
    }
}

/// Each physical line of a wrapped statement fits in [`WIDTH`] columns, unless
/// no break could be placed on it within the width; every line but the last
/// ends with the continuation marker.
pub proof fn lemma_lines_fit_width(t: Seq<char>, indent: nat)
    ensures
        forall|k: int|
            0 <= k < statement_lines(t, indent).len() ==> {
                let l = #[trigger] statement_lines(t, indent)[k];
                l.len() <= WIDTH || no_break_before_margin(
                    l,
                    if k == 0 { 2 * indent } else { 2 * indent + 4 },
                )
            },
        forall|k: int|
            0 <= k < statement_lines(t, indent).len() - 1 ==> ends_with_marker(
                #[trigger] statement_lines(t, indent)[k],
            ),
{
    lemma_wrap_shape(t, 2 * indent, 2 * indent + 4);
}

/// A statement is never broken inside a variable reference: the text of each
/// line before its continuation marker holds an even number of sigils.
pub proof fn lemma_breaks_outside_references(t: Seq<char>, indent: nat)
    ensures
        forall|k: int|
            0 <= k < statement_lines(t, indent).len() - 1 ==> {
                let l = #[trigger] statement_lines(t, indent)[k];
                &&& ends_with_marker(l)
                &&& count_sigils(l.take(l.len() - 2)) % 2 == 0
            },
{
    lemma_wrap_shape(t, 2 * indent, 2 * indent + 4);
}

} // verus!
