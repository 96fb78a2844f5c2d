use vstd::prelude::*;
use vstd::string::*;

verus! {

/// What the escaping of paths turns one character into. `$` is the sigil: it
/// begins a variable reference, escapes a character and ends a wrapped line.
pub open spec fn escape_char(c: char) -> Seq<char> {
    if c == '$' {
        seq!['$', '$']
    } else if c == ' ' {
        seq!['$', ' ']
    } else if c == ':' {
        seq!['$', ':']
    } else {
        seq![c]
    }
}

/// A path with every sigil doubled and every space and colon preceded by the sigil.
pub open spec fn escape(s: Seq<char>) -> Seq<char>
    decreases s.len(),
{
    if s.len() == 0 {
        Seq::empty()
    } else {
        escape_char(s[0]) + escape(s.skip(1))
    }
}

/// Reading an escaped path back: a sigil stands for the character after it.
pub open spec fn unescape(s: Seq<char>) -> Seq<char>
    decreases s.len(),
{
    if s.len() == 0 {
        Seq::empty()
    } else if s[0] == '$' && s.len() >= 2 {
        seq![s[1]] + unescape(s.skip(2))
    } else {
        seq![s[0]] + unescape(s.skip(1))
    }
}

/// Un-escaping an escaped path gives the path back.
pub proof fn lemma_unescape_escape(s: Seq<char>)
    ensures
        unescape(escape(s)) == s,
    decreases s.len(),
{
    if s.len() > 0 {
        let e = escape(s);
        let rest = escape(s.skip(1));
        lemma_unescape_escape(s.skip(1));
        if s[0] == '$' || s[0] == ' ' || s[0] == ':' {
            assert(e.skip(2) =~= rest);
        } else {
            assert(e.skip(1) =~= rest);
        }
        assert(unescape(e) =~= s);
    }
}

/// The characters of `s`, one by one.
pub fn chars_of(s: &str) -> (r: Vec<char>)
    ensures
        r@ == s@,
{
    let n = s.unicode_len();
    let mut r: Vec<char> = Vec::new();
    let mut i: usize = 0;
    while i < n
        invariant
            n == s@.len(),
            i <= n,
            r@ == s@.take(i as int),
        decreases n - i,
    {
        r.push(s.get_char(i));
        i += 1;
        assert(r@ =~= s@.take(i as int));
    }
    assert(r@ =~= s@);
    r
}

/// Escaping a path one character further.
pub proof fn lemma_escape_push(s: Seq<char>, c: char)
    ensures
        escape(s.push(c)) == escape(s) + escape_char(c),
    decreases s.len(),
{
    if s.len() == 0 {
        let e = s.push(c).skip(1);
        assert(e.len() == 0);
        assert(escape(e) == Seq::<char>::empty());
        assert(s.push(c)[0] == c);
        assert(escape(s.push(c)) =~= escape_char(c) + escape(e));
        assert(escape(s.push(c)) =~= escape_char(c));
    } else {
        lemma_escape_push(s.skip(1), c);
        assert(s.push(c).skip(1) =~= s.skip(1).push(c));
        assert(escape(s.push(c)) =~= escape(s) + escape_char(c));
    }
}

/// `s` with its paths escaped.
pub fn escape_path(s: &str) -> (r: String)
    ensures
        r@ == escape(s@),
{
    let cs = chars_of(s);
    let mut r = String::new();
    let mut i: usize = 0;
    while i < cs.len()
        invariant
            cs@ == s@,
            i <= cs.len(),
            r@ == escape(cs@.take(i as int)),
        decreases cs.len() - i,
    {
        let c = cs[i];
        if c == '$' {
            proof { reveal_strlit("$$"); }
            r.append("$$");
        } else if c == ' ' {
            proof { reveal_strlit("$ "); }
            r.append("$ ");
        } else if c == ':' {
            proof { reveal_strlit("$:"); }
            r.append("$:");
        } else {
            r.append(s.substring_char(i, i + 1));
        }
        proof {
            lemma_escape_push(cs@.take(i as int), c);
            assert(cs@.take(i + 1) =~= cs@.take(i as int).push(c));
            assert(s@.subrange(i as int, i + 1) =~= seq![c]);
        }
        i += 1;
    }
    assert(cs@.take(i as int) =~= s@);
    r
}

/// The views of a sequence of strings.
pub open spec fn views(v: Seq<String>) -> Seq<Seq<char>> {
    v.map_values(|s: String| s@)
}

/// The views of a sequence of string slices.
pub open spec fn str_views(v: Seq<&str>) -> Seq<Seq<char>> {
    v.map_values(|s: &str| s@)
}

/// Words joined by single spaces.
pub open spec fn join(ws: Seq<Seq<char>>) -> Seq<char>
    decreases ws.len(),
{
    if ws.len() == 0 {
        Seq::empty()
    } else if ws.len() == 1 {
        ws[0]
    } else {
        join(ws.drop_last()) + seq![' '] + ws.last()
    }
}

/// Each word escaped as a path.
pub open spec fn escape_all(ws: Seq<Seq<char>>) -> Seq<Seq<char>> {
    ws.map_values(|w: Seq<char>| escape(w))
}

/// The decimal digit `d`.
pub open spec fn digit(d: nat) -> char {
    seq!['0', '1', '2', '3', '4', '5', '6', '7', '8', '9'][d as int]
}

/// `n` written in decimal, without leading zeros.
pub open spec fn decimal(n: nat) -> Seq<char>
    decreases n,
{
    if n < 10 {
        seq![digit(n)]
    } else {
        decimal(n / 10) + seq![digit(n % 10)]
    }
}

/// Owned copies of string slices.
pub fn to_vec_string(in_vec: &[&str]) -> (r: Vec<String>)
    ensures
        views(r@) == str_views(in_vec@),
{
    let mut r: Vec<String> = Vec::new();
    let mut i: usize = 0;
    while i < in_vec.len()
        invariant
            i <= in_vec@.len(),
            views(r@) == str_views(in_vec@).take(i as int),
        decreases in_vec@.len() - i,
    {
        let s: &str = in_vec[i];
        let o = s.to_owned();
        let ghost before = r@;
        r.push(o);
        assert(r@ == before.push(o));
        assert(o@ == str_views(in_vec@)[i as int]);
        assert(views(before.push(o)) =~= views(before).push(o@));
        assert(str_views(in_vec@).take(i + 1) =~= str_views(in_vec@).take(i as int).push(o@));
        i += 1;
        assert(views(r@) =~= str_views(in_vec@).take(i as int));
    }
    assert(str_views(in_vec@).take(i as int) =~= str_views(in_vec@));
    r
}

/// The strings of `v` joined by single spaces.
pub fn join_strings(v: &Vec<String>) -> (r: String)
    ensures
        r@ == join(views(v@)),
{
    let mut r = String::new();
    let mut i: usize = 0;
    while i < v.len()
        invariant
            i <= v@.len(),
            r@ == join(views(v@).take(i as int)),
        decreases v@.len() - i,
    {
        let ghost ws = views(v@).take(i + 1);
        assert(ws.drop_last() =~= views(v@).take(i as int));
        if i > 0 {
            proof { reveal_strlit(" "); }
            r.append(" ");
        } else {
            assert(views(v@).take(0) =~= Seq::<Seq<char>>::empty());
        }
        r.append(v[i].as_str());
        i += 1;
        assert(r@ =~= join(views(v@).take(i as int)));
    }
    assert(views(v@).take(i as int) =~= views(v@));
    r
}

/// Escapes each string of `ws` as a path and adds it to `toks`.
pub fn push_escaped_all(toks: &mut Vec<String>, ws: &Vec<String>)
    ensures
        views(final(toks)@) == views(old(toks)@) + escape_all(views(ws@)),
{
    let mut i: usize = 0;
    while i < ws.len()
        invariant
            i <= ws@.len(),
            views(toks@) == views(old(toks)@) + escape_all(views(ws@)).take(i as int),
        decreases ws@.len() - i,
    {
        let e = escape_path(ws[i].as_str());
        let ghost before = toks@;
        toks.push(e);
        assert(toks@ == before.push(e));
        assert(e@ == escape_all(views(ws@))[i as int]);
        assert(views(before.push(e)) =~= views(before).push(e@));
        assert(escape_all(views(ws@)).take(i + 1) =~= escape_all(views(ws@)).take(i as int).push(e@));
        i += 1;
        assert(views(toks@) =~= views(old(toks)@) + escape_all(views(ws@)).take(i as int));
    }
    assert(escape_all(views(ws@)).take(i as int) =~= escape_all(views(ws@)));
}

/// Appends the decimal digit `d`.
fn push_digit(buf: &mut String, d: u8)
    requires
        d < 10,
    ensures
        final(buf)@ == old(buf)@ + seq![digit(d as nat)],
{
    let s: &str = if d == 0 {
        "0"
    } else if d == 1 {
        "1"
    } else if d == 2 {
        "2"
    } else if d == 3 {
        "3"
    } else if d == 4 {
        "4"
    } else if d == 5 {
        "5"
    } else if d == 6 {
        "6"
    } else if d == 7 {
        "7"
    } else if d == 8 {
        "8"
    } else {
        "9"
    };
    proof {
        reveal_strlit("0");
        reveal_strlit("1");
        reveal_strlit("2");
        reveal_strlit("3");
        reveal_strlit("4");
        reveal_strlit("5");
        reveal_strlit("6");
        reveal_strlit("7");
        reveal_strlit("8");
        reveal_strlit("9");
        assert(s@ =~= seq![digit(d as nat)]);
    }
    buf.append(s);
}

/// Appends `n` in decimal.
pub fn push_decimal(buf: &mut String, n: u8)
    ensures
        final(buf)@ == old(buf)@ + decimal(n as nat),
{
    if n >= 100 {
        push_digit(buf, n / 100);
    }
    if n >= 10 {
        push_digit(buf, (n / 10) % 10);
    }
    push_digit(buf, n % 10);
    proof {
        let m = n as nat;
        if m >= 100 {
            assert(decimal(m / 100 / 1) == seq![digit(m / 100)]);
            assert(m / 10 / 10 == m / 100);
            assert(decimal(m / 10) == decimal(m / 100) + seq![digit((m / 10) % 10)]);
        } else if m >= 10 {
            assert(decimal(m / 10) == seq![digit(m / 10)]);
        }
    }
}

} // verus!
