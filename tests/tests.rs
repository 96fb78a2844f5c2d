use ninja_syntax::edge::NinjaBuild;
use ninja_syntax::rule::NinjaRule;
use ninja_syntax::text::escape_path;
use ninja_syntax::writer::NinjaWriter;
use std::path::Path;

fn nw() -> NinjaWriter {
    NinjaWriter::new(Path::new(":memory:"))
}

fn unescape(s: &str) -> String {
    let mut out = String::new();
    let mut it = s.chars();
    while let Some(c) = it.next() {
        if c == '$' {
            match it.next() {
                Some(d) => out.push(d),
                None => out.push(c),
            }
        } else {
            out.push(c);
        }
    }
    out
}

#[test]
fn comment() {
    assert_eq!("# Hello\n", nw().comment("Hello").as_string());
}

#[test]
fn newline() {
    assert_eq!("\n", nw().newline().as_string());
}

#[test]
fn variable() {
    assert_eq!("foo = bar\n", nw().variable("foo", "bar", 0).as_string());
    assert_eq!("  foo = bar\n", nw().variable("foo", "bar", 1).as_string());
}

#[test]
fn variable_list() {
    assert_eq!(
        "foo = bar hello world\n",
        nw().variable_list("foo", &["bar", "hello", "world"], 0).as_string()
    );
}

#[test]
fn pool() {
    assert_eq!("pool console\n  depth = 2\n", nw().pool("console", 2).as_string());
}

#[test]
fn rule() {
    let res = r#"rule cc
  command = $cc $in -o $out
"#;
    assert_eq!(res, nw().rule(&NinjaRule::new("cc", "$cc $in -o $out")).as_string());
}

#[test]
fn rule_full() {
    let res = r#"rule full
  command = full force
  description = doing full
  depfile = fullfile
  generator = 1
  pool = fullpool
  restat = 1
  rspfile = fullrsp
  rspfile_content = full_content
  deps = msvc
"#;
    assert_eq!(
        res,
        nw().rule(
            &NinjaRule::new("full", "full force")
                .description("doing full")
                .depfile("fullfile")
                .generator(true)
                .pool("fullpool")
                .restat(true)
                .rspfile("fullrsp")
                .rspfile_content("full_content")
                .deps("msvc")
        )
        .as_string()
    );
}

#[test]
fn build() {
    assert_eq!(
        "build foo.o: cc foo.c\n",
        nw().build(NinjaBuild::new(&["foo.o"], "cc").inputs(&["foo.c"])).as_string()
    );
    assert_eq!(
        "build out$ dir/foo$:bar.o: cc in$ dir/foo.c\n",
        nw().build(NinjaBuild::new(&["out dir/foo:bar.o"], "cc").inputs(&["in dir/foo.c"]))
            .as_string()
    );
}

#[test]
fn build_implicit() {
    assert_eq!(
        "build foo.o: cc foo.c | foo.h\n",
        nw().build(NinjaBuild::new(&["foo.o"], "cc").inputs(&["foo.c"]).implicit(&["foo.h"]))
            .as_string()
    );
    assert_eq!(
        "build foo.o: cc foo.c || foo.h\n",
        nw().build(NinjaBuild::new(&["foo.o"], "cc").inputs(&["foo.c"]).order_only(&["foo.h"]))
            .as_string()
    );
    assert_eq!(
        "build foo.o | foo.ast: cc\n",
        nw().build(NinjaBuild::new(&["foo.o"], "cc").implicit_outputs(&["foo.ast"])).as_string()
    );
}

#[test]
fn build_other() {
    let res = r#"build foo.o bar.o: cc foo.c bar.c
  pool = hello
  dyndep = dyndep
  cflags = -DFOO=BAR /O2
"#;
    let var = [("cflags", "-DFOO=BAR /O2")];
    assert_eq!(
        res,
        nw().build(
            NinjaBuild::new(&["foo.o", "bar.o"], "cc")
                .inputs(&["foo.c", "bar.c"])
                .dyndep("dyndep")
                .pool("hello")
                .variables(&var)
        )
        .as_string()
    );
}

#[test]
fn escape_round_trip() {
    for s in ["plain", "a b", "c:d", "$x", "$ :$$ ::", "", "x y:z$w"] {
        assert_eq!(unescape(&escape_path(s)), s);
    }
    assert_eq!(escape_path("$a b:c"), "$$a$ b$:c");
}

#[test]
fn wrap_long_variable() {
    let words: Vec<String> = (0..20).map(|i| format!("word{:02}", i)).collect();
    let refs: Vec<&str> = words.iter().map(|s| s.as_str()).collect();
    let out = nw().variable_list("foo", &refs, 0).as_string().to_string();
    assert_eq!(
        out,
        "foo = word00 word01 word02 word03 word04 word05 word06 word07 word08 word09 $\n    word10 word11 word12 word13 word14 word15 word16 word17 word18 word19\n"
    );
    let lines: Vec<&str> = out.lines().collect();
    for l in &lines {
        assert!(l.len() <= 78);
    }
    assert!(lines[0].ends_with(" $"));
}

#[test]
fn wrap_skips_break_inside_reference() {
    let value = format!("{} q$ r{}", "a".repeat(60), "z".repeat(20));
    let out = nw().variable("x", &value, 0).as_string().to_string();
    let expected = format!("x = {} $\n    q$ r{}\n", "a".repeat(60), "z".repeat(20));
    assert_eq!(out, expected);
    let first = out.lines().next().unwrap();
    let before_marker = &first[..first.len() - 2];
    assert_eq!(before_marker.matches('$').count() % 2, 0);
}

#[test]
fn wrap_breaks_after_width_when_needed() {
    let value = format!("{} b", "a".repeat(90));
    let out = nw().variable("x", &value, 0).as_string().to_string();
    assert_eq!(out, format!("x = $\n    {} $\n    b\n", "a".repeat(90)));
}

#[test]
fn wrap_fallback_keeps_long_line() {
    let value = "b".repeat(100);
    let out = nw().variable("x", &value, 1).as_string().to_string();
    assert_eq!(out, format!("  x = $\n      {}\n", "b".repeat(100)));
}

#[test]
fn pool_depth_decimal() {
    assert_eq!("pool p\n  depth = 255\n", nw().pool("p", 255).as_string());
    assert_eq!("pool q\n  depth = 0\n", nw().pool("q", 0).as_string());
    assert_eq!("pool r\n  depth = 40\n", nw().pool("r", 40).as_string());
}

#[test]
fn rule_flags_omitted_when_unset() {
    let out = nw()
        .rule(NinjaRule::new("r", "c").generator(false).restat(true).description(""))
        .as_string()
        .to_string();
    assert_eq!(out, "rule r\n  command = c\n  restat = 1\n");
}

#[test]
fn same_descriptor_same_text() {
    let mut b = NinjaBuild::new(&["o 1", "o:2"], "cc");
    b.inputs(&["i$1"]).implicit(&["h"]).order_only(&["g"]).variables(&[("k", "v"), ("a", "b")]);
    let mut w1 = nw();
    let mut w2 = nw();
    w1.build(&b);
    w2.build(&b);
    assert_eq!(w1.as_string(), w2.as_string());
    assert_eq!(
        w1.as_string(),
        "build o$ 1 o$:2: cc i$$1 | h || g\n  k = v\n  a = b\n"
    );
}

#[test]
fn writer_appends_statements() {
    let mut w = nw();
    w.comment("c").newline().variable("a", "b", 0);
    assert_eq!(w.as_string(), "# c\n\na = b\n");
    assert_eq!(w.file_path().to_str(), Some(":memory:"));
}
