use sql_batch::assembler::{assemble, classify_line, contains_terminator, Assembler, LineKind};
use sql_batch::text::{substring, trim};

fn lines(v: &[&str]) -> Vec<String> {
    v.iter().map(|s| s.to_string()).collect()
}

#[test]
fn two_lines_make_one_statement() {
    let out = assemble(&lines(&["SELECT 1", "FROM dual;"]));
    assert_eq!(out, vec!["SELECT 1\nFROM dual;".to_string()]);
}

#[test]
fn comment_and_blank_lines_are_skipped() {
    let out = assemble(&lines(&[
        "// comment",
        "INSERT INTO t VALUES (1);",
        "",
        "UPDATE t SET x=2;",
    ]));
    assert_eq!(
        out,
        vec!["INSERT INTO t VALUES (1);".to_string(), "UPDATE t SET x=2;".to_string()]
    );
}

#[test]
fn trailing_fragment_is_dropped() {
    assert!(assemble(&lines(&["DELETE FROM t"])).is_empty());
    let out = assemble(&lines(&["SELECT 1;", "DELETE FROM t", "WHERE x = 1"]));
    assert_eq!(out, vec!["SELECT 1;".to_string()]);
}

#[test]
fn blank_script_yields_nothing() {
    let out = assemble(&lines(&["", "   ", "\t", "\u{3000}\u{3000}", " \u{3000} "]));
    assert!(out.is_empty());
    let mut a = Assembler::new();
    for l in ["", "  ", "\u{3000}"] {
        assert!(a.push_line(l).is_none());
    }
    assert_eq!(a.pending(), "");
}

#[test]
fn empty_script_yields_nothing() {
    assert!(assemble(&Vec::new()).is_empty());
}

#[test]
fn comment_inside_statement_does_not_split_it() {
    let with = assemble(&lines(&["SELECT a", "// note; with a semicolon", "FROM t;"]));
    let without = assemble(&lines(&["SELECT a", "FROM t;"]));
    assert_eq!(with, without);
    assert_eq!(with, vec!["SELECT a\nFROM t;".to_string()]);
}

#[test]
fn statement_joins_content_lines_verbatim() {
    let out = assemble(&lines(&["  SELECT a,", "", "\tb  ", "FROM t; -- done"]));
    assert_eq!(out, vec!["  SELECT a,\n\tb  \nFROM t; -- done".to_string()]);
}

#[test]
fn semicolon_in_literal_ends_statement() {
    let out = assemble(&lines(&["INSERT INTO t VALUES ('a;", "b');"]));
    assert_eq!(out, vec!["INSERT INTO t VALUES ('a;".to_string(), "b');".to_string()]);
}

#[test]
fn push_line_emits_incrementally() {
    let mut a = Assembler::new();
    assert_eq!(a.push_line("SELECT 1"), None);
    assert_eq!(a.pending(), "SELECT 1\n");
    assert_eq!(a.push_line("// skipped"), None);
    assert_eq!(a.pending(), "SELECT 1\n");
    assert_eq!(a.push_line("FROM dual;"), Some("SELECT 1\nFROM dual;".to_string()));
    assert_eq!(a.pending(), "");
    assert_eq!(a.push_line("COMMIT;"), Some("COMMIT;".to_string()));
}

#[test]
fn lines_are_classified() {
    assert_eq!(classify_line("// x"), LineKind::Comment);
    assert_eq!(classify_line("//"), LineKind::Comment);
    assert_eq!(classify_line(" // x"), LineKind::Content);
    assert_eq!(classify_line("/"), LineKind::Content);
    assert_eq!(classify_line(""), LineKind::Blank);
    assert_eq!(classify_line(" \t "), LineKind::Blank);
    assert_eq!(classify_line("\u{3000}"), LineKind::Blank);
    assert_eq!(classify_line("SELECT"), LineKind::Content);
}

#[test]
fn terminator_is_found_anywhere() {
    assert!(contains_terminator(";"));
    assert!(contains_terminator("a; b"));
    assert!(contains_terminator("SELECT 1;"));
    assert!(!contains_terminator("SELECT 1"));
    assert!(!contains_terminator(""));
}

#[test]
fn substring_counts_characters() {
    assert_eq!(substring("hello", 0, 2), "he");
    assert_eq!(substring("hello", 1, 3), "ell");
    assert_eq!(substring("hello", 3, 10), "lo");
    assert_eq!(substring("hello", 5, 1), "");
    assert_eq!(substring("hello", 9, 1), "");
    assert_eq!(substring("hello", 1, 0), "");
    assert_eq!(substring("日本語です", 1, 2), "本語");
    assert_eq!(substring("x", usize::MAX, usize::MAX), "");
    assert_eq!(substring("xyz", 1, usize::MAX), "yz");
}

#[test]
fn trim_removes_half_and_full_width_space() {
    assert_eq!(trim("  abc  "), "abc");
    assert_eq!(trim("\u{3000}abc\u{3000}"), "abc");
    assert_eq!(trim("\t a b \n"), "a b");
    assert_eq!(trim("abc"), "abc");
    assert_eq!(trim("   "), "");
    assert_eq!(trim(""), "");
    assert_eq!(trim("\u{3000} 全角 \u{3000}"), "全角");
}
