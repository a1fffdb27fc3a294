use yarel::harness::{
    get_next_char_boundary, match_line, match_memaddr, match_output, parse_test, Failure, Success,
};
use yarel::pattern;

fn owned(lines: &[&str]) -> Vec<String> {
    lines.iter().map(|s| s.to_string()).collect()
}

#[test]
fn memaddr_takes_prefix_and_hex_digits() {
    assert_eq!(match_memaddr("0x1234"), Some(6));
    assert_eq!(match_memaddr("0xdeadBEEF rest"), Some(10));
    assert_eq!(match_memaddr("0x"), Some(2));
    assert_eq!(match_memaddr("0xzz"), None);
    assert_eq!(match_memaddr("0"), None);
    assert_eq!(match_memaddr(""), None);
    assert_eq!(match_memaddr("\u{e9}1"), Some(3));
    assert_eq!(match_memaddr("a\u{e9}"), None);
}

#[test]
fn char_boundaries_skip_multibyte_characters() {
    assert_eq!(get_next_char_boundary("abc", 0), 1);
    assert_eq!(get_next_char_boundary("\u{e9}x", 0), 2);
    assert_eq!(get_next_char_boundary("ab", 1), 2);
    assert_eq!(get_next_char_boundary("ab", 5), 2);
}

#[test]
fn lines_match_with_addresses() {
    assert!(match_line("same", "same"));
    assert!(match_line("[MEMADDR]", "0x1a2b"));
    assert!(match_line("<fn at [MEMADDR]>", "<fn at 0xff00>"));
    assert!(!match_line("<fn at [MEMADDR]>", "<fn at nowhere>"));
    assert!(!match_line("abc", "abd"));
}

#[test]
fn lines_match_up_to_the_shorter_one() {
    // Comparison stops as soon as either line is used up.
    assert!(match_line("abc", "ab"));
    assert!(match_line("ab", "abc"));
    assert!(match_line("", "anything"));
}

#[test]
fn parse_test_reads_leading_comments() {
    let source = "// first\n// second\n// \nprint(1);\n// not expected\n".to_owned();
    assert_eq!(parse_test(source), Some(owned(&["first", "second"])));
    let source = "// a\n// b\n".to_owned();
    assert_eq!(parse_test(source), Some(owned(&["a"])));
    assert_eq!(parse_test("code\n".to_owned()), Some(Vec::new()));
    assert_eq!(parse_test(String::new()), Some(Vec::new()));
}

#[test]
fn parse_test_skips_marked_scripts() {
    assert_eq!(parse_test("// skip\n// 1\n".to_owned()), None);
    assert_eq!(parse_test("// skip".to_owned()), Some(Vec::new()));
}

#[test]
fn outputs_match_line_by_line() {
    assert!(match_output(&owned(&["a", "[MEMADDR]"]), &owned(&["a", "0x10"])));
    assert!(!match_output(&owned(&["a"]), &owned(&["a", "b"])));
    assert!(!match_output(&owned(&["a", "b"]), &owned(&["a", "c"])));
    assert!(match_output(&[], &[]));
}

#[test]
fn results_carry_their_paths() {
    let s = Success { path: "t.yr".to_owned(), skipped: true };
    assert!(s.skipped);
    let f = Failure { path: "u.yr".to_owned(), expected: owned(&["1"]), actual: owned(&["2"]) };
    assert_eq!(f.path, "u.yr");
    assert_ne!(f.expected, f.actual);
}

#[test]
fn expected_lines_become_anchored_patterns() {
    assert_eq!(pattern::parse_line("[MEMADDR]"), "^0x[a-f0-9]+$");
    assert_eq!(pattern::parse_line("a.b"), "^a\\.b$");
    assert_eq!(pattern::parse_line("<fn [MEMADDR]>"), "^<fn 0x[a-f0-9]+>$");
    assert_eq!(pattern::parse_line(""), "^$");
}

#[test]
fn pattern_matching_of_outputs() {
    assert!(pattern::match_output(&owned(&["[MEMADDR]"]), &owned(&["0x1234"])));
    assert!(pattern::match_output(&owned(&["x = [MEMADDR]."]), &owned(&["x = 0xab."])));
    assert!(!pattern::match_output(&owned(&["x = [MEMADDR]."]), &owned(&["x = 0xab!"])));
    assert!(!pattern::match_output(&owned(&["[MEMADDR]"]), &owned(&["0xABC"])));
    assert!(!pattern::match_output(&owned(&["a"]), &owned(&[])));
    assert!(pattern::match_output(&owned(&["(a)"]), &owned(&["(a)"])));
}

#[test]
fn checked_pattern_matching() {
    assert_eq!(
        pattern::checked_match_output(&owned(&["[MEMADDR]"]), &owned(&["0x1"])),
        Some(true)
    );
    assert_eq!(pattern::checked_match_output(&owned(&["a"]), &owned(&["b"])), Some(false));
    assert_eq!(pattern::checked_match_output(&owned(&["a"]), &owned(&[])), Some(false));
}

#[test]
fn line_patterns_compile_and_match() {
    let p = pattern::LinePattern::new("^a+$").unwrap();
    assert!(p.is_match("aaa"));
    assert!(!p.is_match("ab"));
    assert!(pattern::LinePattern::new("(").is_none());
}
