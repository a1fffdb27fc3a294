use yarel::error::ErrorKind;
use yarel::strings::{
    string_char_byte_index, string_count_chars, string_ends_with, string_find, string_from_ascii,
    string_from_code_points, string_replace, string_split, string_starts_with,
};

fn err_text<T: std::fmt::Debug>(r: Result<T, yarel::error::Error>) -> (ErrorKind, String) {
    let e = r.unwrap_err();
    (e.get_kind(), e.get_messages()[0].clone())
}

#[test]
fn find_returns_byte_indices() {
    assert_eq!(string_find("hello world", "o", 0).unwrap(), Some(4));
    assert_eq!(string_find("hello world", "o", 5).unwrap(), Some(7));
    assert_eq!(string_find("hello world", "world", 0).unwrap(), Some(6));
    assert_eq!(string_find("hello world", "o", 8).unwrap(), None);
    assert_eq!(string_find("h\u{e9}llo", "l", 0).unwrap(), Some(3));
    assert_eq!(string_find("h\u{e9}llo", "lo", 1).unwrap(), Some(4));
}

#[test]
fn find_counts_negative_starts_from_the_end() {
    assert_eq!(string_find("hello world", "o", -4).unwrap(), Some(7));
    assert_eq!(string_find("hello world", "o", -3).unwrap(), None);
    assert_eq!(string_find("abcabc", "abc", -6).unwrap(), Some(0));
}

#[test]
fn find_errors() {
    assert_eq!(
        err_text(string_find("abc", "", 0)),
        (ErrorKind::ValueError, "Cannot find empty string.".to_owned())
    );
    assert_eq!(
        err_text(string_find("abc", "a", 3)),
        (ErrorKind::IndexError, "String index out of bounds.".to_owned())
    );
    assert_eq!(
        err_text(string_find("abc", "a", -4)),
        (ErrorKind::IndexError, "String index out of bounds.".to_owned())
    );
    assert_eq!(
        err_text(string_find("", "a", 0)),
        (ErrorKind::IndexError, "String index out of bounds.".to_owned())
    );
    assert_eq!(
        err_text(string_find("h\u{e9}llo", "l", 2)),
        (ErrorKind::IndexError, "Provided string index is not on a character boundary.".to_owned())
    );
}

#[test]
fn char_byte_index_of_each_character() {
    assert_eq!(string_char_byte_index("h\u{e9}llo", 0).unwrap(), 0);
    assert_eq!(string_char_byte_index("h\u{e9}llo", 1).unwrap(), 1);
    assert_eq!(string_char_byte_index("h\u{e9}llo", 2).unwrap(), 3);
    assert_eq!(string_char_byte_index("h\u{e9}llo", 5).unwrap(), 6);
    assert_eq!(string_char_byte_index("\u{1f600}x", 1).unwrap(), 4);
    assert_eq!(
        err_text(string_char_byte_index("h\u{e9}llo", 6)),
        (ErrorKind::IndexError, "Provided character index out of range.".to_owned())
    );
}

#[test]
fn prefixes_and_suffixes() {
    assert!(string_starts_with("hello", "he"));
    assert!(string_starts_with("hello", ""));
    assert!(!string_starts_with("he", "hello"));
    assert!(!string_starts_with("hello", "el"));
    assert!(string_ends_with("hello", "llo"));
    assert!(string_ends_with("", ""));
    assert!(!string_ends_with("lo", "hello"));
    assert!(!string_ends_with("hello", "ll"));
}

#[test]
fn counts_characters() {
    assert_eq!(string_count_chars("h\u{e9}llo"), 5);
    assert_eq!(string_count_chars(""), 0);
}

#[test]
fn replace_every_occurrence() {
    assert_eq!(string_replace("a-b-c", "-", "+").unwrap(), "a+b+c");
    assert_eq!(string_replace("aaa", "aa", "b").unwrap(), "ba");
    assert_eq!(string_replace("abc", "x", "y").unwrap(), "abc");
    assert_eq!(
        err_text(string_replace("x", "", "y")),
        (ErrorKind::ValueError, "Cannot replace empty string.".to_owned())
    );
}

#[test]
fn split_matches_str_split() {
    for (s, d) in [("a,b,,c", ","), ("", ","), ("aaa", "aa"), (",a,", ","), ("x", "yz"), ("a--b", "--")] {
        let expected: Vec<String> = s.split(d).map(|p| p.to_owned()).collect();
        assert_eq!(string_split(s, d).unwrap(), expected);
    }
    assert_eq!(
        err_text(string_split("x", "")),
        (ErrorKind::ValueError, "Cannot split using an empty string.".to_owned())
    );
}

#[test]
fn split_then_join_gives_the_string_back() {
    for (s, d) in [("a,b,,c", ","), ("", ","), ("aaa", "aa"), ("h\u{e9}\u{e9}h", "\u{e9}")] {
        assert_eq!(string_split(s, d).unwrap().join(d), s);
    }
}

#[test]
fn code_points_make_characters() {
    assert_eq!(string_from_code_points(&[72, 233, 0x1f600]).unwrap(), "H\u{e9}\u{1f600}");
    assert_eq!(string_from_code_points(&[]).unwrap(), "");
    assert_eq!(
        err_text(string_from_code_points(&[72, 0xd800, 0x110000])),
        (ErrorKind::ValueError, "Expected a valid Unicode code point but found '55296'.".to_owned())
    );
    assert_eq!(
        err_text(string_from_code_points(&[0x110000])),
        (ErrorKind::ValueError, "Expected a valid Unicode code point but found '1114112'.".to_owned())
    );
}

#[test]
fn ascii_codes_make_characters() {
    assert_eq!(string_from_ascii(&[72, 105]).unwrap(), "Hi");
    assert_eq!(string_from_ascii(&[233]).unwrap(), "\u{e9}");
    assert_eq!(string_from_ascii(&[128]).unwrap(), "\u{c0}");
    assert_eq!(string_from_ascii(&[]).unwrap(), "");
}
