use vstd::prelude::*;

use crate::strings::{replace, replace_all};
use crate::text::push_char;

verus! {

/// A compiled regular expression of the `regex` crate, held opaque.
#[verifier::external_type_specification]
#[verifier::external_body]
pub struct ExRegex(regex::Regex);

/// Whether `regex::Regex::new` accepts a pattern (it is well-formed and
/// within the default size limit).
pub uninterp spec fn regex_compiles(pattern: Seq<char>) -> bool;

/// Whether the regular expression compiled from `pattern` matches somewhere
/// in `haystack` (`regex::Regex::is_match`).
pub uninterp spec fn regex_finds(pattern: Seq<char>, haystack: Seq<char>) -> bool;

/// The characters that have a meaning in a regular expression and are
/// escaped by `regex::escape`.
pub open spec fn is_meta_character(c: char) -> bool {
    c == '\\' || c == '.' || c == '+' || c == '*' || c == '?' || c == '(' || c == ')' || c == '|'
        || c == '[' || c == ']' || c == '{' || c == '}' || c == '^' || c == '$' || c == '#' || c
        == '&' || c == '-' || c == '~'
}

/// `text` with a backslash put before each meta character.
pub open spec fn escaped(text: Seq<char>) -> Seq<char>
    decreases text.len(),
{
    if text.len() == 0 {
        Seq::empty()
    } else {
        let c = text.last();
        escaped(text.drop_last()) + if is_meta_character(c) {
            seq!['\\', c]
        } else {
            seq![c]
        }
    }
}

/// Escapes the meta characters of `text` (`regex::escape`): each is
/// preceded by a backslash; other characters are kept.
#[verifier::external_body]
fn escape(text: &str) -> (r: String)
    ensures
        r@ == escaped(text@),
{
    regex::escape(text)
}

/// Compiles a pattern (`regex::Regex::new`); `None` when it is rejected.
#[verifier::external_body]
fn regex_new(pattern: &str) -> (r: Option<regex::Regex>)
    ensures
        r is Some <==> regex_compiles(pattern@),
{
    regex::Regex::new(pattern).ok()
}

/// A regular expression together with the pattern it was compiled from.
/// Its fields are private and only `LinePattern::new` builds one, so the
/// expression is always the compilation of the pattern.
pub struct LinePattern {
    source: String,
    regex: regex::Regex,
}

impl LinePattern {
    /// The pattern the expression was compiled from.
    pub closed spec fn pattern(&self) -> Seq<char> {
        self.source@
    }

    /// Compiles `pattern`; `None` when the regular-expression engine rejects it.
    pub fn new(pattern: &str) -> (r: Option<LinePattern>)
        ensures
            r is Some <==> regex_compiles(pattern@),
            r matches Some(p) ==> p.pattern() == pattern@,
    {
        match regex_new(pattern) {
            Some(regex) => Some(LinePattern { source: pattern.to_owned(), regex }),
            None => None,
        }
    }

    /// Whether the expression matches somewhere in `haystack`.
    pub fn is_match(&self, haystack: &str) -> (r: bool)
        ensures
            r == regex_finds(self.pattern(), haystack@),
    {
        regex_is_match(self, haystack)
    }
}

/// Whether the compiled expression matches somewhere in `haystack`
/// (`regex::Regex::is_match`). The expression is the compilation of the
/// pattern held beside it, which `LinePattern::new` guarantees.
#[verifier::external_body]
fn regex_is_match(p: &LinePattern, haystack: &str) -> (r: bool)
    ensures
        r == regex_finds(p.pattern(), haystack@),
{
    p.regex.is_match(haystack)
}

/// The regular expression for memory addresses that the placeholder stands for.
pub open spec fn memaddr_regex() -> Seq<char> {
    "0x[a-f0-9]+"@
}

/// The regular expression an expected line becomes: the line escaped, the
/// escaped placeholder replaced by the address expression, anchored at
/// both ends.
pub open spec fn line_regex(source: Seq<char>) -> Seq<char> {
    seq!['^'] + replace_all(escaped(source), escaped("[MEMADDR]"@), memaddr_regex()) + seq!['$']
}

/// The regular expression an expected line of output becomes.
pub fn parse_line(source: &str) -> (r: String)
    ensures
        r@ == line_regex(source@),
{
    let result = escape(source);
    let escaped_wildcard = escape("[MEMADDR]");
    proof {
        reveal_strlit("[MEMADDR]");
        assert(escaped("[MEMADDR]"@).len() > 0) by {
            let w = "[MEMADDR]"@;
            assert(w.len() == 9);
            lemma_escaped_len(w);
        }
    }
    let result = replace(result.as_str(), escaped_wildcard.as_str(), "0x[a-f0-9]+");
    let mut out = String::new();
    push_char(&mut out, '^');
    out.append(result.as_str());
    push_char(&mut out, '$');
    assert(out@ =~= line_regex(source@));
    out
}

pub proof fn lemma_escaped_len(text: Seq<char>)
    ensures
        escaped(text).len() >= text.len(),
    decreases text.len(),
{
    if text.len() > 0 {
        lemma_escaped_len(text.drop_last());
    }
}

/// Whether an actual line matches an expected one: equal, or matched by the
/// regular expression the expected line becomes.
pub open spec fn line_accepts(expected: Seq<char>, actual: Seq<char>) -> bool {
    expected == actual || regex_finds(line_regex(expected), actual)
}

/// Whether every expected line that differs from its counterpart becomes a
/// regular expression the engine accepts.
pub open spec fn patterns_compile(expected: Seq<String>, actual: Seq<String>) -> bool {
    forall|k: int|
        0 <= k < expected.len() && k < actual.len() && #[trigger] expected[k]@ != actual[k]@
            ==> regex_compiles(line_regex(expected[k]@))
}

/// Whether actual output matches the expected output line by line.
pub open spec fn regex_output_matches(expected: Seq<String>, actual: Seq<String>) -> bool {
    &&& expected.len() == actual.len()
    &&& forall|k: int| 0 <= k < expected.len() ==> line_accepts(#[trigger] expected[k]@, actual[k]@)
}

/// Whether the actual output of a test matches the expected output, lines
/// that differ being compared through regular expressions.
pub fn match_output(expected: &[String], actual: &[String]) -> (r: bool)
    requires
        patterns_compile(expected@, actual@),
    ensures
        r == regex_output_matches(expected@, actual@),
{
    if expected.len() != actual.len() {
        return false;
    }
    let mut k: usize = 0;
    while k < expected.len()
        invariant
            expected@.len() == actual@.len(),
            k <= expected@.len(),
            patterns_compile(expected@, actual@),
            forall|m: int| 0 <= m < k ==> line_accepts(#[trigger] expected@[m]@, actual@[m]@),
        decreases expected@.len() - k,
    {
        if expected[k] == actual[k] {
            k = k + 1;
            continue;
        }
        let pattern = parse_line(expected[k].as_str());
        match LinePattern::new(pattern.as_str()) {
            Some(re) => {
                if !re.is_match(actual[k].as_str()) {
                    return false;
                }
            },
            None => {
                return false;
            },
        }
        k = k + 1;
    }
    true
}

/// Like `match_output`, but `None` when an expected line that differs from
/// its counterpart becomes a pattern the engine rejects.
pub fn checked_match_output(expected: &[String], actual: &[String]) -> (r: Option<bool>)
    ensures
        r is Some <==> (expected@.len() != actual@.len() || patterns_compile(expected@, actual@)),
        r matches Some(b) ==> b == regex_output_matches(expected@, actual@),
{
    if expected.len() != actual.len() {
        return Some(false);
    }
    let mut k: usize = 0;
    while k < expected.len()
        invariant
            expected@.len() == actual@.len(),
            k <= expected@.len(),
            forall|m: int|
                0 <= m < k && #[trigger] expected@[m]@ != actual@[m]@ ==> regex_compiles(line_regex(expected@[m]@)),
        decreases expected@.len() - k,
    {
        if expected[k] != actual[k] {
            let pattern = parse_line(expected[k].as_str());
            if LinePattern::new(pattern.as_str()).is_none() {
                return None;
            }
        }
        k = k + 1;
    }
    Some(match_output(expected, actual))
}

} // verus!
