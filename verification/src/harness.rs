use vstd::prelude::*;
use vstd::utf8::*;

use crate::text::{chars_to_string, string_to_chars};

verus! {

broadcast use vstd::string::group_string_axioms;

/// A test script that ran as expected, or was skipped.
#[derive(Debug)]
pub struct Success {
    pub path: String,
    pub skipped: bool,
}

/// A test script whose output differed from the expected output.
#[derive(Debug)]
pub struct Failure {
    pub path: String,
    pub expected: Vec<String>,
    pub actual: Vec<String>,
}

/// The UTF-8 bytes of a text.
pub open spec fn text_bytes(s: Seq<char>) -> Seq<u8> {
    encode_utf8(s)
}

/// Whether byte offset `k` starts a character of `b` or is its end: the
/// test `str::is_char_boundary` makes.
pub open spec fn at_boundary(b: Seq<u8>, k: int) -> bool {
    k == 0 || k == b.len() || (0 < k < b.len() && !is_continuation_byte(b[k]))
}

/// The first character boundary at or after `k`, or the end.
pub open spec fn boundary_from(b: Seq<u8>, k: int) -> int
    decreases b.len() - k,
{
    if k >= b.len() {
        b.len() as int
    } else if at_boundary(b, k) {
        k
    } else {
        boundary_from(b, k + 1)
    }
}

/// The first character boundary strictly after `i`, or the end.
pub open spec fn next_boundary(b: Seq<u8>, i: int) -> int {
    boundary_from(b, i + 1)
}

pub proof fn lemma_boundary_from(b: Seq<u8>, k: int)
    requires
        0 <= k,
    ensures
        k <= boundary_from(b, k) || k > b.len(),
        boundary_from(b, k) <= b.len(),
        k <= b.len() ==> k <= boundary_from(b, k),
    decreases b.len() - k,
{
    if k < b.len() && !at_boundary(b, k) {
        lemma_boundary_from(b, k + 1);
    }
}

/// An ASCII hexadecimal digit.
pub open spec fn is_hex_byte(c: u8) -> bool {
    (0x30 <= c <= 0x39) || (0x41 <= c <= 0x46) || (0x61 <= c <= 0x66)
}

/// The end of the run of hexadecimal digits that starts at `k`.
pub open spec fn hex_run_end(b: Seq<u8>, k: int) -> int
    decreases b.len() - k,
{
    if k < 0 || k >= b.len() || !is_hex_byte(b[k]) {
        k
    } else {
        hex_run_end(b, k + 1)
    }
}

pub proof fn lemma_hex_run_end(b: Seq<u8>, k: int)
    requires
        0 <= k <= b.len(),
    ensures
        k <= hex_run_end(b, k) <= b.len(),
    decreases b.len() - k,
{
    if k < b.len() && is_hex_byte(b[k]) {
        lemma_hex_run_end(b, k + 1);
    }
}

/// How many bytes at the start of `b` a memory address takes: two
/// characters followed by hexadecimal digits. `None` when there is no
/// character boundary after two bytes, or when the digits are missing but
/// something else follows.
pub open spec fn memaddr_match(b: Seq<u8>) -> Option<int> {
    if !at_boundary(b, 2) {
        None
    } else {
        let p = hex_run_end(b, 2);
        if p < b.len() && p == 2 {
            None
        } else {
            Some(p)
        }
    }
}

/// The placeholder for a memory address in expected output: `[MEMADDR]`.
pub open spec fn memaddr_placeholder() -> Seq<u8> {
    seq![0x5bu8, 0x4du8, 0x45u8, 0x4du8, 0x41u8, 0x44u8, 0x44u8, 0x52u8, 0x5du8]
}

/// Whether the placeholder starts at byte `i` of `e`.
pub open spec fn placeholder_at(e: Seq<u8>, i: int) -> bool {
    0 <= i && i + 9 <= e.len() && e.subrange(i, i + 9) == memaddr_placeholder()
}

/// Matches expected output `e` from byte `i` against actual output `a` from
/// byte `j`, a character at a time; a placeholder in `e` matches a memory
/// address in `a`. Matching succeeds as soon as either side is used up.
pub open spec fn line_matches_from(e: Seq<u8>, a: Seq<u8>, i: int, j: int) -> bool
    decreases e.len() - i,
{
    if i < 0 || j < 0 || i >= e.len() || j >= a.len() {
        true
    } else if placeholder_at(e, i) {
        match memaddr_match(a.subrange(j, a.len() as int)) {
            Some(off) => line_matches_from(e, a, i + 9, j + off),
            None => false,
        }
    } else {
        let ni = next_boundary(e, i);
        let nj = next_boundary(a, j);
        proof {
            lemma_boundary_from(e, i + 1);
        }
        if ni <= i {
            false
        } else {
            e.subrange(i, ni) == a.subrange(j, nj) && line_matches_from(e, a, ni, nj)
        }
    }
}

/// Whether an actual line of output matches an expected one.
pub open spec fn line_matches(e: Seq<u8>, a: Seq<u8>) -> bool {
    e == a || line_matches_from(e, a, 0, 0)
}

proof fn lemma_match_aligned(e: Seq<u8>, a: Seq<u8>, i: int)
    requires
        0 <= i <= e.len(),
        i <= a.len(),
        forall|p: int| !#[trigger] placeholder_at(e, p),
        line_matches_from(e, a, i, i),
    ensures
        forall|p: int| i <= p < e.len() && p < a.len() ==> e[p] == a[p],
    decreases e.len() - i,
{
    if i < e.len() && i < a.len() {
        assert(!placeholder_at(e, i));
        let ni = next_boundary(e, i);
        let nj = next_boundary(a, i);
        lemma_boundary_from(e, i + 1);
        lemma_boundary_from(a, i + 1);
        assert(e.subrange(i, ni) == a.subrange(i, nj));
        assert(e.subrange(i, ni).len() == ni - i);
        assert(a.subrange(i, nj).len() == nj - i);
        assert(ni == nj);
        assert forall|p: int| i <= p < ni implies e[p] == a[p] by {
            assert(e[p] == e.subrange(i, ni)[p - i]);
            assert(a[p] == a.subrange(i, nj)[p - i]);
        }
        lemma_match_aligned(e, a, ni);
    }
}

/// Without a placeholder in the expected line, matching compares whole
/// characters byte for byte: the two lines agree up to the length of the
/// shorter, so lines of the same length match only when they are equal.
pub proof fn lemma_match_without_placeholder(e: Seq<u8>, a: Seq<u8>)
    requires
        forall|p: int| !#[trigger] placeholder_at(e, p),
        line_matches(e, a),
    ensures
        forall|p: int| 0 <= p < e.len() && p < a.len() ==> e[p] == a[p],
        e.len() == a.len() ==> e == a,
{
    if e != a {
        lemma_match_aligned(e, a, 0);
    }
    if e.len() == a.len() {
        assert(e =~= a);
    }
}

/// The first character boundary after byte `i` of `s`.
pub fn get_next_char_boundary(s: &str, i: usize) -> (r: usize)
    requires
        i < usize::MAX,
    ensures
        r == next_boundary(text_bytes(s@), i as int),
{
    next_boundary_in(s.as_bytes(), i)
}

fn next_boundary_in(b: &[u8], i: usize) -> (r: usize)
    requires
        i < usize::MAX,
    ensures
        r == next_boundary(b@, i as int),
{
    let mut pos = i + 1;
    while pos < b.len()
        invariant
            i + 1 <= pos,
            boundary_from(b@, pos as int) == boundary_from(b@, i + 1),
        decreases b@.len() - pos,
    {
        if b[pos] < 0x80 || b[pos] > 0xbf {
            return pos;
        }
        pos = pos + 1;
    }
    b.len()
}

/// The length of the memory address that starts `s`, if it starts with one.
pub fn match_memaddr(s: &str) -> (r: Option<usize>)
    ensures
        r is Some <==> memaddr_match(text_bytes(s@)) is Some,
        r matches Some(p) ==> memaddr_match(text_bytes(s@)) == Some(p as int) && p <= text_bytes(s@).len(),
{
    let b = s.as_bytes();
    assert(b@.subrange(0, b@.len() as int) =~= b@);
    memaddr_at(b, 0)
}

/// The length of the memory address that starts at byte `j` of `b`, if any.
fn memaddr_at(b: &[u8], j: usize) -> (r: Option<usize>)
    requires
        j <= b@.len(),
    ensures
        r is Some <==> memaddr_match(b@.subrange(j as int, b@.len() as int)) is Some,
        r matches Some(p) ==> memaddr_match(b@.subrange(j as int, b@.len() as int)) == Some(p as int)
            && j + p <= b@.len(),
{
    let ghost t = b@.subrange(j as int, b@.len() as int);
    let len = b.len();
    let n = len - j;
    let boundary = if n == 2 {
        true
    } else if n > 2 {
        b[j + 2] < 0x80 || b[j + 2] > 0xbf
    } else {
        false
    };
    if !boundary {
        return None;
    }
    let mut p: usize = 2;
    proof {
        lemma_hex_run_end(t, 2);
    }
    while p < n
        invariant_except_break
            n == t.len(),
            j <= b@.len(),
            len == b@.len(),
            n == b@.len() - j,
            t == b@.subrange(j as int, b@.len() as int),
            2 <= p <= hex_run_end(t, 2),
            hex_run_end(t, p as int) == hex_run_end(t, 2),
            hex_run_end(t, 2) <= n,
        ensures
            2 <= p <= n,
            p == hex_run_end(t, 2),
        decreases n - p,
    {
        let c = b[j + p];
        assert(t[p as int] == c);
        if !((0x30 <= c && c <= 0x39) || (0x41 <= c && c <= 0x46) || (0x61 <= c && c <= 0x66)) {
            break;
        }
        p = p + 1;
        proof {
            lemma_hex_run_end(t, p as int);
        }
    }
    if p < n && p == 2 {
        None
    } else {
        Some(p)
    }
}

/// Whether two byte strings are equal.
fn bytes_equal(a: &[u8], b: &[u8]) -> (r: bool)
    ensures
        r == (a@ == b@),
{
    if a.len() != b.len() {
        return false;
    }
    let mut k: usize = 0;
    while k < a.len()
        invariant
            a@.len() == b@.len(),
            k <= a@.len(),
            forall|m: int| 0 <= m < k ==> a@[m] == b@[m],
        decreases a@.len() - k,
    {
        if a[k] != b[k] {
            return false;
        }
        k = k + 1;
    }
    assert(a@ =~= b@);
    true
}

/// Whether `a[j..j + n]` equals `e[i..i + m]`.
fn ranges_equal(e: &[u8], i: usize, m: usize, a: &[u8], j: usize, n: usize) -> (r: bool)
    requires
        i <= m <= e@.len(),
        j <= n <= a@.len(),
    ensures
        r == (e@.subrange(i as int, m as int) == a@.subrange(j as int, n as int)),
{
    if m - i != n - j {
        assert(e@.subrange(i as int, m as int).len() != a@.subrange(j as int, n as int).len());
        return false;
    }
    let mut k: usize = 0;
    while k < m - i
        invariant
            m - i == n - j,
            i <= m <= e@.len(),
            j <= n <= a@.len(),
            k <= m - i,
            e@.subrange(i as int, i + k) =~= a@.subrange(j as int, j + k),
        decreases m - i - k,
    {
        if e[i + k] != a[j + k] {
            assert(e@.subrange(i as int, m as int)[k as int] != a@.subrange(j as int, n as int)[k as int]);
            return false;
        }
        assert(e@.subrange(i as int, i + k + 1) =~= e@.subrange(i as int, i + k).push(e@[i + k]));
        assert(a@.subrange(j as int, j + k + 1) =~= a@.subrange(j as int, j + k).push(a@[j + k]));
        k = k + 1;
    }
    true
}

/// Whether the placeholder starts at byte `i` of `e`.
fn placeholder_at_exec(e: &[u8], i: usize) -> (r: bool)
    ensures
        r == placeholder_at(e@, i as int),
{
    if i > e.len() || e.len() - i < 9 {
        return false;
    }
    let pat: [u8; 9] = [0x5b, 0x4d, 0x45, 0x4d, 0x41, 0x44, 0x44, 0x52, 0x5d];
    assert(pat@ =~= memaddr_placeholder());
    assert(pat@.subrange(0, 9) =~= pat@);
    ranges_equal(e, i, i + 9, &pat, 0, 9)
}

/// Whether an actual line of output matches an expected one.
pub fn match_line(expected: &str, actual: &str) -> (r: bool)
    ensures
        r == line_matches(text_bytes(expected@), text_bytes(actual@)),
{
    let e = expected.as_bytes();
    let a = actual.as_bytes();
    if bytes_equal(e, a) {
        return true;
    }
    let mut i: usize = 0;
    let mut j: usize = 0;
    while i < e.len() && j < a.len()
        invariant
            e@ == text_bytes(expected@),
            a@ == text_bytes(actual@),
            e@ != a@,
            i <= e@.len(),
            j <= a@.len(),
            line_matches_from(e@, a@, i as int, j as int) == line_matches_from(e@, a@, 0, 0),
        decreases e@.len() - i,
    {
        if placeholder_at_exec(e, i) {
            match memaddr_at(a, j) {
                Some(j_offset) => {
                    assert(line_matches_from(e@, a@, i as int, j as int) == line_matches_from(
                        e@,
                        a@,
                        i + 9,
                        j + j_offset,
                    ));
                    i = i + 9;
                    j = j + j_offset;
                    continue;
                },
                None => {
                    return false;
                },
            }
        }
        let next_i = next_boundary_in(e, i);
        let next_j = next_boundary_in(a, j);
        proof {
            lemma_boundary_from(e@, i + 1);
            lemma_boundary_from(a@, j + 1);
        }
        if !ranges_equal(e, i, next_i, a, j, next_j) {
            return false;
        }
        i = next_i;
        j = next_j;
    }
    true
}

/// The index of the first line break at or after `p`, or the end.
pub open spec fn line_end(s: Seq<char>, p: int) -> int
    decreases s.len() - p,
{
    if p < 0 || p >= s.len() || s[p] == '\n' {
        p
    } else {
        line_end(s, p + 1)
    }
}

pub proof fn lemma_line_end(s: Seq<char>, p: int)
    requires
        0 <= p <= s.len(),
    ensures
        p <= line_end(s, p) <= s.len(),
        line_end(s, p) < s.len() ==> s[line_end(s, p)] == '\n',
    decreases s.len() - p,
{
    if p < s.len() && s[p] != '\n' {
        lemma_line_end(s, p + 1);
    }
}

/// The lines of `s` from position `p` on, split at line breaks as
/// `str::lines` does: a carriage return just before a line break is
/// dropped, and a final line break ends the last line without starting
/// another.
pub open spec fn lines_from(s: Seq<char>, p: int) -> Seq<Seq<char>>
    decreases s.len() + 1 - p,
{
    if p < 0 || p >= s.len() {
        Seq::empty()
    } else {
        let k = line_end(s, p);
        let raw = s.subrange(p, k);
        let line = if k < s.len() && raw.len() > 0 && raw.last() == '\r' {
            raw.drop_last()
        } else {
            raw
        };
        proof {
            lemma_line_end(s, p);
        }
        seq![line] + lines_from(s, k + 1)
    }
}

/// Whether a line is a comment holding expected output: it starts with `// `.
pub open spec fn is_expectation(line: Seq<char>) -> bool {
    line.len() >= 3 && line[0] == '/' && line[1] == '/' && line[2] == ' '
}

/// The texts of the expectation comments that open a list of lines.
pub open spec fn leading_expectations(lines: Seq<Seq<char>>) -> Seq<Seq<char>>
    decreases lines.len(),
{
    if lines.len() == 0 || !is_expectation(lines[0]) {
        Seq::empty()
    } else {
        seq![lines[0].subrange(3, lines[0].len() as int)] + leading_expectations(lines.drop_first())
    }
}

/// Whether a test script is marked to be skipped: it starts with `// skip`
/// and a line break.
pub open spec fn is_skipped(s: Seq<char>) -> bool {
    s.len() >= 8 && s.subrange(0, 8) == seq!['/', '/', ' ', 's', 'k', 'i', 'p', '\n']
}

/// The output a test script expects: the texts of the comments that open
/// it, but the last; nothing when the script is to be skipped.
pub open spec fn expected_output(s: Seq<char>) -> Option<Seq<Seq<char>>> {
    if is_skipped(s) {
        None
    } else {
        let c = leading_expectations(lines_from(s, 0));
        Some(
            if c.len() > 0 {
                c.drop_last()
            } else {
                c
            },
        )
    }
}

/// The texts of a list of strings.
pub open spec fn texts(v: Seq<String>) -> Seq<Seq<char>> {
    v.map_values(|x: String| x@)
}

/// The expected output a test script declares, or `None` when it is to be
/// skipped.
pub fn parse_test(source: String) -> (r: Option<Vec<String>>)
    ensures
        r matches Some(v) ==> expected_output(source@) == Some(texts(v@)),
        r is None <==> expected_output(source@) is None,
{
    let chars = string_to_chars(source.as_str());
    let n = chars.len();
    if n >= 8 && chars[0] == '/' && chars[1] == '/' && chars[2] == ' ' && chars[3] == 's' && chars[4]
        == 'k' && chars[5] == 'i' && chars[6] == 'p' && chars[7] == '\n' {
        assert(chars@.subrange(0, 8) =~= seq!['/', '/', ' ', 's', 'k', 'i', 'p', '\n']);
        return None;
    }
    proof {
        if n >= 8 && chars@.subrange(0, 8) == seq!['/', '/', ' ', 's', 'k', 'i', 'p', '\n'] {
            assert(chars@.subrange(0, 8)[0] == chars@[0]);
            assert(chars@.subrange(0, 8)[7] == chars@[7]);
            assert(chars@[1] == chars@.subrange(0, 8)[1]);
            assert(chars@[2] == chars@.subrange(0, 8)[2]);
            assert(chars@[3] == chars@.subrange(0, 8)[3]);
            assert(chars@[4] == chars@.subrange(0, 8)[4]);
            assert(chars@[5] == chars@.subrange(0, 8)[5]);
            assert(chars@[6] == chars@.subrange(0, 8)[6]);
        }
    }
    let ghost s = chars@;
    let mut lines: Vec<String> = Vec::new();
    let mut p: usize = 0;
    loop
        invariant_except_break
            s == source@,
            s == chars@,
            n == s.len(),
            p <= n,
            leading_expectations(lines_from(s, 0)) == texts(lines@) + leading_expectations(
                lines_from(s, p as int),
            ),
        ensures
            leading_expectations(lines_from(s, 0)) == texts(lines@),
        decreases n - p,
    {
        if p >= n {
            assert(lines_from(s, p as int) =~= Seq::<Seq<char>>::empty());
            assert(texts(lines@) + Seq::<Seq<char>>::empty() =~= texts(lines@));
            break;
        }
        let mut k = p;
        while k < n && chars[k] != '\n'
            invariant
                p <= k <= n,
                n == chars@.len(),
                line_end(chars@, k as int) == line_end(chars@, p as int),
            decreases n - k,
        {
            k = k + 1;
        }
        proof {
            lemma_line_end(s, p as int);
        }
        let mut end = k;
        if k < n && end > p && chars[end - 1] == '\r' {
            end = end - 1;
        }
        let ghost line = s.subrange(p as int, end as int);
        proof {
            let raw = s.subrange(p as int, k as int);
            if k < n && raw.len() > 0 && raw.last() == '\r' {
                assert(line =~= raw.drop_last());
            } else {
                assert(line =~= raw);
            }
            assert(lines_from(s, p as int) =~= seq![line] + lines_from(s, k + 1));
            assert((seq![line] + lines_from(s, k + 1)).drop_first() =~= lines_from(s, k + 1));
        }
        let is_comment = end - p >= 3 && chars[p] == '/' && chars[p + 1] == '/' && chars[p + 2] == ' ';
        if !is_comment {
            assert(texts(lines@) + Seq::<Seq<char>>::empty() =~= texts(lines@));
            break;
        }
        let text = chars_to_string(&chars, p + 3, end);
        assert(text@ =~= line.subrange(3, line.len() as int));
        let ghost before = texts(lines@);
        lines.push(text);
        assert(texts(lines@) =~= before.push(text@));
        assert(texts(lines@) + leading_expectations(lines_from(s, k + 1)) =~= before + (seq![text@] + leading_expectations(lines_from(s, k + 1))));
        if k >= n {
            assert(lines_from(s, k + 1) =~= Seq::<Seq<char>>::empty());
            assert(texts(lines@) + Seq::<Seq<char>>::empty() =~= texts(lines@));
            break;
        }
        p = k + 1;
    }
    let ghost all = texts(lines@);
    lines.pop();
    proof {
        if all.len() > 0 {
            assert(texts(lines@) =~= all.drop_last());
        }
    }
    Some(lines)
}

/// Whether actual output lines match the expected ones: as many lines, and
/// each matching its counterpart.
pub open spec fn output_matches(expected: Seq<Seq<char>>, actual: Seq<Seq<char>>) -> bool {
    &&& expected.len() == actual.len()
    &&& forall|k: int|
        0 <= k < expected.len() ==> line_matches(
            text_bytes(#[trigger] expected[k]),
            text_bytes(actual[k]),
        )
}

/// Output always matches itself: a script that prints exactly the lines it
/// expects passes.
pub proof fn lemma_output_matches_itself(lines: Seq<Seq<char>>)
    ensures
        output_matches(lines, lines),
{
}

/// Whether the actual output of a test matches the expected output.
pub fn match_output(expected: &[String], actual: &[String]) -> (r: bool)
    ensures
        r == output_matches(texts(expected@), texts(actual@)),
{
    if expected.len() != actual.len() {
        return false;
    }
    let mut k: usize = 0;
    while k < expected.len()
        invariant
            expected@.len() == actual@.len(),
            k <= expected@.len(),
            forall|m: int|
                0 <= m < k ==> line_matches(
                    text_bytes(#[trigger] texts(expected@)[m]),
                    text_bytes(texts(actual@)[m]),
                ),
        decreases expected@.len() - k,
    {
        if !match_line(expected[k].as_str(), actual[k].as_str()) {
            assert(texts(expected@)[k as int] == expected@[k as int]@);
            return false;
        }
        k = k + 1;
    }
    true
}

} // verus!
