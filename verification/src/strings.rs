//! The text operations of the language's string class, on plain strings:
//! byte offsets are those of the UTF-8 encoding, as in the language.

use vstd::prelude::*;
use vstd::utf8::*;

use crate::error::{fails_with, messages_view, Error, ErrorKind};
use crate::text::{
    chars_to_string, decimal, push_char, string_from_utf8, string_to_chars, usize_to_string,
};

verus! {

broadcast use vstd::string::group_string_axioms;

/// The byte offset of character `k` of `s`: the length of the UTF-8
/// encoding of the characters before it.
pub open spec fn byte_offset(s: Seq<char>, k: int) -> int {
    encode_utf8(s.take(k)).len() as int
}

/// The length in bytes of the UTF-8 encoding of `c`.
pub open spec fn utf8_width(c: char) -> int {
    encode_scalar(c as u32).len() as int
}

/// Whether `sub` occurs in `s` starting at character `k`.
pub open spec fn occurs_at(s: Seq<char>, sub: Seq<char>, k: int) -> bool {
    0 <= k && k + sub.len() <= s.len() && s.subrange(k, k + sub.len()) == sub
}

/// The first character position at or after `k` where `sub` occurs.
pub open spec fn first_occurrence(s: Seq<char>, sub: Seq<char>, k: int) -> Option<int>
    decreases s.len() - k,
{
    if k < 0 || k >= s.len() {
        None
    } else if occurs_at(s, sub, k) {
        Some(k)
    } else {
        first_occurrence(s, sub, k + 1)
    }
}

/// The byte offset of the first occurrence of `sub` in `s` at or after
/// character `k`.
pub open spec fn found_offset(s: Seq<char>, sub: Seq<char>, k: int) -> Option<usize> {
    match first_occurrence(s, sub, k) {
        Some(j) => Some(byte_offset(s, j) as usize),
        None => None,
    }
}

/// The character whose encoding starts at byte `b`, if one does, or the
/// end of `s` when `b` is the length of its encoding.
pub open spec fn char_at_offset(s: Seq<char>, b: int) -> Option<int> {
    if exists|k: int| 0 <= k <= s.len() && byte_offset(s, k) == b {
        Some(choose|k: int| 0 <= k <= s.len() && byte_offset(s, k) == b)
    } else {
        None
    }
}

/// Where a search starts: a negative byte index counts back from the end.
pub open spec fn search_start(s: Seq<char>, start: int) -> int {
    if start < 0 {
        start + byte_offset(s, s.len() as int)
    } else {
        start
    }
}

pub proof fn lemma_encode_utf8_concat(a: Seq<char>, b: Seq<char>)
    ensures
        encode_utf8(a + b) == encode_utf8(a) + encode_utf8(b),
    decreases a.len(),
{
    if a.len() == 0 {
        assert(a + b =~= b);
        assert(encode_utf8(a) + encode_utf8(b) =~= encode_utf8(b));
    } else {
        assert((a + b).drop_first() =~= a.drop_first() + b);
        assert((a + b)[0] == a[0]);
        lemma_encode_utf8_concat(a.drop_first(), b);
        assert(encode_utf8(a + b) =~= encode_utf8(a) + encode_utf8(b));
    }
}

/// Each character adds its own width to the offset of the next.
pub proof fn lemma_byte_offset_step(s: Seq<char>, k: int)
    requires
        0 <= k < s.len(),
    ensures
        byte_offset(s, k + 1) == byte_offset(s, k) + utf8_width(s[k]),
        1 <= utf8_width(s[k]) <= 4,
{
    assert(s.take(k + 1) =~= s.take(k) + seq![s[k]]);
    lemma_encode_utf8_concat(s.take(k), seq![s[k]]);
    char_is_scalar(s[k]);
    let one = seq![s[k]];
    assert(one.drop_first() =~= Seq::<char>::empty());
    assert(encode_utf8(one.drop_first()) =~= Seq::<u8>::empty());
    assert(encode_utf8(one) == encode_scalar(one[0] as u32) + encode_utf8(one.drop_first()));
    assert(encode_utf8(one) =~= encode_scalar(s[k] as u32));
}

/// Offsets grow strictly from one character to the next.
pub proof fn lemma_byte_offset_increasing(s: Seq<char>, j: int, k: int)
    requires
        0 <= j <= k <= s.len(),
    ensures
        byte_offset(s, j) + (k - j) <= byte_offset(s, k),
        byte_offset(s, k) <= byte_offset(s, j) + 4 * (k - j),
    decreases k - j,
{
    if j < k {
        lemma_byte_offset_increasing(s, j, k - 1);
        lemma_byte_offset_step(s, k - 1);
    }
}

/// The offset of the end of `s` is the length of its encoding.
pub proof fn lemma_byte_offset_end(s: Seq<char>)
    ensures
        byte_offset(s, s.len() as int) == encode_utf8(s).len(),
{
    assert(s.take(s.len() as int) =~= s);
}

/// The byte index of a character is a character boundary, and the
/// character that starts there is that character: what
/// `string_char_byte_index` gives, `string_find` accepts as a start.
pub proof fn lemma_offset_of_char(s: Seq<char>, k: int)
    requires
        0 <= k <= s.len(),
    ensures
        char_at_offset(s, byte_offset(s, k)) == Some(k),
{
    let b = byte_offset(s, k);
    assert(0 <= k <= s.len() && byte_offset(s, k) == b);
    let c = choose|c: int| 0 <= c <= s.len() && byte_offset(s, c) == b;
    if c < k {
        lemma_byte_offset_increasing(s, c, k);
    }
    if c > k {
        lemma_byte_offset_increasing(s, k, c);
    }
}

/// What a search finds is an occurrence, and no occurrence comes before
/// it from where the search started.
pub proof fn lemma_first_occurrence(s: Seq<char>, sub: Seq<char>, k: int)
    requires
        0 <= k,
    ensures
        first_occurrence(s, sub, k) matches Some(j) ==> k <= j && occurs_at(s, sub, j) && forall|i: int|
            k <= i < j ==> !occurs_at(s, sub, i),
        first_occurrence(s, sub, k) is None ==> forall|i: int| k <= i < s.len() ==> !occurs_at(s, sub, i),
    decreases s.len() - k,
{
    if k < s.len() && !occurs_at(s, sub, k) {
        lemma_first_occurrence(s, sub, k + 1);
    }
}

/// The number of bytes `c` takes in UTF-8.
fn char_width(c: char) -> (w: usize)
    ensures
        w == utf8_width(c),
        1 <= w <= 4,
{
    proof {
        char_is_scalar(c);
    }
    let u = c as u32;
    if u <= 0x7f {
        1
    } else if u <= 0x7ff {
        2
    } else if u <= 0xffff {
        3
    } else {
        4
    }
}

/// Whether `sub` occurs in `chars` starting at `k`.
fn occurs_at_exec(chars: &Vec<char>, sub: &Vec<char>, k: usize) -> (b: bool)
    ensures
        b == occurs_at(chars@, sub@, k as int),
{
    if k > chars.len() || sub.len() > chars.len() - k {
        return false;
    }
    let mut i: usize = 0;
    while i < sub.len()
        invariant
            k + sub@.len() <= chars@.len(),
            k + sub.len() <= chars.len(),
            i <= sub@.len(),
            forall|m: int| 0 <= m < i ==> chars@[k + m] == sub@[m],
        decreases sub@.len() - i,
    {
        if chars[k + i] != sub[i] {
            assert(chars@.subrange(k as int, k + sub@.len())[i as int] != sub@[i as int]);
            return false;
        }
        i = i + 1;
    }
    assert(chars@.subrange(k as int, k + sub@.len()) =~= sub@);
    true
}

/// The first byte index, at or after `start`, where `substring` occurs in
/// `string`; a negative `start` counts back from the end. Fails when the
/// substring is empty, when the start is outside the string, or when it is
/// not on a character boundary.
pub fn string_find(string: &str, substring: &str, start: isize) -> (r: Result<Option<usize>, Error>)
    requires
        encode_utf8(string@).len() <= isize::MAX,
    ensures
        substring@.len() == 0 ==> fails_with(r, ErrorKind::ValueError, "Cannot find empty string."@),
        substring@.len() > 0 && !(0 <= search_start(string@, start as int) < byte_offset(
            string@,
            string@.len() as int,
        )) ==> fails_with(r, ErrorKind::IndexError, "String index out of bounds."@),
        substring@.len() > 0 && 0 <= search_start(string@, start as int) < byte_offset(
            string@,
            string@.len() as int,
        ) && char_at_offset(string@, search_start(string@, start as int)) is None ==> fails_with(
            r,
            ErrorKind::IndexError,
            "Provided string index is not on a character boundary."@,
        ),
        substring@.len() > 0 && 0 <= search_start(string@, start as int) < byte_offset(
            string@,
            string@.len() as int,
        ) && char_at_offset(string@, search_start(string@, start as int)) is Some ==> r
            == Ok::<Option<usize>, Error>(
            found_offset(
                string@,
                substring@,
                char_at_offset(string@, search_start(string@, start as int)).unwrap(),
            ),
        ),
{
    let chars = string_to_chars(string);
    let sub = string_to_chars(substring);
    if sub.len() == 0 {
        return Err(Error::with_message(ErrorKind::ValueError, "Cannot find empty string."));
    }
    let ghost s = string@;
    let n_chars = chars.len();
    let len = string.len();
    proof {
        lemma_byte_offset_end(s);
        lemma_byte_offset_increasing(s, 0, s.len() as int);
    }
    let string_len = len as isize;
    let begin = if start < 0 {
        start + string_len
    } else {
        start
    };
    if begin < 0 || begin >= string_len {
        return Err(Error::with_message(ErrorKind::IndexError, "String index out of bounds."));
    }
    let begin = begin as usize;
    assert(begin == search_start(s, start as int));
    // Walk to the character whose encoding starts at `begin`.
    let mut k: usize = 0;
    let mut pos: usize = 0;
    assert(s.take(0) =~= Seq::<char>::empty());
    while k < n_chars && pos < begin
        invariant
            n_chars == s.len(),
            chars@ == s,
            k <= n_chars,
            pos == byte_offset(s, k as int),
            byte_offset(s, s.len() as int) == len,
            len <= isize::MAX,
            begin < len,
            forall|j: int| 0 <= j < k ==> byte_offset(s, j) < begin,
        decreases n_chars - k,
    {
        proof {
            lemma_byte_offset_step(s, k as int);
            lemma_byte_offset_increasing(s, k + 1, s.len() as int);
        }
        pos = pos + char_width(chars[k]);
        k = k + 1;
    }
    proof {
        if k == n_chars {
            assert(pos == len);
        }
    }
    if pos != begin {
        proof {
            assert forall|j: int| 0 <= j <= s.len() implies byte_offset(s, j) != begin by {
                if j >= k {
                    lemma_byte_offset_increasing(s, k as int, j);
                }
            }
        }
        return Err(
            Error::with_message(
                ErrorKind::IndexError,
                "Provided string index is not on a character boundary.",
            ),
        );
    }
    proof {
        assert(byte_offset(s, k as int) == begin);
        let c = choose|c: int| 0 <= c <= s.len() && byte_offset(s, c) == begin;
        if c < k {
            lemma_byte_offset_increasing(s, c, k as int);
        }
        if c > k {
            lemma_byte_offset_increasing(s, k as int, c);
        }
        assert(char_at_offset(s, begin as int) == Some(k as int));
    }
    let ghost k0 = k as int;
    // Search onwards, one character at a time.
    let mut j = k;
    while j < n_chars
        invariant
            n_chars == s.len(),
            chars@ == s,
            sub@ == substring@,
            sub@.len() > 0,
            k0 <= j <= n_chars,
            pos == byte_offset(s, j as int),
            byte_offset(s, s.len() as int) == len,
            len <= isize::MAX,
            s == string@,
            begin == search_start(s, start as int),
            0 <= begin < len,
            char_at_offset(s, begin as int) == Some(k0),
            first_occurrence(s, sub@, k0) == first_occurrence(s, sub@, j as int),
        decreases n_chars - j,
    {
        if occurs_at_exec(&chars, &sub, j) {
            return Ok(Some(pos));
        }
        proof {
            lemma_byte_offset_step(s, j as int);
            lemma_byte_offset_increasing(s, j + 1, s.len() as int);
        }
        pos = pos + char_width(chars[j]);
        j = j + 1;
    }
    Ok(None)
}

/// The byte index at which character `char_index` of `string` starts, or
/// the length of the string for the index just past its last character;
/// fails for an index beyond that.
pub fn string_char_byte_index(string: &str, char_index: usize) -> (r: Result<usize, Error>)
    requires
        encode_utf8(string@).len() <= usize::MAX,
    ensures
        char_index <= string@.len() ==> r == Ok::<usize, Error>(
            byte_offset(string@, char_index as int) as usize,
        ),
        char_index > string@.len() ==> fails_with(
            r,
            ErrorKind::IndexError,
            "Provided character index out of range."@,
        ),
{
    let chars = string_to_chars(string);
    let ghost s = string@;
    if char_index > chars.len() {
        return Err(
            Error::with_message(ErrorKind::IndexError, "Provided character index out of range."),
        );
    }
    proof {
        lemma_byte_offset_end(s);
    }
    let mut k: usize = 0;
    let mut pos: usize = 0;
    assert(s.take(0) =~= Seq::<char>::empty());
    while k < char_index
        invariant
            chars@ == s,
            char_index <= s.len(),
            k <= char_index,
            pos == byte_offset(s, k as int),
            byte_offset(s, s.len() as int) <= usize::MAX,
        decreases char_index - k,
    {
        proof {
            lemma_byte_offset_step(s, k as int);
            lemma_byte_offset_increasing(s, k + 1, s.len() as int);
        }
        pos = pos + char_width(chars[k]);
        k = k + 1;
    }
    Ok(pos)
}

/// Whether `string` begins with `prefix`.
pub fn string_starts_with(string: &str, prefix: &str) -> (b: bool)
    ensures
        b == occurs_at(string@, prefix@, 0),
{
    let chars = string_to_chars(string);
    let p = string_to_chars(prefix);
    occurs_at_exec(&chars, &p, 0)
}

/// Whether `string` ends with `suffix`.
pub fn string_ends_with(string: &str, suffix: &str) -> (b: bool)
    ensures
        b == (suffix@.len() <= string@.len() && occurs_at(
            string@,
            suffix@,
            string@.len() - suffix@.len(),
        )),
{
    let chars = string_to_chars(string);
    let p = string_to_chars(suffix);
    if p.len() > chars.len() {
        return false;
    }
    occurs_at_exec(&chars, &p, chars.len() - p.len())
}

/// The number of characters in `string`.
pub fn string_count_chars(string: &str) -> (n: usize)
    ensures
        n == string@.len(),
{
    string_to_chars(string).len()
}

/// `string` with every occurrence of `old` replaced by `new`; fails when
/// `old` is empty.
pub fn string_replace(string: &str, old: &str, new: &str) -> (r: Result<String, Error>)
    ensures
        old@.len() == 0 ==> fails_with(r, ErrorKind::ValueError, "Cannot replace empty string."@),
        old@.len() > 0 ==> (r matches Ok(s) && s@ == replace_all(string@, old@, new@)),
{
    if old.is_empty() {
        return Err(Error::with_message(ErrorKind::ValueError, "Cannot replace empty string."));
    }
    Ok(replace(string, old, new))
}

/// The pieces of `s` from character `from` on, cut at each occurrence of
/// `d` found scanning from character `k`.
pub open spec fn split_from(s: Seq<char>, d: Seq<char>, from: int, k: int) -> Seq<Seq<char>>
    decreases s.len() - k,
{
    if d.len() == 0 || k < 0 || k + d.len() > s.len() {
        seq![s.subrange(from, s.len() as int)]
    } else if occurs_at(s, d, k) {
        seq![s.subrange(from, k)] + split_from(s, d, k + d.len(), k + d.len())
    } else {
        split_from(s, d, from, k + 1)
    }
}

/// The pieces of `s` between the occurrences of `d`, found from the left
/// without overlapping (`str::split`).
pub open spec fn split_all(s: Seq<char>, d: Seq<char>) -> Seq<Seq<char>> {
    split_from(s, d, 0, 0)
}

/// The pieces joined back together with `d` between each two.
pub open spec fn join_with(pieces: Seq<Seq<char>>, d: Seq<char>) -> Seq<char>
    decreases pieces.len(),
{
    if pieces.len() == 0 {
        Seq::empty()
    } else if pieces.len() == 1 {
        pieces[0]
    } else {
        pieces[0] + d + join_with(pieces.drop_first(), d)
    }
}

proof fn lemma_split_from_join(s: Seq<char>, d: Seq<char>, from: int, k: int)
    requires
        d.len() > 0,
        0 <= from <= k <= s.len(),
    ensures
        split_from(s, d, from, k).len() >= 1,
        join_with(split_from(s, d, from, k), d) == s.subrange(from, s.len() as int),
    decreases s.len() - k,
{
    if k + d.len() > s.len() {
    } else if occurs_at(s, d, k) {
        let m = d.len() as int;
        lemma_split_from_join(s, d, k + m, k + m);
        let rest = split_from(s, d, k + m, k + m);
        let all = seq![s.subrange(from, k)] + rest;
        assert(all.drop_first() =~= rest);
        assert(all[0] == s.subrange(from, k));
        assert(s.subrange(from, s.len() as int) =~= s.subrange(from, k) + d + s.subrange(
            k + m,
            s.len() as int,
        ));
    } else {
        lemma_split_from_join(s, d, from, k + 1);
    }
}

/// Splitting a string at a non-empty delimiter and joining the pieces back
/// with that delimiter gives the string again.
pub proof fn lemma_split_then_join(s: Seq<char>, d: Seq<char>)
    requires
        d.len() > 0,
    ensures
        split_all(s, d).len() >= 1,
        join_with(split_all(s, d), d) == s,
{
    lemma_split_from_join(s, d, 0, 0);
    assert(s.subrange(0, s.len() as int) =~= s);
}


/// A piece `s[from..end]` holds no occurrence of `d` when none starts in
/// `s` from `from` up to `end - d.len()`.
proof fn lemma_piece_free(s: Seq<char>, d: Seq<char>, from: int, end: int, k: int)
    requires
        d.len() > 0,
        0 <= from <= end <= s.len(),
        end < k + d.len(),
        forall|p: int| from <= p < k ==> !#[trigger] occurs_at(s, d, p),
    ensures
        forall|q: int| !#[trigger] occurs_at(s.subrange(from, end), d, q),
{
    let piece = s.subrange(from, end);
    assert forall|q: int| !#[trigger] occurs_at(piece, d, q) by {
        if occurs_at(piece, d, q) {
            assert(piece.subrange(q, q + d.len()) =~= s.subrange(from + q, from + q + d.len()));
            assert(occurs_at(s, d, from + q));
        }
    }
}

proof fn lemma_split_from_free(s: Seq<char>, d: Seq<char>, from: int, k: int)
    requires
        d.len() > 0,
        0 <= from <= k <= s.len(),
        forall|p: int| from <= p < k ==> !#[trigger] occurs_at(s, d, p),
    ensures
        forall|i: int, q: int|
            0 <= i < split_from(s, d, from, k).len() ==> !#[trigger] occurs_at(split_from(s, d, from, k)[i], d, q),
    decreases s.len() - k,
{
    let m = d.len() as int;
    if k + m > s.len() {
        lemma_piece_free(s, d, from, s.len() as int, k);
        let one = split_from(s, d, from, k);
        assert(one == seq![s.subrange(from, s.len() as int)]);
        assert forall|i: int, q: int| 0 <= i < one.len() implies !#[trigger] occurs_at(one[i], d, q) by {
            assert(one[i] == s.subrange(from, s.len() as int));
        }
    } else if occurs_at(s, d, k) {
        lemma_piece_free(s, d, from, k, k);
        lemma_split_from_free(s, d, k + m, k + m);
        let rest = split_from(s, d, k + m, k + m);
        let all = seq![s.subrange(from, k)] + rest;
        assert(split_from(s, d, from, k) == all);
        assert forall|i: int, q: int| 0 <= i < all.len() implies !#[trigger] occurs_at(all[i], d, q) by {
            if i > 0 {
                assert(all[i] == rest[i - 1]);
            } else {
                assert(all[i] == s.subrange(from, k));
            }
        }
    } else {
        lemma_split_from_free(s, d, from, k + 1);
        assert(split_from(s, d, from, k) == split_from(s, d, from, k + 1));
    }
}

/// The pieces that splitting at a non-empty delimiter gives hold no
/// occurrence of the delimiter: every occurrence has been cut at.
pub proof fn lemma_split_pieces_hold_no_delimiter(s: Seq<char>, d: Seq<char>)
    requires
        d.len() > 0,
    ensures
        forall|i: int, q: int| 0 <= i < split_all(s, d).len() ==> !#[trigger] occurs_at(split_all(s, d)[i], d, q),
{
    lemma_split_from_free(s, d, 0, 0);
}

/// Text shorter than the pattern holds no occurrence of it, so replacing
/// leaves it as it is.
proof fn lemma_replace_short(t: Seq<char>, pat: Seq<char>, rep: Seq<char>)
    requires
        t.len() < pat.len(),
    ensures
        replace_all(t, pat, rep) == t,
    decreases t.len(),
{
    if t.len() > 0 {
        lemma_replace_short(t.subrange(1, t.len() as int), pat, rep);
        assert(seq![t[0]] + t.subrange(1, t.len() as int) =~= t);
    }
}

proof fn lemma_split_from_replace(s: Seq<char>, d: Seq<char>, rep: Seq<char>, from: int, k: int)
    requires
        d.len() > 0,
        0 <= from <= k <= s.len(),
    ensures
        join_with(split_from(s, d, from, k), rep) == s.subrange(from, k) + replace_all(
            s.subrange(k, s.len() as int),
            d,
            rep,
        ),
    decreases s.len() - k,
{
    let t = s.subrange(k, s.len() as int);
    let m = d.len() as int;
    if k + m > s.len() {
        lemma_replace_short(t, d, rep);
        assert(s.subrange(from, k) + t =~= s.subrange(from, s.len() as int));
    } else if occurs_at(s, d, k) {
        lemma_split_from_replace(s, d, rep, k + m, k + m);
        lemma_split_from_join(s, d, k + m, k + m);
        let rest = split_from(s, d, k + m, k + m);
        let all = seq![s.subrange(from, k)] + rest;
        assert(all.drop_first() =~= rest);
        assert(all[0] == s.subrange(from, k));
        assert(t.subrange(0, m) =~= d);
        assert(t.subrange(m, t.len() as int) =~= s.subrange(k + m, s.len() as int));
        assert(s.subrange(k + m, k + m) =~= Seq::<char>::empty());
        assert(Seq::<char>::empty() + replace_all(s.subrange(k + m, s.len() as int), d, rep) =~= replace_all(
            s.subrange(k + m, s.len() as int),
            d,
            rep,
        ));
    } else {
        lemma_split_from_replace(s, d, rep, from, k + 1);
        assert(t.subrange(0, m) != d) by {
            assert(s.subrange(k, k + m) =~= t.subrange(0, m));
        }
        assert(t.subrange(1, t.len() as int) =~= s.subrange(k + 1, s.len() as int));
        assert(s.subrange(from, k + 1) =~= s.subrange(from, k) + seq![t[0]]);
        assert(s.subrange(from, k + 1) + replace_all(s.subrange(k + 1, s.len() as int), d, rep) =~= s.subrange(
            from,
            k,
        ) + (seq![t[0]] + replace_all(s.subrange(k + 1, s.len() as int), d, rep)));
    }
}

/// Replacing every occurrence of a non-empty pattern is cutting the text at
/// the occurrences and joining the pieces with the replacement between
/// them: nothing of an occurrence is left, and everything else is kept in
/// order.
pub proof fn lemma_replace_is_split_then_join(s: Seq<char>, pat: Seq<char>, rep: Seq<char>)
    requires
        pat.len() > 0,
    ensures
        replace_all(s, pat, rep) == join_with(split_all(s, pat), rep),
{
    lemma_split_from_replace(s, pat, rep, 0, 0);
    assert(s.subrange(0, 0) =~= Seq::<char>::empty());
    assert(s.subrange(0, s.len() as int) =~= s);
    assert(Seq::<char>::empty() + replace_all(s, pat, rep) =~= replace_all(s, pat, rep));
}

/// The pieces of `string` between the occurrences of `delim`; fails when
/// `delim` is empty.
pub fn string_split(string: &str, delim: &str) -> (r: Result<Vec<String>, Error>)
    ensures
        delim@.len() == 0 ==> fails_with(
            r,
            ErrorKind::ValueError,
            "Cannot split using an empty string."@,
        ),
        delim@.len() > 0 ==> (r matches Ok(v) && messages_view(v@) == split_all(string@, delim@)),
{
    let chars = string_to_chars(string);
    let d = string_to_chars(delim);
    if d.len() == 0 {
        return Err(
            Error::with_message(ErrorKind::ValueError, "Cannot split using an empty string."),
        );
    }
    let ghost s = string@;
    let n = chars.len();
    let m = d.len();
    let mut out: Vec<String> = Vec::new();
    let mut from: usize = 0;
    let mut k: usize = 0;
    assert(messages_view(out@) + split_from(s, d@, 0, 0) =~= split_all(s, d@));
    while m <= n - k
        invariant
            chars@ == s,
            n == s.len(),
            m == d@.len(),
            m > 0,
            from <= k <= n,
            messages_view(out@) + split_from(s, d@, from as int, k as int) == split_all(s, d@),
        decreases n - k,
    {
        if occurs_at_exec(&chars, &d, k) {
            let piece = chars_to_string(&chars, from, k);
            let ghost before = out@;
            out.push(piece);
            proof {
                assert(messages_view(out@) =~= messages_view(before).push(piece@));
                assert(split_from(s, d@, from as int, k as int) == seq![s.subrange(from as int, k as int)]
                    + split_from(s, d@, k + m, k + m));
                assert(messages_view(out@) + split_from(s, d@, k + m, k + m) =~= messages_view(before)
                    + split_from(s, d@, from as int, k as int));
            }
            k = k + m;
            from = k;
        } else {
            k = k + 1;
        }
    }
    let piece = chars_to_string(&chars, from, n);
    let ghost before = out@;
    out.push(piece);
    proof {
        assert(split_from(s, d@, from as int, k as int) == seq![s.subrange(from as int, n as int)]);
        assert(messages_view(out@) =~= messages_view(before) + seq![piece@]);
    }
    Ok(out)
}

/// The character with the given code point (`char::from_u32`): `None` for
/// a surrogate or a value above the last code point.
#[verifier::external_body]
fn char_from_u32(u: u32) -> (r: Option<char>)
    ensures
        r is Some <==> is_scalar(u),
        r matches Some(c) ==> c as u32 == u,
{
    char::from_u32(u)
}

/// The first position at or after `k` holding a value that is no code point.
pub open spec fn first_non_scalar(points: Seq<u32>, k: int) -> Option<int>
    decreases points.len() - k,
{
    if k < 0 || k >= points.len() {
        None
    } else if !is_scalar(points[k]) {
        Some(k)
    } else {
        first_non_scalar(points, k + 1)
    }
}

/// The message for a value that is not a code point.
pub open spec fn bad_code_point_message(u: u32) -> Seq<char> {
    "Expected a valid Unicode code point but found '"@ + decimal(u as nat) + "'."@
}

/// The string whose characters have the given code points; fails at the
/// first value that is not a code point.
pub fn string_from_code_points(points: &[u32]) -> (r: Result<String, Error>)
    ensures
        first_non_scalar(points@, 0) is None ==> (r matches Ok(s) && s@.len() == points@.len()
            && forall|i: int| 0 <= i < points@.len() ==> #[trigger] (s@[i] as u32) == points@[i]),
        first_non_scalar(points@, 0) is Some ==> fails_with(
            r,
            ErrorKind::ValueError,
            bad_code_point_message(points@[first_non_scalar(points@, 0).unwrap()]),
        ),
{
    let mut out = String::new();
    let mut i: usize = 0;
    while i < points.len()
        invariant
            i <= points@.len(),
            out@.len() == i,
            forall|j: int| 0 <= j < i ==> #[trigger] (out@[j] as u32) == points@[j],
            first_non_scalar(points@, 0) == first_non_scalar(points@, i as int),
        decreases points@.len() - i,
    {
        match char_from_u32(points[i]) {
            Some(c) => {
                let ghost before = out@;
                push_char(&mut out, c);
                assert(forall|j: int| 0 <= j < i ==> out@[j] == before[j]);
            },
            None => {
                let mut msg = String::new();
                msg.append("Expected a valid Unicode code point but found '");
                msg.append(usize_to_string(points[i] as usize).as_str());
                msg.append("'.");
                proof {
                    reveal_strlit("Expected a valid Unicode code point but found '");
                    reveal_strlit("'.");
                }
                assert(msg@ =~= bad_code_point_message(points@[i as int]));
                return Err(Error::with_message(ErrorKind::ValueError, msg.as_str()));
            },
        }
        i = i + 1;
    }
    Ok(out)
}

/// The bytes a list of character codes stands for: a code up to 127 is
/// one byte; a larger one is the byte 195 followed by the code with its
/// seventh bit cleared.
pub open spec fn ascii_bytes(codes: Seq<u8>) -> Seq<u8>
    decreases codes.len(),
{
    if codes.len() == 0 {
        Seq::empty()
    } else {
        let c = codes.last();
        ascii_bytes(codes.drop_last()) + if c > 127 {
            seq![195u8, c & 0xbfu8]
        } else {
            seq![c]
        }
    }
}

/// The string that a list of character codes stands for; fails when the
/// bytes they stand for are not UTF-8.
pub fn string_from_ascii(codes: &[u8]) -> (r: Result<String, Error>)
    ensures
        r is Ok <==> valid_utf8(ascii_bytes(codes@)),
        r matches Ok(s) ==> s@ == decode_utf8(ascii_bytes(codes@)),
        r is Err ==> fails_with(
            r,
            ErrorKind::ValueError,
            "Unable to create a string from byte sequence."@,
        ),
{
    let mut bytes: Vec<u8> = Vec::new();
    let mut i: usize = 0;
    while i < codes.len()
        invariant
            i <= codes@.len(),
            bytes@ == ascii_bytes(codes@.take(i as int)),
        decreases codes@.len() - i,
    {
        let c = codes[i];
        if c > 127 {
            bytes.push(195);
            bytes.push(c & 0xbf);
        } else {
            bytes.push(c);
        }
        assert(codes@.take((i + 1) as int).drop_last() =~= codes@.take(i as int));
        assert(bytes@ =~= ascii_bytes(codes@.take((i + 1) as int)));
        i = i + 1;
    }
    assert(codes@.take(i as int) =~= codes@);
    match string_from_utf8(bytes) {
        Some(s) => Ok(s),
        None => Err(
            Error::with_message(
                ErrorKind::ValueError,
                "Unable to create a string from byte sequence.",
            ),
        ),
    }
}

/// `s` with every occurrence of `pat`, scanning from the left and not
/// overlapping, replaced by `rep`.
pub open spec fn replace_all(s: Seq<char>, pat: Seq<char>, rep: Seq<char>) -> Seq<char>
    decreases s.len(),
{
    if s.len() == 0 || pat.len() == 0 {
        s
    } else if s.len() >= pat.len() && s.subrange(0, pat.len() as int) == pat {
        rep + replace_all(s.subrange(pat.len() as int, s.len() as int), pat, rep)
    } else {
        seq![s[0]] + replace_all(s.subrange(1, s.len() as int), pat, rep)
    }
}

/// `s` with every occurrence of `pat` replaced by `rep` (`str::replace`).
pub(crate) fn replace(s: &str, pat: &str, rep: &str) -> (r: String)
    requires
        pat@.len() > 0,
    ensures
        r@ == replace_all(s@, pat@, rep@),
{
    let chars = string_to_chars(s);
    let pat_chars = string_to_chars(pat);
    let mut out = String::new();
    let mut i: usize = 0;
    let n = chars.len();
    let m = pat_chars.len();
    assert(chars@.subrange(0, n as int) =~= chars@);
    assert(out@ + replace_all(chars@, pat@, rep@) =~= replace_all(chars@, pat@, rep@));
    while i < n
        invariant
            n == chars@.len(),
            m == pat_chars@.len(),
            chars@ == s@,
            pat_chars@ == pat@,
            m > 0,
            i <= n,
            replace_all(s@, pat@, rep@) == out@ + replace_all(chars@.subrange(i as int, n as int), pat@, rep@),
        decreases n - i,
    {
        let ghost rest = chars@.subrange(i as int, n as int);
        let mut matched = n - i >= m;
        let mut k: usize = 0;
        while matched && k < m
            invariant
                n == chars@.len(),
                m == pat_chars@.len(),
                i <= n,
                k <= m,
                matched ==> n - i >= m,
                matched ==> chars@.subrange(i as int, i + k) == pat_chars@.subrange(0, k as int),
                !matched ==> !(n - i >= m && chars@.subrange(i as int, i + m) == pat_chars@),
            ensures
                matched ==> k == m,
            decreases m - k,
        {
            if chars[i + k] != pat_chars[k] {
                proof {
                    if n - i >= m && chars@.subrange(i as int, i + m) == pat_chars@ {
                        assert(chars@.subrange(i as int, i + m)[k as int] == chars@[i + k]);
                    }
                }
                matched = false;
                break;
            } else {
                assert(chars@.subrange(i as int, i + k + 1) =~= chars@.subrange(i as int, i + k).push(chars@[i + k]));
                assert(pat_chars@.subrange(0, k + 1) =~= pat_chars@.subrange(0, k as int).push(pat_chars@[k as int]));
                k = k + 1;
            }
        }
        proof {
            if matched {
                assert(pat_chars@.subrange(0, m as int) =~= pat_chars@);
            }
            assert(rest.len() == n - i);
            if rest.len() >= m {
                assert(rest.subrange(0, m as int) =~= chars@.subrange(i as int, i + m));
            }
        }
        if matched {
            out.append(rep);
            proof {
                assert(rest.subrange(m as int, rest.len() as int) =~= chars@.subrange(i + m, n as int));
            }
            i = i + m;
        } else {
            push_char(&mut out, chars[i]);
            proof {
                assert(rest[0] == chars@[i as int]);
                assert(rest.subrange(1, rest.len() as int) =~= chars@.subrange(i + 1, n as int));
            }
            i = i + 1;
        }
    }
    assert(chars@.subrange(n as int, n as int) =~= Seq::<char>::empty());
    assert(out@ + Seq::<char>::empty() =~= out@);
    out
}

} // verus!
