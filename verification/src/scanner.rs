use vstd::prelude::*;
use vstd::string::*;
use vstd::utf8::*;

use crate::text::{push_char, string_from_utf8, string_to_chars};

verus! {

/// How deeply string interpolations may nest.
pub const INTERPOLATION_DEPTH_MAX: usize = 8;

/// The kinds of token the scanner produces.
#[derive(Clone, Copy, Debug, PartialEq, Eq, Structural)]
pub enum TokenKind {
    LeftParen,
    RightParen,
    LeftBrace,
    RightBrace,
    LeftBracket,
    RightBracket,
    Comma,
    Dot,
    DotDot,
    Minus,
    MinusEqual,
    Plus,
    PlusEqual,
    Colon,
    SemiColon,
    Slash,
    SlashEqual,
    Star,
    StarEqual,
    Bang,
    BangEqual,
    Equal,
    EqualEqual,
    Greater,
    GreaterEqual,
    Less,
    LessEqual,
    Bar,
    Identifier,
    Str,
    Interpolation,
    Number,
    And,
    CapSelf,
    Class,
    Else,
    False,
    For,
    Fn,
    If,
    In,
    Nil,
    Or,
    Return,
    Self_,
    Static,
    Super,
    True,
    Var,
    While,
    Error,
    Eof,
}

impl Default for TokenKind {
    fn default() -> (k: Self)
        ensures
            k == TokenKind::Eof,
    {
        TokenKind::Eof
    }
}

/// A token: its kind, the line it ends on, and its text (the lexeme, the
/// decoded contents of a string literal, or an error message).
#[derive(Clone, Debug)]
pub struct Token {
    pub kind: TokenKind,
    pub line: usize,
    pub source: String,
}

impl Token {
    /// The end-of-input token on line 0 with empty text.
    pub fn new() -> (t: Self)
        ensures
            t.kind == TokenKind::Eof,
            t.line == 0,
            t.source@ == Seq::<char>::empty(),
    {
        Token { kind: TokenKind::Eof, line: 0, source: String::new() }
    }

    /// An end-of-input token on line 0 carrying the given text.
    pub fn from_string(source: &str) -> (t: Self)
        ensures
            t.kind == TokenKind::Eof,
            t.line == 0,
            t.source@ == source@,
    {
        Token { kind: TokenKind::Eof, line: 0, source: source.to_owned() }
    }
}

impl Default for Token {
    fn default() -> (t: Self)
        ensures
            t.kind == TokenKind::Eof,
            t.line == 0,
            t.source@ == Seq::<char>::empty(),
    {
        Token::new()
    }
}

// ---------------------------------------------------------------------------
// The lexical grammar, as mathematical functions over the source characters.
// ---------------------------------------------------------------------------

/// An ASCII letter or an underscore.
pub open spec fn is_alpha_char(c: char) -> bool {
    ('a' <= c && c <= 'z') || ('A' <= c && c <= 'Z') || c == '_'
}

/// An ASCII decimal digit.
pub open spec fn is_digit_char(c: char) -> bool {
    '0' <= c && c <= '9'
}

/// A character that may continue an identifier.
pub open spec fn is_word_char(c: char) -> bool {
    is_alpha_char(c) || is_digit_char(c)
}

/// The index of the first line break at or after `pos`, or the end of the source.
pub open spec fn comment_end(src: Seq<char>, pos: int) -> int
    decreases src.len() - pos,
{
    if pos < 0 || pos >= src.len() || src[pos] == '\n' {
        pos
    } else {
        comment_end(src, pos + 1)
    }
}

/// The end of the run of identifier characters that starts at `pos`.
pub open spec fn word_end(src: Seq<char>, pos: int) -> int
    decreases src.len() - pos,
{
    if pos < 0 || pos >= src.len() || !is_word_char(src[pos]) {
        pos
    } else {
        word_end(src, pos + 1)
    }
}

/// The end of the run of decimal digits that starts at `pos`.
pub open spec fn digits_end(src: Seq<char>, pos: int) -> int
    decreases src.len() - pos,
{
    if pos < 0 || pos >= src.len() || !is_digit_char(src[pos]) {
        pos
    } else {
        digits_end(src, pos + 1)
    }
}

pub proof fn lemma_comment_end(src: Seq<char>, pos: int)
    requires
        0 <= pos,
    ensures
        pos <= comment_end(src, pos),
        pos <= src.len() ==> comment_end(src, pos) <= src.len(),
        comment_end(src, pos) < src.len() ==> src[comment_end(src, pos)] == '\n',
    decreases src.len() - pos,
{
    if pos < src.len() && src[pos] != '\n' {
        lemma_comment_end(src, pos + 1);
    }
}

pub proof fn lemma_word_end(src: Seq<char>, pos: int)
    requires
        0 <= pos <= src.len(),
    ensures
        pos <= word_end(src, pos) <= src.len(),
        forall|i: int| pos <= i < word_end(src, pos) ==> is_word_char(#[trigger] src[i]),
        word_end(src, pos) < src.len() ==> !is_word_char(src[word_end(src, pos)]),
    decreases src.len() - pos,
{
    if pos < src.len() && is_word_char(src[pos]) {
        lemma_word_end(src, pos + 1);
    }
}

pub proof fn lemma_digits_end(src: Seq<char>, pos: int)
    requires
        0 <= pos <= src.len(),
    ensures
        pos <= digits_end(src, pos) <= src.len(),
        forall|i: int| pos <= i < digits_end(src, pos) ==> is_digit_char(#[trigger] src[i]),
        digits_end(src, pos) < src.len() ==> !is_digit_char(src[digits_end(src, pos)]),
    decreases src.len() - pos,
{
    if pos < src.len() && is_digit_char(src[pos]) {
        lemma_digits_end(src, pos + 1);
    }
}

/// Skips blanks, line breaks (counting them) and `//` comments from `pos`;
/// the position reached and the line number there.
pub open spec fn skip_ws(src: Seq<char>, pos: int, line: int) -> (int, int)
    decreases src.len() - pos,
{
    if pos < 0 || pos >= src.len() {
        (pos, line)
    } else if src[pos] == ' ' || src[pos] == '\r' || src[pos] == '\t' {
        skip_ws(src, pos + 1, line)
    } else if src[pos] == '\n' {
        skip_ws(src, pos + 1, line + 1)
    } else if src[pos] == '/' && pos + 1 < src.len() && src[pos + 1] == '/' {
        proof {
            lemma_comment_end(src, pos + 1);
        }
        skip_ws(src, comment_end(src, pos + 1), line)
    } else {
        (pos, line)
    }
}

/// The end of a number literal whose first digit is just before `pos`: more
/// digits, then optionally a dot followed by at least one digit and more digits.
pub open spec fn number_end(src: Seq<char>, pos: int) -> int {
    let d = digits_end(src, pos);
    if d + 1 < src.len() && src[d] == '.' && is_digit_char(src[d + 1]) {
        digits_end(src, d + 1)
    } else {
        d
    }
}

/// The reserved words of the language and their kinds; any other word is an
/// identifier.
pub open spec fn keyword_kind(w: Seq<char>) -> TokenKind {
    if w == seq!['a', 'n', 'd'] {
        TokenKind::And
    } else if w == seq!['c', 'l', 'a', 's', 's'] {
        TokenKind::Class
    } else if w == seq!['e', 'l', 's', 'e'] {
        TokenKind::Else
    } else if w == seq!['f', 'a', 'l', 's', 'e'] {
        TokenKind::False
    } else if w == seq!['f', 'o', 'r'] {
        TokenKind::For
    } else if w == seq!['f', 'n'] {
        TokenKind::Fn
    } else if w == seq!['i', 'f'] {
        TokenKind::If
    } else if w == seq!['i', 'n'] {
        TokenKind::In
    } else if w == seq!['n', 'i', 'l'] {
        TokenKind::Nil
    } else if w == seq!['o', 'r'] {
        TokenKind::Or
    } else if w == seq!['r', 'e', 't', 'u', 'r', 'n'] {
        TokenKind::Return
    } else if w == seq!['S', 'e', 'l', 'f'] {
        TokenKind::CapSelf
    } else if w == seq!['s', 'e', 'l', 'f'] {
        TokenKind::Self_
    } else if w == seq!['s', 't', 'a', 't', 'i', 'c'] {
        TokenKind::Static
    } else if w == seq!['s', 'u', 'p', 'e', 'r'] {
        TokenKind::Super
    } else if w == seq!['t', 'r', 'u', 'e'] {
        TokenKind::True
    } else if w == seq!['v', 'a', 'r'] {
        TokenKind::Var
    } else if w == seq!['w', 'h', 'i', 'l', 'e'] {
        TokenKind::While
    } else {
        TokenKind::Identifier
    }
}

/// The value of a hexadecimal digit (either case).
pub open spec fn hex_digit_value(c: char) -> Option<u8> {
    if '0' <= c && c <= '9' {
        Some((c as u32 - '0' as u32) as u8)
    } else if 'a' <= c && c <= 'f' {
        Some((c as u32 - 'a' as u32 + 10) as u8)
    } else if 'A' <= c && c <= 'F' {
        Some((c as u32 - 'A' as u32 + 10) as u8)
    } else {
        None
    }
}

/// The byte written by two characters read as a base-16 unsigned number: two
/// hexadecimal digits, or a plus sign followed by one digit.
pub open spec fn hex_pair(c1: char, c2: char) -> Option<u8> {
    if c1 == '+' {
        hex_digit_value(c2)
    } else {
        match (hex_digit_value(c1), hex_digit_value(c2)) {
            (Some(a), Some(b)) => Some((a * 16 + b) as u8),
            _ => None,
        }
    }
}

/// Reads `n` bytes written as pairs of hexadecimal characters starting at
/// `pos`. Fails at the end of the source, at a double quote (which is left
/// unread) or at a pair that is not a byte; the position reached.
pub open spec fn read_hex_bytes(src: Seq<char>, pos: int, n: nat) -> (Option<Seq<u8>>, int)
    decreases n,
{
    if n == 0 {
        (Some(Seq::empty()), pos)
    } else if pos >= src.len() || src[pos] == '"' {
        (None, pos)
    } else if pos + 1 >= src.len() {
        (None, pos + 1)
    } else if src[pos + 1] == '"' {
        (None, pos + 1)
    } else {
        match hex_pair(src[pos], src[pos + 1]) {
            None => (None, pos + 2),
            Some(b) => {
                let rest = read_hex_bytes(src, pos + 2, (n - 1) as nat);
                match rest.0 {
                    Some(bs) => (Some(seq![b] + bs), rest.1),
                    None => (None, rest.1),
                }
            },
        }
    }
}

/// The characters an escape of `n` bytes stands for. A single byte above 127
/// is re-encoded as the two bytes 0xC3 and the byte with bit 6 cleared; the
/// bytes must then be well-formed UTF-8.
pub open spec fn escaped_text(bytes: Seq<u8>, n: nat) -> Option<Seq<char>> {
    let fixed = if n == 1 && bytes.len() == 1 && bytes[0] > 127 {
        seq![195u8, bytes[0] & 0xBF]
    } else {
        bytes
    };
    if valid_utf8(fixed) {
        Some(decode_utf8(fixed))
    } else {
        None
    }
}

/// A numeric escape of `n` bytes read at `pos`: its characters, if valid,
/// and the position reached.
pub open spec fn escaped_chars(src: Seq<char>, pos: int, n: nat) -> (Option<Seq<char>>, int) {
    let r = read_hex_bytes(src, pos, n);
    match r.0 {
        Some(bytes) => (escaped_text(bytes, n), r.1),
        None => (None, r.1),
    }
}

pub proof fn lemma_read_hex_bytes(src: Seq<char>, pos: int, n: nat)
    requires
        0 <= pos <= src.len(),
    ensures
        pos <= read_hex_bytes(src, pos, n).1 <= src.len(),
        read_hex_bytes(src, pos, n).0 matches Some(bs) ==> bs.len() == n,
    decreases n,
{
    if n > 0 && pos + 1 < src.len() && src[pos] != '"' && src[pos + 1] != '"' {
        if hex_pair(src[pos], src[pos + 1]) is Some {
            lemma_read_hex_bytes(src, pos + 2, (n - 1) as nat);
        }
    }
}

/// The single character a simple backslash escape stands for.
pub open spec fn simple_escape(c: char) -> Option<char> {
    if c == '$' {
        Some('$')
    } else if c == 'a' {
        Some('\x07')
    } else if c == 'b' {
        Some('\x08')
    } else if c == 'f' {
        Some('\x0c')
    } else if c == 'n' {
        Some('\n')
    } else if c == 'r' {
        Some('\r')
    } else if c == 't' {
        Some('\t')
    } else if c == 'v' {
        Some('\x0b')
    } else if c == '"' {
        Some('"')
    } else if c == '\\' {
        Some('\\')
    } else if c == '0' {
        Some('\0')
    } else {
        None
    }
}

/// The byte count of a numeric escape letter and the message for a bad one.
pub open spec fn numeric_escape(c: char) -> Option<(nat, Seq<char>)> {
    if c == 'u' {
        Some((2, "Invalid Unicode sequence."@))
    } else if c == 'U' {
        Some((4, "Invalid Unicode sequence."@))
    } else if c == 'x' {
        Some((1, "Invalid hexadecimal sequence."@))
    } else {
        None
    }
}

/// What scanning the rest of a string literal yields.
pub struct StringScan {
    /// Where scanning stopped.
    pub pos: int,
    /// The line reached.
    pub line: int,
    /// `Str`, `Interpolation` or `Error`.
    pub kind: TokenKind,
    /// The decoded text, or the error message.
    pub text: Seq<char>,
    /// Whether an interpolation was opened.
    pub opens: bool,
}

/// Scans the rest of a string literal from `pos`, with the text decoded so
/// far in `buf`, the last bad numeric escape seen in `err`, and `depth`
/// interpolations open.
pub open spec fn scan_string(
    src: Seq<char>,
    pos: int,
    line: int,
    buf: Seq<char>,
    err: Option<Seq<char>>,
    depth: int,
) -> StringScan
    decreases src.len() - pos,
{
    if pos < 0 || pos >= src.len() {
        StringScan { pos, line, kind: TokenKind::Error, text: "Unterminated string."@, opens: false }
    } else if src[pos] == '"' {
        match err {
            Some(m) => StringScan { pos: pos + 1, line, kind: TokenKind::Error, text: m, opens: false },
            None => StringScan { pos: pos + 1, line, kind: TokenKind::Str, text: buf, opens: false },
        }
    } else if src[pos] == '$' {
        if pos + 1 >= src.len() {
            StringScan {
                pos: pos + 1,
                line,
                kind: TokenKind::Error,
                text: "Expected '{' in string interpolation."@,
                opens: false,
            }
        } else if src[pos + 1] != '{' {
            StringScan {
                pos: pos + 2,
                line,
                kind: TokenKind::Error,
                text: "Expected '{' in string interpolation."@,
                opens: false,
            }
        } else if depth >= INTERPOLATION_DEPTH_MAX {
            StringScan {
                pos: pos + 2,
                line,
                kind: TokenKind::Error,
                text: "Max interpolation depth exceeded."@,
                opens: false,
            }
        } else {
            StringScan { pos: pos + 2, line, kind: TokenKind::Interpolation, text: buf, opens: true }
        }
    } else if src[pos] == '\\' {
        if pos + 1 >= src.len() {
            StringScan {
                pos: pos + 1,
                line,
                kind: TokenKind::Error,
                text: "Invalid escape sequence."@,
                opens: false,
            }
        } else {
            let e = src[pos + 1];
            match simple_escape(e) {
                Some(c) => scan_string(src, pos + 2, line, buf.push(c), err, depth),
                None => match numeric_escape(e) {
                    Some((n, msg)) => {
                        let r = escaped_chars(src, pos + 2, n);
                        proof {
                            lemma_read_hex_bytes(src, pos + 2, n);
                        }
                        match r.0 {
                            Some(cs) => scan_string(src, r.1, line, buf + cs, err, depth),
                            None => scan_string(src, r.1, line, buf, Some(msg), depth),
                        }
                    },
                    None => StringScan {
                        pos: pos + 2,
                        line,
                        kind: TokenKind::Error,
                        text: "Invalid escape sequence."@,
                        opens: false,
                    },
                },
            }
        }
    } else if src[pos] == '\n' {
        scan_string(src, pos + 1, line + 1, buf.push('\n'), err, depth)
    } else {
        scan_string(src, pos + 1, line, buf.push(src[pos]), err, depth)
    }
}

/// The state of the scanner after one token, and the token.
pub struct ScanStep {
    pub start: int,
    pub current: int,
    pub line: int,
    pub parens: Seq<usize>,
    pub kind: TokenKind,
    pub text: Seq<char>,
}

/// A token whose text is its lexeme `src[start..current]`.
pub open spec fn lexeme_step(
    src: Seq<char>,
    start: int,
    current: int,
    line: int,
    parens: Seq<usize>,
    kind: TokenKind,
) -> ScanStep {
    ScanStep { start, current, line, parens, kind, text: src.subrange(start, current) }
}

/// A string literal (or its continuation after an interpolation) scanned from `pos`.
pub open spec fn string_step(
    src: Seq<char>,
    start: int,
    pos: int,
    line: int,
    parens: Seq<usize>,
) -> ScanStep {
    let r = scan_string(src, pos, line, Seq::empty(), None, parens.len() as int);
    ScanStep {
        start,
        current: r.pos,
        line: r.line,
        parens: if r.opens {
            parens.push(1)
        } else {
            parens
        },
        kind: r.kind,
        text: r.text,
    }
}

/// A one-character operator that becomes a two-character one when followed by `next`.
pub open spec fn two_char_step(
    src: Seq<char>,
    start: int,
    line: int,
    parens: Seq<usize>,
    next: char,
    one: TokenKind,
    two: TokenKind,
) -> ScanStep {
    if start + 1 < src.len() && src[start + 1] == next {
        lexeme_step(src, start, start + 2, line, parens, two)
    } else {
        lexeme_step(src, start, start + 1, line, parens, one)
    }
}

/// The kind of a token made of one punctuation character.
pub open spec fn single_char_kind(c: char) -> Option<TokenKind> {
    if c == '(' {
        Some(TokenKind::LeftParen)
    } else if c == ')' {
        Some(TokenKind::RightParen)
    } else if c == '[' {
        Some(TokenKind::LeftBracket)
    } else if c == ']' {
        Some(TokenKind::RightBracket)
    } else if c == ':' {
        Some(TokenKind::Colon)
    } else if c == ';' {
        Some(TokenKind::SemiColon)
    } else if c == ',' {
        Some(TokenKind::Comma)
    } else if c == '|' {
        Some(TokenKind::Bar)
    } else {
        None
    }
}

/// The operators that may be followed by a second character, with that
/// character and the two kinds.
pub open spec fn double_char_kinds(c: char) -> Option<(char, TokenKind, TokenKind)> {
    if c == '.' {
        Some(('.', TokenKind::Dot, TokenKind::DotDot))
    } else if c == '-' {
        Some(('=', TokenKind::Minus, TokenKind::MinusEqual))
    } else if c == '+' {
        Some(('=', TokenKind::Plus, TokenKind::PlusEqual))
    } else if c == '/' {
        Some(('=', TokenKind::Slash, TokenKind::SlashEqual))
    } else if c == '*' {
        Some(('=', TokenKind::Star, TokenKind::StarEqual))
    } else if c == '!' {
        Some(('=', TokenKind::Bang, TokenKind::BangEqual))
    } else if c == '=' {
        Some(('=', TokenKind::Equal, TokenKind::EqualEqual))
    } else if c == '<' {
        Some(('=', TokenKind::Less, TokenKind::LessEqual))
    } else if c == '>' {
        Some(('=', TokenKind::Greater, TokenKind::GreaterEqual))
    } else {
        None
    }
}

/// The message for a character that starts no token.
pub open spec fn unexpected_message(c: char) -> Seq<char> {
    "Unexpected character: '"@ + seq![c] + "'."@
}

/// One step of the scanner from position `current` on line `line` with the
/// open interpolations `parens`.
pub open spec fn scan_token_spec(
    src: Seq<char>,
    current: int,
    line: int,
    parens: Seq<usize>,
) -> ScanStep {
    let (p, l) = skip_ws(src, current, line);
    if p >= src.len() {
        lexeme_step(src, p, p, l, parens, TokenKind::Eof)
    } else {
        let c = src[p];
        if is_alpha_char(c) {
            let e = word_end(src, p + 1);
            lexeme_step(src, p, e, l, parens, keyword_kind(src.subrange(p, e)))
        } else if is_digit_char(c) {
            lexeme_step(src, p, number_end(src, p + 1), l, parens, TokenKind::Number)
        } else if c == '{' {
            let ps = if parens.len() > 0 {
                parens.update(parens.len() - 1, (parens.last() + 1) as usize)
            } else {
                parens
            };
            lexeme_step(src, p, p + 1, l, ps, TokenKind::LeftBrace)
        } else if c == '}' {
            if parens.len() > 0 && parens.last() == 1 {
                string_step(src, p, p + 1, l, parens.drop_last())
            } else if parens.len() > 0 {
                let ps = parens.update(parens.len() - 1, (parens.last() - 1) as usize);
                lexeme_step(src, p, p + 1, l, ps, TokenKind::RightBrace)
            } else {
                lexeme_step(src, p, p + 1, l, parens, TokenKind::RightBrace)
            }
        } else if c == '"' {
            string_step(src, p, p + 1, l, parens)
        } else {
            match single_char_kind(c) {
                Some(k) => lexeme_step(src, p, p + 1, l, parens, k),
                None => match double_char_kinds(c) {
                    Some((next, one, two)) => two_char_step(src, p, l, parens, next, one, two),
                    None => ScanStep {
                        start: p,
                        current: p + 1,
                        line: l,
                        parens,
                        kind: TokenKind::Error,
                        text: unexpected_message(c),
                    },
                },
            }
        }
    }
}


/// The view of an optional message.
pub open spec fn opt_text(e: Option<&str>) -> Option<Seq<char>> {
    match e {
        Some(m) => Some(m@),
        None => None,
    }
}

/// Whether a character that may be absent is an ASCII letter or an underscore.
fn is_alpha(c: Option<char>) -> (b: bool)
    ensures
        b == (c matches Some(x) && is_alpha_char(x)),
{
    match c {
        Some(x) => ('a' <= x && x <= 'z') || ('A' <= x && x <= 'Z') || x == '_',
        None => false,
    }
}

/// Whether a character that may be absent is an ASCII decimal digit.
fn is_digit(c: Option<char>) -> (b: bool)
    ensures
        b == (c matches Some(x) && is_digit_char(x)),
{
    match c {
        Some(x) => '0' <= x && x <= '9',
        None => false,
    }
}

fn hex_value(c: char) -> (r: Option<u8>)
    ensures
        r == hex_digit_value(c),
{
    if '0' <= c && c <= '9' {
        Some((c as u32 - '0' as u32) as u8)
    } else if 'a' <= c && c <= 'f' {
        Some((c as u32 - 'a' as u32 + 10) as u8)
    } else if 'A' <= c && c <= 'F' {
        Some((c as u32 - 'A' as u32 + 10) as u8)
    } else {
        None
    }
}

/// Reads two characters as a base-16 byte.
fn hex_byte(c1: char, c2: char) -> (r: Option<u8>)
    ensures
        r == hex_pair(c1, c2),
{
    if c1 == '+' {
        hex_value(c2)
    } else {
        match (hex_value(c1), hex_value(c2)) {
            (Some(a), Some(b)) => Some(a * 16 + b),
            _ => None,
        }
    }
}


/// A word agrees with a reserved word on its first `off` characters; it is
/// that reserved word exactly when the rest agrees too.
proof fn lemma_word_eq(w: Seq<char>, kw: Seq<char>, off: int)
    requires
        0 < off <= kw.len(),
        off <= w.len(),
        forall|i: int| 0 <= i < off ==> w[i] == kw[i],
    ensures
        (w == kw) <==> (w.len() == kw.len() && w.subrange(off, w.len() as int) == kw.subrange(
            off,
            kw.len() as int,
        )),
{
    if w.len() == kw.len() && w.subrange(off, w.len() as int) == kw.subrange(off, kw.len() as int) {
        assert forall|i: int| 0 <= i < w.len() implies w[i] == kw[i] by {
            if i >= off {
                assert(w.subrange(off, w.len() as int)[i - off] == kw.subrange(off, kw.len() as int)[i - off]);
            }
        }
        assert(w =~= kw);
    }
}

/// Bytes already read, put in front of the outcome of reading the rest.
pub open spec fn prepend_bytes(pre: Seq<u8>, r: (Option<Seq<u8>>, int)) -> (Option<Seq<u8>>, int) {
    match r.0 {
        Some(bs) => (Some(pre + bs), r.1),
        None => (None, r.1),
    }
}

proof fn lemma_prepend_bytes_step(src: Seq<char>, pre: Seq<u8>, b: u8, r: (Option<Seq<u8>>, int))
    ensures
        prepend_bytes(pre, prepend_bytes(seq![b], r)) == prepend_bytes(pre.push(b), r),
{
    if let Some(bs) = r.0 {
        assert(pre + (seq![b] + bs) =~= pre.push(b) + bs);
    }
}

/// A tokenizer over the characters of a source text.
pub struct Scanner {
    source: Vec<char>,
    start: usize,
    current: usize,
    line: usize,
    parantheses: Vec<usize>,
}

impl Scanner {
    /// The characters being scanned.
    pub closed spec fn src(&self) -> Seq<char> {
        self.source@
    }

    /// Where the last token began.
    pub closed spec fn start_pos(&self) -> int {
        self.start as int
    }

    /// Where scanning resumes.
    pub closed spec fn pos(&self) -> int {
        self.current as int
    }

    /// The current line number.
    pub closed spec fn line_no(&self) -> int {
        self.line as int
    }

    /// For each open string interpolation, innermost last, the number of
    /// braces opened in it and not yet closed, counting its own.
    pub closed spec fn parens(&self) -> Seq<usize> {
        self.parantheses@
    }

    /// The scanner's internal consistency.
    pub closed spec fn wf(&self) -> bool {
        &&& self.source@.len() < usize::MAX
        &&& self.start <= self.current <= self.source@.len()
        &&& 1 <= self.line <= self.current + 1
        &&& self.parantheses@.len() <= INTERPOLATION_DEPTH_MAX
        &&& forall|i: int|
            0 <= i < self.parantheses@.len() ==> 1 <= #[trigger] self.parantheses@[i]
                <= self.current
    }

    /// A consistent scanner's positions lie within its source.
    pub proof fn lemma_wf_positions(&self)
        requires
            self.wf(),
        ensures
            0 <= self.start_pos() <= self.pos() <= self.src().len(),
            1 <= self.line_no(),
    {
    }

    /// A scanner at the start of `source`, on line 1.
    pub fn from_source(source: String) -> (s: Self)
        requires
            source@.len() < usize::MAX,
        ensures
            s.wf(),
            s.src() == source@,
            s.start_pos() == 0,
            s.pos() == 0,
            s.line_no() == 1,
            s.parens() == Seq::<usize>::empty(),
    {
        Scanner {
            source: string_to_chars(source.as_str()),
            start: 0,
            current: 0,
            line: 1,
            parantheses: Vec::new(),
        }
    }

    fn is_at_end(&self) -> (b: bool)
        ensures
            b == (self.current >= self.source@.len()),
    {
        self.current >= self.source.len()
    }

    /// The position just after the character at `start`, or the end.
    fn get_next_char_boundary(&self, start: usize) -> (r: usize)
        ensures
            r == (if start + 1 < self.source@.len() {
                start + 1
            } else {
                self.source@.len() as int
            }),
    {
        if start < self.source.len() && start + 1 < self.source.len() {
            start + 1
        } else {
            self.source.len()
        }
    }

    /// Consumes the next character, if any.
    fn advance(&mut self) -> (c: Option<char>)
        requires
            old(self).current <= old(self).source@.len(),
        ensures
            final(self).source == old(self).source,
            final(self).start == old(self).start,
            final(self).line == old(self).line,
            final(self).parantheses == old(self).parantheses,
            old(self).current < old(self).source@.len() ==> c == Some(
                old(self).source@[old(self).current as int],
            ) && final(self).current == old(self).current + 1,
            old(self).current >= old(self).source@.len() ==> c is None && final(self).current
                == old(self).current,
    {
        if self.current < self.source.len() {
            let c = self.source[self.current];
            self.current = self.get_next_char_boundary(self.current);
            Some(c)
        } else {
            None
        }
    }

    /// The next character, if any, without consuming it.
    fn peek(&self) -> (c: Option<char>)
        ensures
            c == (if self.current < self.source@.len() {
                Some(self.source@[self.current as int])
            } else {
                None::<char>
            }),
    {
        if self.current < self.source.len() {
            Some(self.source[self.current])
        } else {
            None
        }
    }

    /// The character after the next one, if any.
    fn peek_next(&self) -> (c: Option<char>)
        ensures
            c == (if self.current + 1 < self.source@.len() {
                Some(self.source@[self.current + 1])
            } else {
                None::<char>
            }),
    {
        if self.is_at_end() {
            return None;
        }
        let next = self.get_next_char_boundary(self.current);
        if next < self.source.len() {
            Some(self.source[next])
        } else {
            None
        }
    }

    /// Consumes the next character if it is `expected`.
    fn match_char(&mut self, expected: char) -> (b: bool)
        requires
            old(self).current <= old(self).source@.len(),
        ensures
            final(self).source == old(self).source,
            final(self).start == old(self).start,
            final(self).line == old(self).line,
            final(self).parantheses == old(self).parantheses,
            b == (old(self).current < old(self).source@.len() && old(self).source@[old(
                self,
            ).current as int] == expected),
            final(self).current == (if b {
                old(self).current + 1
            } else {
                old(self).current as int
            }),
    {
        if self.is_at_end() {
            return false;
        }
        let next = self.get_next_char_boundary(self.current);
        if self.source[self.current] != expected {
            return false;
        }
        self.current = next;
        true
    }

    /// A token of the given kind whose text is the current lexeme.
    fn make_token(&self, kind: TokenKind) -> (t: Token)
        requires
            self.start <= self.current <= self.source@.len(),
        ensures
            t.kind == kind,
            t.line == self.line,
            t.source@ == self.source@.subrange(self.start as int, self.current as int),
    {
        let mut text = String::new();
        let mut i = self.start;
        while i < self.current
            invariant
                self.start <= i <= self.current <= self.source@.len(),
                text@ == self.source@.subrange(self.start as int, i as int),
            decreases self.current - i,
        {
            push_char(&mut text, self.source[i]);
            i = i + 1;
            assert(text@ =~= self.source@.subrange(self.start as int, i as int));
        }
        Token { kind, line: self.line, source: text }
    }

    /// An error token carrying `message`.
    fn error_token(&self, message: &str) -> (t: Token)
        ensures
            t.kind == TokenKind::Error,
            t.line == self.line,
            t.source@ == message@,
    {
        Token { kind: TokenKind::Error, line: self.line, source: message.to_owned() }
    }

    /// Skips blanks, line breaks and comments, counting lines.
    fn skip_whitespace(&mut self)
        requires
            old(self).wf(),
        ensures
            final(self).wf(),
            final(self).source == old(self).source,
            final(self).start == old(self).start,
            final(self).parantheses == old(self).parantheses,
            (final(self).current as int, final(self).line as int) == skip_ws(
                old(self).source@,
                old(self).current as int,
                old(self).line as int,
            ),
    {
        let ghost target = skip_ws(self.source@, self.current as int, self.line as int);
        loop
            invariant
                self.wf(),
                self.source == old(self).source,
                self.start == old(self).start,
                self.parantheses == old(self).parantheses,
                old(self).current <= self.current,
                skip_ws(self.source@, self.current as int, self.line as int) == target,
                target == skip_ws(old(self).source@, old(self).current as int, old(self).line as int),
            ensures
                (self.current as int, self.line as int) == target,
            decreases self.source@.len() - self.current,
        {
            if self.is_at_end() {
                assert(skip_ws(self.source@, self.current as int, self.line as int) == (
                self.current as int, self.line as int));
                return;
            }
            let c = self.peek();
            match c {
                Some(' ') => {
                    self.advance();
                },
                Some('\r') => {
                    self.advance();
                },
                Some('\t') => {
                    self.advance();
                },
                Some('\n') => {
                    self.line = self.line + 1;
                    self.advance();
                },
                Some('/') => {
                    if self.peek_next() == Some('/') {
                        let ghost p = self.current as int;
                        proof {
                            lemma_comment_end(self.source@, p + 1);
                        }
                        let ghost e = comment_end(self.source@, p + 1);
                        assert(comment_end(self.source@, p) == e);
                        while !self.is_at_end() && self.peek() != Some('\n')
                            invariant
                                self.wf(),
                                self.source == old(self).source,
                                self.start == old(self).start,
                                self.parantheses == old(self).parantheses,
                                old(self).current <= p <= self.current <= e,
                                p + 1 < self.source@.len(),
                                comment_end(self.source@, self.current as int) == e,
                                skip_ws(self.source@, e, self.line as int) == target,
                            decreases self.source@.len() - self.current,
                        {
                            self.advance();
                            proof {
                                lemma_comment_end(self.source@, self.current as int);
                            }
                        }
                        assert(self.current == e);
                    } else {
                        assert(skip_ws(self.source@, self.current as int, self.line as int) == (
                        self.current as int, self.line as int));
                        return;
                    }
                },
                _ => {
                    assert(skip_ws(self.source@, self.current as int, self.line as int) == (
                    self.current as int, self.line as int));
                    return;
                },
            }
        }
    }

    /// The kind `kind` when the lexeme is exactly its first `start` characters
    /// followed by `rest`, and an identifier otherwise.
    fn check_keyword(&self, start: usize, rest: &[char], kind: TokenKind) -> (k: TokenKind)
        requires
            self.start <= self.current <= self.source@.len(),
            start <= 6,
            rest@.len() <= 6,
        ensures
            k == (if self.current - self.start == start + rest@.len() && self.source@.subrange(
                self.start as int,
                self.current as int,
            ).subrange(start as int, start + rest@.len()) == rest@ {
                kind
            } else {
                TokenKind::Identifier
            }),
    {
        if self.current - self.start != start + rest.len() {
            return TokenKind::Identifier;
        }
        let begin = self.start + start;
        let mut i: usize = 0;
        while i < rest.len()
            invariant
                begin == self.start + start,
                begin + rest@.len() == self.current <= self.source@.len(),
                i <= rest@.len(),
                forall|j: int| 0 <= j < i ==> self.source@[begin + j] == rest@[j],
            decreases rest@.len() - i,
        {
            if self.source[begin + i] != rest[i] {
                assert(self.source@.subrange(self.start as int, self.current as int).subrange(
                    start as int,
                    start + rest@.len(),
                )[i as int] != rest@[i as int]);
                return TokenKind::Identifier;
            }
            i = i + 1;
        }
        assert(self.source@.subrange(self.start as int, self.current as int).subrange(
            start as int,
            start + rest@.len(),
        ) =~= rest@);
        kind
    }

    /// The kind of the current lexeme when it may be the reserved word `kw`,
    /// whose first `start` characters it is known to begin with: `kind` if
    /// it is that word, an identifier otherwise.
    fn match_keyword(
        &self,
        start: usize,
        rest: &[char],
        kind: TokenKind,
        Ghost(kw): Ghost<Seq<char>>,
    ) -> (k: TokenKind)
        requires
            self.start < self.current <= self.source@.len(),
            0 < start <= kw.len() <= 6,
            start <= self.current - self.start,
            rest@ =~= kw.subrange(start as int, kw.len() as int),
            forall|i: int| 0 <= i < start ==> self.source@[self.start + i] == kw[i],
        ensures
            k == (if self.source@.subrange(self.start as int, self.current as int) == kw {
                kind
            } else {
                TokenKind::Identifier
            }),
    {
        proof {
            let w = self.source@.subrange(self.start as int, self.current as int);
            lemma_word_eq(w, kw, start as int);
        }
        self.check_keyword(start, rest, kind)
    }

    /// The kind of the identifier or reserved word that is the current lexeme.
    fn identifier_type(&self) -> (k: TokenKind)
        requires
            self.start < self.current <= self.source@.len(),
        ensures
            k == keyword_kind(self.source@.subrange(self.start as int, self.current as int)),
    {
        let ghost w = self.source@.subrange(self.start as int, self.current as int);
        let first = self.source[self.start];
        assert(w[0] == first);
        if first == 'a' {
            let ghost kw = seq!['a', 'n', 'd'];
            self.match_keyword(1, &['n', 'd'], TokenKind::And, Ghost(kw))
        } else if first == 'c' {
            let ghost kw = seq!['c', 'l', 'a', 's', 's'];
            self.match_keyword(1, &['l', 'a', 's', 's'], TokenKind::Class, Ghost(kw))
        } else if first == 'e' {
            let ghost kw = seq!['e', 'l', 's', 'e'];
            self.match_keyword(1, &['l', 's', 'e'], TokenKind::Else, Ghost(kw))
        } else if first == 'f' && self.current - self.start > 1 {
            let next = self.source[self.start + 1];
            assert(w[1] == next);
            if next == 'a' {
                let ghost kw = seq!['f', 'a', 'l', 's', 'e'];
                self.match_keyword(2, &['l', 's', 'e'], TokenKind::False, Ghost(kw))
            } else if next == 'o' {
                let ghost kw = seq!['f', 'o', 'r'];
                self.match_keyword(2, &['r'], TokenKind::For, Ghost(kw))
            } else if next == 'n' {
                let ghost kw = seq!['f', 'n'];
                self.match_keyword(2, &[], TokenKind::Fn, Ghost(kw))
            } else {
                TokenKind::Identifier
            }
        } else if first == 'i' && self.current - self.start > 1 {
            let next = self.source[self.start + 1];
            assert(w[1] == next);
            if next == 'f' {
                let ghost kw = seq!['i', 'f'];
                self.match_keyword(2, &[], TokenKind::If, Ghost(kw))
            } else if next == 'n' {
                let ghost kw = seq!['i', 'n'];
                self.match_keyword(2, &[], TokenKind::In, Ghost(kw))
            } else {
                TokenKind::Identifier
            }
        } else if first == 'n' {
            let ghost kw = seq!['n', 'i', 'l'];
            self.match_keyword(1, &['i', 'l'], TokenKind::Nil, Ghost(kw))
        } else if first == 'o' {
            let ghost kw = seq!['o', 'r'];
            self.match_keyword(1, &['r'], TokenKind::Or, Ghost(kw))
        } else if first == 'r' {
            let ghost kw = seq!['r', 'e', 't', 'u', 'r', 'n'];
            self.match_keyword(1, &['e', 't', 'u', 'r', 'n'], TokenKind::Return, Ghost(kw))
        } else if first == 'S' {
            let ghost kw = seq!['S', 'e', 'l', 'f'];
            self.match_keyword(1, &['e', 'l', 'f'], TokenKind::CapSelf, Ghost(kw))
        } else if first == 's' && self.current - self.start > 1 {
            let next = self.source[self.start + 1];
            assert(w[1] == next);
            if next == 'e' {
                let ghost kw = seq!['s', 'e', 'l', 'f'];
                self.match_keyword(2, &['l', 'f'], TokenKind::Self_, Ghost(kw))
            } else if next == 't' {
                let ghost kw = seq!['s', 't', 'a', 't', 'i', 'c'];
                self.match_keyword(2, &['a', 't', 'i', 'c'], TokenKind::Static, Ghost(kw))
            } else if next == 'u' {
                let ghost kw = seq!['s', 'u', 'p', 'e', 'r'];
                self.match_keyword(2, &['p', 'e', 'r'], TokenKind::Super, Ghost(kw))
            } else {
                TokenKind::Identifier
            }
        } else if first == 't' {
            let ghost kw = seq!['t', 'r', 'u', 'e'];
            self.match_keyword(1, &['r', 'u', 'e'], TokenKind::True, Ghost(kw))
        } else if first == 'v' {
            let ghost kw = seq!['v', 'a', 'r'];
            self.match_keyword(1, &['a', 'r'], TokenKind::Var, Ghost(kw))
        } else if first == 'w' {
            let ghost kw = seq!['w', 'h', 'i', 'l', 'e'];
            self.match_keyword(1, &['h', 'i', 'l', 'e'], TokenKind::While, Ghost(kw))
        } else {
            proof {
                if w.len() == 1 {
                    assert(w =~= seq![first]);
                }
            }
            TokenKind::Identifier
        }
    }

    /// Scans the rest of an identifier or reserved word whose first letter
    /// has been consumed.
    fn identifier(&mut self) -> (t: Token)
        requires
            old(self).wf(),
            old(self).current == old(self).start + 1,
            is_alpha_char(old(self).source@[old(self).start as int]),
        ensures
            final(self).wf(),
            final(self).source == old(self).source,
            final(self).start == old(self).start,
            final(self).line == old(self).line,
            final(self).parantheses == old(self).parantheses,
            final(self).current == word_end(old(self).source@, old(self).current as int),
            t.kind == keyword_kind(final(self).source@.subrange(final(self).start as int, final(self).current as int)),
            t.line == final(self).line,
            t.source@ == final(self).source@.subrange(final(self).start as int, final(self).current as int),
    {
        proof {
            lemma_word_end(self.source@, self.current as int);
        }
        while is_alpha(self.peek()) || is_digit(self.peek())
            invariant
                self.wf(),
                self.source == old(self).source,
                self.start == old(self).start,
                self.line == old(self).line,
                self.parantheses == old(self).parantheses,
                old(self).current <= self.current <= word_end(self.source@, old(self).current as int),
                word_end(self.source@, self.current as int) == word_end(self.source@, old(self).current as int),
            decreases self.source@.len() - self.current,
        {
            self.advance();
            proof {
                lemma_word_end(self.source@, self.current as int);
            }
        }
        let kind = self.identifier_type();
        self.make_token(kind)
    }

    /// Scans the rest of a number literal whose first digit has been consumed.
    fn number(&mut self) -> (t: Token)
        requires
            old(self).wf(),
            old(self).start < old(self).current,
        ensures
            final(self).wf(),
            final(self).source == old(self).source,
            final(self).start == old(self).start,
            final(self).line == old(self).line,
            final(self).parantheses == old(self).parantheses,
            final(self).current == number_end(old(self).source@, old(self).current as int),
            t.kind == TokenKind::Number,
            t.line == final(self).line,
            t.source@ == final(self).source@.subrange(final(self).start as int, final(self).current as int),
    {
        proof {
            lemma_digits_end(self.source@, self.current as int);
        }
        let ghost d = digits_end(self.source@, self.current as int);
        while is_digit(self.peek())
            invariant
                self.wf(),
                self.source == old(self).source,
                self.start == old(self).start,
                self.line == old(self).line,
                self.parantheses == old(self).parantheses,
                d == digits_end(self.source@, old(self).current as int),
                old(self).current <= self.current <= d,
                digits_end(self.source@, self.current as int) == d,
            decreases self.source@.len() - self.current,
        {
            self.advance();
            proof {
                lemma_digits_end(self.source@, self.current as int);
            }
        }
        if self.peek() == Some('.') && is_digit(self.peek_next()) {
            self.advance();
            proof {
                lemma_digits_end(self.source@, self.current as int);
            }
            let ghost d2 = digits_end(self.source@, self.current as int);
            while is_digit(self.peek())
                invariant
                    self.wf(),
                    self.source == old(self).source,
                    self.start == old(self).start,
                    self.line == old(self).line,
                    self.parantheses == old(self).parantheses,
                    d2 == digits_end(self.source@, d + 1),
                    d + 1 <= self.current <= d2,
                    digits_end(self.source@, self.current as int) == d2,
                decreases self.source@.len() - self.current,
            {
                self.advance();
                proof {
                    lemma_digits_end(self.source@, self.current as int);
                }
            }
        }
        self.make_token(TokenKind::Number)
    }

    /// Reads a numeric escape of `num_bytes` bytes, each written as two
    /// hexadecimal characters, and decodes it.
    fn read_escaped_bytes(&mut self, num_bytes: usize) -> (r: Result<String, ()>)
        requires
            old(self).wf(),
            1 <= num_bytes <= 4,
        ensures
            final(self).wf(),
            final(self).source == old(self).source,
            final(self).start == old(self).start,
            final(self).line == old(self).line,
            final(self).parantheses == old(self).parantheses,
            final(self).current == escaped_chars(old(self).source@, old(self).current as int, num_bytes as nat).1,
            r is Ok <==> escaped_chars(old(self).source@, old(self).current as int, num_bytes as nat).0 is Some,
            r matches Ok(s) ==> escaped_chars(old(self).source@, old(self).current as int, num_bytes as nat).0 == Some(s@),
    {
        let ghost target = read_hex_bytes(self.source@, self.current as int, num_bytes as nat);
        let mut bytes: Vec<u8> = Vec::new();
        let mut k: usize = 0;
        while k < num_bytes
            invariant
                self.wf(),
                self.source == old(self).source,
                self.start == old(self).start,
                self.line == old(self).line,
                self.parantheses == old(self).parantheses,
                old(self).current <= self.current,
                k <= num_bytes <= 4,
                bytes@.len() == k,
                target == read_hex_bytes(old(self).source@, old(self).current as int, num_bytes as nat),
                target == prepend_bytes(bytes@, read_hex_bytes(self.source@, self.current as int, (num_bytes - k) as nat)),
            decreases num_bytes - k,
        {
            if self.is_at_end() {
                return Err(());
            }
            let first_start = self.current;
            let c1 = self.advance();
            if c1 == Some('"') {
                self.current = first_start;
                return Err(());
            }
            if self.is_at_end() {
                return Err(());
            }
            let second_start = self.current;
            let c2 = self.advance();
            if c2 == Some('"') {
                self.current = second_start;
                return Err(());
            }
            let (Some(a), Some(b)) = (c1, c2) else {
                return Err(());
            };
            let byte = match hex_byte(a, b) {
                Some(byte) => byte,
                None => {
                    return Err(());
                },
            };
            let ghost before = bytes@;
            bytes.push(byte);
            k = k + 1;
            proof {
                lemma_prepend_bytes_step(old(self).source@, before, byte,
                    read_hex_bytes(self.source@, self.current as int, (num_bytes - k) as nat));
            }
        }
        if num_bytes == 1 && bytes[0] > 127 {
            let last = bytes[0] & 0b1011_1111;
            bytes = Vec::new();
            bytes.push(195u8);
            bytes.push(last);
            assert(bytes@ =~= seq![195u8, last]);
        }
        match string_from_utf8(bytes) {
            Some(s) => Ok(s),
            None => Err(()),
        }
    }

    /// Scans the rest of a string literal, up to and including its closing
    /// quote or up to the start of an interpolation.
    fn string(&mut self) -> (t: Token)
        requires
            old(self).wf(),
        ensures
            final(self).wf(),
            final(self).source == old(self).source,
            final(self).start == old(self).start,
            ({
                let r = scan_string(
                    old(self).source@,
                    old(self).current as int,
                    old(self).line as int,
                    Seq::empty(),
                    None,
                    old(self).parantheses@.len() as int,
                );
                &&& final(self).current == r.pos
                &&& final(self).line == r.line
                &&& final(self).parantheses@ == (if r.opens {
                    old(self).parantheses@.push(1)
                } else {
                    old(self).parantheses@
                })
                &&& t.kind == r.kind
                &&& t.line == r.line
                &&& t.source@ == r.text
            }),
    {
        let ghost target = scan_string(
            self.source@,
            self.current as int,
            self.line as int,
            Seq::empty(),
            None,
            self.parantheses@.len() as int,
        );
        let mut error: Option<&str> = None;
        let mut buffer = String::new();
        assert(buffer@ =~= Seq::<char>::empty());
        while !self.is_at_end() && self.peek() != Some('"')
            invariant
                self.wf(),
                self.source == old(self).source,
                self.start == old(self).start,
                self.parantheses == old(self).parantheses,
                old(self).current <= self.current,
                target == scan_string(
                    old(self).source@,
                    old(self).current as int,
                    old(self).line as int,
                    Seq::empty(),
                    None,
                    old(self).parantheses@.len() as int,
                ),
                target == scan_string(
                    self.source@,
                    self.current as int,
                    self.line as int,
                    buffer@,
                    opt_text(error),
                    self.parantheses@.len() as int,
                ),
            decreases self.source@.len() - self.current,
        {
            let s = self.advance();
            match s {
                Some('$') => {
                    let next = self.advance();
                    if next != Some('{') {
                        return self.error_token("Expected '{' in string interpolation.");
                    }
                    if self.parantheses.len() >= INTERPOLATION_DEPTH_MAX {
                        return self.error_token("Max interpolation depth exceeded.");
                    }
                    self.parantheses.push(1);
                    return Token { line: self.line, source: buffer, kind: TokenKind::Interpolation };
                },
                Some('\\') => {
                    let next = self.advance();
                    match next {
                        Some('$') => push_char(&mut buffer, '$'),
                        Some('a') => push_char(&mut buffer, '\x07'),
                        Some('b') => push_char(&mut buffer, '\x08'),
                        Some('f') => push_char(&mut buffer, '\x0c'),
                        Some('n') => push_char(&mut buffer, '\n'),
                        Some('r') => push_char(&mut buffer, '\r'),
                        Some('t') => push_char(&mut buffer, '\t'),
                        Some('u') => {
                            proof {
                                lemma_read_hex_bytes(self.source@, self.current as int, 2);
                            }
                            match self.read_escaped_bytes(2) {
                                Ok(decoded) => buffer.append(decoded.as_str()),
                                Err(_) => {
                                    error = Some("Invalid Unicode sequence.");
                                },
                            }
                        },
                        Some('U') => {
                            proof {
                                lemma_read_hex_bytes(self.source@, self.current as int, 4);
                            }
                            match self.read_escaped_bytes(4) {
                                Ok(decoded) => buffer.append(decoded.as_str()),
                                Err(_) => {
                                    error = Some("Invalid Unicode sequence.");
                                },
                            }
                        },
                        Some('v') => push_char(&mut buffer, '\x0b'),
                        Some('x') => {
                            proof {
                                lemma_read_hex_bytes(self.source@, self.current as int, 1);
                            }
                            match self.read_escaped_bytes(1) {
                                Ok(decoded) => buffer.append(decoded.as_str()),
                                Err(_) => {
                                    error = Some("Invalid hexadecimal sequence.");
                                },
                            }
                        },
                        Some('"') => push_char(&mut buffer, '"'),
                        Some('\\') => push_char(&mut buffer, '\\'),
                        Some('0') => push_char(&mut buffer, '\0'),
                        _ => {
                            return self.error_token("Invalid escape sequence.");
                        },
                    }
                },
                Some('\n') => {
                    push_char(&mut buffer, '\n');
                    self.line = self.line + 1;
                },
                Some(c) => push_char(&mut buffer, c),
                None => {},
            }
        }
        if self.is_at_end() {
            return self.error_token("Unterminated string.");
        }
        self.advance();
        if let Some(msg) = error {
            return self.error_token(msg);
        }
        Token { line: self.line, source: buffer, kind: TokenKind::Str }
    }

    /// Scans the next token.
    pub fn scan_token(&mut self) -> (t: Token)
        requires
            old(self).wf(),
        ensures
            final(self).wf(),
            final(self).src() == old(self).src(),
            ({
                let step = scan_token_spec(
                    old(self).src(),
                    old(self).pos(),
                    old(self).line_no(),
                    old(self).parens(),
                );
                &&& final(self).start_pos() == step.start
                &&& final(self).pos() == step.current
                &&& final(self).line_no() == step.line
                &&& final(self).parens() == step.parens
                &&& t.kind == step.kind
                &&& t.line == step.line
                &&& t.source@ == step.text
            }),
    {
        self.skip_whitespace();
        self.start = self.current;
        if self.is_at_end() {
            return self.make_token(TokenKind::Eof);
        }
        let c = self.advance();
        if is_alpha(c) {
            return self.identifier();
        }
        if is_digit(c) {
            return self.number();
        }
        let c = match c {
            Some(c) => c,
            None => {
                return self.make_token(TokenKind::Eof);
            },
        };
        match c {
            '(' => self.make_token(TokenKind::LeftParen),
            ')' => self.make_token(TokenKind::RightParen),
            '{' => {
                let n = self.parantheses.len();
                if n > 0 {
                    let count = self.parantheses[n - 1];
                    self.parantheses.set(n - 1, count + 1);
                }
                self.make_token(TokenKind::LeftBrace)
            },
            '}' => {
                let n = self.parantheses.len();
                if n > 0 {
                    let count = self.parantheses[n - 1] - 1;
                    self.parantheses.set(n - 1, count);
                    if count == 0 {
                        self.parantheses.pop();
                        self.string()
                    } else {
                        self.make_token(TokenKind::RightBrace)
                    }
                } else {
                    self.make_token(TokenKind::RightBrace)
                }
            },
            '[' => self.make_token(TokenKind::LeftBracket),
            ']' => self.make_token(TokenKind::RightBracket),
            ':' => self.make_token(TokenKind::Colon),
            ';' => self.make_token(TokenKind::SemiColon),
            ',' => self.make_token(TokenKind::Comma),
            '.' => {
                let matched = self.match_char('.');
                self.make_token(
                    if matched {
                        TokenKind::DotDot
                    } else {
                        TokenKind::Dot
                    },
                )
            },
            '-' => {
                let matched = self.match_char('=');
                self.make_token(
                    if matched {
                        TokenKind::MinusEqual
                    } else {
                        TokenKind::Minus
                    },
                )
            },
            '+' => {
                let matched = self.match_char('=');
                self.make_token(
                    if matched {
                        TokenKind::PlusEqual
                    } else {
                        TokenKind::Plus
                    },
                )
            },
            '/' => {
                let matched = self.match_char('=');
                self.make_token(
                    if matched {
                        TokenKind::SlashEqual
                    } else {
                        TokenKind::Slash
                    },
                )
            },
            '*' => {
                let matched = self.match_char('=');
                self.make_token(
                    if matched {
                        TokenKind::StarEqual
                    } else {
                        TokenKind::Star
                    },
                )
            },
            '!' => {
                let matched = self.match_char('=');
                self.make_token(
                    if matched {
                        TokenKind::BangEqual
                    } else {
                        TokenKind::Bang
                    },
                )
            },
            '=' => {
                let matched = self.match_char('=');
                self.make_token(
                    if matched {
                        TokenKind::EqualEqual
                    } else {
                        TokenKind::Equal
                    },
                )
            },
            '<' => {
                let matched = self.match_char('=');
                self.make_token(
                    if matched {
                        TokenKind::LessEqual
                    } else {
                        TokenKind::Less
                    },
                )
            },
            '>' => {
                let matched = self.match_char('=');
                self.make_token(
                    if matched {
                        TokenKind::GreaterEqual
                    } else {
                        TokenKind::Greater
                    },
                )
            },
            '|' => self.make_token(TokenKind::Bar),
            '"' => self.string(),
            c => {
                let mut msg = "Unexpected character: '".to_owned();
                push_char(&mut msg, c);
                msg.append("'.");
                self.error_token(msg.as_str())
            },
        }
    }
}

pub proof fn lemma_skip_ws(src: Seq<char>, pos: int, line: int)
    requires
        0 <= pos <= src.len(),
    ensures
        pos <= skip_ws(src, pos, line).0 <= src.len(),
        line <= skip_ws(src, pos, line).1 <= line + (skip_ws(src, pos, line).0 - pos),
    decreases src.len() - pos,
{
    if pos < src.len() {
        if src[pos] == ' ' || src[pos] == '\r' || src[pos] == '\t' || src[pos] == '\n' {
            lemma_skip_ws(src, pos + 1, if src[pos] == '\n' { line + 1 } else { line });
        } else if src[pos] == '/' && pos + 1 < src.len() && src[pos + 1] == '/' {
            lemma_comment_end(src, pos + 1);
            lemma_skip_ws(src, comment_end(src, pos + 1), line);
        }
    }
}

pub proof fn lemma_scan_string(
    src: Seq<char>,
    pos: int,
    line: int,
    buf: Seq<char>,
    err: Option<Seq<char>>,
    depth: int,
)
    requires
        0 <= pos <= src.len(),
    ensures
        pos <= scan_string(src, pos, line, buf, err, depth).pos <= src.len(),
        line <= scan_string(src, pos, line, buf, err, depth).line <= line + (scan_string(
            src,
            pos,
            line,
            buf,
            err,
            depth,
        ).pos - pos),
        scan_string(src, pos, line, buf, err, depth).kind == TokenKind::Str || scan_string(
            src,
            pos,
            line,
            buf,
            err,
            depth,
        ).kind == TokenKind::Interpolation || scan_string(src, pos, line, buf, err, depth).kind
            == TokenKind::Error,
        scan_string(src, pos, line, buf, err, depth).opens ==> depth < INTERPOLATION_DEPTH_MAX,
    decreases src.len() - pos,
{
    if pos < src.len() && src[pos] != '"' && src[pos] != '$' {
        if src[pos] == '\\' {
            if pos + 1 < src.len() {
                let e = src[pos + 1];
                match simple_escape(e) {
                    Some(c) => lemma_scan_string(src, pos + 2, line, buf.push(c), err, depth),
                    None => match numeric_escape(e) {
                        Some((n, msg)) => {
                            let r = escaped_chars(src, pos + 2, n);
                            lemma_read_hex_bytes(src, pos + 2, n);
                            match r.0 {
                                Some(cs) => lemma_scan_string(src, r.1, line, buf + cs, err, depth),
                                None => lemma_scan_string(src, r.1, line, buf, Some(msg), depth),
                            }
                        },
                        None => {},
                    },
                }
            }
        } else if src[pos] == '\n' {
            lemma_scan_string(src, pos + 1, line + 1, buf.push('\n'), err, depth);
        } else {
            lemma_scan_string(src, pos + 1, line, buf.push(src[pos]), err, depth);
        }
    }
}

/// Each token but the end of input consumes at least one character; scanning
/// never moves back nor past the end, and never decreases the line number.
pub proof fn lemma_scan_progress(src: Seq<char>, current: int, line: int, parens: Seq<usize>)
    requires
        0 <= current <= src.len(),
    ensures
        ({
            let step = scan_token_spec(src, current, line, parens);
            &&& current <= step.start <= step.current <= src.len()
            &&& line <= step.line
            &&& (step.kind != TokenKind::Eof ==> step.start < step.current)
            &&& (step.kind == TokenKind::Eof ==> step.start == step.current == src.len())
        }),
{
    let (p, l) = skip_ws(src, current, line);
    lemma_skip_ws(src, current, line);
    if p < src.len() {
        let c = src[p];
        if is_alpha_char(c) {
            lemma_word_end(src, p + 1);
        } else if is_digit_char(c) {
            lemma_digits_end(src, p + 1);
            let d = digits_end(src, p + 1);
            if d + 1 < src.len() {
                lemma_digits_end(src, d + 1);
            }
        } else if c == '}' && parens.len() > 0 && parens.last() == 1 {
            lemma_scan_string(src, p + 1, l, Seq::empty(), None, parens.len() - 1);
        } else if c == '"' {
            lemma_scan_string(src, p + 1, l, Seq::empty(), None, parens.len() as int);
        }
    }
}

/// Once only blanks and comments remain, every scan yields the end-of-input
/// token at the end of the source and leaves the interpolation state alone.
pub proof fn lemma_scan_at_end(src: Seq<char>, current: int, line: int, parens: Seq<usize>)
    requires
        0 <= current <= src.len(),
        skip_ws(src, current, line).0 == src.len(),
    ensures
        ({
            let step = scan_token_spec(src, current, line, parens);
            &&& step.kind == TokenKind::Eof
            &&& step.start == src.len() && step.current == src.len()
            &&& step.line == skip_ws(src, current, line).1
            &&& step.parens == parens
            &&& step.text == Seq::<char>::empty()
            &&& scan_token_spec(src, step.current, step.line, step.parens) == step
        }),
{
    let step = scan_token_spec(src, current, line, parens);
    assert(src.subrange(src.len() as int, src.len() as int) =~= Seq::<char>::empty());
    assert(skip_ws(src, src.len() as int, step.line) == (src.len() as int, step.line));
}

/// Outside string literals and errors, a token's text is exactly the source
/// characters it spans.
pub proof fn lemma_token_text_is_lexeme(src: Seq<char>, current: int, line: int, parens: Seq<usize>)
    requires
        0 <= current <= src.len(),
    ensures
        ({
            let step = scan_token_spec(src, current, line, parens);
            step.kind != TokenKind::Str && step.kind != TokenKind::Interpolation && step.kind
                != TokenKind::Error ==> step.text == src.subrange(step.start, step.current)
        }),
{
    let (p, l) = skip_ws(src, current, line);
    lemma_skip_ws(src, current, line);
    if p < src.len() {
        let c = src[p];
        if c == '}' && parens.len() > 0 && parens.last() == 1 {
            lemma_scan_string(src, p + 1, l, Seq::empty(), None, parens.len() - 1);
        } else if c == '"' {
            lemma_scan_string(src, p + 1, l, Seq::empty(), None, parens.len() as int);
        }
    }
}

/// Where scanning stands after `n` tokens read from `current` on `line`:
/// the position, the line and the open interpolations.
pub open spec fn scan_state(src: Seq<char>, current: int, line: int, parens: Seq<usize>, n: nat) -> (
    int,
    int,
    Seq<usize>,
)
    decreases n,
{
    if n == 0 {
        (current, line, parens)
    } else {
        let s = scan_state(src, current, line, parens, (n - 1) as nat);
        let step = scan_token_spec(src, s.0, s.1, s.2);
        (step.current, step.line, step.parens)
    }
}

/// The token that the `n`th scan (counting from 0) reads from `current` on
/// `line`.
pub open spec fn scan_nth(src: Seq<char>, current: int, line: int, parens: Seq<usize>, n: nat) -> ScanStep {
    let s = scan_state(src, current, line, parens, n);
    scan_token_spec(src, s.0, s.1, s.2)
}

/// After `n` scans the position lies within the source, at least `n`
/// characters on or at the end, and the line has not gone back.
pub proof fn lemma_scan_state(src: Seq<char>, current: int, line: int, parens: Seq<usize>, n: nat)
    requires
        0 <= current <= src.len(),
    ensures
        ({
            let s = scan_state(src, current, line, parens, n);
            &&& 0 <= s.0 <= src.len()
            &&& (s.0 >= current + n || s.0 == src.len())
            &&& line <= s.1
        }),
    decreases n,
{
    if n > 0 {
        lemma_scan_state(src, current, line, parens, (n - 1) as nat);
        let s = scan_state(src, current, line, parens, (n - 1) as nat);
        lemma_scan_progress(src, s.0, s.1, s.2);
    }
}

/// Scanning a source to its end: no token starts on an earlier line than
/// the one before it, and from the scan numbered with the source's length
/// on (counting from 0), every scan reads the end of input, since each
/// token before the end consumes at least one character.
pub proof fn lemma_scan_run(src: Seq<char>, j: nat, k: nat)
    requires
        j <= k,
    ensures
        scan_nth(src, 0, 1, Seq::empty(), j).line <= scan_nth(src, 0, 1, Seq::empty(), k).line,
        src.len() <= j ==> scan_nth(src, 0, 1, Seq::empty(), j).kind == TokenKind::Eof,
    decreases k - j,
{
    let e = Seq::<usize>::empty();
    lemma_scan_state(src, 0, 1, e, j);
    let s = scan_state(src, 0, 1, e, j);
    lemma_scan_progress(src, s.0, s.1, s.2);
    if src.len() <= j {
        lemma_skip_ws(src, s.0, s.1);
        lemma_scan_at_end(src, s.0, s.1, s.2);
    }
    if j < k {
        lemma_scan_run(src, (j + 1) as nat, k);
        lemma_scan_state(src, 0, 1, e, (j + 1) as nat);
        let s1 = scan_state(src, 0, 1, e, (j + 1) as nat);
        lemma_scan_progress(src, s1.0, s1.1, s1.2);
    }
}

/// The hexadecimal digits, lower case, in order of value.
pub open spec fn hex_digits_lower() -> Seq<char> {
    seq!['0', '1', '2', '3', '4', '5', '6', '7', '8', '9', 'a', 'b', 'c', 'd', 'e', 'f']
}

/// The hexadecimal digits, upper case, in order of value.
pub open spec fn hex_digits_upper() -> Seq<char> {
    seq!['0', '1', '2', '3', '4', '5', '6', '7', '8', '9', 'A', 'B', 'C', 'D', 'E', 'F']
}

/// Base 16 in either case: the digit of each value below 16, written in
/// lower or in upper case, reads as that value.
pub proof fn lemma_hex_digits_read_as_their_values()
    ensures
        forall|v: int|
            0 <= v < 16 ==> hex_digit_value(#[trigger] hex_digits_lower()[v]) == Some(v as u8)
                && hex_digit_value(hex_digits_upper()[v]) == Some(v as u8),
{
    assert forall|v: int| 0 <= v < 16 implies hex_digit_value(#[trigger] hex_digits_lower()[v]) == Some(v as u8)
        && hex_digit_value(hex_digits_upper()[v]) == Some(v as u8) by {
        if v == 0 {
        } else if v == 1 {
        } else if v == 2 {
        } else if v == 3 {
        } else if v == 4 {
        } else if v == 5 {
        } else if v == 6 {
        } else if v == 7 {
        } else if v == 8 {
        } else if v == 9 {
        } else if v == 10 {
        } else if v == 11 {
        } else if v == 12 {
        } else if v == 13 {
        } else if v == 14 {
        } else if v == 15 {
        }
    }
}

/// Only hexadecimal digits read as a value, and a character that reads as
/// `v` is the digit of `v` in lower or upper case.
pub proof fn lemma_hex_value_is_a_digit(c: char)
    ensures
        hex_digit_value(c) matches Some(v) ==> v < 16 && (c == hex_digits_lower()[v as int] || c
            == hex_digits_upper()[v as int]),
{
    if let Some(v) = hex_digit_value(c) {
        let v = v as int;
        if v == 0 {
        } else if v == 1 {
        } else if v == 2 {
        } else if v == 3 {
        } else if v == 4 {
        } else if v == 5 {
        } else if v == 6 {
        } else if v == 7 {
        } else if v == 8 {
        } else if v == 9 {
        } else if v == 10 {
        } else if v == 11 {
        } else if v == 12 {
        } else if v == 13 {
        } else if v == 14 {
        } else if v == 15 {
        }
    }
}

/// Two hexadecimal digits, in either case, read as the byte they write in
/// base 16, the first the high digit; a plus sign and one digit read as
/// that digit.
pub proof fn lemma_hex_pair_reads_base_16(hi: int, lo: int, upper_hi: bool, upper_lo: bool)
    requires
        0 <= hi < 16,
        0 <= lo < 16,
    ensures
        hex_pair(
            if upper_hi {
                hex_digits_upper()[hi]
            } else {
                hex_digits_lower()[hi]
            },
            if upper_lo {
                hex_digits_upper()[lo]
            } else {
                hex_digits_lower()[lo]
            },
        ) == Some((hi * 16 + lo) as u8),
        hex_pair('+', hex_digits_lower()[lo]) == Some(lo as u8),
        hex_pair('+', hex_digits_upper()[lo]) == Some(lo as u8),
{
    lemma_hex_digits_read_as_their_values();
    assert(hex_digit_value(hex_digits_lower()[hi]) == Some(hi as u8));
    assert(hex_digit_value(hex_digits_lower()[lo]) == Some(lo as u8));
    assert(hex_digits_lower()[hi] != '+');
    assert(hex_digits_upper()[hi] != '+') by {
        assert(hex_digit_value(hex_digits_upper()[hi]) == Some(hi as u8));
    }
    assert(hi * 16 + lo < 256);
}

/// Each reserved word has a kind of its own: two words of the same kind
/// other than an identifier are the same word.
pub proof fn lemma_keyword_kinds_distinct(w1: Seq<char>, w2: Seq<char>)
    ensures
        keyword_kind(w1) == keyword_kind(w2) && keyword_kind(w1) != TokenKind::Identifier ==> w1 == w2,
{
}

} // verus!
