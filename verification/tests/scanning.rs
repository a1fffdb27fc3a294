use yarel::scanner::{Scanner, Token, TokenKind};

fn tokens(source: &str) -> Vec<(TokenKind, String, usize)> {
    let mut scanner = Scanner::from_source(source.to_owned());
    let mut out = Vec::new();
    loop {
        let t = scanner.scan_token();
        let kind = t.kind;
        out.push((t.kind, t.source, t.line));
        if kind == TokenKind::Eof || out.len() > 100 {
            break;
        }
    }
    out
}

fn kinds(source: &str) -> Vec<TokenKind> {
    tokens(source).into_iter().map(|(k, _, _)| k).collect()
}

#[test]
fn token_new_is_empty_eof() {
    let t = Token::new();
    assert_eq!(t.kind, TokenKind::Eof);
    assert_eq!(t.line, 0);
    assert_eq!(t.source, "");
    let d = Token::default();
    assert_eq!(d.kind, TokenKind::Eof);
    let s = Token::from_string("init");
    assert_eq!(s.kind, TokenKind::Eof);
    assert_eq!(s.source, "init");
    assert_eq!(TokenKind::default(), TokenKind::Eof);
}

#[test]
fn scans_a_declaration() {
    let t = tokens("var x = 1.5;");
    let expected = vec![
        (TokenKind::Var, "var".to_owned(), 1),
        (TokenKind::Identifier, "x".to_owned(), 1),
        (TokenKind::Equal, "=".to_owned(), 1),
        (TokenKind::Number, "1.5".to_owned(), 1),
        (TokenKind::SemiColon, ";".to_owned(), 1),
        (TokenKind::Eof, "".to_owned(), 1),
    ];
    assert_eq!(t, expected);
}

#[test]
fn scans_every_keyword() {
    let k = kinds("and class else false for fn if in nil or return Self self static super true var while");
    assert_eq!(
        k,
        vec![
            TokenKind::And,
            TokenKind::Class,
            TokenKind::Else,
            TokenKind::False,
            TokenKind::For,
            TokenKind::Fn,
            TokenKind::If,
            TokenKind::In,
            TokenKind::Nil,
            TokenKind::Or,
            TokenKind::Return,
            TokenKind::CapSelf,
            TokenKind::Self_,
            TokenKind::Static,
            TokenKind::Super,
            TokenKind::True,
            TokenKind::Var,
            TokenKind::While,
            TokenKind::Eof,
        ]
    );
}

#[test]
fn keyword_prefixes_are_identifiers() {
    let k = kinds("an classy f i s fnx iff selfish _var var2");
    assert_eq!(k.len(), 11);
    for kind in &k[..10] {
        assert_eq!(*kind, TokenKind::Identifier);
    }
    assert_eq!(k[10], TokenKind::Eof);
}

#[test]
fn scans_operators() {
    let k = kinds("( ) { } [ ] , . .. - -= + += : ; / /= * *= ! != = == > >= < <= |");
    assert_eq!(
        k,
        vec![
            TokenKind::LeftParen,
            TokenKind::RightParen,
            TokenKind::LeftBrace,
            TokenKind::RightBrace,
            TokenKind::LeftBracket,
            TokenKind::RightBracket,
            TokenKind::Comma,
            TokenKind::Dot,
            TokenKind::DotDot,
            TokenKind::Minus,
            TokenKind::MinusEqual,
            TokenKind::Plus,
            TokenKind::PlusEqual,
            TokenKind::Colon,
            TokenKind::SemiColon,
            TokenKind::Slash,
            TokenKind::SlashEqual,
            TokenKind::Star,
            TokenKind::StarEqual,
            TokenKind::Bang,
            TokenKind::BangEqual,
            TokenKind::Equal,
            TokenKind::EqualEqual,
            TokenKind::Greater,
            TokenKind::GreaterEqual,
            TokenKind::Less,
            TokenKind::LessEqual,
            TokenKind::Bar,
            TokenKind::Eof,
        ]
    );
}

#[test]
fn numbers_take_a_fraction_only_with_digits() {
    let t = tokens("12 3.25 4. 5..6");
    let texts: Vec<(TokenKind, String)> = t.into_iter().map(|(k, s, _)| (k, s)).collect();
    assert_eq!(
        texts,
        vec![
            (TokenKind::Number, "12".to_owned()),
            (TokenKind::Number, "3.25".to_owned()),
            (TokenKind::Number, "4".to_owned()),
            (TokenKind::Dot, ".".to_owned()),
            (TokenKind::Number, "5".to_owned()),
            (TokenKind::DotDot, "..".to_owned()),
            (TokenKind::Number, "6".to_owned()),
            (TokenKind::Eof, "".to_owned()),
        ]
    );
}

#[test]
fn comments_and_newlines_are_skipped() {
    let t = tokens("// a comment\n  x\t\r\n/ y");
    assert_eq!(
        t,
        vec![
            (TokenKind::Identifier, "x".to_owned(), 2),
            (TokenKind::Slash, "/".to_owned(), 3),
            (TokenKind::Identifier, "y".to_owned(), 3),
            (TokenKind::Eof, "".to_owned(), 3),
        ]
    );
}

#[test]
fn strings_decode_escapes() {
    let t = tokens("\"a\\tb\\n\\\"\\\\\\$\\0\"");
    assert_eq!(t[0].0, TokenKind::Str);
    assert_eq!(t[0].1, "a\tb\n\"\\$\0");
    let t = tokens("\"\\a\\b\\f\\r\\v\"");
    assert_eq!(t[0].1, "\x07\x08\x0c\r\x0b");
}

#[test]
fn strings_decode_hex_escapes() {
    let t = tokens("\"\\x41\\x7e\"");
    assert_eq!(t[0], (TokenKind::Str, "A~".to_owned(), 1));
    // A byte above 127 stands for the character with that code point.
    let t = tokens("\"\\xe9\"");
    assert_eq!(t[0], (TokenKind::Str, "\u{e9}".to_owned(), 1));
    let t = tokens("\"\\u0041\"");
    assert_eq!(t[0], (TokenKind::Str, "\u{0}A".to_owned(), 1));
    let t = tokens("\"\\U00000042\"");
    assert_eq!(t[0], (TokenKind::Str, "\u{0}\u{0}\u{0}B".to_owned(), 1));
}

#[test]
fn bad_escapes_are_errors() {
    let t = tokens("\"\\xZZ\"");
    assert_eq!(t[0], (TokenKind::Error, "Invalid hexadecimal sequence.".to_owned(), 1));
    let t = tokens("\"\\u00e9\"");
    assert_eq!(t[0], (TokenKind::Error, "Invalid Unicode sequence.".to_owned(), 1));
    let t = tokens("\"\\q\"");
    assert_eq!(t[0], (TokenKind::Error, "Invalid escape sequence.".to_owned(), 1));
}

#[test]
fn unterminated_string_is_an_error() {
    let t = tokens("\"abc");
    assert_eq!(t[0], (TokenKind::Error, "Unterminated string.".to_owned(), 1));
}

#[test]
fn multiline_string_counts_lines() {
    let t = tokens("\"a\nb\" x");
    assert_eq!(t[0], (TokenKind::Str, "a\nb".to_owned(), 2));
    assert_eq!(t[1], (TokenKind::Identifier, "x".to_owned(), 2));
}

#[test]
fn unexpected_character_is_an_error() {
    let t = tokens("@");
    assert_eq!(t[0], (TokenKind::Error, "Unexpected character: '@'.".to_owned(), 1));
    let t = tokens("\u{e9}");
    assert_eq!(t[0], (TokenKind::Error, "Unexpected character: '\u{e9}'.".to_owned(), 1));
}

#[test]
fn interpolation_splits_the_string() {
    let t = tokens("\"a${b + {c}}d\"");
    let texts: Vec<(TokenKind, String)> = t.into_iter().map(|(k, s, _)| (k, s)).collect();
    assert_eq!(
        texts,
        vec![
            (TokenKind::Interpolation, "a".to_owned()),
            (TokenKind::Identifier, "b".to_owned()),
            (TokenKind::Plus, "+".to_owned()),
            (TokenKind::LeftBrace, "{".to_owned()),
            (TokenKind::Identifier, "c".to_owned()),
            (TokenKind::RightBrace, "}".to_owned()),
            (TokenKind::Str, "d".to_owned()),
            (TokenKind::Eof, "".to_owned()),
        ]
    );
}

#[test]
fn interpolation_needs_a_brace() {
    let t = tokens("\"a$b\"");
    assert_eq!(t[0], (TokenKind::Error, "Expected '{' in string interpolation.".to_owned(), 1));
}

#[test]
fn interpolation_depth_is_limited() {
    let mut source = String::new();
    for _ in 0..9 {
        source.push_str("\"${");
    }
    let t = tokens(source.as_str());
    let errors: Vec<&(TokenKind, String, usize)> =
        t.iter().filter(|(k, _, _)| *k == TokenKind::Error).collect();
    assert_eq!(errors[0].1, "Max interpolation depth exceeded.");
    let interpolations = t.iter().filter(|(k, _, _)| *k == TokenKind::Interpolation).count();
    assert_eq!(interpolations, 8);
}

#[test]
fn end_of_input_is_stable() {
    let mut scanner = Scanner::from_source("x".to_owned());
    assert_eq!(scanner.scan_token().kind, TokenKind::Identifier);
    for _ in 0..3 {
        let t = scanner.scan_token();
        assert_eq!(t.kind, TokenKind::Eof);
        assert_eq!(t.source, "");
    }
    let mut empty = Scanner::from_source(String::new());
    assert_eq!(empty.scan_token().kind, TokenKind::Eof);
}

#[test]
fn scanning_reaches_the_end_within_the_source_length_and_stays_there() {
    let source = "var x = 1;\n\"a\" + b\n// done\n";
    let mut scanner = Scanner::from_source(source.to_owned());
    let mut last_line = 0;
    let mut kinds_seen = Vec::new();
    for _ in 0..(source.len() + 3) {
        let t = scanner.scan_token();
        assert!(t.line >= last_line);
        last_line = t.line;
        kinds_seen.push(t.kind);
    }
    for k in &kinds_seen[source.len()..] {
        assert_eq!(*k, TokenKind::Eof);
    }
    let first_end = kinds_seen.iter().position(|k| *k == TokenKind::Eof).unwrap();
    assert_eq!(first_end, 8);
    for k in &kinds_seen[first_end..] {
        assert_eq!(*k, TokenKind::Eof);
    }
}
