use yarel::parser::Parser;
use yarel::scanner::{Token, TokenKind};

fn parser(source: &str) -> Parser {
    Parser::new(source.to_owned(), None)
}

#[test]
fn starts_before_the_first_token() {
    let p = parser("var x;");
    assert_eq!(p.current().kind, TokenKind::Eof);
    assert_eq!(p.previous().kind, TokenKind::Eof);
    assert!(p.errors().is_empty());
    assert!(!p.panic_mode());
}

#[test]
fn advance_moves_one_token_on() {
    let mut p = parser("var x;");
    p.advance();
    assert_eq!(p.current().kind, TokenKind::Var);
    assert_eq!(p.previous().kind, TokenKind::Eof);
    p.advance();
    assert_eq!(p.current().kind, TokenKind::Identifier);
    assert_eq!(p.current().source, "x");
    assert_eq!(p.previous().kind, TokenKind::Var);
    p.advance();
    p.advance();
    assert_eq!(p.current().kind, TokenKind::Eof);
    assert_eq!(p.previous().kind, TokenKind::SemiColon);
    assert!(p.errors().is_empty());
}

#[test]
fn error_tokens_are_reported_and_skipped() {
    let mut p = parser("@ x");
    p.advance();
    assert_eq!(p.current().kind, TokenKind::Identifier);
    assert_eq!(
        p.errors(),
        &vec!["[module \"main\", line 1] Error: Unexpected character: '@'.".to_owned()]
    );
    assert!(p.panic_mode());
}

#[test]
fn only_the_first_error_is_reported_while_panicking() {
    let mut p = Parser::new("@\n~ y".to_owned(), Some("lib"));
    p.advance();
    assert_eq!(p.current().source, "y");
    assert_eq!(p.current().line, 2);
    assert_eq!(p.errors(), &vec!["[module \"lib\", line 1] Error: Unexpected character: '@'.".to_owned()]);
    p.error("ignored");
    assert_eq!(p.errors().len(), 1);
}

#[test]
fn reports_name_the_token() {
    let mut p = parser("x");
    p.advance();
    p.error_at_current("Bad name.");
    assert_eq!(p.errors(), &vec!["[module \"main\", line 1] Error at 'x': Bad name.".to_owned()]);
    let mut p = parser("");
    p.advance();
    p.error_at_current("Expected expression.");
    assert_eq!(p.errors(), &vec!["[module \"main\", line 1] Error at end: Expected expression.".to_owned()]);
    let mut p = parser("");
    let mut t = Token::new();
    t.kind = TokenKind::Number;
    t.line = 12;
    t.source = "42".to_owned();
    p.error_at(&t, "Odd.");
    assert_eq!(p.errors(), &vec!["[module \"main\", line 12] Error at '42': Odd.".to_owned()]);
}

#[test]
fn consume_expects_a_kind() {
    let mut p = parser("x ;");
    p.advance();
    p.consume(TokenKind::Identifier, "Expected a name.");
    assert_eq!(p.current().kind, TokenKind::SemiColon);
    p.consume(TokenKind::RightParen, "Expected ')'.");
    assert_eq!(p.current().kind, TokenKind::SemiColon);
    assert_eq!(p.errors(), &vec!["[module \"main\", line 1] Error at ';': Expected ')'.".to_owned()]);
}

#[test]
fn match_token_only_moves_on_a_match() {
    let mut p = parser("( )");
    p.advance();
    assert!(!p.match_token(TokenKind::RightParen));
    assert_eq!(p.current().kind, TokenKind::LeftParen);
    assert!(p.check(TokenKind::LeftParen));
    assert!(p.match_token(TokenKind::LeftParen));
    assert_eq!(p.current().kind, TokenKind::RightParen);
    assert_eq!(p.previous().kind, TokenKind::LeftParen);
}
