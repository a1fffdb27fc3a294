//! The token stream a compilation reads: the current and previous tokens,
//! error tokens skipped as they come, and the errors reported so far, at
//! most one until the parser recovers.

use vstd::prelude::*;

use crate::compiler::Precedence;
use crate::error::messages_view;
use crate::scanner::{
    lemma_scan_at_end, lemma_scan_progress, lemma_skip_ws, scan_token_spec, ScanStep, Scanner, Token, TokenKind,
};
use crate::text::{decimal, usize_to_string};

verus! {

/// What parses an expression that starts with a token.
#[derive(Clone, Copy, Debug, PartialEq, Eq, Structural)]
pub enum PrefixRule {
    Grouping,
    HashMap,
    Vector,
    Unary,
    Lambda,
    Variable,
    String,
    Interpolation,
    Number,
    CapSelf,
    Literal,
    SelfValue,
    Super,
}

/// What parses the rest of an expression when a token follows its left
/// operand.
#[derive(Clone, Copy, Debug, PartialEq, Eq, Structural)]
pub enum InfixRule {
    Call,
    Index,
    Dot,
    DotDot,
    Binary,
    And,
    Or,
}

/// How a token is parsed in an expression: as its start, after a left
/// operand, and how tightly it binds there.
#[derive(Clone, Copy, Debug, PartialEq, Eq, Structural)]
pub struct ParseRule {
    pub prefix: Option<PrefixRule>,
    pub infix: Option<InfixRule>,
    pub precedence: Precedence,
}

/// The expression grammar, one rule per kind of token.
pub open spec fn parse_rule_spec(kind: TokenKind) -> ParseRule {
    match kind {
        TokenKind::LeftParen => ParseRule { prefix: Some(PrefixRule::Grouping), infix: Some(InfixRule::Call), precedence: Precedence::Call },
        TokenKind::RightParen => ParseRule { prefix: None, infix: None, precedence: Precedence::NoPrecedence },
        TokenKind::LeftBrace => ParseRule { prefix: Some(PrefixRule::HashMap), infix: None, precedence: Precedence::NoPrecedence },
        TokenKind::RightBrace => ParseRule { prefix: None, infix: None, precedence: Precedence::NoPrecedence },
        TokenKind::LeftBracket => ParseRule { prefix: Some(PrefixRule::Vector), infix: Some(InfixRule::Index), precedence: Precedence::Call },
        TokenKind::RightBracket => ParseRule { prefix: None, infix: None, precedence: Precedence::NoPrecedence },
        TokenKind::Comma => ParseRule { prefix: None, infix: None, precedence: Precedence::NoPrecedence },
        TokenKind::Dot => ParseRule { prefix: None, infix: Some(InfixRule::Dot), precedence: Precedence::Call },
        TokenKind::DotDot => ParseRule { prefix: None, infix: Some(InfixRule::DotDot), precedence: Precedence::Range },
        TokenKind::Minus => ParseRule { prefix: Some(PrefixRule::Unary), infix: Some(InfixRule::Binary), precedence: Precedence::Term },
        TokenKind::MinusEqual => ParseRule { prefix: None, infix: None, precedence: Precedence::NoPrecedence },
        TokenKind::Plus => ParseRule { prefix: None, infix: Some(InfixRule::Binary), precedence: Precedence::Term },
        TokenKind::PlusEqual => ParseRule { prefix: None, infix: None, precedence: Precedence::NoPrecedence },
        TokenKind::Colon => ParseRule { prefix: None, infix: None, precedence: Precedence::NoPrecedence },
        TokenKind::SemiColon => ParseRule { prefix: None, infix: None, precedence: Precedence::NoPrecedence },
        TokenKind::Slash => ParseRule { prefix: None, infix: Some(InfixRule::Binary), precedence: Precedence::Factor },
        TokenKind::SlashEqual => ParseRule { prefix: None, infix: None, precedence: Precedence::NoPrecedence },
        TokenKind::Star => ParseRule { prefix: None, infix: Some(InfixRule::Binary), precedence: Precedence::Factor },
        TokenKind::StarEqual => ParseRule { prefix: None, infix: None, precedence: Precedence::NoPrecedence },
        TokenKind::Bang => ParseRule { prefix: Some(PrefixRule::Unary), infix: None, precedence: Precedence::NoPrecedence },
        TokenKind::BangEqual => ParseRule { prefix: None, infix: Some(InfixRule::Binary), precedence: Precedence::Equality },
        TokenKind::Equal => ParseRule { prefix: None, infix: None, precedence: Precedence::NoPrecedence },
        TokenKind::EqualEqual => ParseRule { prefix: None, infix: Some(InfixRule::Binary), precedence: Precedence::Equality },
        TokenKind::Greater => ParseRule { prefix: None, infix: Some(InfixRule::Binary), precedence: Precedence::Comparison },
        TokenKind::GreaterEqual => ParseRule { prefix: None, infix: Some(InfixRule::Binary), precedence: Precedence::Comparison },
        TokenKind::Less => ParseRule { prefix: None, infix: Some(InfixRule::Binary), precedence: Precedence::Comparison },
        TokenKind::LessEqual => ParseRule { prefix: None, infix: Some(InfixRule::Binary), precedence: Precedence::Comparison },
        TokenKind::Bar => ParseRule { prefix: Some(PrefixRule::Lambda), infix: Some(InfixRule::Binary), precedence: Precedence::BitwiseOr },
        TokenKind::Identifier => ParseRule { prefix: Some(PrefixRule::Variable), infix: None, precedence: Precedence::NoPrecedence },
        TokenKind::Str => ParseRule { prefix: Some(PrefixRule::String), infix: None, precedence: Precedence::NoPrecedence },
        TokenKind::Interpolation => ParseRule { prefix: Some(PrefixRule::Interpolation), infix: None, precedence: Precedence::NoPrecedence },
        TokenKind::Number => ParseRule { prefix: Some(PrefixRule::Number), infix: None, precedence: Precedence::NoPrecedence },
        TokenKind::And => ParseRule { prefix: None, infix: Some(InfixRule::And), precedence: Precedence::And },
        TokenKind::CapSelf => ParseRule { prefix: Some(PrefixRule::CapSelf), infix: None, precedence: Precedence::NoPrecedence },
        TokenKind::Class => ParseRule { prefix: None, infix: None, precedence: Precedence::NoPrecedence },
        TokenKind::Else => ParseRule { prefix: None, infix: None, precedence: Precedence::NoPrecedence },
        TokenKind::False => ParseRule { prefix: Some(PrefixRule::Literal), infix: None, precedence: Precedence::NoPrecedence },
        TokenKind::For => ParseRule { prefix: None, infix: None, precedence: Precedence::NoPrecedence },
        TokenKind::Fn => ParseRule { prefix: None, infix: None, precedence: Precedence::NoPrecedence },
        TokenKind::If => ParseRule { prefix: None, infix: None, precedence: Precedence::NoPrecedence },
        TokenKind::In => ParseRule { prefix: None, infix: None, precedence: Precedence::NoPrecedence },
        TokenKind::Nil => ParseRule { prefix: Some(PrefixRule::Literal), infix: None, precedence: Precedence::NoPrecedence },
        TokenKind::Or => ParseRule { prefix: None, infix: Some(InfixRule::Or), precedence: Precedence::Or },
        TokenKind::Return => ParseRule { prefix: None, infix: None, precedence: Precedence::NoPrecedence },
        TokenKind::Self_ => ParseRule { prefix: Some(PrefixRule::SelfValue), infix: None, precedence: Precedence::NoPrecedence },
        TokenKind::Static => ParseRule { prefix: None, infix: None, precedence: Precedence::NoPrecedence },
        TokenKind::Super => ParseRule { prefix: Some(PrefixRule::Super), infix: None, precedence: Precedence::NoPrecedence },
        TokenKind::True => ParseRule { prefix: Some(PrefixRule::Literal), infix: None, precedence: Precedence::NoPrecedence },
        TokenKind::Var => ParseRule { prefix: None, infix: None, precedence: Precedence::NoPrecedence },
        TokenKind::While => ParseRule { prefix: None, infix: None, precedence: Precedence::NoPrecedence },
        TokenKind::Error => ParseRule { prefix: None, infix: None, precedence: Precedence::NoPrecedence },
        TokenKind::Eof => ParseRule { prefix: None, infix: None, precedence: Precedence::NoPrecedence },
    }
}

/// The rule by which a token is parsed in an expression.
pub fn parse_rule(kind: TokenKind) -> (r: ParseRule)
    ensures
        r == parse_rule_spec(kind),
{
    match kind {
        TokenKind::LeftParen => ParseRule { prefix: Some(PrefixRule::Grouping), infix: Some(InfixRule::Call), precedence: Precedence::Call },
        TokenKind::RightParen => ParseRule { prefix: None, infix: None, precedence: Precedence::NoPrecedence },
        TokenKind::LeftBrace => ParseRule { prefix: Some(PrefixRule::HashMap), infix: None, precedence: Precedence::NoPrecedence },
        TokenKind::RightBrace => ParseRule { prefix: None, infix: None, precedence: Precedence::NoPrecedence },
        TokenKind::LeftBracket => ParseRule { prefix: Some(PrefixRule::Vector), infix: Some(InfixRule::Index), precedence: Precedence::Call },
        TokenKind::RightBracket => ParseRule { prefix: None, infix: None, precedence: Precedence::NoPrecedence },
        TokenKind::Comma => ParseRule { prefix: None, infix: None, precedence: Precedence::NoPrecedence },
        TokenKind::Dot => ParseRule { prefix: None, infix: Some(InfixRule::Dot), precedence: Precedence::Call },
        TokenKind::DotDot => ParseRule { prefix: None, infix: Some(InfixRule::DotDot), precedence: Precedence::Range },
        TokenKind::Minus => ParseRule { prefix: Some(PrefixRule::Unary), infix: Some(InfixRule::Binary), precedence: Precedence::Term },
        TokenKind::MinusEqual => ParseRule { prefix: None, infix: None, precedence: Precedence::NoPrecedence },
        TokenKind::Plus => ParseRule { prefix: None, infix: Some(InfixRule::Binary), precedence: Precedence::Term },
        TokenKind::PlusEqual => ParseRule { prefix: None, infix: None, precedence: Precedence::NoPrecedence },
        TokenKind::Colon => ParseRule { prefix: None, infix: None, precedence: Precedence::NoPrecedence },
        TokenKind::SemiColon => ParseRule { prefix: None, infix: None, precedence: Precedence::NoPrecedence },
        TokenKind::Slash => ParseRule { prefix: None, infix: Some(InfixRule::Binary), precedence: Precedence::Factor },
        TokenKind::SlashEqual => ParseRule { prefix: None, infix: None, precedence: Precedence::NoPrecedence },
        TokenKind::Star => ParseRule { prefix: None, infix: Some(InfixRule::Binary), precedence: Precedence::Factor },
        TokenKind::StarEqual => ParseRule { prefix: None, infix: None, precedence: Precedence::NoPrecedence },
        TokenKind::Bang => ParseRule { prefix: Some(PrefixRule::Unary), infix: None, precedence: Precedence::NoPrecedence },
        TokenKind::BangEqual => ParseRule { prefix: None, infix: Some(InfixRule::Binary), precedence: Precedence::Equality },
        TokenKind::Equal => ParseRule { prefix: None, infix: None, precedence: Precedence::NoPrecedence },
        TokenKind::EqualEqual => ParseRule { prefix: None, infix: Some(InfixRule::Binary), precedence: Precedence::Equality },
        TokenKind::Greater => ParseRule { prefix: None, infix: Some(InfixRule::Binary), precedence: Precedence::Comparison },
        TokenKind::GreaterEqual => ParseRule { prefix: None, infix: Some(InfixRule::Binary), precedence: Precedence::Comparison },
        TokenKind::Less => ParseRule { prefix: None, infix: Some(InfixRule::Binary), precedence: Precedence::Comparison },
        TokenKind::LessEqual => ParseRule { prefix: None, infix: Some(InfixRule::Binary), precedence: Precedence::Comparison },
        TokenKind::Bar => ParseRule { prefix: Some(PrefixRule::Lambda), infix: Some(InfixRule::Binary), precedence: Precedence::BitwiseOr },
        TokenKind::Identifier => ParseRule { prefix: Some(PrefixRule::Variable), infix: None, precedence: Precedence::NoPrecedence },
        TokenKind::Str => ParseRule { prefix: Some(PrefixRule::String), infix: None, precedence: Precedence::NoPrecedence },
        TokenKind::Interpolation => ParseRule { prefix: Some(PrefixRule::Interpolation), infix: None, precedence: Precedence::NoPrecedence },
        TokenKind::Number => ParseRule { prefix: Some(PrefixRule::Number), infix: None, precedence: Precedence::NoPrecedence },
        TokenKind::And => ParseRule { prefix: None, infix: Some(InfixRule::And), precedence: Precedence::And },
        TokenKind::CapSelf => ParseRule { prefix: Some(PrefixRule::CapSelf), infix: None, precedence: Precedence::NoPrecedence },
        TokenKind::Class => ParseRule { prefix: None, infix: None, precedence: Precedence::NoPrecedence },
        TokenKind::Else => ParseRule { prefix: None, infix: None, precedence: Precedence::NoPrecedence },
        TokenKind::False => ParseRule { prefix: Some(PrefixRule::Literal), infix: None, precedence: Precedence::NoPrecedence },
        TokenKind::For => ParseRule { prefix: None, infix: None, precedence: Precedence::NoPrecedence },
        TokenKind::Fn => ParseRule { prefix: None, infix: None, precedence: Precedence::NoPrecedence },
        TokenKind::If => ParseRule { prefix: None, infix: None, precedence: Precedence::NoPrecedence },
        TokenKind::In => ParseRule { prefix: None, infix: None, precedence: Precedence::NoPrecedence },
        TokenKind::Nil => ParseRule { prefix: Some(PrefixRule::Literal), infix: None, precedence: Precedence::NoPrecedence },
        TokenKind::Or => ParseRule { prefix: None, infix: Some(InfixRule::Or), precedence: Precedence::Or },
        TokenKind::Return => ParseRule { prefix: None, infix: None, precedence: Precedence::NoPrecedence },
        TokenKind::Self_ => ParseRule { prefix: Some(PrefixRule::SelfValue), infix: None, precedence: Precedence::NoPrecedence },
        TokenKind::Static => ParseRule { prefix: None, infix: None, precedence: Precedence::NoPrecedence },
        TokenKind::Super => ParseRule { prefix: Some(PrefixRule::Super), infix: None, precedence: Precedence::NoPrecedence },
        TokenKind::True => ParseRule { prefix: Some(PrefixRule::Literal), infix: None, precedence: Precedence::NoPrecedence },
        TokenKind::Var => ParseRule { prefix: None, infix: None, precedence: Precedence::NoPrecedence },
        TokenKind::While => ParseRule { prefix: None, infix: None, precedence: Precedence::NoPrecedence },
        TokenKind::Error => ParseRule { prefix: None, infix: None, precedence: Precedence::NoPrecedence },
        TokenKind::Eof => ParseRule { prefix: None, infix: None, precedence: Precedence::NoPrecedence },
    }
}

/// The scan steps from a scanner state up to the first token that is not
/// an error: that token's step, and the error steps before it.
pub open spec fn scan_past_errors(src: Seq<char>, current: int, line: int, parens: Seq<usize>) -> (
    ScanStep,
    Seq<ScanStep>,
)
    decreases src.len() - current,
{
    let step = scan_token_spec(src, current, line, parens);
    if step.kind != TokenKind::Error || !(0 <= current <= src.len()) {
        (step, Seq::empty())
    } else {
        proof {
            lemma_scan_progress(src, current, line, parens);
        }
        let rest = scan_past_errors(src, step.current, step.line, step.parens);
        (rest.0, seq![step] + rest.1)
    }
}

/// How an error is reported: the module and line, where in the source it
/// was found (at the end, at a token, or nowhere for an error token), and
/// the message.
pub open spec fn error_report(
    module: Seq<char>,
    kind: TokenKind,
    line: nat,
    source: Seq<char>,
    message: Seq<char>,
) -> Seq<char> {
    "[module \""@ + module + "\", line "@ + decimal(line) + "] Error"@ + (if kind == TokenKind::Eof {
        " at end"@
    } else if kind == TokenKind::Error {
        Seq::<char>::empty()
    } else {
        " at '"@ + source + "'"@
    }) + ": "@ + message
}

/// The reports added by an error reported while `panicking` holds: none
/// once the parser is panicking, the report otherwise.
pub open spec fn reported(panicking: bool, report: Seq<char>) -> Seq<Seq<char>> {
    if panicking {
        Seq::empty()
    } else {
        seq![report]
    }
}

/// Reads the tokens of a source text for a compilation of a module.
pub struct Parser {
    scanner: Scanner,
    current: Token,
    previous: Token,
    panic_mode: bool,
    errors: Vec<String>,
    module_name: String,
}

impl Parser {
    /// The source text.
    pub closed spec fn src(&self) -> Seq<char> {
        self.scanner.src()
    }

    /// Where scanning resumes.
    pub closed spec fn pos(&self) -> int {
        self.scanner.pos()
    }

    /// The line scanning resumes on.
    pub closed spec fn line_no(&self) -> int {
        self.scanner.line_no()
    }

    /// The open string interpolations.
    pub closed spec fn parens(&self) -> Seq<usize> {
        self.scanner.parens()
    }

    /// The errors reported so far, oldest first.
    pub closed spec fn reports(&self) -> Seq<Seq<char>> {
        messages_view(self.errors@)
    }

    /// Whether errors are being suppressed until the parser recovers.
    pub closed spec fn panicking(&self) -> bool {
        self.panic_mode
    }

    /// The name of the module being compiled.
    pub closed spec fn module(&self) -> Seq<char> {
        self.module_name@
    }

    /// The current token.
    pub closed spec fn current_token(&self) -> Token {
        self.current
    }

    /// The previous token.
    pub closed spec fn previous_token(&self) -> Token {
        self.previous
    }

    /// The parser's internal consistency.
    pub closed spec fn wf(&self) -> bool {
        self.scanner.wf()
    }

    /// Whether `after` is `before` moved on by one token: the current token
    /// becomes the previous one, error tokens are skipped (the first one
    /// reported unless the parser is panicking, which it then is), and the
    /// next other token becomes the current one.
    pub open spec fn advanced(before: &Parser, after: &Parser) -> bool {
        let r = scan_past_errors(before.src(), before.pos(), before.line_no(), before.parens());
        let last = r.0;
        let errs = r.1;
        &&& after.wf()
        &&& after.src() == before.src()
        &&& after.module() == before.module()
        &&& after.previous_token() == before.current_token()
        &&& after.pos() == last.current
        &&& after.line_no() == last.line
        &&& after.parens() == last.parens
        &&& after.current_token().kind == last.kind
        &&& after.current_token().line == last.line
        &&& after.current_token().source@ == last.text
        &&& after.panicking() == (before.panicking() || errs.len() > 0)
        &&& after.reports() == before.reports() + (if errs.len() > 0 {
            reported(
                before.panicking(),
                error_report(before.module(), TokenKind::Error, errs[0].line as nat, errs[0].text, errs[0].text),
            )
        } else {
            Seq::empty()
        })
    }

    /// A parser at the start of `source`, for the module `module_name`
    /// (`main` when none is given), before its first token is read.
    pub fn new(source: String, module_name: Option<&str>) -> (p: Parser)
        requires
            source@.len() < usize::MAX,
        ensures
            p.wf(),
            p.src() == source@,
            p.pos() == 0,
            p.line_no() == 1,
            p.parens() == Seq::<usize>::empty(),
            p.current_token().kind == TokenKind::Eof,
            p.previous_token().kind == TokenKind::Eof,
            !p.panicking(),
            p.reports() == Seq::<Seq<char>>::empty(),
            p.module() == (match module_name {
                Some(m) => m@,
                None => "main"@,
            }),
    {
        let module = match module_name {
            Some(m) => m.to_owned(),
            None => "main".to_owned(),
        };
        let p = Parser {
            scanner: Scanner::from_source(source),
            current: Token::new(),
            previous: Token::new(),
            panic_mode: false,
            errors: Vec::new(),
            module_name: module,
        };
        assert(p.reports() =~= Seq::<Seq<char>>::empty());
        p
    }

    /// The current token.
    pub fn current(&self) -> (t: &Token)
        ensures
            *t == self.current_token(),
    {
        &self.current
    }

    /// The previous token.
    pub fn previous(&self) -> (t: &Token)
        ensures
            *t == self.previous_token(),
    {
        &self.previous
    }

    /// The errors reported so far, oldest first.
    pub fn errors(&self) -> (e: &Vec<String>)
        ensures
            messages_view(e@) == self.reports(),
    {
        &self.errors
    }

    /// Whether errors are being suppressed until the parser recovers.
    pub fn panic_mode(&self) -> (b: bool)
        ensures
            b == self.panicking(),
    {
        self.panic_mode
    }

    /// Reports an error at a token unless the parser is already panicking,
    /// and then panics.
    fn report(&mut self, kind: TokenKind, line: usize, source: &str, message: &str)
        ensures
            final(self).scanner == old(self).scanner,
            final(self).current_token() == old(self).current_token(),
            final(self).previous_token() == old(self).previous_token(),
            final(self).module_name == old(self).module_name,
            final(self).panic_mode,
            final(self).reports() == old(self).reports() + reported(
                old(self).panic_mode,
                error_report(old(self).module(), kind, line as nat, source@, message@),
            ),
    {
        if self.panic_mode {
            assert(self.reports() =~= old(self).reports() + Seq::<Seq<char>>::empty());
            return;
        }
        self.panic_mode = true;
        let mut text = String::new();
        text.append("[module \"");
        text.append(self.module_name.as_str());
        text.append("\", line ");
        text.append(usize_to_string(line).as_str());
        text.append("] Error");
        if kind == TokenKind::Eof {
            text.append(" at end");
        } else if kind != TokenKind::Error {
            text.append(" at '");
            text.append(source);
            text.append("'");
        }
        text.append(": ");
        text.append(message);
        assert(text@ =~= error_report(old(self).module(), kind, line as nat, source@, message@));
        let ghost before = self.errors@;
        self.errors.push(text);
        assert(messages_view(self.errors@) =~= messages_view(before).push(text@));
    }

    /// Reports an error at a token, unless the parser is already panicking.
    pub fn error_at(&mut self, token: &Token, message: &str)
        requires
            old(self).wf(),
        ensures
            final(self).wf(),
            final(self).src() == old(self).src(),
            final(self).pos() == old(self).pos(),
            final(self).line_no() == old(self).line_no(),
            final(self).parens() == old(self).parens(),
            final(self).current_token() == old(self).current_token(),
            final(self).previous_token() == old(self).previous_token(),
            final(self).module() == old(self).module(),
            final(self).panicking(),
            final(self).reports() == old(self).reports() + reported(
                old(self).panicking(),
                error_report(old(self).module(), token.kind, token.line as nat, token.source@, message@),
            ),
    {
        self.report(token.kind, token.line, token.source.as_str(), message);
    }

    /// Reports an error at the current token.
    pub fn error_at_current(&mut self, message: &str)
        requires
            old(self).wf(),
        ensures
            final(self).wf(),
            final(self).src() == old(self).src(),
            final(self).pos() == old(self).pos(),
            final(self).line_no() == old(self).line_no(),
            final(self).parens() == old(self).parens(),
            final(self).current_token() == old(self).current_token(),
            final(self).previous_token() == old(self).previous_token(),
            final(self).module() == old(self).module(),
            final(self).panicking(),
            final(self).reports() == old(self).reports() + reported(
                old(self).panicking(),
                error_report(
                    old(self).module(),
                    old(self).current_token().kind,
                    old(self).current_token().line as nat,
                    old(self).current_token().source@,
                    message@,
                ),
            ),
    {
        let kind = self.current.kind;
        let line = self.current.line;
        let source = self.current.source.clone();
        self.report(kind, line, source.as_str(), message);
    }

    /// Reports an error at the previous token.
    pub fn error(&mut self, message: &str)
        requires
            old(self).wf(),
        ensures
            final(self).wf(),
            final(self).src() == old(self).src(),
            final(self).pos() == old(self).pos(),
            final(self).line_no() == old(self).line_no(),
            final(self).parens() == old(self).parens(),
            final(self).current_token() == old(self).current_token(),
            final(self).previous_token() == old(self).previous_token(),
            final(self).module() == old(self).module(),
            final(self).panicking(),
            final(self).reports() == old(self).reports() + reported(
                old(self).panicking(),
                error_report(
                    old(self).module(),
                    old(self).previous_token().kind,
                    old(self).previous_token().line as nat,
                    old(self).previous_token().source@,
                    message@,
                ),
            ),
    {
        let kind = self.previous.kind;
        let line = self.previous.line;
        let source = self.previous.source.clone();
        self.report(kind, line, source.as_str(), message);
    }

    /// Moves on by one token: see `advanced`.
    pub fn advance(&mut self)
        requires
            old(self).wf(),
        ensures
            Parser::advanced(old(self), final(self)),
    {
        let ghost r = scan_past_errors(self.src(), self.pos(), self.line_no(), self.parens());
        let ghost panic0 = self.panic_mode;
        let ghost reports0 = self.reports();
        let mut incoming = Token::new();
        core::mem::swap(&mut self.current, &mut incoming);
        self.previous = incoming;
        let ghost mut seen: Seq<ScanStep> = Seq::empty();
        proof {
            self.scanner.lemma_wf_positions();
        }
        loop
            invariant_except_break
                scan_past_errors(self.src(), self.pos(), self.line_no(), self.parens()).0 == r.0,
                r.1 == seen + scan_past_errors(self.src(), self.pos(), self.line_no(), self.parens()).1,
            invariant
                self.wf(),
                self.src() == old(self).src(),
                self.module() == old(self).module(),
                self.previous == old(self).current,
                0 <= self.pos() <= self.src().len(),
                r == scan_past_errors(old(self).src(), old(self).pos(), old(self).line_no(), old(self).parens()),
                self.panic_mode == (panic0 || seen.len() > 0),
                panic0 == old(self).panicking(),
                reports0 == old(self).reports(),
                seen.len() > 0 ==> r.1[0] == seen[0],
                self.reports() == reports0 + (if seen.len() > 0 {
                    reported(
                        panic0,
                        error_report(old(self).module(), TokenKind::Error, seen[0].line as nat, seen[0].text, seen[0].text),
                    )
                } else {
                    Seq::empty()
                }),
            ensures
                Parser::advanced(old(self), self),
            decreases self.src().len() - self.pos(),
        {
            let ghost src = self.src();
            let ghost pos = self.pos();
            let ghost line = self.line_no();
            let ghost parens = self.parens();
            proof {
                lemma_scan_progress(src, pos, line, parens);
            }
            self.current = self.scanner.scan_token();
            proof {
                self.scanner.lemma_wf_positions();
            }
            let ghost step = scan_token_spec(src, pos, line, parens);
            if self.current.kind != TokenKind::Error {
                proof {
                    assert(scan_past_errors(src, pos, line, parens).1 =~= Seq::<ScanStep>::empty());
                    assert(seen + Seq::<ScanStep>::empty() =~= seen);
                }
                break;
            }
            let message = self.current.source.clone();
            self.error_at_current(message.as_str());
            proof {
                let rest = scan_past_errors(src, step.current, step.line, step.parens);
                assert(scan_past_errors(src, pos, line, parens).1 == seq![step] + rest.1);
                assert(seen + (seq![step] + rest.1) =~= seen.push(step) + rest.1);
                if seen.len() == 0 {
                    assert(reported(panic0, error_report(old(self).module(), TokenKind::Error, step.line as nat, step.text, step.text))
                        == reported(old(self).panicking(), error_report(old(self).module(), TokenKind::Error, self.current.line as nat, self.current.source@, message@)));
                } else {
                    assert(self.reports() =~= reports0 + reported(
                        panic0,
                        error_report(old(self).module(), TokenKind::Error, seen[0].line as nat, seen[0].text, seen[0].text),
                    ));
                }
                seen = seen.push(step);
            }
        }
    }

    /// How much input is left to read: twice the characters not yet
    /// scanned, and one more while the current token is not the end.
    pub open spec fn remaining(&self) -> int {
        if self.pos() <= self.src().len() {
            2 * (self.src().len() - self.pos()) + (if self.current_token().kind == TokenKind::Eof {
                0int
            } else {
                1int
            })
        } else {
            0
        }
    }

    /// A consistent parser's position lies within its source.
    pub proof fn lemma_wf_pos(&self)
        requires
            self.wf(),
        ensures
            0 <= self.pos() <= self.src().len(),
    {
        self.scanner.lemma_wf_positions();
    }

    /// Stops suppressing errors: the parser has recovered.
    pub fn recover(&mut self)
        ensures
            final(self).wf() == old(self).wf(),
            final(self).src() == old(self).src(),
            final(self).pos() == old(self).pos(),
            final(self).line_no() == old(self).line_no(),
            final(self).parens() == old(self).parens(),
            final(self).current_token() == old(self).current_token(),
            final(self).previous_token() == old(self).previous_token(),
            final(self).module() == old(self).module(),
            final(self).reports() == old(self).reports(),
            !final(self).panicking(),
    {
        self.panic_mode = false;
    }

    /// Whether the current token is of the given kind.
    pub fn check(&self, kind: TokenKind) -> (b: bool)
        ensures
            b == (self.current_token().kind == kind),
    {
        self.current.kind == kind
    }

    /// Moves on when the current token is of the given kind; false, with
    /// nothing changed, otherwise.
    pub fn match_token(&mut self, kind: TokenKind) -> (b: bool)
        requires
            old(self).wf(),
        ensures
            b == (old(self).current_token().kind == kind),
            b ==> Parser::advanced(old(self), final(self)),
            !b ==> *final(self) == *old(self),
    {
        if !self.check(kind) {
            return false;
        }
        self.advance();
        true
    }

    /// Moves on past a token of the given kind; reports `message` at the
    /// current token when it is of another kind.
    pub fn consume(&mut self, kind: TokenKind, message: &str)
        requires
            old(self).wf(),
        ensures
            old(self).current_token().kind == kind ==> Parser::advanced(old(self), final(self)),
            old(self).current_token().kind != kind ==> final(self).wf() && final(self).src() == old(self).src()
                && final(self).module() == old(self).module()
                && final(self).pos() == old(self).pos() && final(self).current_token() == old(self).current_token()
                && final(self).previous_token() == old(self).previous_token() && final(self).panicking()
                && final(self).reports() == old(self).reports() + reported(
                old(self).panicking(),
                error_report(
                    old(self).module(),
                    old(self).current_token().kind,
                    old(self).current_token().line as nat,
                    old(self).current_token().source@,
                    message@,
                ),
            ),
    {
        if self.current.kind == kind {
            self.advance();
            return;
        }
        self.error_at_current(message);
    }
}

/// Scanning past error tokens never moves back, and moves forward unless
/// it stops at the end.
pub proof fn lemma_scan_past_errors_forward(src: Seq<char>, current: int, line: int, parens: Seq<usize>)
    requires
        0 <= current <= src.len(),
    ensures
        current <= scan_past_errors(src, current, line, parens).0.current <= src.len(),
        scan_past_errors(src, current, line, parens).0.kind != TokenKind::Eof
            ==> current < scan_past_errors(src, current, line, parens).0.current,
        scan_past_errors(src, current, line, parens).0.kind == TokenKind::Eof
            ==> scan_past_errors(src, current, line, parens).0.current == src.len(),
    decreases src.len() - current,
{
    lemma_scan_progress(src, current, line, parens);
    let step = scan_token_spec(src, current, line, parens);
    if step.kind == TokenKind::Error {
        lemma_scan_past_errors_forward(src, step.current, step.line, step.parens);
    }
}

/// At the end of the source, moving on reads the end of input again and
/// meets no error token.
pub proof fn lemma_scan_past_errors_at_end(src: Seq<char>, line: int, parens: Seq<usize>)
    ensures
        scan_past_errors(src, src.len() as int, line, parens).0.kind == TokenKind::Eof,
        scan_past_errors(src, src.len() as int, line, parens).1.len() == 0,
{
    lemma_skip_ws(src, src.len() as int, line);
    lemma_scan_at_end(src, src.len() as int, line, parens);
}

/// Moving on by one token never adds to what is left to read, and takes
/// from it unless the current token was already the end.
pub proof fn lemma_advance_progress(before: &Parser, after: &Parser)
    requires
        before.wf(),
        Parser::advanced(before, after),
    ensures
        after.remaining() <= before.remaining(),
        before.current_token().kind != TokenKind::Eof ==> after.remaining() < before.remaining(),
        before.pos() <= after.pos(),
{
    before.lemma_wf_pos();
    lemma_scan_past_errors_forward(before.src(), before.pos(), before.line_no(), before.parens());
}

/// Once the parser is panicking it stays so, and moving on reports
/// nothing more: one error is reported per failure until it recovers.
pub proof fn lemma_panicking_reports_nothing(before: &Parser, after: &Parser)
    requires
        before.panicking(),
        Parser::advanced(before, after),
    ensures
        after.panicking(),
        after.reports() == before.reports(),
{
    let errs = scan_past_errors(before.src(), before.pos(), before.line_no(), before.parens()).1;
    assert(before.reports() + Seq::<Seq<char>>::empty() =~= before.reports());
    if errs.len() > 0 {
        assert(reported(true, error_report(before.module(), TokenKind::Error, errs[0].line as nat, errs[0].text, errs[0].text))
            =~= Seq::<Seq<char>>::empty());
    }
}

} // verus!
