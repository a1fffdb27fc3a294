//! The compiler's front end: a Pratt parser over the token stream that
//! writes the bytecode of a script as it reads it.

use vstd::prelude::*;

use crate::chunk::{opcode_byte, Chunk, OpCode};
use crate::error::{messages_view, Error, ErrorKind};
use crate::compiler::{
    captured, captured_through, enclosing_with_local, lemma_enclosing_bounds, lemma_find_last_local_bounds,
    resolved_slot,
    patch_bytes, jump_distance, u16_bytes, precedence_rank, with_short, Compiler, CompilerError, FunctionKind,
    loop_distance, scope_end_code, scope_tail, Local, Precedence, JUMP_SIZE_MAX,
};
use crate::parser::{
    lemma_advance_progress, lemma_scan_past_errors_at_end, lemma_scan_past_errors_forward, parse_rule,
    parse_rule_spec, scan_past_errors, InfixRule, Parser, PrefixRule,
};
use crate::scanner::TokenKind;

verus! {

/// A constant that compiled code refers to, kept as the source wrote it:
/// a number by its lexeme, a string by its contents, a name by its text;
/// or a function compiled inside the one that refers to it.
#[derive(Debug)]
pub enum Constant {
    Number(String),
    Str(String),
    Name(String),
    Function(Function),
}

/// The kind of the token that the parser reads next, once it moves on:
/// what its scanner finds at its position, past any error tokens.
pub open spec fn first_token_kind(p: &Parser) -> TokenKind {
    scan_past_errors(p.src(), p.pos(), p.line_no(), p.parens()).0.kind
}

/// The error tokens that the parser meets before that token.
pub open spec fn first_errors(p: &Parser) -> Seq<crate::scanner::ScanStep> {
    scan_past_errors(p.src(), p.pos(), p.line_no(), p.parens()).1
}

/// Whether `b` starts with `a`.
pub open spec fn extends<T>(a: Seq<T>, b: Seq<T>) -> bool {
    &&& a.len() <= b.len()
    &&& forall|i: int| 0 <= i < a.len() ==> #[trigger] b[i] == a[i]
}

/// Whether two compiler states agree on everything but their chunks.
pub open spec fn same_state(a: Compiler<Constant>, b: Compiler<Constant>) -> bool {
    &&& a.kind == b.kind
    &&& same_shape(a.locals@, b.locals@)
    &&& a.scope_depth == b.scope_depth
    &&& a.in_try_block == b.in_try_block
    &&& a.loop_stack == b.loop_stack
    &&& a.break_stack == b.break_stack
}

/// Whether two lists of locals have the same names, initialised at the
/// same depths (closures may have captured some since).
pub open spec fn same_shape(a: Seq<Local>, b: Seq<Local>) -> bool {
    &&& a.len() == b.len()
    &&& forall|i: int|
        #![trigger a[i]]
        #![trigger b[i]]
        0 <= i < a.len() ==> a[i].name == b[i].name && a[i].depth == b[i].depth
}

/// Whether an enclosing function's compilation is as it was, but for
/// captures that closures compiled inside it have made.
pub open spec fn kept(a: Compiler<Constant>, b: Compiler<Constant>) -> bool {
    &&& same_state(a, b)
    &&& a.chunk == b.chunk
}

/// Every rule that binds after a left operand has a handler there, and the
/// end of the input starts no expression.
pub proof fn lemma_rules_complete(kind: TokenKind)
    ensures
        precedence_rank(parse_rule_spec(kind).precedence) >= 1 ==> parse_rule_spec(kind).infix is Some,
        precedence_rank(parse_rule_spec(kind).precedence) >= 1 ==> kind != TokenKind::Eof,
        parse_rule_spec(kind).infix == Some(InfixRule::Binary) ==> 1 <= precedence_rank(
            parse_rule_spec(kind).precedence,
        ) < 15,
        parse_rule_spec(kind).prefix is Some ==> kind != TokenKind::Eof,
{
}

/// The instructions a binary operator ends with.
pub open spec fn binary_code(kind: TokenKind) -> Seq<u8> {
    match kind {
        TokenKind::BangEqual => seq![opcode_byte(OpCode::Equal), opcode_byte(OpCode::Not)],
        TokenKind::EqualEqual => seq![opcode_byte(OpCode::Equal)],
        TokenKind::Greater => seq![opcode_byte(OpCode::Greater)],
        TokenKind::GreaterEqual => seq![opcode_byte(OpCode::Less), opcode_byte(OpCode::Not)],
        TokenKind::Less => seq![opcode_byte(OpCode::Less)],
        TokenKind::LessEqual => seq![opcode_byte(OpCode::Greater), opcode_byte(OpCode::Not)],
        TokenKind::Plus => seq![opcode_byte(OpCode::Add)],
        TokenKind::Minus => seq![opcode_byte(OpCode::Subtract)],
        TokenKind::Star => seq![opcode_byte(OpCode::Multiply)],
        TokenKind::Slash => seq![opcode_byte(OpCode::Divide)],
        _ => Seq::empty(),
    }
}

/// The instruction a literal loads.
pub open spec fn literal_code(kind: TokenKind) -> Seq<u8> {
    match kind {
        TokenKind::False => seq![opcode_byte(OpCode::False)],
        TokenKind::Nil => seq![opcode_byte(OpCode::Nil)],
        TokenKind::True => seq![opcode_byte(OpCode::True)],
        _ => Seq::empty(),
    }
}

/// Whether the jump operand at `offset` holds the distance from its end to
/// the end of `code`: the jump lands just past the code.
pub open spec fn jump_lands(code: Seq<u8>, offset: int, big_endian: bool) -> bool {
    (code[offset], code[offset + 1]) == u16_bytes(
        jump_distance(code.len() as int, offset) as u16,
        big_endian,
    )
}

/// The operators that update a variable in place.
pub open spec fn is_compound_assignment(kind: TokenKind) -> bool {
    kind == TokenKind::MinusEqual || kind == TokenKind::PlusEqual || kind == TokenKind::SlashEqual
        || kind == TokenKind::StarEqual
}

/// Whether `kind` updates a variable in place.
pub fn is_compound_assignment_exec(kind: TokenKind) -> (b: bool)
    ensures
        b == is_compound_assignment(kind),
{
    match kind {
        TokenKind::MinusEqual | TokenKind::PlusEqual | TokenKind::SlashEqual | TokenKind::StarEqual => true,
        _ => false,
    }
}

/// Every local is initialised, and slot 0 is the receiver, initialised at
/// the outermost depth.
pub open spec fn settled(c: Compiler<Constant>) -> bool {
    &&& c.locals@.len() >= 1
    &&& c.locals@[0].depth == Some(0usize)
    &&& forall|i: int| 0 <= i < c.locals@.len() ==> (#[trigger] c.locals@[i]).depth is Some
}

/// As `settled`, but for the last local, which a declaration inside a
/// block has just added and not yet initialised.
pub open spec fn pending(c: Compiler<Constant>) -> bool {
    &&& c.locals@.len() >= 1
    &&& c.locals@[0].depth == Some(0usize)
    &&& forall|i: int| 0 <= i < c.locals@.len() - 1 ==> (#[trigger] c.locals@[i]).depth is Some
    &&& (c.scope_depth > 0 ==> c.locals@.len() >= 2)
    &&& (c.scope_depth == 0 ==> settled(c))
}

/// The instructions that return from a function of the given kind without
/// a value: an initialiser returns its instance, others nil.
pub open spec fn return_code(kind: FunctionKind) -> Seq<u8> {
    if kind == FunctionKind::Initialiser {
        seq![opcode_byte(OpCode::GetLocal), 0u8, opcode_byte(OpCode::Return)]
    } else {
        seq![opcode_byte(OpCode::Nil), opcode_byte(OpCode::Return)]
    }
}

/// Leaving the scopes deeper than `depth` never pops the receiver, which
/// was initialised at depth 0.
pub proof fn lemma_scope_tail_keeps_receiver(locals: Seq<Local>, depth: usize, n: int)
    requires
        1 <= n <= locals.len(),
        locals[0].depth == Some(0usize),
    ensures
        scope_tail(locals, depth, n) < n,
    decreases n,
{
    if n > 1 {
        lemma_scope_tail_keeps_receiver(locals, depth, n - 1);
    }
}

/// Leaving scopes writes one instruction per local it leaves.
pub proof fn lemma_scope_end_code_len(locals: Seq<Local>, depth: usize, n: int)
    ensures
        scope_end_code(locals, depth, n).len() == scope_tail(locals, depth, n),
    decreases n,
{
    if n > 0 {
        lemma_scope_end_code_len(locals, depth, n - 1);
    }
}

/// A compiled function: its name (empty for a script), how many slots its
/// receiver and parameters take, how many variables of enclosing functions
/// it captures, and its code.
#[derive(Debug)]
pub struct Function {
    pub name: String,
    pub arity: usize,
    pub upvalue_count: usize,
    pub chunk: Chunk<Constant>,
}

/// Where the listing of a closure instruction at `offset` ends, when the
/// constant it names is the `k`th of `constants`: past the instruction and
/// the two bytes of each variable that function captures. Nothing when
/// that constant is missing or is no function, or when the end lies past
/// what a `usize` holds.
pub open spec fn closure_end_at(constants: Seq<Constant>, k: int, offset: int) -> Option<int> {
    if 0 <= k < constants.len() {
        match constants[k] {
            Constant::Function(f) => if offset + 3 + 2 * f.upvalue_count <= usize::MAX {
                Some(offset + 3 + 2 * f.upvalue_count)
            } else {
                None
            },
            _ => None,
        }
    } else {
        None
    }
}

/// Where the listing of the closure instruction at `offset` ends: past its
/// 16-bit constant operand, read in the given byte order, and the captures
/// of the function that constant holds; nothing when it holds no function.
pub fn closure_end(chunk: &Chunk<Constant>, offset: usize, big_endian: bool) -> (r: Option<usize>)
    requires
        offset + 2 < chunk.code.len(),
    ensures
        match r {
            Some(e) => closure_end_at(
                chunk.constants@,
                crate::debug::read_u16(chunk.code@, offset + 1, big_endian) as int,
                offset as int,
            ) == Some(e as int),
            None => closure_end_at(
                chunk.constants@,
                crate::debug::read_u16(chunk.code@, offset + 1, big_endian) as int,
                offset as int,
            ) is None,
        },
{
    let first = chunk.code[offset + 1] as usize;
    let second = chunk.code[offset + 2] as usize;
    let k: usize = if big_endian {
        first * 256 + second
    } else {
        first + second * 256
    };
    assert(k == crate::debug::read_u16(chunk.code@, offset + 1, big_endian) as int) by (nonlinear_arith)
        requires
            first < 256,
            second < 256,
            k == (if big_endian {
                first * 256 + second
            } else {
                first + second * 256
            }),
            first == chunk.code@[offset + 1],
            second == chunk.code@[offset + 2],
    {
    }
    if k >= chunk.constants.len() {
        return None;
    }
    match &chunk.constants[k] {
        Constant::Function(f) => {
            let count = f.upvalue_count;
            if count > (usize::MAX - 3 - offset) / 2 {
                None
            } else {
                Some(offset + 3 + 2 * count)
            }
        },
        _ => None,
    }
}

/// Whether `code` ends with the instruction `op` followed by one that
/// stores into a local, a captured variable or a global.
pub open spec fn op_then_set(code: Seq<u8>, op: OpCode) -> bool {
    let n = code.len() as int;
    ||| n >= 3 && code[n - 3] == opcode_byte(op) && (code[n - 2] == opcode_byte(OpCode::SetLocal) || code[n - 2]
        == opcode_byte(OpCode::SetUpvalue))
    ||| n >= 4 && code[n - 4] == opcode_byte(op) && code[n - 3] == opcode_byte(OpCode::SetGlobal)
}

/// Whether `code` ends with the instruction `op` followed by one that
/// stores a property.
pub open spec fn op_then_property_set(code: Seq<u8>, op: OpCode) -> bool {
    let n = code.len() as int;
    n >= 4 && code[n - 4] == opcode_byte(op) && code[n - 3] == opcode_byte(OpCode::SetProperty)
}

/// Keeping is transitive.
pub proof fn lemma_kept_trans(a: Compiler<Constant>, b: Compiler<Constant>, c: Compiler<Constant>)
    requires
        kept(a, b),
        kept(b, c),
    ensures
        kept(a, c),
{
}

/// Keeping the enclosing compilations is transitive.
pub proof fn lemma_encl_kept_trans(a: &Compilation, b: &Compilation, c: &Compilation)
    requires
        Compilation::encl_kept(a, b),
        Compilation::encl_kept(b, c),
    ensures
        Compilation::encl_kept(a, c),
{
    assert forall|i: int| 0 <= i < a.enclosing@.len() implies kept(#[trigger] a.enclosing@[i], c.enclosing@[i]) by {
        lemma_kept_trans(a.enclosing@[i], b.enclosing@[i], c.enclosing@[i]);
    }
}

/// A compilation whose enclosing compilations are untouched keeps them.
pub proof fn lemma_encl_same(a: &Compilation, b: &Compilation)
    requires
        a.enclosing == b.enclosing,
    ensures
        Compilation::encl_kept(a, b),
{
    assert forall|i: int| 0 <= i < a.enclosing@.len() implies kept(#[trigger] a.enclosing@[i], b.enclosing@[i]) by {
        lemma_kept_refl(a.enclosing@[i]);
    }
}

/// Every compilation keeps itself.
pub proof fn lemma_kept_refl(c: Compiler<Constant>)
    ensures
        kept(c, c),
{
}

/// Capturing a variable keeps every function's compilation but for
/// captures: the function holding the variable marks it captured, those
/// inside record the capture.
pub proof fn lemma_capture_keeps(
    cs: Seq<Compiler<Constant>>,
    after: Seq<Compiler<Constant>>,
    name: Seq<char>,
    r: Result<Option<u8>, CompilerError>,
)
    requires
        cs.len() >= 2,
        enclosing_with_local(cs, name, cs.len() - 2) is Some,
        captured_through(cs, after, name, r),
    ensures
        after.len() == cs.len(),
        forall|i: int| 0 <= i < cs.len() ==> kept(#[trigger] cs[i], after[i]),
{
    let e = enclosing_with_local(cs, name, cs.len() - 2).unwrap();
    lemma_enclosing_bounds(cs, name, cs.len() - 2);
    let slot = resolved_slot(cs[e], name).unwrap();
    lemma_find_last_local_bounds(cs[e].locals@, name, cs[e].locals@.len() as int);
    assert forall|i: int| 0 <= i < cs.len() implies kept(#[trigger] cs[i], after[i]) by {
        if i == e {
            let a = cs[e].locals@;
            let b = after[e].locals@;
            assert(b == a.update(slot, captured(a[slot])));
            assert forall|k: int| 0 <= k < a.len() implies a[k].name == b[k].name && a[k].depth == b[k].depth by {
                if k == slot {
                } else {
                }
            }
        }
    }
}

/// A compilation in progress: the token stream, the state of the function
/// being compiled, and the byte order its jump and constant operands are
/// written in.
pub struct Compilation {
    pub parser: Parser,
    pub compiler: Compiler<Constant>,
    pub arity: usize,
    pub enclosing: Vec<Compiler<Constant>>,
    pub enclosing_arity: Vec<usize>,
    pub class_compilers: Vec<bool>,
    pub big_endian: bool,
    pub single_target: bool,
}

impl Compilation {
    /// The code written so far.
    pub open spec fn code(&self) -> Seq<u8> {
        self.compiler.chunk.code@
    }

    /// The constants added so far.
    pub open spec fn constants(&self) -> Seq<Constant> {
        self.compiler.chunk.constants@
    }

    /// The compilation's internal consistency.
    pub open spec fn ok(&self) -> bool {
        &&& self.parser.wf()
        &&& self.compiler.wf()
        &&& self.compiler.chunk.lines@.len() == self.compiler.chunk.code@.len()
        &&& self.parser.src().len() <= isize::MAX
        &&& self.compiler.scope_depth + self.parser.remaining() <= 2 * self.parser.src().len() + 1
        &&& forall|i: int|
            0 <= i < self.enclosing@.len() ==> (#[trigger] self.enclosing@[i]).wf()
                && self.enclosing@[i].chunk.lines@.len() == self.enclosing@[i].chunk.code@.len()
                && self.enclosing@[i].scope_depth + self.parser.remaining() <= 2 * self.parser.src().len() + 1
    }

    /// Whether the enclosing functions' compilations are as they were, but
    /// for captures.
    pub open spec fn outer_kept(before: &Compilation, after: &Compilation) -> bool {
        &&& Compilation::encl_kept(before, after)
        &&& after.arity == before.arity
        &&& after.enclosing_arity@ == before.enclosing_arity@
        &&& after.class_compilers@ == before.class_compilers@
    }

    /// Whether the enclosing functions' compilations are as they were, but
    /// for captures, whatever the current function's arity.
    pub open spec fn encl_kept(before: &Compilation, after: &Compilation) -> bool {
        &&& after.enclosing@.len() == before.enclosing@.len()
        &&& forall|i: int|
            0 <= i < before.enclosing@.len() ==> kept(#[trigger] before.enclosing@[i], after.enclosing@[i])
    }

    /// Whether the enclosing functions' compilations are untouched.
    pub open spec fn outer_same(before: &Compilation, after: &Compilation) -> bool {
        &&& after.enclosing == before.enclosing
        &&& after.arity == before.arity
        &&& after.enclosing_arity == before.enclosing_arity
        &&& after.class_compilers == before.class_compilers
    }

    /// Whether `after` follows `before` by reading on and writing code
    /// after what was there, every local initialised, at least as deep in
    /// block scopes.
    pub open spec fn stepped(before: &Compilation, after: &Compilation) -> bool {
        &&& after.ok()
        &&& settled(after.compiler)
        &&& after.parser.src() == before.parser.src()
        &&& after.parser.module() == before.parser.module()
        &&& after.big_endian == before.big_endian
        &&& after.single_target == before.single_target
        &&& after.parser.remaining() <= before.parser.remaining()
        &&& extends(before.code(), after.code())
        &&& extends(before.constants(), after.constants())
        &&& Compilation::outer_kept(before, after)
        &&& after.compiler.kind == before.compiler.kind
        &&& after.compiler.scope_depth >= before.compiler.scope_depth
        &&& after.compiler.in_try_block == before.compiler.in_try_block
        &&& after.compiler.loop_stack@ == before.compiler.loop_stack@
        &&& after.compiler.break_stack@ == before.compiler.break_stack@
        &&& before.parser.reports().len() <= after.parser.reports().len()
    }

    /// Whether `after` follows `before` by reading on and writing code
    /// after what was there, with the function's variables as they were.
    pub open spec fn grew(before: &Compilation, after: &Compilation) -> bool {
        &&& after.ok()
        &&& after.parser.src() == before.parser.src()
        &&& after.parser.module() == before.parser.module()
        &&& after.big_endian == before.big_endian
        &&& after.single_target == before.single_target
        &&& after.parser.remaining() <= before.parser.remaining()
        &&& extends(before.code(), after.code())
        &&& extends(before.constants(), after.constants())
        &&& same_state(before.compiler, after.compiler)
        &&& Compilation::outer_kept(before, after)
        &&& before.parser.reports().len() <= after.parser.reports().len()
    }

    /// Whether `after` has written code past `before`'s, or a new error has
    /// been reported since, or errors were being held back at `before`
    /// after an earlier one.
    pub open spec fn wrote_or_failed(before: &Compilation, after: &Compilation) -> bool {
        ||| after.code().len() > before.code().len()
        ||| after.parser.reports().len() > before.parser.reports().len()
        ||| before.parser.panicking()
    }

    /// Whether `after` follows `before` by moving on by one token and
    /// nothing else.
    pub open spec fn moved(before: &Compilation, after: &Compilation) -> bool {
        &&& Parser::advanced(&before.parser, &after.parser)
        &&& after.compiler == before.compiler
        &&& after.big_endian == before.big_endian
        &&& after.single_target == before.single_target
        &&& Compilation::outer_same(before, after)
    }

    /// The source line of the previous token, which code is written for.
    fn line(&self) -> (l: i32) {
        self.parser.previous().line as i32
    }

    /// Moves on by one token.
    fn advance(&mut self)
        requires
            old(self).ok(),
        ensures
            final(self).ok(),
            Compilation::moved(old(self), final(self)),
            Compilation::grew(old(self), final(self)),
            old(self).parser.current_token().kind != TokenKind::Eof ==> final(self).parser.remaining()
                < old(self).parser.remaining(),
    {
        let ghost before = self.parser;
        self.parser.advance();
        proof {
            lemma_advance_progress(&before, &self.parser);
        }
    }

    /// Moves on when the current token is of the given kind.
    fn match_token(&mut self, kind: TokenKind) -> (b: bool)
        requires
            old(self).ok(),
        ensures
            b == (old(self).parser.current_token().kind == kind),
            b ==> Compilation::moved(old(self), final(self)),
            !b ==> *final(self) == *old(self),
            Compilation::grew(old(self), final(self)),
            b && kind != TokenKind::Eof ==> final(self).parser.remaining() < old(self).parser.remaining(),
    {
        if self.parser.check(kind) {
            self.advance();
            true
        } else {
            false
        }
    }

    /// Moves on past a token of the given kind; reports `message` at the
    /// current token when it is of another kind.
    fn consume(&mut self, kind: TokenKind, message: &str)
        requires
            old(self).ok(),
        ensures
            final(self).parser.panicking() ==> old(self).parser.panicking() || old(self).parser.reports().len()
                < final(self).parser.reports().len(),
            Compilation::outer_same(old(self), final(self)),
            Compilation::grew(old(self), final(self)),
            final(self).compiler == old(self).compiler,
            old(self).parser.current_token().kind == kind ==> Compilation::moved(old(self), final(self)),
            old(self).parser.current_token().kind == kind && kind != TokenKind::Eof ==> final(self).parser.remaining()
                < old(self).parser.remaining(),
            old(self).parser.current_token().kind != kind ==> final(self).parser.current_token()
                == old(self).parser.current_token() && final(self).parser.remaining()
                == old(self).parser.remaining(),
    {
        if self.parser.check(kind) {
            self.advance();
        } else {
            self.parser.error_at_current(message);
        }
    }

    /// Reports `message` at the previous token.
    fn error(&mut self, message: &str)
        requires
            old(self).ok(),
        ensures
            final(self).parser.panicking() ==> old(self).parser.panicking() || old(self).parser.reports().len()
                < final(self).parser.reports().len(),
            !old(self).parser.panicking() ==> final(self).parser.reports().len() > old(self).parser.reports().len(),
            Compilation::outer_same(old(self), final(self)),
            Compilation::grew(old(self), final(self)),
            final(self).compiler == old(self).compiler,
            final(self).parser.current_token() == old(self).parser.current_token(),
            final(self).parser.previous_token() == old(self).parser.previous_token(),
            final(self).parser.remaining() == old(self).parser.remaining(),
    {
        self.parser.error(message);
    }

    /// Writes one byte.
    fn emit_byte(&mut self, byte: u8)
        requires
            old(self).ok(),
        ensures
            final(self).compiler.upvalues == old(self).compiler.upvalues,
            Compilation::outer_same(old(self), final(self)),
            Compilation::grew(old(self), final(self)),
            final(self).parser == old(self).parser,
            final(self).code() == old(self).code().push(byte),
            final(self).constants() == old(self).constants(),
    {
        let line = self.line();
        self.compiler.chunk.write(byte, line);
    }

    /// Writes two bytes.
    fn emit_bytes(&mut self, first: u8, second: u8)
        requires
            old(self).ok(),
        ensures
            final(self).compiler.upvalues == old(self).compiler.upvalues,
            Compilation::outer_same(old(self), final(self)),
            Compilation::grew(old(self), final(self)),
            final(self).parser == old(self).parser,
            final(self).code() == old(self).code() + seq![first, second],
            final(self).constants() == old(self).constants(),
    {
        self.emit_byte(first);
        self.emit_byte(second);
        assert(self.code() =~= old(self).code() + seq![first, second]);
    }

    /// Writes an instruction with a 16-bit operand in the compilation's
    /// byte order.
    fn emit_short_op(&mut self, opcode: OpCode, operand: u16)
        requires
            old(self).ok(),
        ensures
            Compilation::outer_same(old(self), final(self)),
            Compilation::grew(old(self), final(self)),
            final(self).parser == old(self).parser,
            final(self).code() == old(self).code() + with_short(opcode_byte(opcode), operand, old(self).big_endian),
            final(self).constants() == old(self).constants(),
    {
        let line = self.line();
        self.compiler.chunk.write(opcode.to_byte(), line);
        let bytes = crate::compiler::short_bytes(operand, self.big_endian);
        self.compiler.chunk.write(bytes[0], line);
        self.compiler.chunk.write(bytes[1], line);
        assert(self.code() =~= old(self).code() + with_short(opcode_byte(opcode), operand, old(self).big_endian));
    }

    /// Adds a constant; its index, or 0 with an error reported when the
    /// chunk already holds as many constants as an operand can name.
    fn make_constant(&mut self, value: Constant) -> (index: u16)
        requires
            old(self).ok(),
        ensures
            final(self).parser.panicking() ==> old(self).parser.panicking() || old(self).parser.reports().len()
                < final(self).parser.reports().len(),
            Compilation::outer_same(old(self), final(self)),
            Compilation::grew(old(self), final(self)),
            final(self).code() == old(self).code(),
            final(self).constants() == old(self).constants().push(value),
            index == (if old(self).constants().len() <= u16::MAX {
                old(self).constants().len() as u16
            } else {
                0u16
            }),
            final(self).parser.current_token() == old(self).parser.current_token(),
            final(self).parser.previous_token() == old(self).parser.previous_token(),
            final(self).parser.remaining() == old(self).parser.remaining(),
    {
        let index = self.compiler.chunk.add_constant(value);
        if index > 65535 {
            self.error("Too many constants in one chunk.");
            return 0;
        }
        index as u16
    }

    /// Writes an instruction that loads `value`.
    fn emit_constant(&mut self, value: Constant)
        requires
            old(self).ok(),
        ensures
            Compilation::outer_same(old(self), final(self)),
            Compilation::grew(old(self), final(self)),
            final(self).constants() == old(self).constants().push(value),
            final(self).code() == old(self).code() + with_short(
                opcode_byte(OpCode::Constant),
                (if old(self).constants().len() <= u16::MAX {
                    old(self).constants().len() as u16
                } else {
                    0u16
                }),
                old(self).big_endian,
            ),
            final(self).parser.current_token() == old(self).parser.current_token(),
            final(self).parser.previous_token() == old(self).parser.previous_token(),
            final(self).parser.remaining() == old(self).parser.remaining(),
    {
        let index = self.make_constant(value);
        self.emit_short_op(OpCode::Constant, index);
    }

    /// Writes a jump with a placeholder distance; where that distance is.
    fn emit_jump(&mut self, opcode: OpCode) -> (offset: usize)
        requires
            old(self).ok(),
        ensures
            Compilation::outer_same(old(self), final(self)),
            Compilation::grew(old(self), final(self)),
            final(self).parser == old(self).parser,
            final(self).code() == old(self).code() + seq![opcode_byte(opcode), 0xffu8, 0xffu8],
            final(self).constants() == old(self).constants(),
            offset == old(self).code().len() + 1,
    {
        self.emit_byte(opcode.to_byte());
        self.emit_bytes(0xff, 0xff);
        assert(self.code() =~= old(self).code() + seq![opcode_byte(opcode), 0xffu8, 0xffu8]);
        self.compiler.chunk.code.len() - 2
    }

    /// Writes at `offset` the distance from there to the end of the code;
    /// reports an error, with the code unchanged, when it is too far.
    fn patch_jump(&mut self, offset: usize)
        requires
            old(self).ok(),
            offset + 2 <= old(self).code().len(),
        ensures
            final(self).ok(),
            final(self).parser.src() == old(self).parser.src(),
            final(self).parser.module() == old(self).parser.module(),
            final(self).parser.current_token() == old(self).parser.current_token(),
            final(self).parser.remaining() == old(self).parser.remaining(),
            final(self).big_endian == old(self).big_endian,
            final(self).single_target == old(self).single_target,
            final(self).constants() == old(self).constants(),
            same_state(old(self).compiler, final(self).compiler),
            Compilation::outer_same(old(self), final(self)),
            final(self).code().len() == old(self).code().len(),
            old(self).parser.reports().len() <= final(self).parser.reports().len(),
            forall|i: int| 0 <= i < offset ==> #[trigger] final(self).code()[i] == old(self).code()[i],
            jump_distance(old(self).code().len() as int, offset as int) <= JUMP_SIZE_MAX ==> final(self).code()
                == patch_bytes(
                old(self).code(),
                offset as int,
                jump_distance(old(self).code().len() as int, offset as int) as u16,
                old(self).big_endian,
            ),
            jump_distance(old(self).code().len() as int, offset as int) > JUMP_SIZE_MAX ==> final(self).code()
                == old(self).code(),
    {
        let be = self.big_endian;
        match self.compiler.patch_jump(offset, be) {
            Ok(()) => {},
            Err(_) => {
                self.error("Too much code to jump over.");
            },
        }
    }

    /// Writes an instruction that reads or writes a variable: a one-byte
    /// slot for locals and captured variables, a 16-bit constant index for
    /// globals.
    fn emit_variable_op(&mut self, opcode: OpCode, variable: u16)
        requires
            old(self).ok(),
        ensures
            Compilation::outer_same(old(self), final(self)),
            Compilation::grew(old(self), final(self)),
            final(self).parser == old(self).parser,
            final(self).constants() == old(self).constants(),
            final(self).code().len() > old(self).code().len(),
            final(self).code()[old(self).code().len() as int] == opcode_byte(opcode),
            opcode == OpCode::GetLocal || opcode == OpCode::SetLocal || opcode == OpCode::GetUpvalue || opcode
                == OpCode::SetUpvalue ==> final(self).code().len() == old(self).code().len() + 2,
            !(opcode == OpCode::GetLocal || opcode == OpCode::SetLocal || opcode == OpCode::GetUpvalue || opcode
                == OpCode::SetUpvalue) ==> final(self).code().len() == old(self).code().len() + 3,
    {
        match opcode {
            OpCode::GetLocal | OpCode::SetLocal | OpCode::GetUpvalue | OpCode::SetUpvalue => {
                self.emit_bytes(opcode.to_byte(), variable as u8);
            },
            _ => {
                self.emit_short_op(opcode, variable);
            },
        }
    }

    /// Adds the name `text` as a constant; its index.
    fn identifier_constant(&mut self, text: &String) -> (index: u16)
        requires
            old(self).ok(),
        ensures
            final(self).parser.panicking() ==> old(self).parser.panicking() || old(self).parser.reports().len()
                < final(self).parser.reports().len(),
            Compilation::outer_same(old(self), final(self)),
            Compilation::grew(old(self), final(self)),
            final(self).code() == old(self).code(),
            final(self).constants().len() == old(self).constants().len() + 1,
            final(self).constants().last() matches Constant::Name(n) && n@ == text@,
            final(self).parser.current_token() == old(self).parser.current_token(),
            final(self).parser.previous_token() == old(self).parser.previous_token(),
            final(self).parser.remaining() == old(self).parser.remaining(),
    {
        self.make_constant(Constant::Name(text.clone()))
    }


    /// The index by which the function being compiled captures the
    /// variable `name` of an enclosing function, which is marked captured
    /// there and recorded by each function in between; `None` when no
    /// enclosing function has it, or, reported, when a function has no room
    /// for another captured variable.
    fn resolve_upvalue(&mut self, name: &String) -> (r: Option<u8>)
        requires
            old(self).ok(),
        ensures
            Compilation::grew(old(self), final(self)),
            final(self).code() == old(self).code(),
            final(self).constants() == old(self).constants(),
            final(self).parser.current_token() == old(self).parser.current_token(),
            final(self).parser.previous_token() == old(self).parser.previous_token(),
            final(self).parser.remaining() == old(self).parser.remaining(),
    {
        if self.enclosing.len() == 0 {
            return None;
        }
        let token = crate::scanner::Token { kind: TokenKind::Identifier, line: 0, source: name.clone() };
        let mut current = Compiler::new(FunctionKind::Script);
        core::mem::swap(&mut current, &mut self.compiler);
        let ghost cur = current;
        self.enclosing.push(current);
        let ghost cs = self.enclosing@;
        proof {
            assert forall|i: int| 0 <= i < cs.len() implies (#[trigger] cs[i]).wf() by {
                if i < cs.len() - 1 {
                    assert(cs[i] == old(self).enclosing@[i]);
                }
            }
        }
        let r = crate::compiler::resolve_upvalue(&mut self.enclosing, &token);
        let ghost after = self.enclosing@;
        proof {
            if enclosing_with_local(cs, name@, cs.len() - 2) is Some {
                lemma_capture_keeps(cs, after, name@, r);
            } else {
                assert forall|i: int| 0 <= i < cs.len() implies kept(#[trigger] cs[i], after[i]) by {
                    lemma_kept_refl(cs[i]);
                }
            }
        }
        let mut back = self.enclosing.pop().unwrap();
        core::mem::swap(&mut back, &mut self.compiler);
        proof {
            assert(self.compiler == after[cs.len() - 1]);
            assert(kept(cur, self.compiler));
            assert forall|i: int| 0 <= i < old(self).enclosing@.len() implies kept(
                #[trigger] old(self).enclosing@[i],
                self.enclosing@[i],
            ) by {
                assert(cs[i] == old(self).enclosing@[i]);
                assert(self.enclosing@[i] == after[i]);
            }
        }
        match r {
            Ok(found) => found,
            Err(e) => {
                match e {
                    CompilerError::TooManyClosureVars => {
                        self.error("Too many closure variables in function.");
                    },
                    _ => {},
                }
                None
            },
        }
    }

    /// Parses an expression: at assignment level, or above the bitwise-or
    /// level inside a compound assignment's right-hand side.
    pub fn expression(&mut self)
        requires
            old(self).ok(),
        ensures
            Compilation::wrote_or_failed(old(self), final(self)),
            Compilation::grew(old(self), final(self)),
            old(self).parser.current_token().kind != TokenKind::Eof ==> final(self).parser.remaining()
                < old(self).parser.remaining(),
        decreases old(self).parser.remaining(), 1int,
    {
        if self.single_target {
            self.parse_precedence(Precedence::BitwiseOr);
        } else {
            self.parse_precedence(Precedence::Assignment);
        }
    }

    /// Parses an expression whose operators bind at least as tightly as
    /// `precedence`: the token read first picks how the expression starts,
    /// and each following operator that binds tightly enough continues it.
    pub fn parse_precedence(&mut self, precedence: Precedence)
        requires
            old(self).ok(),
            precedence_rank(precedence) >= 1,
        ensures
            Compilation::wrote_or_failed(old(self), final(self)),
            Compilation::grew(old(self), final(self)),
            old(self).parser.current_token().kind != TokenKind::Eof ==> final(self).parser.remaining()
                < old(self).parser.remaining(),
        decreases old(self).parser.remaining(), 0int,
    {
        let ghost entry = *self;
        self.advance();
        let kind = self.parser.previous().kind;
        let rule = parse_rule(kind);
        let can_assign = precedence.rank() <= 1;
        proof {
            lemma_rules_complete(kind);
        }
        match rule.prefix {
            None => {
                self.error("Expected expression.");
                return;
            },
            Some(prefix) => {
                self.prefix(prefix, can_assign);
            },
        }
        while precedence.rank() <= parse_rule(self.parser.current().kind).precedence.rank()
            invariant
                Compilation::grew(&entry, self),
                Compilation::wrote_or_failed(&entry, self),
                entry == *old(self),
                self.parser.remaining() < entry.parser.remaining(),
                precedence_rank(precedence) >= 1,
            decreases self.parser.remaining(),
        {
            proof {
                lemma_rules_complete(self.parser.current_token().kind);
            }
            self.advance();
            let infix = parse_rule(self.parser.previous().kind).infix;
            proof {
                lemma_rules_complete(self.parser.previous_token().kind);
            }
            match infix {
                Some(rule) => {
                    self.infix(rule, can_assign);
                },
                None => {},
            }
        }
        if can_assign {
            if self.match_token(TokenKind::Equal) {
                self.error("Invalid assignment target.");
            }
        }
    }

    /// Parses an expression that starts with the previous token.
    fn prefix(&mut self, rule: PrefixRule, can_assign: bool)
        requires
            old(self).ok(),
            parse_rule_spec(old(self).parser.previous_token().kind).prefix == Some(rule),
            old(self).parser.remaining() < 2 * old(self).parser.src().len() + 1,
        ensures
            Compilation::wrote_or_failed(old(self), final(self)),
            Compilation::grew(old(self), final(self)),
        decreases old(self).parser.remaining(), 16int,
    {
        match rule {
            PrefixRule::Grouping => self.grouping(),
            PrefixRule::HashMap => self.hash_map(),
            PrefixRule::Vector => self.vector(),
            PrefixRule::Unary => self.unary(),
            PrefixRule::Variable => self.variable(can_assign),
            PrefixRule::String => self.string(),
            PrefixRule::Number => self.number(),
            PrefixRule::Literal => self.literal(),
            PrefixRule::Interpolation => self.interpolation(),
            PrefixRule::Lambda => self.lambda(),
            PrefixRule::SelfValue => self.self_(),
            PrefixRule::CapSelf => self.cap_self(),
            PrefixRule::Super => self.super_(),
        }
    }

    /// Parses the rest of an expression after its left operand, the
    /// previous token being the operator.
    fn infix(&mut self, rule: InfixRule, can_assign: bool)
        requires
            old(self).ok(),
            parse_rule_spec(old(self).parser.previous_token().kind).infix == Some(rule),
        ensures
            Compilation::grew(old(self), final(self)),
        decreases old(self).parser.remaining(), 16int,
    {
        match rule {
            InfixRule::Call => self.call(),
            InfixRule::Index => self.index(can_assign),
            InfixRule::Dot => self.dot(can_assign),
            InfixRule::DotDot => self.dotdot(),
            InfixRule::Binary => self.binary(),
            InfixRule::And => self.and_(),
            InfixRule::Or => self.or_(),
        }
    }

    /// A parenthesised expression, or a tuple of the expressions between
    /// the parentheses (none, one followed by a comma, or several).
    fn grouping(&mut self)
        requires
            old(self).ok(),
        ensures
            Compilation::wrote_or_failed(old(self), final(self)),
            Compilation::grew(old(self), final(self)),
        decreases old(self).parser.remaining(), 13int,
    {
        let ghost entry = *self;
        let mut single_elem_tuple = false;
        let mut num_elems: u8 = 0;
        let ghost mut started = false;
        if !self.parser.check(TokenKind::RightParen) {
            loop
                invariant
                    Compilation::grew(&entry, self),
                    started ==> Compilation::wrote_or_failed(&entry, self),
                    !started ==> *self == entry,
                    num_elems != 0 ==> started,
                    entry == *old(self),
                decreases self.parser.remaining(),
            {
                self.expression();
                proof {
                    started = true;
                }
                if num_elems == 255 {
                    self.error("Cannot have more than 255 Tuple elements.");
                }
                num_elems = num_elems.wrapping_add(1);
                if !self.match_token(TokenKind::Comma) {
                    break;
                }
                if num_elems == 1 && self.parser.check(TokenKind::RightParen) {
                    single_elem_tuple = true;
                    break;
                }
            }
        }
        let is_tuple = num_elems != 1 || single_elem_tuple;
        if is_tuple {
            self.emit_bytes(OpCode::BuildTuple.to_byte(), num_elems);
            self.consume(TokenKind::RightParen, "Expected ')' after elements.");
        } else {
            self.consume(TokenKind::RightParen, "Expected ')' after expression.");
        }
    }

    /// The expressions of a list up to `right_delim`, separated by commas;
    /// how many there were, modulo 256 (more than 255 is reported).
    fn argument_list(&mut self, right_delim: TokenKind, count_msg: &str, delim_msg: &str) -> (count: u8)
        requires
            old(self).ok(),
        ensures
            Compilation::grew(old(self), final(self)),
        decreases old(self).parser.remaining(), 6int,
    {
        let ghost entry = *self;
        let mut arg_count: u8 = 0;
        let mut wrapped = false;
        if !self.parser.check(right_delim) {
            loop
                invariant
                    Compilation::grew(&entry, self),
                    entry == *old(self),
                decreases self.parser.remaining(),
            {
                self.expression();
                if arg_count == 255 && !wrapped {
                    self.error(count_msg);
                    wrapped = true;
                }
                arg_count = arg_count.wrapping_add(1);
                if !self.match_token(TokenKind::Comma) {
                    break;
                }
            }
        }
        self.consume(right_delim, delim_msg);
        arg_count
    }

    /// A call of the left operand with the arguments up to ')'.
    fn call(&mut self)
        requires
            old(self).ok(),
        ensures
            Compilation::grew(old(self), final(self)),
        decreases old(self).parser.remaining(), 13int,
    {
        let arg_count = self.argument_list(
            TokenKind::RightParen,
            "Cannot have more than 255 arguments.",
            "Expected ')' after arguments.",
        );
        self.emit_bytes(OpCode::Call.to_byte(), arg_count);
    }

    /// A list of elements up to ']'.
    fn vector(&mut self)
        requires
            old(self).ok(),
        ensures
            Compilation::wrote_or_failed(old(self), final(self)),
            Compilation::grew(old(self), final(self)),
        decreases old(self).parser.remaining(), 13int,
    {
        let num_elems = self.argument_list(
            TokenKind::RightBracket,
            "Cannot have more than 255 Vec elements.",
            "Expected ']' after elements.",
        );
        self.emit_bytes(OpCode::BuildVec.to_byte(), num_elems);
    }

    /// Key-value entries up to '}'.
    fn hash_map(&mut self)
        requires
            old(self).ok(),
        ensures
            Compilation::wrote_or_failed(old(self), final(self)),
            Compilation::grew(old(self), final(self)),
        decreases old(self).parser.remaining(), 13int,
    {
        let ghost entry = *self;
        let mut num_entries: u8 = 0;
        let mut wrapped = false;
        if !self.parser.check(TokenKind::RightBrace) {
            loop
                invariant
                    Compilation::grew(&entry, self),
                    entry == *old(self),
                decreases self.parser.remaining(),
            {
                self.expression();
                self.consume(TokenKind::Colon, "Expected ':' after key.");
                self.expression();
                if num_entries == 255 && !wrapped {
                    self.error("Cannot have more than 255 HashMap entries.");
                    wrapped = true;
                }
                num_entries = num_entries.wrapping_add(1);
                if !self.match_token(TokenKind::Comma) {
                    break;
                }
            }
        }
        self.consume(TokenKind::RightBrace, "Expected '}' after elements.");
        self.emit_bytes(OpCode::BuildHashMap.to_byte(), num_entries);
    }

    /// A prefix operator applied to the operand that follows.
    fn unary(&mut self)
        requires
            old(self).ok(),
        ensures
            Compilation::wrote_or_failed(old(self), final(self)),
            Compilation::grew(old(self), final(self)),
            old(self).parser.previous_token().kind == TokenKind::Minus ==> final(self).code().last()
                == opcode_byte(OpCode::Negate),
            old(self).parser.previous_token().kind == TokenKind::Bang ==> final(self).code().last()
                == opcode_byte(OpCode::Not),
        decreases old(self).parser.remaining(), 13int,
    {
        let operator = self.parser.previous().kind;
        self.parse_precedence(Precedence::Unary);
        match operator {
            TokenKind::Minus => self.emit_byte(OpCode::Negate.to_byte()),
            TokenKind::Bang => self.emit_byte(OpCode::Not.to_byte()),
            _ => {},
        }
    }

    /// A binary operator applied to its left operand and the operand that
    /// follows, which binds one level more tightly.
    fn binary(&mut self)
        requires
            old(self).ok(),
            parse_rule_spec(old(self).parser.previous_token().kind).infix == Some(InfixRule::Binary),
        ensures
            old(self).parser.previous_token().kind == TokenKind::Plus ==> final(self).code().len() > old(
                self,
            ).code().len() && final(self).code().last() == opcode_byte(OpCode::Add),
            old(self).parser.previous_token().kind == TokenKind::Minus ==> final(self).code().len() > old(
                self,
            ).code().len() && final(self).code().last() == opcode_byte(OpCode::Subtract),
            old(self).parser.previous_token().kind == TokenKind::Star ==> final(self).code().len() > old(
                self,
            ).code().len() && final(self).code().last() == opcode_byte(OpCode::Multiply),
            old(self).parser.previous_token().kind == TokenKind::Slash ==> final(self).code().len() > old(
                self,
            ).code().len() && final(self).code().last() == opcode_byte(OpCode::Divide),
            old(self).parser.previous_token().kind == TokenKind::EqualEqual ==> final(self).code().len() > old(
                self,
            ).code().len() && final(self).code().last() == opcode_byte(OpCode::Equal),
            old(self).parser.previous_token().kind == TokenKind::Greater ==> final(self).code().len() > old(
                self,
            ).code().len() && final(self).code().last() == opcode_byte(OpCode::Greater),
            old(self).parser.previous_token().kind == TokenKind::Less ==> final(self).code().len() > old(
                self,
            ).code().len() && final(self).code().last() == opcode_byte(OpCode::Less),
            old(self).parser.previous_token().kind == TokenKind::BangEqual ==> final(self).code().len() >= old(
                self,
            ).code().len() + 2 && final(self).code().subrange(
                final(self).code().len() - 2,
                final(self).code().len() as int,
            ) == seq![opcode_byte(OpCode::Equal), opcode_byte(OpCode::Not)],
            old(self).parser.previous_token().kind == TokenKind::GreaterEqual ==> final(self).code().len() >= old(
                self,
            ).code().len() + 2 && final(self).code().subrange(
                final(self).code().len() - 2,
                final(self).code().len() as int,
            ) == seq![opcode_byte(OpCode::Less), opcode_byte(OpCode::Not)],
            old(self).parser.previous_token().kind == TokenKind::LessEqual ==> final(self).code().len() >= old(
                self,
            ).code().len() + 2 && final(self).code().subrange(
                final(self).code().len() - 2,
                final(self).code().len() as int,
            ) == seq![opcode_byte(OpCode::Greater), opcode_byte(OpCode::Not)],
            Compilation::grew(old(self), final(self)),
            old(self).code().len() + binary_code(old(self).parser.previous_token().kind).len()
                <= final(self).code().len(),
            final(self).code().subrange(
                final(self).code().len() - binary_code(old(self).parser.previous_token().kind).len(),
                final(self).code().len() as int,
            ) == binary_code(old(self).parser.previous_token().kind),
        decreases old(self).parser.remaining(), 13int,
    {
        let operator = self.parser.previous().kind;
        proof {
            lemma_rules_complete(operator);
        }
        let rank = parse_rule(operator).precedence.rank();
        self.parse_precedence(Precedence::from(rank + 1));
        let ghost mid = self.code();
        match operator {
            TokenKind::BangEqual => self.emit_bytes(OpCode::Equal.to_byte(), OpCode::Not.to_byte()),
            TokenKind::EqualEqual => self.emit_byte(OpCode::Equal.to_byte()),
            TokenKind::Greater => self.emit_byte(OpCode::Greater.to_byte()),
            TokenKind::GreaterEqual => self.emit_bytes(OpCode::Less.to_byte(), OpCode::Not.to_byte()),
            TokenKind::Less => self.emit_byte(OpCode::Less.to_byte()),
            TokenKind::LessEqual => self.emit_bytes(OpCode::Greater.to_byte(), OpCode::Not.to_byte()),
            TokenKind::Plus => self.emit_byte(OpCode::Add.to_byte()),
            TokenKind::Minus => self.emit_byte(OpCode::Subtract.to_byte()),
            TokenKind::Star => self.emit_byte(OpCode::Multiply.to_byte()),
            TokenKind::Slash => self.emit_byte(OpCode::Divide.to_byte()),
            _ => {},
        }
        assert(self.code() =~= mid + binary_code(operator));
        assert(self.code().subrange(mid.len() as int, self.code().len() as int) =~= binary_code(operator));
    }

    /// A range from the left operand to the operand that follows.
    fn dotdot(&mut self)
        requires
            old(self).ok(),
        ensures
            Compilation::grew(old(self), final(self)),
            final(self).code().last() == opcode_byte(OpCode::BuildRange),
        decreases old(self).parser.remaining(), 13int,
    {
        self.parse_precedence(Precedence::Unary);
        self.emit_byte(OpCode::BuildRange.to_byte());
    }

    /// Both operands, the second evaluated only when the first is true:
    /// the jump written after the first lands at the end of the second.
    fn and_(&mut self)
        requires
            old(self).ok(),
        ensures
            Compilation::grew(old(self), final(self)),
            old(self).code().len() + 4 <= final(self).code().len(),
            final(self).code()[old(self).code().len() as int] == opcode_byte(OpCode::JumpIfFalse),
            final(self).code()[old(self).code().len() + 3int] == opcode_byte(OpCode::Pop),
            jump_distance(final(self).code().len() as int, old(self).code().len() + 1int) <= JUMP_SIZE_MAX
                ==> jump_lands(final(self).code(), old(self).code().len() + 1int, final(self).big_endian),
        decreases old(self).parser.remaining(), 13int,
    {
        let end_jump = self.emit_jump(OpCode::JumpIfFalse);
        self.emit_byte(OpCode::Pop.to_byte());
        self.parse_precedence(Precedence::And);
        self.patch_jump(end_jump);
    }

    /// Both operands, the second evaluated only when the first is false:
    /// a false first operand jumps over the jump that skips the second,
    /// which lands at the end of the second.
    fn or_(&mut self)
        requires
            old(self).ok(),
        ensures
            Compilation::grew(old(self), final(self)),
            old(self).code().len() + 7 <= final(self).code().len(),
            final(self).code()[old(self).code().len() as int] == opcode_byte(OpCode::JumpIfFalse),
            final(self).code()[old(self).code().len() + 3int] == opcode_byte(OpCode::Jump),
            final(self).code()[old(self).code().len() + 6int] == opcode_byte(OpCode::Pop),
            (final(self).code()[old(self).code().len() + 1int], final(self).code()[old(self).code().len() + 2int])
                == u16_bytes(3, final(self).big_endian),
            jump_distance(final(self).code().len() as int, old(self).code().len() + 4int) <= JUMP_SIZE_MAX
                ==> jump_lands(final(self).code(), old(self).code().len() + 4int, final(self).big_endian),
        decreases old(self).parser.remaining(), 13int,
    {
        let else_jump = self.emit_jump(OpCode::JumpIfFalse);
        let end_jump = self.emit_jump(OpCode::Jump);
        self.patch_jump(else_jump);
        self.emit_byte(OpCode::Pop.to_byte());
        self.parse_precedence(Precedence::Or);
        self.patch_jump(end_jump);
    }

    /// `false`, `nil` or `true`.
    fn literal(&mut self)
        requires
            old(self).ok(),
        ensures
            Compilation::grew(old(self), final(self)),
            final(self).code() == old(self).code() + literal_code(old(self).parser.previous_token().kind),
            old(self).parser.previous_token().kind == TokenKind::True ==> final(self).code() == old(
                self,
            ).code().push(opcode_byte(OpCode::True)),
            old(self).parser.previous_token().kind == TokenKind::False ==> final(self).code() == old(
                self,
            ).code().push(opcode_byte(OpCode::False)),
            old(self).parser.previous_token().kind == TokenKind::Nil ==> final(self).code() == old(
                self,
            ).code().push(opcode_byte(OpCode::Nil)),
    {
        match self.parser.previous().kind {
            TokenKind::False => self.emit_byte(OpCode::False.to_byte()),
            TokenKind::Nil => self.emit_byte(OpCode::Nil.to_byte()),
            TokenKind::True => self.emit_byte(OpCode::True.to_byte()),
            _ => {},
        }
        assert(self.code() =~= old(self).code() + literal_code(old(self).parser.previous_token().kind));
    }

    /// A number, loaded as a constant holding its lexeme.
    fn number(&mut self)
        requires
            old(self).ok(),
        ensures
            Compilation::wrote_or_failed(old(self), final(self)),
            Compilation::grew(old(self), final(self)),
            final(self).constants().len() == old(self).constants().len() + 1,
            final(self).constants().last() matches Constant::Number(n) && n@ == old(self).parser.previous_token().source@,
            final(self).code() == old(self).code() + with_short(
                opcode_byte(OpCode::Constant),
                (if old(self).constants().len() <= u16::MAX {
                    old(self).constants().len() as u16
                } else {
                    0u16
                }),
                old(self).big_endian,
            ),
    {
        let lexeme = self.parser.previous().source.clone();
        self.emit_constant(Constant::Number(lexeme));
    }

    /// A string literal, loaded as a constant.
    fn string(&mut self)
        requires
            old(self).ok(),
        ensures
            Compilation::wrote_or_failed(old(self), final(self)),
            Compilation::grew(old(self), final(self)),
            final(self).constants().len() == old(self).constants().len() + 1,
            final(self).constants().last() matches Constant::Str(t) && t@ == old(self).parser.previous_token().source@,
            final(self).code() == old(self).code() + with_short(
                opcode_byte(OpCode::Constant),
                (if old(self).constants().len() <= u16::MAX {
                    old(self).constants().len() as u16
                } else {
                    0u16
                }),
                old(self).big_endian,
            ),
    {
        let text = self.parser.previous().source.clone();
        self.emit_constant(Constant::Str(text));
    }

    /// A string with expressions spliced into it: each literal part, each
    /// expression formatted, then one instruction that joins them.
    fn interpolation(&mut self)
        requires
            old(self).ok(),
        ensures
            Compilation::wrote_or_failed(old(self), final(self)),
            Compilation::grew(old(self), final(self)),
        decreases old(self).parser.remaining(), 13int,
    {
        let ghost entry = *self;
        let mut arg_count: u8 = 0;
        loop
            invariant
                Compilation::grew(&entry, self),
                entry == *old(self),
            decreases self.parser.remaining(),
        {
            if !self.parser.previous().source.as_str().is_empty() {
                let text = self.parser.previous().source.clone();
                self.emit_constant(Constant::Str(text));
                arg_count = arg_count.wrapping_add(1);
            }
            self.expression();
            self.emit_byte(OpCode::FormatString.to_byte());
            arg_count = arg_count.wrapping_add(1);
            if !self.match_token(TokenKind::Interpolation) {
                break;
            }
        }
        self.advance();
        if !self.parser.previous().source.as_str().is_empty() {
            let text = self.parser.previous().source.clone();
            self.emit_constant(Constant::Str(text));
            arg_count = arg_count.wrapping_add(1);
        }
        self.emit_bytes(OpCode::BuildString.to_byte(), arg_count);
    }

    /// A variable named by the previous token.
    fn variable(&mut self, can_assign: bool)
        requires
            old(self).ok(),
        ensures
            Compilation::wrote_or_failed(old(self), final(self)),
            Compilation::grew(old(self), final(self)),
        decreases old(self).parser.remaining(), 13int,
    {
        let name = self.parser.previous().source.clone();
        self.named_variable(&name, can_assign);
    }

    /// The instructions that read and write the variable `name` and their
    /// operand: a local's slot, or a global's name as a constant. A local
    /// read in its own initialiser is reported and taken as a global.
    fn resolve_variable(&mut self, name: &String) -> (r: (OpCode, OpCode, u16))
        requires
            old(self).ok(),
        ensures
            r.1 == OpCode::SetLocal || r.1 == OpCode::SetUpvalue || r.1 == OpCode::SetGlobal,
            Compilation::grew(old(self), final(self)),
            final(self).code() == old(self).code(),
            final(self).parser.current_token() == old(self).parser.current_token(),
            final(self).parser.previous_token() == old(self).parser.previous_token(),
            final(self).parser.remaining() == old(self).parser.remaining(),
    {
        let token = crate::scanner::Token { kind: TokenKind::Identifier, line: 0, source: name.clone() };
        match self.compiler.resolve_local(&token) {
            Ok(slot) => (OpCode::GetLocal, OpCode::SetLocal, slot as u16),
            Err(e) => {
                match e {
                    CompilerError::ReadVarInInitialiser => {
                        self.error("Cannot read local variable in its own initialiser.");
                    },
                    _ => {},
                }
                match self.resolve_upvalue(name) {
                    Some(index) => (OpCode::GetUpvalue, OpCode::SetUpvalue, index as u16),
                    None => {
                        let index = self.identifier_constant(name);
                        (OpCode::GetGlobal, OpCode::SetGlobal, index)
                    },
                }
            },
        }
    }

    /// A compound assignment's read, right-hand side and operation; the
    /// previous token is the operator.
    fn binary_assign(&mut self, get_op: OpCode, variable: u16)
        requires
            old(self).ok(),
        ensures
            Compilation::grew(old(self), final(self)),
            old(self).parser.previous_token().kind == TokenKind::MinusEqual ==> final(self).code().len() > 0
                && final(self).code().last() == opcode_byte(OpCode::Subtract),
            old(self).parser.previous_token().kind == TokenKind::PlusEqual ==> final(self).code().len() > 0
                && final(self).code().last() == opcode_byte(OpCode::Add),
            old(self).parser.previous_token().kind == TokenKind::SlashEqual ==> final(self).code().len() > 0
                && final(self).code().last() == opcode_byte(OpCode::Divide),
            old(self).parser.previous_token().kind == TokenKind::StarEqual ==> final(self).code().len() > 0
                && final(self).code().last() == opcode_byte(OpCode::Multiply),
        decreases old(self).parser.remaining(), 6int,
    {
        let operator = self.parser.previous().kind;
        let saved = self.single_target;
        self.single_target = true;
        self.emit_variable_op(get_op, variable);
        self.expression();
        match operator {
            TokenKind::MinusEqual => self.emit_byte(OpCode::Subtract.to_byte()),
            TokenKind::PlusEqual => self.emit_byte(OpCode::Add.to_byte()),
            TokenKind::SlashEqual => self.emit_byte(OpCode::Divide.to_byte()),
            TokenKind::StarEqual => self.emit_byte(OpCode::Multiply.to_byte()),
            _ => {},
        }
        self.single_target = saved;
    }

    /// Reads the variable `name`, or assigns to it where an assignment may
    /// stand and one follows.
    fn named_variable(&mut self, name: &String, can_assign: bool)
        requires
            old(self).ok(),
        ensures
            can_assign && old(self).parser.current_token().kind == TokenKind::MinusEqual ==> op_then_set(
                final(self).code(),
                OpCode::Subtract,
            ),
            can_assign && old(self).parser.current_token().kind == TokenKind::PlusEqual ==> op_then_set(
                final(self).code(),
                OpCode::Add,
            ),
            can_assign && old(self).parser.current_token().kind == TokenKind::SlashEqual ==> op_then_set(
                final(self).code(),
                OpCode::Divide,
            ),
            can_assign && old(self).parser.current_token().kind == TokenKind::StarEqual ==> op_then_set(
                final(self).code(),
                OpCode::Multiply,
            ),
            Compilation::wrote_or_failed(old(self), final(self)),
            Compilation::grew(old(self), final(self)),
        decreases old(self).parser.remaining(), 6int,
    {
        let (get_op, set_op, arg) = self.resolve_variable(name);
        if can_assign && self.parser.check(TokenKind::Equal) {
            self.advance();
            self.expression();
            self.emit_variable_op(set_op, arg);
        } else if can_assign && is_compound_assignment_exec(self.parser.current().kind) {
            self.advance();
            self.binary_assign(get_op, arg);
            self.emit_variable_op(set_op, arg);
        } else {
            self.emit_variable_op(get_op, arg);
        }
    }

    /// An index into the left operand, or an assignment to one: a call of
    /// its `__getitem__` or `__setitem__` method.
    fn index(&mut self, can_assign: bool)
        requires
            old(self).ok(),
        ensures
            Compilation::grew(old(self), final(self)),
        decreases old(self).parser.remaining(), 13int,
    {
        self.expression();
        self.consume(TokenKind::RightBracket, "Expected ']' after index.");
        if can_assign && self.parser.check(TokenKind::Equal) {
            self.advance();
            self.expression();
            let name = self.identifier_constant(&"__setitem__".to_owned());
            self.emit_short_op(OpCode::Invoke, name);
            self.emit_byte(2);
        } else {
            let name = self.identifier_constant(&"__getitem__".to_owned());
            self.emit_short_op(OpCode::Invoke, name);
            self.emit_byte(1);
        }
    }

    /// A property of the left operand: read, assigned, updated by a
    /// compound assignment, or called as a method.
    fn dot(&mut self, can_assign: bool)
        requires
            old(self).ok(),
        ensures
            can_assign && old(self).parser.current_token().kind == TokenKind::Identifier && first_token_kind(
                &old(self).parser,
            ) == TokenKind::MinusEqual ==> op_then_property_set(final(self).code(), OpCode::Subtract),
            can_assign && old(self).parser.current_token().kind == TokenKind::Identifier && first_token_kind(
                &old(self).parser,
            ) == TokenKind::PlusEqual ==> op_then_property_set(final(self).code(), OpCode::Add),
            can_assign && old(self).parser.current_token().kind == TokenKind::Identifier && first_token_kind(
                &old(self).parser,
            ) == TokenKind::SlashEqual ==> op_then_property_set(final(self).code(), OpCode::Divide),
            can_assign && old(self).parser.current_token().kind == TokenKind::Identifier && first_token_kind(
                &old(self).parser,
            ) == TokenKind::StarEqual ==> op_then_property_set(final(self).code(), OpCode::Multiply),
            Compilation::grew(old(self), final(self)),
        decreases old(self).parser.remaining(), 13int,
    {
        self.consume(TokenKind::Identifier, "Expected property name after '.'.");
        let property = self.parser.previous().source.clone();
        let name = self.identifier_constant(&property);
        if can_assign && self.parser.check(TokenKind::Equal) {
            self.advance();
            self.expression();
            self.emit_short_op(OpCode::SetProperty, name);
        } else if can_assign && is_compound_assignment_exec(self.parser.current().kind) {
            self.advance();
            self.emit_byte(OpCode::CopyTop.to_byte());
            self.binary_assign(OpCode::GetProperty, name);
            self.emit_short_op(OpCode::SetProperty, name);
        } else if self.parser.check(TokenKind::LeftParen) {
            self.advance();
            let arg_count = self.argument_list(
                TokenKind::RightParen,
                "Cannot have more than 255 arguments.",
                "Expected ')' after arguments.",
            );
            self.emit_short_op(OpCode::Invoke, name);
            self.emit_byte(arg_count);
        } else {
            self.emit_short_op(OpCode::GetProperty, name);
        }
    }

    /// A method of the superclass, read or called: reported outside a class
    /// and in a class without a superclass, which every class here is.
    #[verifier::rlimit(60)]
    fn super_(&mut self)
        requires
            old(self).ok(),
        ensures
            Compilation::wrote_or_failed(old(self), final(self)),
            Compilation::grew(old(self), final(self)),
        decreases old(self).parser.remaining(), 13int,
    {
        if self.class_compilers.len() == 0 {
            self.error("Cannot use 'super' outside of a class.");
        } else if !self.class_compilers[self.class_compilers.len() - 1] {
            self.error("Cannot use 'super' in a class with no superclass.");
        }
        self.consume(TokenKind::Dot, "Expected '.' after 'super'.");
        self.consume(TokenKind::Identifier, "Expected superclass method name.");
        let method = self.parser.previous().source.clone();
        let name = self.identifier_constant(&method);
        let receiver = self.compiler.locals[0].name.clone();
        self.named_variable(&receiver, false);
        if self.parser.check(TokenKind::LeftParen) {
            self.advance();
            let arg_count = self.argument_list(
                TokenKind::RightParen,
                "Cannot have more than 255 arguments.",
                "Expected ')' after arguments.",
            );
            self.named_variable(&"super".to_owned(), false);
            self.emit_short_op(OpCode::SuperInvoke, name);
            self.emit_byte(arg_count);
        } else {
            self.named_variable(&"super".to_owned(), false);
            self.emit_short_op(OpCode::GetSuper, name);
        }
    }

    /// Enters a block scope.
    fn begin_scope(&mut self)
        requires
            old(self).ok(),
            old(self).compiler.scope_depth + old(self).parser.remaining() < 2 * old(self).parser.src().len() + 1,
        ensures
            final(self).ok(),
            final(self).parser == old(self).parser,
            final(self).big_endian == old(self).big_endian,
            final(self).single_target == old(self).single_target,
            final(self).compiler.chunk == old(self).compiler.chunk,
            final(self).compiler.locals == old(self).compiler.locals,
            final(self).compiler.scope_depth == old(self).compiler.scope_depth + 1,
            final(self).compiler.kind == old(self).compiler.kind,
            final(self).compiler.upvalues == old(self).compiler.upvalues,
            Compilation::outer_same(old(self), final(self)),
            final(self).compiler.lambda_count == old(self).compiler.lambda_count,
            final(self).compiler.in_try_block == old(self).compiler.in_try_block,
            final(self).compiler.loop_stack == old(self).compiler.loop_stack,
            final(self).compiler.break_stack == old(self).compiler.break_stack,
    {
        self.compiler.scope_depth = self.compiler.scope_depth + 1;
    }

    /// Leaves the innermost block scope, popping its locals.
    fn end_scope(&mut self)
        requires
            old(self).ok(),
            settled(old(self).compiler),
            old(self).compiler.scope_depth > 0,
        ensures
            final(self).ok(),
            settled(final(self).compiler),
            final(self).parser == old(self).parser,
            final(self).big_endian == old(self).big_endian,
            final(self).single_target == old(self).single_target,
            extends(old(self).code(), final(self).code()),
            final(self).constants() == old(self).constants(),
            final(self).compiler.scope_depth == old(self).compiler.scope_depth - 1,
            final(self).compiler.kind == old(self).compiler.kind,
            final(self).compiler.upvalues == old(self).compiler.upvalues,
            Compilation::outer_same(old(self), final(self)),
            final(self).compiler.lambda_count == old(self).compiler.lambda_count,
            final(self).compiler.in_try_block == old(self).compiler.in_try_block,
            final(self).compiler.loop_stack == old(self).compiler.loop_stack,
            final(self).compiler.break_stack == old(self).compiler.break_stack,
    {
        let line = self.line();
        proof {
            lemma_scope_tail_keeps_receiver(
                self.compiler.locals@,
                (self.compiler.scope_depth - 1) as usize,
                self.compiler.locals@.len() as int,
            );
            lemma_scope_end_code_len(
                self.compiler.locals@,
                (self.compiler.scope_depth - 1) as usize,
                self.compiler.locals@.len() as int,
            );
        }
        self.compiler.end_scope(line);
    }

    /// Writes a backward jump to `loop_start`, reporting a body too long
    /// to jump back over.
    fn emit_loop(&mut self, loop_start: usize)
        requires
            old(self).ok(),
            loop_start <= old(self).code().len(),
        ensures
            Compilation::grew(old(self), final(self)),
            final(self).parser.current_token() == old(self).parser.current_token(),
            final(self).parser.remaining() == old(self).parser.remaining(),
            final(self).code().len() == old(self).code().len() + 3,
            final(self).code()[old(self).code().len() as int] == opcode_byte(OpCode::Loop),
            old(self).code().len() + 3 <= usize::MAX ==> final(self).code() == old(self).code() + with_short(
                opcode_byte(OpCode::Loop),
                loop_distance(old(self).code().len() as int, loop_start as int) as u16,
                old(self).big_endian,
            ),
    {
        let line = self.line();
        let be = self.big_endian;
        if self.compiler.chunk.code.len() <= usize::MAX - 3 {
            let fits = self.compiler.emit_loop(loop_start, be, line);
            if !fits {
                self.error("Loop body too large.");
            }
        } else {
            self.error("Loop body too large.");
            self.emit_byte(OpCode::Loop.to_byte());
            self.emit_bytes(0xff, 0xff);
        }
    }

    /// Writes the instructions that leave the function returning nothing.
    fn emit_return(&mut self)
        requires
            old(self).ok(),
        ensures
            final(self).compiler.upvalues == old(self).compiler.upvalues,
            Compilation::outer_same(old(self), final(self)),
            Compilation::grew(old(self), final(self)),
            final(self).parser == old(self).parser,
            final(self).constants() == old(self).constants(),
            final(self).code() == old(self).code() + return_code(old(self).compiler.kind),
    {
        if self.compiler.kind == FunctionKind::Initialiser {
            self.emit_bytes(OpCode::GetLocal.to_byte(), 0);
        } else {
            self.emit_byte(OpCode::Nil.to_byte());
        }
        self.emit_byte(OpCode::Return.to_byte());
        assert(self.code() =~= old(self).code() + return_code(old(self).compiler.kind));
    }

    /// Declares the variable named by the previous token, reporting a name
    /// declared twice in one scope and a function with too many locals.
    fn declare_variable(&mut self)
        requires
            old(self).ok(),
            settled(old(self).compiler),
        ensures
            final(self).parser.panicking() ==> old(self).parser.panicking() || old(self).parser.reports().len()
                < final(self).parser.reports().len(),
            final(self).ok(),
            final(self).parser.src() == old(self).parser.src(),
            final(self).parser.module() == old(self).parser.module(),
            final(self).parser.remaining() == old(self).parser.remaining(),
            final(self).parser.current_token() == old(self).parser.current_token(),
            final(self).parser.previous_token() == old(self).parser.previous_token(),
            final(self).big_endian == old(self).big_endian,
            final(self).single_target == old(self).single_target,
            final(self).compiler.chunk == old(self).compiler.chunk,
            final(self).compiler.scope_depth == old(self).compiler.scope_depth,
            final(self).compiler.kind == old(self).compiler.kind,
            final(self).compiler.upvalues == old(self).compiler.upvalues,
            Compilation::outer_same(old(self), final(self)),
            final(self).compiler.lambda_count == old(self).compiler.lambda_count,
            final(self).compiler.in_try_block == old(self).compiler.in_try_block,
            final(self).compiler.loop_stack == old(self).compiler.loop_stack,
            final(self).compiler.break_stack == old(self).compiler.break_stack,
            pending(final(self).compiler),
            old(self).parser.reports().len() <= final(self).parser.reports().len(),
    {
        let name = self.parser.previous().clone();
        let reports = self.compiler.declare_variable(&name);
        proof {
            let ol = old(self).compiler.locals@;
            let nl = self.compiler.locals@;
            if self.compiler.scope_depth > 0 && ol.len() < crate::compiler::LOCALS_MAX {
                assert(nl.drop_last() == ol);
                assert forall|i: int| 0 <= i < nl.len() - 1 implies (#[trigger] nl[i]).depth is Some by {
                    assert(nl[i] == nl.drop_last()[i]);
                }
                assert(nl[0] == nl.drop_last()[0]);
            }
        }
        let ghost mid = *self;
        let mut i: usize = 0;
        while i < reports.len()
            invariant
                self.ok(),
                self.compiler == mid.compiler,
                Compilation::outer_same(&mid, self),
                self.big_endian == mid.big_endian,
                self.single_target == mid.single_target,
                self.parser.src() == mid.parser.src(),
                self.parser.module() == mid.parser.module(),
                self.parser.remaining() == mid.parser.remaining(),
                self.parser.current_token() == mid.parser.current_token(),
                self.parser.previous_token() == mid.parser.previous_token(),
                mid.parser.reports().len() <= self.parser.reports().len(),
                self.parser.panicking() ==> mid.parser.panicking() || mid.parser.reports().len()
                    < self.parser.reports().len(),
            decreases reports.len() - i,
        {
            self.error(reports[i].as_str());
            i = i + 1;
        }
    }

    /// A variable's name: declared as a local inside a block (operand 0),
    /// or added as a constant naming the global (its index).
    fn parse_variable(&mut self, message: &str) -> (global: u16)
        requires
            old(self).ok(),
            settled(old(self).compiler),
        ensures
            final(self).parser.panicking() ==> old(self).parser.panicking() || old(self).parser.reports().len()
                < final(self).parser.reports().len(),
            final(self).ok(),
            final(self).parser.src() == old(self).parser.src(),
            final(self).parser.module() == old(self).parser.module(),
            final(self).parser.remaining() <= old(self).parser.remaining(),
            old(self).parser.current_token().kind == TokenKind::Identifier ==> final(self).parser.remaining()
                < old(self).parser.remaining(),
            old(self).parser.current_token().kind != TokenKind::Identifier ==> final(self).parser.current_token()
                == old(self).parser.current_token() && final(self).parser.remaining()
                == old(self).parser.remaining(),
            final(self).big_endian == old(self).big_endian,
            final(self).single_target == old(self).single_target,
            extends(old(self).code(), final(self).code()),
            extends(old(self).constants(), final(self).constants()),
            final(self).compiler.scope_depth == old(self).compiler.scope_depth,
            final(self).compiler.kind == old(self).compiler.kind,
            Compilation::outer_same(old(self), final(self)),
            final(self).compiler.in_try_block == old(self).compiler.in_try_block,
            final(self).compiler.loop_stack == old(self).compiler.loop_stack,
            final(self).compiler.break_stack == old(self).compiler.break_stack,
            pending(final(self).compiler),
            old(self).parser.reports().len() <= final(self).parser.reports().len(),
    {
        self.consume(TokenKind::Identifier, message);
        self.declare_variable();
        if self.compiler.scope_depth > 0 {
            return 0;
        }
        let name = self.parser.previous().source.clone();
        self.identifier_constant(&name)
    }

    /// Makes the variable just declared usable: a local is marked
    /// initialised, a global is defined from the value on the stack.
    fn define_variable(&mut self, global: u16)
        requires
            old(self).ok(),
            pending(old(self).compiler),
        ensures
            final(self).ok(),
            settled(final(self).compiler),
            final(self).parser == old(self).parser,
            final(self).big_endian == old(self).big_endian,
            final(self).single_target == old(self).single_target,
            extends(old(self).code(), final(self).code()),
            final(self).constants() == old(self).constants(),
            final(self).compiler.scope_depth == old(self).compiler.scope_depth,
            final(self).compiler.kind == old(self).compiler.kind,
            Compilation::outer_same(old(self), final(self)),
            final(self).compiler.in_try_block == old(self).compiler.in_try_block,
            final(self).compiler.loop_stack == old(self).compiler.loop_stack,
            final(self).compiler.break_stack == old(self).compiler.break_stack,
            old(self).compiler.scope_depth == 0 ==> final(self).code() == old(self).code() + with_short(
                opcode_byte(OpCode::DefineGlobal),
                global,
                old(self).big_endian,
            ),
    {
        if self.compiler.scope_depth > 0 {
            self.compiler.mark_last_initialised();
            return;
        }
        self.emit_short_op(OpCode::DefineGlobal, global);
    }

    /// `var name;` or `var name = value;`.
    fn var_declaration(&mut self)
        requires
            old(self).ok(),
            settled(old(self).compiler),
        ensures
            Compilation::wrote_or_failed(old(self), final(self)),
            Compilation::stepped(old(self), final(self)),
        decreases old(self).parser.remaining(), 7int,
    {
        let global = self.parse_variable("Expected variable name.");
        if self.match_token(TokenKind::Equal) {
            self.expression();
        } else {
            self.emit_byte(OpCode::Nil.to_byte());
        }
        self.consume(TokenKind::SemiColon, "Expected ';' after variable declaration.");
        self.define_variable(global);
    }

    /// An expression whose value is discarded.
    fn expression_statement(&mut self)
        requires
            old(self).ok(),
            settled(old(self).compiler),
        ensures
            Compilation::wrote_or_failed(old(self), final(self)),
            Compilation::stepped(old(self), final(self)),
            old(self).parser.current_token().kind != TokenKind::Eof ==> final(self).parser.remaining()
                < old(self).parser.remaining(),
            final(self).code().len() > old(self).code().len(),
            final(self).code().last() == opcode_byte(OpCode::Pop),
        decreases old(self).parser.remaining(), 7int,
    {
        self.expression();
        self.consume(TokenKind::SemiColon, "Expected ';' after expression.");
        self.emit_byte(OpCode::Pop.to_byte());
    }

    /// `return;` or `return value;`, which a script cannot use.
    fn return_statement(&mut self)
        requires
            old(self).ok(),
            settled(old(self).compiler),
        ensures
            Compilation::wrote_or_failed(old(self), final(self)),
            Compilation::stepped(old(self), final(self)),
        decreases old(self).parser.remaining(), 7int,
    {
        if self.compiler.kind == FunctionKind::Script {
            self.error("Cannot return from top-level code.");
        }
        if self.match_token(TokenKind::SemiColon) {
            self.emit_return();
        } else {
            if self.compiler.kind == FunctionKind::Initialiser {
                self.error("Cannot return a value from an initialiser.");
            }
            self.expression();
            self.consume(TokenKind::SemiColon, "Expected ';' after return value.");
            self.emit_byte(OpCode::Return.to_byte());
        }
    }

    /// The declarations up to the closing '}'.
    fn block(&mut self)
        requires
            old(self).ok(),
            settled(old(self).compiler),
        ensures
            Compilation::stepped(old(self), final(self)),
            old(self).parser.current_token().kind != TokenKind::RightBrace && old(self).parser.current_token().kind
                != TokenKind::Eof ==> final(self).parser.remaining() < old(self).parser.remaining(),
        decreases old(self).parser.remaining(), 10int,
    {
        let ghost entry = *self;
        while !self.parser.check(TokenKind::RightBrace) && !self.parser.check(TokenKind::Eof)
            invariant
                Compilation::stepped(&entry, self),
                entry == *old(self),
                self.parser.remaining() < entry.parser.remaining() || self.parser.current_token()
                    == entry.parser.current_token(),
            decreases self.parser.remaining(),
        {
            self.declaration();
        }
        self.consume(TokenKind::RightBrace, "Expected '}' after block.");
    }

    /// `if` and its condition, then block, and `else` branch if any: the
    /// condition's false jump skips the then block and the jump after it,
    /// which skips the else branch. Where the two jumps stand.
    fn if_statement(&mut self) -> (at: Ghost<(int, int)>)
        requires
            old(self).ok(),
            settled(old(self).compiler),
            old(self).compiler.scope_depth + old(self).parser.remaining() < 2 * old(self).parser.src().len() + 1,
        ensures
            Compilation::wrote_or_failed(old(self), final(self)),
            Compilation::stepped(old(self), final(self)),
            old(self).code().len() <= at@.0,
            at@.0 + 4 <= at@.1,
            at@.1 + 4 <= final(self).code().len(),
            final(self).code()[at@.0] == opcode_byte(OpCode::JumpIfFalse),
            final(self).code()[at@.0 + 3] == opcode_byte(OpCode::Pop),
            final(self).code()[at@.1] == opcode_byte(OpCode::Jump),
            final(self).code()[at@.1 + 3] == opcode_byte(OpCode::Pop),
            jump_distance(at@.1 + 3, at@.0 + 1) <= JUMP_SIZE_MAX ==> (
            final(self).code()[at@.0 + 1],
            final(self).code()[at@.0 + 2],
            ) == u16_bytes(jump_distance(at@.1 + 3, at@.0 + 1) as u16, final(self).big_endian),
            jump_distance(final(self).code().len() as int, at@.1 + 1) <= JUMP_SIZE_MAX ==> jump_lands(
                final(self).code(),
                at@.1 + 1,
                final(self).big_endian,
            ),
        decreases old(self).parser.remaining(), 11int,
    {
        self.expression();
        let then_jump = self.emit_jump(OpCode::JumpIfFalse);
        self.emit_byte(OpCode::Pop.to_byte());
        self.consume(TokenKind::LeftBrace, "Expected '{' after condition.");
        self.begin_scope();
        self.block();
        self.end_scope();
        let ghost after_then = self.code();
        let else_jump = self.emit_jump(OpCode::Jump);
        self.patch_jump(then_jump);
        self.emit_byte(OpCode::Pop.to_byte());
        let ghost after_pop = self.code();
        if self.match_token(TokenKind::Else) {
            if !self.parser.check(TokenKind::If) && !self.parser.check(TokenKind::LeftBrace) {
                self.parser.error_at_current("Expected '{' after 'else'.");
            }
            self.statement();
        }
        let ghost before_patch = self.code();
        self.patch_jump(else_jump);
        proof {
            assert(before_patch[else_jump + 2] == after_pop[else_jump + 2]);
            assert(after_then[then_jump - 1] == opcode_byte(OpCode::JumpIfFalse));
        }
        Ghost(((then_jump - 1) as int, (else_jump - 1) as int))
    }

    /// `while` and its condition and body: the condition's false jump
    /// leaves the loop, past the jump at the end of the body back to the
    /// condition. Where the false jump and the backward jump stand.
    fn while_statement(&mut self) -> (at: Ghost<(int, int)>)
        requires
            old(self).ok(),
            settled(old(self).compiler),
            old(self).compiler.scope_depth + old(self).parser.remaining() < 2 * old(self).parser.src().len() + 1,
        ensures
            Compilation::wrote_or_failed(old(self), final(self)),
            Compilation::stepped(old(self), final(self)),
            old(self).code().len() <= at@.0,
            at@.0 + 4 <= at@.1,
            at@.1 + 4 <= final(self).code().len(),
            final(self).code()[at@.0] == opcode_byte(OpCode::JumpIfFalse),
            final(self).code()[at@.0 + 3] == opcode_byte(OpCode::Pop),
            final(self).code()[at@.1] == opcode_byte(OpCode::Loop),
            final(self).code()[at@.1 + 3] == opcode_byte(OpCode::Pop),
            at@.1 + 3 <= usize::MAX ==> (final(self).code()[at@.1 + 1], final(self).code()[at@.1 + 2])
                == u16_bytes(
                loop_distance(at@.1, old(self).code().len() as int) as u16,
                final(self).big_endian,
            ),
            jump_distance(at@.1 + 3, at@.0 + 1) <= JUMP_SIZE_MAX ==> (
            final(self).code()[at@.0 + 1],
            final(self).code()[at@.0 + 2],
            ) == u16_bytes(jump_distance(at@.1 + 3, at@.0 + 1) as u16, final(self).big_endian),
        decreases old(self).parser.remaining(), 11int,
    {
        self.compiler.push_loop();
        let loop_start = self.compiler.chunk.code.len();
        self.expression();
        let exit_jump = self.emit_jump(OpCode::JumpIfFalse);
        self.emit_byte(OpCode::Pop.to_byte());
        let ghost after_exit = self.code();
        self.consume(TokenKind::LeftBrace, "Expected '{' after condition.");
        self.begin_scope();
        self.block();
        self.end_scope();
        let ghost loop_at = self.code().len() as int;
        let ghost before_loop = self.code();
        self.emit_loop(loop_start);
        let ghost after_loop = self.code();
        proof {
            assert(after_loop[exit_jump - 1] == before_loop[exit_jump - 1]);
            assert(after_loop[exit_jump + 2] == before_loop[exit_jump + 2]);
        }
        self.patch_jump(exit_jump);
        let ghost after_patch = self.code();
        self.emit_byte(OpCode::Pop.to_byte());
        let be = self.big_endian;
        let ghost before_pop = self.compiler;
        match self.compiler.pop_loop(be) {
            Ok(()) => {},
            Err(_) => {
                self.error("Too much code to jump over.");
            },
        }
        proof {
            assert(before_pop.break_stack@.last()@ =~= Seq::<usize>::empty());
            assert(self.compiler.loop_stack@ =~= old(self).compiler.loop_stack@);
            assert(self.compiler.break_stack@ =~= old(self).compiler.break_stack@);
            assert(self.code() == after_patch.push(opcode_byte(OpCode::Pop)));
            assert(after_exit[exit_jump - 1] == opcode_byte(OpCode::JumpIfFalse));
            assert(after_exit[exit_jump + 2] == opcode_byte(OpCode::Pop));
        }
        Ghost(((exit_jump - 1) as int, loop_at))
    }

    /// `for name in iterable` and its body: the loop variable and the
    /// iterator live in a scope of their own around the loop. Each turn
    /// takes the next item; the end of the items jumps past the jump at the
    /// end of the body back to the next item. Where those two jumps stand.
    #[verifier::rlimit(60)]
    fn for_statement(&mut self) -> (at: Ghost<(int, int)>)
        requires
            old(self).ok(),
            settled(old(self).compiler),
            old(self).compiler.scope_depth + old(self).parser.remaining() < 2 * old(self).parser.src().len() + 1,
        ensures
            Compilation::wrote_or_failed(old(self), final(self)),
            Compilation::stepped(old(self), final(self)),
            old(self).parser.current_token().kind == TokenKind::Identifier ==> {
                &&& old(self).code().len() + 3 <= at@.0
                &&& at@.0 + 4 <= at@.1
                &&& at@.1 + 4 <= final(self).code().len()
                &&& final(self).code()[at@.0 - 3] == opcode_byte(OpCode::IterNext)
                &&& final(self).code()[at@.0] == opcode_byte(OpCode::JumpIfSentinel)
                &&& final(self).code()[at@.0 + 3] == opcode_byte(OpCode::Pop)
                &&& final(self).code()[at@.1] == opcode_byte(OpCode::Loop)
                &&& final(self).code()[at@.1 + 3] == opcode_byte(OpCode::Pop)
                &&& at@.1 + 3 <= usize::MAX ==> (final(self).code()[at@.1 + 1], final(self).code()[at@.1 + 2])
                    == u16_bytes(loop_distance(at@.1, at@.0 - 3) as u16, final(self).big_endian)
                &&& jump_distance(at@.1 + 3, at@.0 + 1) <= JUMP_SIZE_MAX ==> (
                final(self).code()[at@.0 + 1],
                final(self).code()[at@.0 + 2],
                ) == u16_bytes(jump_distance(at@.1 + 3, at@.0 + 1) as u16, final(self).big_endian)
            },
        decreases old(self).parser.remaining(), 11int,
    {
        self.begin_scope();
        if !self.match_token(TokenKind::Identifier) {
            self.parser.error_at_current("Expected loop variable name.");
            return Ghost((0, 0));
        }
        self.declare_variable();
        let loop_var = self.compiler.locals.len() - 1;
        self.emit_byte(OpCode::Nil.to_byte());
        self.consume(TokenKind::In, "Expected 'in' after loop variable.");
        self.expression();
        let ghost before_mark = self.compiler.locals@;
        self.compiler.mark_initialised(loop_var);
        proof {
            let l = self.compiler.locals@;
            assert forall|i: int| 0 <= i < l.len() implies (#[trigger] l[i]).depth is Some by {
                if i != loop_var {
                    assert(l[i] == before_mark[i]);
                }
            }
            assert(l[0] == before_mark[0]);
        }
        let iter_name = crate::scanner::Token {
            kind: TokenKind::Identifier,
            line: 0,
            source: "... temp-iter-var ...".to_owned(),
        };
        let ghost before_add = self.compiler.locals@;
        let added = self.compiler.add_local(&iter_name);
        let ghost after_add = self.compiler.locals@;
        proof {
            if added {
                assert forall|i: int| 0 <= i < after_add.len() - 1 implies (#[trigger] after_add[i]).depth is Some by {
                    assert(after_add[i] == after_add.drop_last()[i]);
                }
                assert(after_add[0] == after_add.drop_last()[0]);
            }
        }
        let iter_method = self.identifier_constant(&"iter".to_owned());
        self.emit_short_op(OpCode::Invoke, iter_method);
        self.emit_byte(0);
        let ghost before_last = self.compiler.locals@;
        proof {
            assert(same_shape(after_add, before_last));
        }
        self.compiler.mark_last_initialised();
        proof {
            let l = self.compiler.locals@;
            assert forall|i: int| 0 <= i < l.len() implies (#[trigger] l[i]).depth is Some by {
                if i < l.len() - 1 {
                    assert(l[i] == before_last[i]);
                    assert(before_last[i].depth == after_add[i].depth);
                }
            }
            assert(l[0] == before_last[0]);
            assert(before_last[0].depth == after_add[0].depth);
        }
        self.compiler.push_loop();
        let loop_start = self.compiler.chunk.code.len();
        self.emit_byte(OpCode::IterNext.to_byte());
        self.emit_bytes(OpCode::SetLocal.to_byte(), loop_var as u8);
        let exit_jump = self.emit_jump(OpCode::JumpIfSentinel);
        self.emit_byte(OpCode::Pop.to_byte());
        let ghost after_exit = self.code();
        self.consume(TokenKind::LeftBrace, "Expected '{' after loop expression.");
        self.begin_scope();
        self.block();
        self.end_scope();
        let ghost loop_at = self.code().len() as int;
        let ghost before_loop = self.code();
        self.emit_loop(loop_start);
        let ghost after_loop = self.code();
        proof {
            assert(after_loop[exit_jump - 1] == before_loop[exit_jump - 1]);
            assert(after_loop[exit_jump + 2] == before_loop[exit_jump + 2]);
            assert(after_loop[loop_start as int] == before_loop[loop_start as int]);
        }
        self.patch_jump(exit_jump);
        let ghost after_patch = self.code();
        self.emit_byte(OpCode::Pop.to_byte());
        let be = self.big_endian;
        let ghost before_pop = self.compiler;
        match self.compiler.pop_loop(be) {
            Ok(()) => {},
            Err(_) => {
                self.error("Too much code to jump over.");
            },
        }
        proof {
            assert(before_pop.break_stack@.last()@ =~= Seq::<usize>::empty());
            assert(self.compiler.loop_stack@ =~= old(self).compiler.loop_stack@);
            assert(self.compiler.break_stack@ =~= old(self).compiler.break_stack@);
            assert(self.code() == after_patch.push(opcode_byte(OpCode::Pop)));
            assert(after_exit[exit_jump - 1] == opcode_byte(OpCode::JumpIfSentinel));
            assert(after_exit[exit_jump + 2] == opcode_byte(OpCode::Pop));
            assert(after_exit[loop_start as int] == opcode_byte(OpCode::IterNext));
        }
        self.end_scope();
        Ghost(((exit_jump - 1) as int, loop_at))
    }

    /// A statement: a loop, a condition, a return, a block or an
    /// expression.
    fn statement(&mut self)
        requires
            old(self).ok(),
            settled(old(self).compiler),
        ensures
            old(self).parser.current_token().kind != TokenKind::LeftBrace ==> Compilation::wrote_or_failed(old(self), final(self)),
            Compilation::stepped(old(self), final(self)),
            old(self).parser.current_token().kind != TokenKind::Eof ==> final(self).parser.remaining()
                < old(self).parser.remaining(),
        decreases old(self).parser.remaining(), 8int,
    {
        if self.match_token(TokenKind::For) {
            let _ = self.for_statement();
        } else if self.match_token(TokenKind::If) {
            let _ = self.if_statement();
        } else if self.match_token(TokenKind::Return) {
            self.return_statement();
        } else if self.match_token(TokenKind::While) {
            let _ = self.while_statement();
        } else if self.match_token(TokenKind::LeftBrace) {
            self.begin_scope();
            self.block();
            self.end_scope();
        } else {
            self.expression_statement();
        }
    }

    /// Skips tokens until a statement boundary after an error: past a ';'
    /// or before a keyword that starts a declaration or statement.
    fn synchronise(&mut self)
        requires
            old(self).ok(),
        ensures
            Compilation::grew(old(self), final(self)),
            final(self).compiler == old(self).compiler,
    {
        self.parser.recover();
        proof {
            assert(Compilation::grew(old(self), self));
        }
        while !self.parser.check(TokenKind::Eof)
            invariant
                Compilation::grew(old(self), self),
                self.compiler == old(self).compiler,
            decreases self.parser.remaining(),
        {
            if self.parser.previous().kind == TokenKind::SemiColon {
                return;
            }
            match self.parser.current().kind {
                TokenKind::Class | TokenKind::Fn | TokenKind::Var | TokenKind::For | TokenKind::If
                | TokenKind::While | TokenKind::Return => {
                    return;
                },
                _ => {},
            }
            self.advance();
        }
    }

    /// A declaration: a class, a function, a variable, or a statement.
    /// After an error the parser recovers at the next statement boundary.
    fn declaration(&mut self)
        requires
            old(self).ok(),
            settled(old(self).compiler),
        ensures
            old(self).parser.current_token().kind != TokenKind::LeftBrace ==> Compilation::wrote_or_failed(old(self), final(self)),
            Compilation::stepped(old(self), final(self)),
            old(self).parser.current_token().kind != TokenKind::Eof ==> final(self).parser.remaining()
                < old(self).parser.remaining(),
        decreases old(self).parser.remaining(), 9int,
    {
        if self.match_token(TokenKind::Class) {
            self.class_declaration();
        } else if self.match_token(TokenKind::Fn) {
            self.fn_declaration();
        } else if self.match_token(TokenKind::Var) {
            self.var_declaration();
        } else {
            self.statement();
        }
        if self.parser.panic_mode() {
            self.synchronise();
        }
    }

    /// Starts compiling a function of the given kind inside the current
    /// one, with its receiver slot counted among its parameters.
    fn begin_function(&mut self, kind: FunctionKind)
        requires
            old(self).ok(),
        ensures
            final(self).ok(),
            settled(final(self).compiler),
            final(self).parser == old(self).parser,
            final(self).big_endian == old(self).big_endian,
            final(self).single_target == old(self).single_target,
            final(self).compiler.kind == kind,
            final(self).compiler.scope_depth == 0,
            final(self).compiler.loop_stack@.len() == 0,
            final(self).compiler.break_stack@.len() == 0,
            final(self).arity == 1,
            final(self).class_compilers == old(self).class_compilers,
            final(self).enclosing@ == old(self).enclosing@.push(old(self).compiler),
            final(self).enclosing_arity@ == old(self).enclosing_arity@.push(old(self).arity),
    {
        let mut fresh = Compiler::new(kind);
        core::mem::swap(&mut fresh, &mut self.compiler);
        self.enclosing.push(fresh);
        let arity = self.arity;
        self.enclosing_arity.push(arity);
        self.arity = 1;
        proof {
            assert forall|i: int| 0 <= i < self.enclosing@.len() implies (#[trigger] self.enclosing@[i]).wf() by {
                if i < self.enclosing@.len() - 1 {
                    assert(self.enclosing@[i] == old(self).enclosing@[i]);
                }
            }
        }
    }

    /// Finishes the function being compiled: it returns nothing at its
    /// end, and the compilation goes back to the function around it. The
    /// function, named `name`, and the variables it captures.
    fn end_function(&mut self, name: String) -> (r: (Function, Vec<crate::compiler::Upvalue>))
        requires
            old(self).ok(),
            old(self).enclosing@.len() > 0,
            old(self).enclosing_arity@.len() > 0,
        ensures
            final(self).ok(),
            final(self).parser == old(self).parser,
            final(self).big_endian == old(self).big_endian,
            final(self).single_target == old(self).single_target,
            final(self).compiler == old(self).enclosing@.last(),
            final(self).arity == old(self).enclosing_arity@.last(),
            final(self).enclosing@ == old(self).enclosing@.drop_last(),
            final(self).enclosing_arity@ == old(self).enclosing_arity@.drop_last(),
            final(self).class_compilers == old(self).class_compilers,
            r.0.name@ == name@,
            r.0.arity == old(self).arity,
            r.0.chunk.code@ == old(self).code() + return_code(old(self).compiler.kind),
            r.0.chunk.constants@ == old(self).constants(),
            r.0.upvalue_count == old(self).compiler.upvalues@.len(),
            r.1@ == old(self).compiler.upvalues@,
    {
        self.emit_return();
        let mut inner = self.enclosing.pop().unwrap();
        core::mem::swap(&mut inner, &mut self.compiler);
        let arity = self.arity;
        self.arity = self.enclosing_arity.pop().unwrap();
        proof {
            assert forall|i: int| 0 <= i < self.enclosing@.len() implies (#[trigger] self.enclosing@[i]).wf() by {
                assert(self.enclosing@[i] == old(self).enclosing@[i]);
            }
            assert(self.compiler.wf());
            self.parser.lemma_wf_pos();
        }
        let upvalue_count = inner.upvalues.len();
        let function = Function { name, arity, upvalue_count, chunk: inner.chunk };
        (function, inner.upvalues)
    }

    /// Declares the parameters up to `right_delim`, separated by commas,
    /// each counted in the function's arity.
    fn parameter_list(&mut self, right_delim: TokenKind, count_msg: &str, param_msg: &str)
        requires
            old(self).ok(),
            settled(old(self).compiler),
        ensures
            final(self).ok(),
            settled(final(self).compiler),
            final(self).parser.src() == old(self).parser.src(),
            final(self).parser.module() == old(self).parser.module(),
            final(self).parser.remaining() <= old(self).parser.remaining(),
            final(self).big_endian == old(self).big_endian,
            final(self).single_target == old(self).single_target,
            extends(old(self).code(), final(self).code()),
            extends(old(self).constants(), final(self).constants()),
            final(self).compiler.scope_depth == old(self).compiler.scope_depth,
            final(self).compiler.kind == old(self).compiler.kind,
            final(self).compiler.in_try_block == old(self).compiler.in_try_block,
            final(self).compiler.loop_stack == old(self).compiler.loop_stack,
            final(self).compiler.break_stack == old(self).compiler.break_stack,
            final(self).enclosing == old(self).enclosing,
            final(self).enclosing_arity == old(self).enclosing_arity,
            final(self).class_compilers == old(self).class_compilers,
            final(self).parser.remaining() < old(self).parser.remaining() || final(self).parser.current_token()
                == old(self).parser.current_token(),
            old(self).parser.reports().len() <= final(self).parser.reports().len(),
    {
        if self.parser.check(right_delim) {
            return;
        }
        let ghost entry = *self;
        loop
            invariant
                self.ok(),
                settled(self.compiler),
                self.parser.src() == entry.parser.src(),
                self.parser.module() == entry.parser.module(),
                self.parser.remaining() <= entry.parser.remaining(),
                self.big_endian == entry.big_endian,
                self.single_target == entry.single_target,
                extends(entry.code(), self.code()),
                extends(entry.constants(), self.constants()),
                self.compiler.scope_depth == entry.compiler.scope_depth,
                self.compiler.kind == entry.compiler.kind,
                self.compiler.in_try_block == entry.compiler.in_try_block,
                self.compiler.loop_stack == entry.compiler.loop_stack,
                self.compiler.break_stack == entry.compiler.break_stack,
                self.enclosing == entry.enclosing,
                self.enclosing_arity == entry.enclosing_arity,
                self.class_compilers == entry.class_compilers,
                entry == *old(self),
                entry.parser.reports().len() <= self.parser.reports().len(),
                self.parser.remaining() < entry.parser.remaining() || self.parser.current_token()
                    == entry.parser.current_token(),
            decreases self.parser.remaining(),
        {
            if self.arity < usize::MAX {
                self.arity = self.arity + 1;
            }
            if self.arity > 256 {
                self.parser.error_at_current(count_msg);
            }
            let constant = self.parse_variable(param_msg);
            self.define_variable(constant);
            if !self.match_token(TokenKind::Comma) {
                break;
            }
        }
    }

    /// A function's parameters and body, compiled by a compiler of its
    /// own, then loaded as a closure of the variables it captures: one
    /// pair of bytes each, whether it is a local of the function around
    /// and its slot or capture index there.
    fn function(&mut self, kind: FunctionKind)
        requires
            old(self).ok(),
            old(self).parser.remaining() < 2 * old(self).parser.src().len() + 1,
        ensures
            final(self).code().len() > old(self).code().len(),
            Compilation::grew(old(self), final(self)),
            old(self).parser.current_token().kind != TokenKind::RightBrace && old(self).parser.current_token().kind
                != TokenKind::Eof ==> final(self).parser.remaining() < old(self).parser.remaining(),
        decreases old(self).parser.remaining(), 12int,
    {
        let name = self.parser.previous().source.clone();
        let ghost start = *self;
        let ghost c0 = self.parser.current_token();
        let ghost r0 = self.parser.remaining();
        self.begin_function(kind);
        let ghost inner = *self;
        let ghost mut prev = *self;
        proof {
            lemma_encl_same(&inner, self);
        }
        self.begin_scope();
        proof {
            lemma_encl_same(&prev, self);
            lemma_encl_kept_trans(&inner, &prev, self);
            prev = *self;
        }
        self.consume(TokenKind::LeftParen, "Expected '(' after function name.");
        proof {
            lemma_encl_kept_trans(&inner, &prev, self);
            prev = *self;
        }
        if kind.is_bound() {
            self.consume(TokenKind::Self_, "Expected 'self' as first parameter in method.");
            proof {
                lemma_encl_kept_trans(&inner, &prev, self);
                prev = *self;
            }
            self.match_token(TokenKind::Comma);
            proof {
                lemma_encl_same(&prev, self);
                lemma_encl_kept_trans(&inner, &prev, self);
                prev = *self;
            }
        } else if self.match_token(TokenKind::Self_) {
            proof {
                lemma_encl_same(&prev, self);
                lemma_encl_kept_trans(&inner, &prev, self);
                prev = *self;
            }
            self.error("Expected parameter name.");
            proof {
                lemma_encl_same(&prev, self);
                lemma_encl_kept_trans(&inner, &prev, self);
                prev = *self;
            }
            self.match_token(TokenKind::Comma);
            proof {
                lemma_encl_same(&prev, self);
                lemma_encl_kept_trans(&inner, &prev, self);
                prev = *self;
            }
        }
        proof {
            lemma_encl_same(&prev, self);
            lemma_encl_kept_trans(&inner, &prev, self);
            prev = *self;
        }
        self.parameter_list(TokenKind::RightParen, "Cannot have more than 255 parameters.", "Expected parameter name.");
        proof {
            lemma_encl_same(&prev, self);
            lemma_encl_kept_trans(&inner, &prev, self);
            prev = *self;
        }
        self.consume(TokenKind::RightParen, "Expected ')' after parameters.");
        proof {
            lemma_encl_kept_trans(&inner, &prev, self);
            prev = *self;
        }
        self.consume(TokenKind::LeftBrace, "Expected '{' before function body.");
        proof {
            lemma_encl_kept_trans(&inner, &prev, self);
            prev = *self;
            assert(self.parser.remaining() < r0 || self.parser.current_token() == c0);
        }
        self.block();
        proof {
            lemma_encl_kept_trans(&inner, &prev, self);
        }
        self.finish_closure(name, Ghost(start), Ghost(inner));
    }

    /// Ends the function being compiled and loads it, as a closure, in the
    /// function around it.
    fn finish_closure(&mut self, name: String, start: Ghost<Compilation>, inner: Ghost<Compilation>)
        requires
            old(self).ok(),
            start@.ok(),
            inner@.enclosing@ == start@.enclosing@.push(start@.compiler),
            inner@.enclosing_arity@ == start@.enclosing_arity@.push(start@.arity),
            Compilation::encl_kept(&inner@, old(self)),
            old(self).enclosing_arity@ == inner@.enclosing_arity@,
            old(self).parser.src() == start@.parser.src(),
            old(self).parser.module() == start@.parser.module(),
            old(self).big_endian == start@.big_endian,
            old(self).single_target == start@.single_target,
            old(self).parser.remaining() <= start@.parser.remaining(),
            old(self).class_compilers@ == start@.class_compilers@,
            start@.parser.reports().len() <= old(self).parser.reports().len(),
        ensures
            final(self).code().len() > start@.code().len(),
            Compilation::grew(&start@, final(self)),
            final(self).parser.remaining() <= old(self).parser.remaining(),
    {
        proof {
            let n = start@.enclosing@.len() as int;
            assert(inner@.enclosing@[n] == start@.compiler);
            assert(kept(inner@.enclosing@[n], old(self).enclosing@[n]));
            assert forall|i: int| 0 <= i < n implies kept(#[trigger] start@.enclosing@[i], old(self).enclosing@[i]) by {
                assert(inner@.enclosing@[i] == start@.enclosing@[i]);
                assert(kept(inner@.enclosing@[i], old(self).enclosing@[i]));
            }
        }
        let (function, upvalues) = self.end_function(name);
        proof {
            let n = start@.enclosing@.len() as int;
            assert(self.compiler == old(self).enclosing@[n]);
            assert(kept(start@.compiler, self.compiler));
            assert(self.code() == start@.code());
            assert(self.constants() == start@.constants());
            assert forall|i: int| 0 <= i < n implies kept(#[trigger] start@.enclosing@[i], self.enclosing@[i]) by {
                assert(self.enclosing@[i] == old(self).enclosing@[i]);
            }
            assert(self.enclosing_arity@ =~= start@.enclosing_arity@);
            assert(Compilation::grew(&start@, self));
        }
        let constant = self.make_constant(Constant::Function(function));
        self.emit_short_op(OpCode::Closure, constant);
        let ghost mid = *self;
        let mut i: usize = 0;
        while i < upvalues.len()
            invariant
                Compilation::grew(&mid, self),
                Compilation::grew(&start@, &mid),
                mid.code().len() > start@.code().len(),
            decreases upvalues.len() - i,
        {
            let is_local: u8 = if upvalues[i].is_local { 1 } else { 0 };
            self.emit_byte(is_local);
            self.emit_byte(upvalues[i].index);
            i = i + 1;
        }
    }

    /// A function written where an expression stands: its parameters
    /// between bars, then a block or a single expression whose value it
    /// returns.
    fn lambda(&mut self)
        requires
            old(self).ok(),
            old(self).parser.remaining() < 2 * old(self).parser.src().len() + 1,
        ensures
            Compilation::wrote_or_failed(old(self), final(self)),
            Compilation::grew(old(self), final(self)),
        decreases old(self).parser.remaining(), 13int,
    {
        let count = self.compiler.lambda_count;
        self.compiler.lambda_count = count.wrapping_add(1);
        let mut name = "lambda-".to_owned();
        name.append(crate::text::usize_to_string(count).as_str());
        let ghost start = *self;
        self.begin_function(FunctionKind::Function);
        let ghost inner = *self;
        let ghost mut prev = *self;
        self.begin_scope();
        proof {
            lemma_encl_same(&inner, self);
            prev = *self;
        }
        if self.parser.previous().kind == TokenKind::Bar {
            self.parameter_list(TokenKind::Bar, "Cannot have more than 255 parameters.", "Expected parameter name.");
            proof {
                lemma_encl_same(&prev, self);
                lemma_encl_kept_trans(&inner, &prev, self);
                prev = *self;
            }
            self.consume(TokenKind::Bar, "Expected ')' after parameters.");
            proof {
                lemma_encl_kept_trans(&inner, &prev, self);
                prev = *self;
            }
        }
        if self.match_token(TokenKind::LeftBrace) {
            proof {
                lemma_encl_same(&prev, self);
                lemma_encl_kept_trans(&inner, &prev, self);
                prev = *self;
            }
            self.block();
            proof {
                lemma_encl_kept_trans(&inner, &prev, self);
            }
        } else {
            self.expression();
            proof {
                lemma_encl_kept_trans(&inner, &prev, self);
                prev = *self;
            }
            self.emit_byte(OpCode::Return.to_byte());
            proof {
                lemma_encl_kept_trans(&inner, &prev, self);
            }
        }
        self.finish_closure(name, Ghost(start), Ghost(inner));
    }

    /// `fn name(parameters) { body }`: the function is bound to its name,
    /// which its body can already use.
    fn fn_declaration(&mut self)
        requires
            old(self).ok(),
            settled(old(self).compiler),
            old(self).parser.remaining() < 2 * old(self).parser.src().len() + 1,
        ensures
            Compilation::wrote_or_failed(old(self), final(self)),
            Compilation::stepped(old(self), final(self)),
        decreases old(self).parser.remaining(), 13int,
    {
        let global = self.parse_variable("Expected function name.");
        if self.compiler.scope_depth > 0 {
            self.compiler.mark_last_initialised();
        }
        self.function(FunctionKind::Function);
        self.define_variable(global);
    }

    /// `self`: the receiver, inside a method of a class.
    fn self_(&mut self)
        requires
            old(self).ok(),
        ensures
            Compilation::wrote_or_failed(old(self), final(self)),
            Compilation::grew(old(self), final(self)),
        decreases old(self).parser.remaining(), 14int,
    {
        if self.class_compilers.len() == 0 {
            self.error("Cannot use 'self' outside of a class.");
            return;
        }
        if self.compiler.kind == FunctionKind::StaticMethod {
            self.error("Cannot use 'self' in a static method.");
            return;
        }
        self.variable(false);
    }

    /// `Self`: the class of the receiver, inside a class.
    fn cap_self(&mut self)
        requires
            old(self).ok(),
        ensures
            Compilation::wrote_or_failed(old(self), final(self)),
            Compilation::grew(old(self), final(self)),
        decreases old(self).parser.remaining(), 14int,
    {
        if self.class_compilers.len() == 0 {
            self.error("Cannot use 'Self' outside of a class.");
            return;
        }
        self.variable(false);
        self.emit_byte(OpCode::GetClass.to_byte());
    }

    /// `fn name(self, parameters) { body }` inside a class: compiled as a
    /// method and added to the class under its name.
    fn method(&mut self)
        requires
            old(self).ok(),
            old(self).parser.remaining() < 2 * old(self).parser.src().len() + 1,
        ensures
            Compilation::grew(old(self), final(self)),
            old(self).parser.current_token().kind != TokenKind::RightBrace && old(self).parser.current_token().kind
                != TokenKind::Eof ==> final(self).parser.remaining() < old(self).parser.remaining(),
        decreases old(self).parser.remaining(), 14int,
    {
        self.consume(TokenKind::Fn, "Expected 'fn' before method name.");
        self.consume(TokenKind::Identifier, "Expected method name.");
        let name = self.parser.previous().source.clone();
        let constant = self.identifier_constant(&name);
        self.function(FunctionKind::Method);
        self.emit_short_op(OpCode::Method, constant);
    }

    /// `class Name { methods }`: the class is declared and bound to its
    /// name, its methods are added to it, and it is defined.
    fn class_declaration(&mut self)
        requires
            old(self).ok(),
            settled(old(self).compiler),
            old(self).parser.remaining() < 2 * old(self).parser.src().len() + 1,
        ensures
            Compilation::wrote_or_failed(old(self), final(self)),
            Compilation::stepped(old(self), final(self)),
        decreases old(self).parser.remaining(), 15int,
    {
        self.consume(TokenKind::Identifier, "Expected class name.");
        let name = self.parser.previous().source.clone();
        let name_constant = self.identifier_constant(&name);
        self.declare_variable();
        self.emit_short_op(OpCode::DeclareClass, name_constant);
        self.define_variable(name_constant);
        self.class_compilers.push(false);
        let ghost inside = *self;
        let (_get_op, set_op, arg) = self.resolve_variable(&name);
        self.named_variable(&name, false);
        self.consume(TokenKind::LeftBrace, "Expected '{' before class body.");
        while !self.parser.check(TokenKind::RightBrace) && !self.parser.check(TokenKind::Eof)
            invariant
                Compilation::grew(&inside, self),
                settled(self.compiler),
                self.parser.remaining() < 2 * self.parser.src().len() + 1,
                self.parser.remaining() <= old(self).parser.remaining(),
            decreases self.parser.remaining(),
        {
            self.method();
        }
        self.consume(TokenKind::RightBrace, "Expected '}' after class body.");
        self.emit_byte(OpCode::DefineClass.to_byte());
        self.emit_variable_op(set_op, arg);
        self.emit_byte(OpCode::Pop.to_byte());
        self.class_compilers.pop();
        proof {
            assert(self.class_compilers@ =~= old(self).class_compilers@);
        }
    }

    /// A compilation of the script `source` of the module `module_name`
    /// (`main` when none is given), writing operands in the given byte
    /// order, before its first token is read.
    pub fn new(source: String, module_name: Option<&str>, big_endian: bool) -> (c: Compilation)
        requires
            source@.len() <= isize::MAX,
        ensures
            c.ok(),
            settled(c.compiler),
            c.parser.src() == source@,
            c.parser.module() == (match module_name {
                Some(m) => m@,
                None => "main"@,
            }),
            c.parser.reports() == Seq::<Seq<char>>::empty(),
            !c.parser.panicking(),
            first_token_kind(&c.parser) == scan_past_errors(source@, 0, 1, Seq::<usize>::empty()).0.kind,
            first_errors(&c.parser) == scan_past_errors(source@, 0, 1, Seq::<usize>::empty()).1,
            c.big_endian == big_endian,
            !c.single_target,
            c.compiler.kind == FunctionKind::Script,
            c.arity == 1,
            c.enclosing@.len() == 0,
            c.compiler.scope_depth == 0,
            c.compiler.upvalues@.len() == 0,
            c.code() == Seq::<u8>::empty(),
            c.constants() == Seq::<Constant>::empty(),
    {
        let parser = Parser::new(source, module_name);
        let compiler = Compiler::new(FunctionKind::Script);
        let c = Compilation {
            parser,
            compiler,
            arity: 1,
            enclosing: Vec::new(),
            enclosing_arity: Vec::new(),
            class_compilers: Vec::new(),
            big_endian,
            single_target: false,
        };
        proof {
            c.parser.lemma_wf_pos();
        }
        c
    }

    /// Reads the first token, then compiles declarations up to the end of
    /// the input.
    pub fn run(&mut self)
        requires
            old(self).ok(),
            settled(old(self).compiler),
        ensures
            first_token_kind(&old(self).parser) != TokenKind::Eof && first_token_kind(&old(self).parser)
                != TokenKind::LeftBrace ==> Compilation::wrote_or_failed(old(self), final(self)),
            Compilation::stepped(old(self), final(self)),
            final(self).parser.previous_token().kind == TokenKind::Eof,
            first_errors(&old(self).parser).len() > 0 && !old(self).parser.panicking()
                ==> final(self).parser.reports().len() > old(self).parser.reports().len(),
            first_token_kind(&old(self).parser) == TokenKind::Eof && first_errors(&old(self).parser).len() == 0
                ==> final(self).code() == old(self).code() && final(self).parser.reports() == old(
                self,
            ).parser.reports(),
    {
        self.advance();
        let ghost entry = *self;
        proof {
            old(self).parser.lemma_wf_pos();
            lemma_scan_past_errors_forward(
                old(self).parser.src(),
                old(self).parser.pos(),
                old(self).parser.line_no(),
                old(self).parser.parens(),
            );
        }
        loop
            invariant_except_break
                entry.parser.current_token().kind == TokenKind::Eof ==> *self == entry,
            invariant
                Compilation::stepped(&entry, self),
                Compilation::grew(old(self), &entry),
                entry.parser.current_token().kind == TokenKind::Eof ==> entry.parser.pos()
                    == entry.parser.src().len(),
                entry.parser.current_token().kind == first_token_kind(&old(self).parser),
                entry.parser.panicking() ==> old(self).parser.panicking() || old(self).parser.reports().len()
                    < entry.parser.reports().len(),
                entry.parser.current_token().kind != TokenKind::Eof && entry.parser.current_token().kind
                    != TokenKind::LeftBrace && *self != entry ==> Compilation::wrote_or_failed(old(self), self),
            ensures
                self.parser.previous_token().kind == TokenKind::Eof,
                entry.parser.current_token().kind == TokenKind::Eof ==> self.code() == entry.code()
                    && self.parser.reports() == entry.parser.reports(),
                entry.parser.current_token().kind != TokenKind::Eof && entry.parser.current_token().kind
                    != TokenKind::LeftBrace ==> Compilation::wrote_or_failed(old(self), self),
            decreases self.parser.remaining(),
        {
            if self.match_token(TokenKind::Eof) {
                proof {
                    if entry.parser.current_token().kind == TokenKind::Eof {
                        lemma_scan_past_errors_at_end(
                            entry.parser.src(),
                            entry.parser.line_no(),
                            entry.parser.parens(),
                        );
                    }
                }
                break;
            }
            self.declaration();
        }
    }

    /// The compiled script, ending with a return of nil; or, when errors
    /// were reported, an error holding them all in order.
    pub fn finish(self) -> (r: Result<Function, Error>)
        requires
            self.ok(),
        ensures
            r is Err <==> self.parser.reports().len() > 0,
            r matches Err(e) ==> e.spec_kind() == ErrorKind::CompileError && e.spec_messages()
                == self.parser.reports(),
            r matches Ok(f) ==> f.arity == self.arity && f.upvalue_count == self.compiler.upvalues@.len()
                && f.chunk.code@ == self.code() + return_code(self.compiler.kind)
                && f.chunk.constants@ == self.constants(),
    {
        let mut s = self;
        if s.parser.errors().len() > 0 {
            let mut error = Error::new(ErrorKind::CompileError);
            let messages = s.parser.errors();
            let mut i: usize = 0;
            while i < messages.len()
                invariant
                    i <= messages@.len(),
                    messages_view(messages@) == s.parser.reports(),
                    error.spec_kind() == ErrorKind::CompileError,
                    error.spec_messages() == messages_view(messages@).take(i as int),
                decreases messages@.len() - i,
            {
                error.add_message(messages[i].as_str());
                proof {
                    assert(messages_view(messages@).take((i + 1) as int) =~= messages_view(messages@).take(
                        i as int,
                    ).push(messages@[i as int]@));
                }
                i = i + 1;
            }
            assert(messages_view(messages@).take(i as int) =~= messages_view(messages@));
            return Err(error);
        }
        s.emit_return();
        let upvalue_count = s.compiler.upvalues.len();
        let mut chunk: Chunk<Constant> = Chunk::new();
        core::mem::swap(&mut chunk, &mut s.compiler.chunk);
        let name = String::new();
        Ok(Function { name, arity: s.arity, upvalue_count, chunk })
    }
}

/// Compiles the script `source` of the module `module_name` (`main` when
/// none is given), writing operands in the given byte order: the script as
/// a function of no arguments that captures nothing and ends with a return
/// of nil, or an error holding the errors reported, in order. A script that
/// starts with anything but a block or the end of its text compiles to more
/// than that return; one with nothing but blanks and comments compiles to
/// that return alone; one whose first token is malformed fails.
pub fn compile(source: String, module_name: Option<&str>, big_endian: bool) -> (r: Result<Function, Error>)
    requires
        source@.len() <= isize::MAX,
    ensures
        r matches Err(e) ==> e.spec_kind() == ErrorKind::CompileError && e.spec_messages().len() > 0,
        r matches Ok(f) ==> f.arity == 1 && f.chunk.code@.len() >= 2
            && f.chunk.code@.subrange(f.chunk.code@.len() - 2, f.chunk.code@.len() as int) == seq![
            opcode_byte(OpCode::Nil),
            opcode_byte(OpCode::Return),
        ],
        scan_past_errors(source@, 0, 1, Seq::<usize>::empty()).0.kind == TokenKind::Eof && scan_past_errors(
            source@,
            0,
            1,
            Seq::<usize>::empty(),
        ).1.len() == 0 ==> (r matches Ok(f) && f.chunk.code@ == seq![
            opcode_byte(OpCode::Nil),
            opcode_byte(OpCode::Return),
        ]),
        scan_past_errors(source@, 0, 1, Seq::<usize>::empty()).1.len() > 0 ==> r is Err,
        r matches Ok(f) ==> (scan_past_errors(source@, 0, 1, Seq::<usize>::empty()).0.kind != TokenKind::Eof
            && scan_past_errors(source@, 0, 1, Seq::<usize>::empty()).0.kind != TokenKind::LeftBrace
            ==> f.chunk.code@.len() > 2),
{
    let mut c = Compilation::new(source, module_name, big_endian);
    let ghost start = c;
    c.run();
    let ghost done = c;
    let r = c.finish();
    proof {
        assert(Compilation::stepped(&start, &done));
        assert(return_code(FunctionKind::Script).len() == 2);
        if first_token_kind(&start.parser) == TokenKind::Eof && first_errors(&start.parser).len() == 0 {
            assert(done.code() + return_code(FunctionKind::Script) =~= seq![
                opcode_byte(OpCode::Nil),
                opcode_byte(OpCode::Return),
            ]);
        }
        if r is Ok {
            let code = done.code() + return_code(FunctionKind::Script);
            assert(code.subrange(code.len() - 2, code.len() as int) =~= return_code(FunctionKind::Script));
        }
    }
    r
}

} // verus!
