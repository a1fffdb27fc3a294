use vstd::prelude::*;

use crate::chunk::{opcode_byte, operand_sizes, Chunk, OpCode};
use crate::error::{messages_view, Error, ErrorKind};
use crate::scanner::Token;
use crate::text::{decimal, push_char, usize_to_string};

verus! {

/// How many local variables a function may declare.
pub const LOCALS_MAX: usize = 256;

/// How many variables a closure may capture.
pub const UPVALUES_MAX: usize = 256;

/// The largest distance a jump is checked against.
pub const JUMP_SIZE_MAX: usize = 65536;

/// How tightly an operator binds, loosest first.
#[derive(Clone, Copy, Debug, PartialEq, Eq, Structural)]
pub enum Precedence {
    NoPrecedence,
    Assignment,
    Or,
    And,
    Equality,
    Comparison,
    BitwiseOr,
    BitwiseXor,
    BitwiseAnd,
    BitShift,
    Term,
    Factor,
    Range,
    Unary,
    Call,
    Primary,
}

/// The position of a precedence level in the order above.
pub open spec fn precedence_rank(p: Precedence) -> usize {
    match p {
        Precedence::NoPrecedence => 0,
        Precedence::Assignment => 1,
        Precedence::Or => 2,
        Precedence::And => 3,
        Precedence::Equality => 4,
        Precedence::Comparison => 5,
        Precedence::BitwiseOr => 6,
        Precedence::BitwiseXor => 7,
        Precedence::BitwiseAnd => 8,
        Precedence::BitShift => 9,
        Precedence::Term => 10,
        Precedence::Factor => 11,
        Precedence::Range => 12,
        Precedence::Unary => 13,
        Precedence::Call => 14,
        Precedence::Primary => 15,
    }
}

impl Precedence {
    /// The position of this level in the order, loosest first.
    pub fn rank(&self) -> (r: usize)
        ensures
            r == precedence_rank(*self),
    {
        match self {
            Precedence::NoPrecedence => 0,
            Precedence::Assignment => 1,
            Precedence::Or => 2,
            Precedence::And => 3,
            Precedence::Equality => 4,
            Precedence::Comparison => 5,
            Precedence::BitwiseOr => 6,
            Precedence::BitwiseXor => 7,
            Precedence::BitwiseAnd => 8,
            Precedence::BitShift => 9,
            Precedence::Term => 10,
            Precedence::Factor => 11,
            Precedence::Range => 12,
            Precedence::Unary => 13,
            Precedence::Call => 14,
            Precedence::Primary => 15,
        }
    }

    /// The precedence level at position `value`.
    pub fn from(value: usize) -> (p: Precedence)
        requires
            value < 16,
        ensures
            precedence_rank(p) == value,
    {
        match value {
            0 => Precedence::NoPrecedence,
            1 => Precedence::Assignment,
            2 => Precedence::Or,
            3 => Precedence::And,
            4 => Precedence::Equality,
            5 => Precedence::Comparison,
            6 => Precedence::BitwiseOr,
            7 => Precedence::BitwiseXor,
            8 => Precedence::BitwiseAnd,
            9 => Precedence::BitShift,
            10 => Precedence::Term,
            11 => Precedence::Factor,
            12 => Precedence::Range,
            13 => Precedence::Unary,
            14 => Precedence::Call,
            _ => Precedence::Primary,
        }
    }
}

/// The kinds of function the compiler produces.
#[derive(Clone, Copy, Debug, PartialEq, Eq, Structural)]
pub enum FunctionKind {
    Function,
    Initialiser,
    Method,
    Script,
    StaticMethod,
}

impl FunctionKind {
    /// Whether functions of this kind receive the instance as their first local.
    pub fn is_bound(&self) -> (b: bool)
        ensures
            b == (*self == FunctionKind::Initialiser || *self == FunctionKind::Method),
    {
        match self {
            FunctionKind::Initialiser => true,
            FunctionKind::Method => true,
            _ => false,
        }
    }
}

impl Default for FunctionKind {
    fn default() -> (k: Self)
        ensures
            k == FunctionKind::Script,
    {
        FunctionKind::Script
    }
}

/// The message for a call with the wrong number of arguments.
pub open spec fn arity_message(num_args: nat, expected: nat) -> Seq<char> {
    "Expected "@ + decimal(expected) + " parameter"@ + (if expected == 1 {
        Seq::empty()
    } else {
        seq!['s']
    }) + " but found "@ + decimal(num_args) + "."@
}

/// Checks that a native function received the number of arguments it expects.
pub fn check_num_args(num_args: usize, expected: usize) -> (r: Result<(), Error>)
    ensures
        r is Ok <==> num_args == expected,
        r matches Err(e) ==> e.spec_kind() == ErrorKind::TypeError && e.spec_messages() == seq![
            arity_message(num_args as nat, expected as nat),
        ],
{
    if num_args != expected {
        let mut msg = "Expected ".to_owned();
        msg.append(usize_to_string(expected).as_str());
        msg.append(" parameter");
        if expected != 1 {
            push_char(&mut msg, 's');
        }
        msg.append(" but found ");
        msg.append(usize_to_string(num_args).as_str());
        msg.append(".");
        assert(msg@ =~= arity_message(num_args as nat, expected as nat));
        return Err(Error::with_message(ErrorKind::TypeError, msg.as_str()));
    }
    Ok(())
}

/// A local variable: its name, the scope depth at which it was initialised
/// (none while its initialiser runs), and whether a closure captures it.
#[derive(Clone, Debug)]
pub struct Local {
    pub name: String,
    pub depth: Option<usize>,
    pub is_captured: bool,
}

/// A captured variable: its slot and whether that slot is a local of the
/// enclosing function or one of its own captured variables.
#[derive(Clone, Copy, Debug, PartialEq, Eq, Structural)]
pub struct Upvalue {
    pub index: u8,
    pub is_local: bool,
}

/// Why resolving names or control flow failed.
#[derive(Clone, Copy, Debug, PartialEq, Eq, Structural)]
pub enum CompilerError {
    InvalidCompilerKind,
    InvalidControlStatement,
    JumpTooLarge,
    LocalNotFound,
    ReadVarInInitialiser,
    TooManyClosureVars,
}

/// The two bytes of a 16-bit value, least significant first unless
/// `big_endian`.
pub open spec fn u16_bytes(v: u16, big_endian: bool) -> (u8, u8) {
    if big_endian {
        ((v / 256) as u8, (v % 256) as u8)
    } else {
        ((v % 256) as u8, (v / 256) as u8)
    }
}

/// The two bytes of a 16-bit value in the given byte order: those of
/// `u16::to_ne_bytes` on a machine of that order.
pub fn short_bytes(v: u16, big_endian: bool) -> (b: [u8; 2])
    ensures
        (b@[0], b@[1]) == u16_bytes(v, big_endian),
{
    let low = (v % 256) as u8;
    let high = (v / 256) as u8;
    if big_endian {
        [high, low]
    } else {
        [low, high]
    }
}

/// The distance a forward jump whose operand starts at `offset` covers to
/// reach the end of `code`.
pub open spec fn jump_distance(code_len: int, offset: int) -> int {
    code_len - offset - 2
}

/// `code` with the jump operand at `offset` set to `v`.
pub open spec fn patch_bytes(code: Seq<u8>, offset: int, v: u16, big_endian: bool) -> Seq<u8> {
    let (b0, b1) = u16_bytes(v, big_endian);
    code.update(offset, b0).update(offset + 1, b1)
}

/// `code` with each of the jump operands at `offsets` set, in order, to the
/// distance to the end of the code, written in the given byte order.
pub open spec fn patch_each(code: Seq<u8>, offsets: Seq<usize>, big_endian: bool) -> Seq<u8>
    decreases offsets.len(),
{
    if offsets.len() == 0 {
        code
    } else {
        let c = patch_each(code, offsets.drop_last(), big_endian);
        patch_bytes(
            c,
            offsets.last() as int,
            jump_distance(code.len() as int, offsets.last() as int) as u16,
            big_endian,
        )
    }
}

/// An instruction byte followed by a 16-bit operand in the given byte order.
pub open spec fn with_short(op: u8, v: u16, big_endian: bool) -> Seq<u8> {
    seq![op, u16_bytes(v, big_endian).0, u16_bytes(v, big_endian).1]
}

/// The distance a backward jump written at the end of `code_len` bytes
/// covers to reach `loop_start`, counted from the end of the jump.
pub open spec fn loop_distance(code_len: int, loop_start: int) -> int {
    code_len + 3 - loop_start
}

/// How many locals, counted back from the `n`th, lie in scopes deeper than
/// `depth`: the count stops at the first local initialised at `depth` or
/// shallower.
pub open spec fn scope_tail(locals: Seq<Local>, depth: usize, n: int) -> nat
    decreases n,
{
    if n <= 0 {
        0
    } else if locals[n - 1].depth matches Some(d) && d <= depth {
        0
    } else {
        1 + scope_tail(locals, depth, n - 1)
    }
}

/// The instructions that leave the scopes deeper than `depth`: from the
/// `n`th local back, a CloseUpvalue for one a closure captures and a Pop
/// for the others.
pub open spec fn scope_end_code(locals: Seq<Local>, depth: usize, n: int) -> Seq<u8>
    decreases n,
{
    if n <= 0 {
        Seq::empty()
    } else if locals[n - 1].depth matches Some(d) && d <= depth {
        Seq::empty()
    } else {
        seq![
            if locals[n - 1].is_captured {
                opcode_byte(OpCode::CloseUpvalue)
            } else {
                opcode_byte(OpCode::Pop)
            },
        ] + scope_end_code(locals, depth, n - 1)
    }
}

/// How many locals named `name`, counted back from the `n`th, lie in the
/// scope at `depth`: the count stops at the first local initialised in an
/// enclosing scope.
pub open spec fn same_scope_duplicates(locals: Seq<Local>, name: Seq<char>, depth: usize, n: int) -> nat
    decreases n,
{
    if n <= 0 {
        0
    } else if locals[n - 1].depth matches Some(d) && d < depth {
        0
    } else {
        (if locals[n - 1].name@ == name {
            1nat
        } else {
            0nat
        }) + same_scope_duplicates(locals, name, depth, n - 1)
    }
}

/// The report for a name declared twice in one scope.
pub open spec fn duplicate_message() -> Seq<char> {
    "Variable with this name already declared in this scope."@
}

/// The report for a function with too many locals.
pub open spec fn too_many_locals_message() -> Seq<char> {
    "Too many variables in function."@
}

/// The index of the last local named `name` among the first `n`.
pub open spec fn find_last_local(locals: Seq<Local>, name: Seq<char>, n: int) -> Option<int>
    decreases n,
{
    if n <= 0 {
        None
    } else if locals[n - 1].name@ == name {
        Some(n - 1)
    } else {
        find_last_local(locals, name, n - 1)
    }
}

/// The local found is one of those searched, and has the name sought.
pub proof fn lemma_find_last_local_bounds(locals: Seq<Local>, name: Seq<char>, n: int)
    ensures
        find_last_local(locals, name, n) matches Some(i) ==> 0 <= i < n && locals[i].name@ == name,
    decreases n,
{
    if n > 0 && locals[n - 1].name@ != name {
        lemma_find_last_local_bounds(locals, name, n - 1);
    }
}

/// The index of the first captured variable equal to `u`.
pub open spec fn find_upvalue(upvalues: Seq<Upvalue>, u: Upvalue) -> Option<int> {
    if exists|i: int| 0 <= i < upvalues.len() && upvalues[i] == u {
        Some(choose|i: int| 0 <= i < upvalues.len() && upvalues[i] == u && forall|j: int| 0 <= j < i ==> upvalues[j] != u)
    } else {
        None
    }
}

/// Whether two compilers differ at most in their captured variables.
pub open spec fn same_except_upvalues<V>(a: Compiler<V>, b: Compiler<V>) -> bool {
    &&& a.kind == b.kind
    &&& a.chunk == b.chunk
    &&& a.locals == b.locals
    &&& a.scope_depth == b.scope_depth
    &&& a.lambda_count == b.lambda_count
    &&& a.in_try_block == b.in_try_block
    &&& a.loop_stack == b.loop_stack
    &&& a.break_stack == b.break_stack
}

/// Whether two compilers differ at most in their locals.
pub open spec fn same_except_locals<V>(a: Compiler<V>, b: Compiler<V>) -> bool {
    &&& a.kind == b.kind
    &&& a.chunk == b.chunk
    &&& a.upvalues == b.upvalues
    &&& a.scope_depth == b.scope_depth
    &&& a.lambda_count == b.lambda_count
    &&& a.in_try_block == b.in_try_block
    &&& a.loop_stack == b.loop_stack
    &&& a.break_stack == b.break_stack
}

/// Local `l` marked as captured by a closure.
pub open spec fn captured(l: Local) -> Local {
    Local { name: l.name, depth: l.depth, is_captured: true }
}

/// The slot at which resolving `name` in `c` succeeds: that of the
/// innermost local of that name, when it is initialised.
pub open spec fn resolved_slot<V>(c: Compiler<V>, name: Seq<char>) -> Option<int> {
    match find_last_local(c.locals@, name, c.locals@.len() as int) {
        Some(i) => if c.locals@[i].depth is Some {
            Some(i)
        } else {
            None
        },
        None => None,
    }
}

/// The innermost of the first `e + 1` compilers in which `name` resolves
/// to a local.
pub open spec fn enclosing_with_local<V>(cs: Seq<Compiler<V>>, name: Seq<char>, e: int) -> Option<int>
    decreases e + 1,
{
    if e < 0 {
        None
    } else if resolved_slot(cs[e], name) is Some {
        Some(e)
    } else {
        enclosing_with_local(cs, name, e - 1)
    }
}

/// The captured variables and the index that adding `u` to `ups` gives:
/// the index of an equal one already there, or of `u` appended; `None`
/// when the list is full.
pub open spec fn upvalue_added(ups: Seq<Upvalue>, u: Upvalue) -> (Seq<Upvalue>, Option<u8>) {
    match find_upvalue(ups, u) {
        Some(i) => (ups, Some(i as u8)),
        None => if ups.len() >= UPVALUES_MAX {
            (ups, None)
        } else {
            (ups.push(u), Some(ups.len() as u8))
        },
    }
}

/// The index by which compiler `c` captures slot `slot` of compiler `e`,
/// the capture being passed through each compiler in between (directly
/// from a local in the one right after `e`); `None` once one of them has
/// no room left.
pub open spec fn capture_index<V>(cs: Seq<Compiler<V>>, e: int, slot: int, c: int) -> Option<u8>
    decreases c - e,
{
    if c <= e {
        Some(slot as u8)
    } else {
        match capture_index(cs, e, slot, c - 1) {
            Some(prev) => upvalue_added(cs[c].upvalues@, Upvalue { index: prev, is_local: c == e + 1 }).1,
            None => None,
        }
    }
}

/// The captured variables of compiler `c`, above `e`, once the capture
/// has been passed through it.
pub open spec fn captures_after<V>(cs: Seq<Compiler<V>>, e: int, slot: int, c: int) -> Seq<Upvalue> {
    match capture_index(cs, e, slot, c - 1) {
        Some(prev) => upvalue_added(cs[c].upvalues@, Upvalue { index: prev, is_local: c == e + 1 }).0,
        None => cs[c].upvalues@,
    }
}

/// Whether two states of a function's compilation agree on everything
/// but the locals.
pub open spec fn same_frame<V>(a: Compiler<V>, b: Compiler<V>) -> bool {
    &&& a.kind == b.kind
    &&& a.chunk == b.chunk
    &&& a.upvalues == b.upvalues
    &&& a.scope_depth == b.scope_depth
    &&& a.lambda_count == b.lambda_count
    &&& a.in_try_block == b.in_try_block
    &&& a.loop_stack == b.loop_stack
    &&& a.break_stack == b.break_stack
}

/// The state of compiling one function: its kind and code, its locals and
/// captured variables, and the loops it is inside.
pub struct Compiler<V> {
    pub kind: FunctionKind,
    pub chunk: Chunk<V>,
    pub locals: Vec<Local>,
    pub upvalues: Vec<Upvalue>,
    pub scope_depth: usize,
    pub lambda_count: usize,
    pub in_try_block: bool,
    pub loop_stack: Vec<(usize, usize)>,
    pub break_stack: Vec<Vec<usize>>,
}

impl<V> Compiler<V> {
    /// The compiler's internal consistency: slots fit in a byte.
    pub open spec fn wf(&self) -> bool {
        &&& 0 < self.locals@.len() <= LOCALS_MAX
        &&& self.upvalues@.len() <= UPVALUES_MAX
    }

    /// A compiler for a function of the given kind. Slot 0 holds the
    /// receiver: `Self` for a static method, `self` for other bound kinds and
    /// scripts, and a nameless slot for a plain function.
    pub fn new(kind: FunctionKind) -> (c: Self)
        ensures
            c.wf(),
            c.kind == kind,
            c.chunk.code@.len() == 0,
            c.chunk.lines@.len() == 0,
            c.chunk.constants@.len() == 0,
            c.locals@.len() == 1,
            c.locals@[0].name@ == (if kind == FunctionKind::StaticMethod {
                "Self"@
            } else if kind != FunctionKind::Function {
                "self"@
            } else {
                ""@
            }),
            c.locals@[0].depth == Some(0usize),
            !c.locals@[0].is_captured,
            c.upvalues@.len() == 0,
            c.scope_depth == 0,
            c.lambda_count == 0,
            !c.in_try_block,
            c.loop_stack@.len() == 0,
            c.break_stack@.len() == 0,
    {
        let name = if kind == FunctionKind::StaticMethod {
            "Self"
        } else if kind != FunctionKind::Function {
            "self"
        } else {
            ""
        };
        let mut locals: Vec<Local> = Vec::new();
        locals.push(Local { name: name.to_owned(), depth: Some(0), is_captured: false });
        Compiler {
            kind,
            chunk: Chunk::new(),
            locals,
            upvalues: Vec::new(),
            scope_depth: 0,
            lambda_count: 0,
            in_try_block: false,
            loop_stack: Vec::new(),
            break_stack: Vec::new(),
        }
    }

    /// The number of variables the function captures.
    pub fn upvalue_count(&self) -> (n: usize)
        ensures
            n == self.upvalues@.len(),
    {
        self.upvalues.len()
    }

    /// Declares a local named after `name`, not yet initialised; false when
    /// the function already has as many locals as it may.
    pub fn add_local(&mut self, name: &Token) -> (added: bool)
        requires
            old(self).wf(),
        ensures
            same_frame(*old(self), *final(self)),
            final(self).wf(),
            added == (old(self).locals@.len() < LOCALS_MAX),
            added ==> final(self).locals@.len() == old(self).locals@.len() + 1
                && final(self).locals@.drop_last() == old(self).locals@
                && final(self).locals@.last().name@ == name.source@
                && final(self).locals@.last().depth is None
                && !final(self).locals@.last().is_captured,
            !added ==> final(self).locals == old(self).locals,
            final(self).upvalues == old(self).upvalues,
            final(self).chunk == old(self).chunk,
            final(self).scope_depth == old(self).scope_depth,
    {
        if self.locals.len() == LOCALS_MAX {
            return false;
        }
        self.locals.push(Local { name: name.source.clone(), depth: None, is_captured: false });
        assert(self.locals@.drop_last() =~= old(self).locals@);
        true
    }

    /// Marks local `local` as initialised at the current scope depth.
    pub fn mark_initialised(&mut self, local: usize)
        requires
            old(self).wf(),
            local < old(self).locals@.len(),
        ensures
            same_frame(*old(self), *final(self)),
            final(self).wf(),
            final(self).locals@.len() == old(self).locals@.len(),
            forall|i: int| 0 <= i < old(self).locals@.len() && i != local ==> #[trigger] final(self).locals@[i] == old(self).locals@[i],
            final(self).locals@[local as int].name == old(self).locals@[local as int].name,
            final(self).locals@[local as int].is_captured == old(self).locals@[local as int].is_captured,
            final(self).locals@[local as int].depth == Some(old(self).scope_depth),
            final(self).upvalues == old(self).upvalues,
            final(self).scope_depth == old(self).scope_depth,
    {
        let depth = self.scope_depth;
        let mut slot = Local { name: String::new(), depth: None, is_captured: false };
        self.locals.set_and_swap(local, &mut slot);
        slot.depth = Some(depth);
        self.locals.set_and_swap(local, &mut slot);
    }

    /// Marks the last declared local as initialised.
    pub fn mark_last_initialised(&mut self)
        requires
            old(self).wf(),
        ensures
            same_frame(*old(self), *final(self)),
            final(self).wf(),
            final(self).locals@.len() == old(self).locals@.len(),
            forall|i: int| 0 <= i < old(self).locals@.len() - 1 ==> #[trigger] final(self).locals@[i] == old(self).locals@[i],
            final(self).locals@.last().name == old(self).locals@.last().name,
            final(self).locals@.last().is_captured == old(self).locals@.last().is_captured,
            final(self).locals@.last().depth == Some(old(self).scope_depth),
            final(self).upvalues == old(self).upvalues,
            final(self).scope_depth == old(self).scope_depth,
    {
        let last = self.locals.len() - 1;
        self.mark_initialised(last);
    }

    /// The slot of the innermost local named `name`.
    pub fn resolve_local(&self, name: &Token) -> (r: Result<u8, CompilerError>)
        requires
            self.wf(),
        ensures
            match find_last_local(self.locals@, name.source@, self.locals@.len() as int) {
                None => r == Err::<u8, CompilerError>(CompilerError::LocalNotFound),
                Some(i) => if self.locals@[i].depth is None {
                    r == Err::<u8, CompilerError>(CompilerError::ReadVarInInitialiser)
                } else {
                    r == Ok::<u8, CompilerError>(i as u8)
                },
            },
    {
        let mut n = self.locals.len();
        while n > 0
            invariant
                n <= self.locals@.len() <= LOCALS_MAX,
                find_last_local(self.locals@, name.source@, self.locals@.len() as int)
                    == find_last_local(self.locals@, name.source@, n as int),
            decreases n,
        {
            let i = n - 1;
            if self.locals[i].name == name.source {
                if self.locals[i].depth.is_none() {
                    return Err(CompilerError::ReadVarInInitialiser);
                }
                return Ok(i as u8);
            }
            n = i;
        }
        Err(CompilerError::LocalNotFound)
    }

    /// Marks local `local` as captured by a closure.
    fn mark_captured(&mut self, local: usize)
        requires
            local < old(self).locals@.len(),
        ensures
            same_except_locals(*final(self), *old(self)),
            final(self).locals@ == old(self).locals@.update(local as int, captured(old(self).locals@[local as int])),
    {
        let mut slot = Local { name: String::new(), depth: None, is_captured: false };
        self.locals.set_and_swap(local, &mut slot);
        slot.is_captured = true;
        self.locals.set_and_swap(local, &mut slot);
    }

    /// The index of the captured variable for `index` and `is_local`,
    /// added if new.
    pub fn add_upvalue(&mut self, index: u8, is_local: bool) -> (r: Result<u8, CompilerError>)
        requires
            old(self).wf(),
        ensures
            final(self).wf(),
            same_except_upvalues(*final(self), *old(self)),
            match find_upvalue(old(self).upvalues@, Upvalue { index, is_local }) {
                Some(i) => r == Ok::<u8, CompilerError>(i as u8) && final(self).upvalues@ == old(self).upvalues@,
                None => if old(self).upvalues@.len() == UPVALUES_MAX {
                    r == Err::<u8, CompilerError>(CompilerError::TooManyClosureVars)
                        && final(self).upvalues@ == old(self).upvalues@
                } else {
                    r == Ok::<u8, CompilerError>(old(self).upvalues@.len() as u8)
                        && final(self).upvalues@ == old(self).upvalues@.push(Upvalue { index, is_local })
                },
            },
    {
        let ghost u = Upvalue { index, is_local };
        let upvalue_count = self.upvalues.len();
        let mut i: usize = 0;
        while i < upvalue_count
            invariant
                upvalue_count == self.upvalues@.len() <= UPVALUES_MAX,
                i <= upvalue_count,
                u == (Upvalue { index, is_local }),
                self.wf(),
                self.upvalues == old(self).upvalues,
                same_except_upvalues(*self, *old(self)),
                forall|j: int| 0 <= j < i ==> self.upvalues@[j] != u,
            decreases upvalue_count - i,
        {
            let up = self.upvalues[i];
            if up.index == index && up.is_local == is_local {
                proof {
                    assert(self.upvalues@[i as int] == u);
                    let c = choose|k: int| 0 <= k < self.upvalues@.len() && self.upvalues@[k] == u && forall|j: int| 0 <= j < k ==> self.upvalues@[j] != u;
                    assert(c == i) by {
                        if c < i {
                            assert(self.upvalues@[c] != u);
                        }
                        if c > i {
                            assert(self.upvalues@[i as int] != u);
                        }
                    }
                }
                return Ok(i as u8);
            }
            i = i + 1;
        }
        if upvalue_count == UPVALUES_MAX {
            return Err(CompilerError::TooManyClosureVars);
        }
        self.upvalues.push(Upvalue { index, is_local });
        Ok(upvalue_count as u8)
    }

    /// Writes one byte on source line `line`.
    pub fn emit_byte(&mut self, byte: u8, line: i32)
        ensures
            final(self).chunk.code@ == old(self).chunk.code@.push(byte),
            final(self).chunk.lines@ == old(self).chunk.lines@.push(line),
            final(self).chunk.constants@ == old(self).chunk.constants@,
            final(self).locals == old(self).locals,
            final(self).upvalues == old(self).upvalues,
            final(self).scope_depth == old(self).scope_depth,
            final(self).kind == old(self).kind,
            final(self).lambda_count == old(self).lambda_count,
            final(self).in_try_block == old(self).in_try_block,
            final(self).loop_stack == old(self).loop_stack,
            final(self).break_stack == old(self).break_stack,
    {
        self.chunk.write(byte, line);
    }

    /// Writes two bytes on source line `line`.
    pub fn emit_bytes(&mut self, bytes: [u8; 2], line: i32)
        ensures
            final(self).chunk.code@ == old(self).chunk.code@ + bytes@,
            final(self).chunk.lines@ == old(self).chunk.lines@ + seq![line, line],
            final(self).chunk.constants@ == old(self).chunk.constants@,
            final(self).locals == old(self).locals,
            final(self).upvalues == old(self).upvalues,
            final(self).scope_depth == old(self).scope_depth,
            final(self).kind == old(self).kind,
            final(self).lambda_count == old(self).lambda_count,
            final(self).in_try_block == old(self).in_try_block,
            final(self).loop_stack == old(self).loop_stack,
            final(self).break_stack == old(self).break_stack,
    {
        self.emit_byte(bytes[0], line);
        self.emit_byte(bytes[1], line);
        assert(self.chunk.code@ =~= old(self).chunk.code@ + bytes@);
        assert(self.chunk.lines@ =~= old(self).chunk.lines@ + seq![line, line]);
    }

    /// Writes an instruction followed by a 16-bit operand in the given byte
    /// order (the machine's, for code this machine runs).
    pub fn emit_constant_op(&mut self, opcode: OpCode, constant: u16, big_endian: bool, line: i32)
        ensures
            final(self).chunk.code@ == old(self).chunk.code@ + with_short(
                opcode_byte(opcode),
                constant,
                big_endian,
            ),
            final(self).chunk.lines@ == old(self).chunk.lines@ + seq![line, line, line],
            final(self).chunk.constants@ == old(self).chunk.constants@,
            final(self).locals == old(self).locals,
            final(self).upvalues == old(self).upvalues,
            final(self).scope_depth == old(self).scope_depth,
    {
        self.emit_byte(opcode.to_byte(), line);
        let bytes = short_bytes(constant, big_endian);
        self.emit_bytes(bytes, line);
        proof {
            assert(self.chunk.code@ =~= old(self).chunk.code@ + with_short(opcode_byte(opcode), constant, big_endian));
            assert(self.chunk.lines@ =~= old(self).chunk.lines@ + seq![line, line, line]);
        }
    }

    /// Writes an instruction that reads or writes a variable: its operand
    /// is one byte for an instruction with a one-byte operand, two bytes
    /// otherwise.
    pub fn emit_variable_op(&mut self, opcode: OpCode, variable: u16, big_endian: bool, line: i32)
        ensures
            operand_sizes(opcode) == seq![1usize] ==> final(self).chunk.code@ == old(self).chunk.code@
                + seq![opcode_byte(opcode), variable as u8],
            operand_sizes(opcode) != seq![1usize] ==> final(self).chunk.code@ == old(self).chunk.code@
                + with_short(opcode_byte(opcode), variable, big_endian),
            final(self).chunk.constants@ == old(self).chunk.constants@,
            final(self).locals == old(self).locals,
            final(self).upvalues == old(self).upvalues,
            final(self).scope_depth == old(self).scope_depth,
    {
        let sizes = opcode.arg_sizes();
        if sizes.len() == 1 && sizes[0] == 1 {
            assert(operand_sizes(opcode) =~= seq![1usize]);
            self.emit_bytes([opcode.to_byte(), variable as u8], line);
        } else {
            assert(operand_sizes(opcode) != seq![1usize]);
            self.emit_constant_op(opcode, variable, big_endian, line);
        }
    }

    /// Writes a jump instruction with a placeholder distance; the offset of
    /// that distance, to be patched once the target is known.
    pub fn emit_jump(&mut self, instruction: OpCode, line: i32) -> (offset: usize)
        ensures
            final(self).chunk.code@ == old(self).chunk.code@ + seq![
                opcode_byte(instruction),
                0xffu8,
                0xffu8,
            ],
            final(self).chunk.lines@ == old(self).chunk.lines@ + seq![line, line, line],
            offset == old(self).chunk.code@.len() + 1,
            final(self).chunk.constants@ == old(self).chunk.constants@,
            final(self).locals == old(self).locals,
            final(self).upvalues == old(self).upvalues,
            final(self).scope_depth == old(self).scope_depth,
    {
        self.emit_byte(instruction.to_byte(), line);
        self.emit_bytes([0xff, 0xff], line);
        assert(self.chunk.code@ =~= old(self).chunk.code@ + seq![opcode_byte(instruction), 0xffu8, 0xffu8]);
        assert(self.chunk.lines@ =~= old(self).chunk.lines@ + seq![line, line, line]);
        self.chunk.code.len() - 2
    }

    /// Writes a backward jump to `loop_start`: the distance from the end of
    /// the instruction back to the start. False when that distance is above
    /// the limit (the distance is then written modulo 2^16).
    pub fn emit_loop(&mut self, loop_start: usize, big_endian: bool, line: i32) -> (fits: bool)
        requires
            loop_start <= old(self).chunk.code@.len(),
            old(self).chunk.code@.len() + 3 <= usize::MAX,
        ensures
            fits == (loop_distance(old(self).chunk.code@.len() as int, loop_start as int)
                <= JUMP_SIZE_MAX),
            final(self).chunk.code@ == old(self).chunk.code@ + with_short(
                opcode_byte(OpCode::Loop),
                loop_distance(old(self).chunk.code@.len() as int, loop_start as int) as u16,
                big_endian,
            ),
            final(self).chunk.lines@ == old(self).chunk.lines@ + seq![line, line, line],
            final(self).chunk.constants@ == old(self).chunk.constants@,
            final(self).locals == old(self).locals,
            final(self).upvalues == old(self).upvalues,
            final(self).scope_depth == old(self).scope_depth,
            final(self).lambda_count == old(self).lambda_count,
            final(self).in_try_block == old(self).in_try_block,
            final(self).loop_stack == old(self).loop_stack,
            final(self).break_stack == old(self).break_stack,
            final(self).kind == old(self).kind,
    {
        self.emit_byte(OpCode::Loop.to_byte(), line);
        let offset = self.chunk.code.len() - loop_start + 2;
        let fits = offset <= JUMP_SIZE_MAX;
        let bytes = short_bytes(offset as u16, big_endian);
        self.emit_bytes(bytes, line);
        proof {
            let d = loop_distance(old(self).chunk.code@.len() as int, loop_start as int) as u16;
            assert(d == offset as u16);
            assert(self.chunk.code@ =~= old(self).chunk.code@ + with_short(opcode_byte(OpCode::Loop), d, big_endian));
            assert(self.chunk.lines@ =~= old(self).chunk.lines@ + seq![line, line, line]);
        }
        fits
    }

    /// Adds a constant; its index, or `None` when the chunk already holds
    /// as many constants as a 16-bit operand can name (the constant is
    /// added all the same).
    pub fn make_constant(&mut self, value: V) -> (r: Option<u16>)
        ensures
            final(self).chunk.constants@ == old(self).chunk.constants@.push(value),
            final(self).chunk.code@ == old(self).chunk.code@,
            final(self).chunk.lines@ == old(self).chunk.lines@,
            final(self).locals == old(self).locals,
            final(self).upvalues == old(self).upvalues,
            final(self).scope_depth == old(self).scope_depth,
            r == (if old(self).chunk.constants@.len() <= u16::MAX {
                Some(old(self).chunk.constants@.len() as u16)
            } else {
                None::<u16>
            }),
    {
        let constant = self.chunk.add_constant(value);
        if constant > 65535 {
            return None;
        }
        Some(constant as u16)
    }

    /// Leaves the scopes deeper than `scope_depth`: writes, from the last
    /// local back, a CloseUpvalue for each local there that a closure
    /// captures and a Pop for the others, and forgets those locals when
    /// `pop_locals`.
    pub fn emit_scope_end(&mut self, pop_locals: bool, scope_depth: usize, line: i32)
        requires
            forall|i: int|
                old(self).locals@.len() - scope_tail(old(self).locals@, scope_depth, old(self).locals@.len() as int)
                    <= i < old(self).locals@.len() ==> (#[trigger] old(self).locals@[i]).depth is Some,
        ensures
            final(self).chunk.code@ == old(self).chunk.code@ + scope_end_code(
                old(self).locals@,
                scope_depth,
                old(self).locals@.len() as int,
            ),
            final(self).chunk.lines@ == old(self).chunk.lines@ + Seq::new(
                scope_tail(old(self).locals@, scope_depth, old(self).locals@.len() as int),
                |i: int| line,
            ),
            final(self).locals@ == (if pop_locals {
                old(self).locals@.take(
                    old(self).locals@.len() - scope_tail(old(self).locals@, scope_depth, old(self).locals@.len() as int),
                )
            } else {
                old(self).locals@
            }),
            final(self).chunk.constants@ == old(self).chunk.constants@,
            final(self).kind == old(self).kind,
            final(self).lambda_count == old(self).lambda_count,
            final(self).in_try_block == old(self).in_try_block,
            final(self).loop_stack == old(self).loop_stack,
            final(self).break_stack == old(self).break_stack,
            final(self).upvalues == old(self).upvalues,
            final(self).scope_depth == old(self).scope_depth,
            final(self).kind == old(self).kind,
    {
        let ghost locals0 = self.locals@;
        let ghost code0 = self.chunk.code@;
        let ghost lines0 = self.chunk.lines@;
        let n = self.locals.len();
        let mut i = n;
        loop
            invariant
                self.locals@ == locals0,
                n == locals0.len(),
                i <= n,
                scope_tail(locals0, scope_depth, n as int) == (n - i) + scope_tail(locals0, scope_depth, i as int),
                code0 + scope_end_code(locals0, scope_depth, n as int) == self.chunk.code@ + scope_end_code(
                    locals0,
                    scope_depth,
                    i as int,
                ),
                self.chunk.lines@ == lines0 + Seq::new((n - i) as nat, |k: int| line),
                self.chunk.constants@ == old(self).chunk.constants@,
                self.upvalues == old(self).upvalues,
                self.scope_depth == old(self).scope_depth,
                self.kind == old(self).kind,
                self.lambda_count == old(self).lambda_count,
                self.in_try_block == old(self).in_try_block,
                self.loop_stack == old(self).loop_stack,
                self.break_stack == old(self).break_stack,
                forall|k: int|
                    n - scope_tail(locals0, scope_depth, n as int) <= k < n ==> (#[trigger] locals0[k]).depth is Some,
            ensures
                i <= n,
                scope_tail(locals0, scope_depth, n as int) == n - i,
                self.chunk.code@ == code0 + scope_end_code(locals0, scope_depth, n as int),
                self.chunk.lines@ == lines0 + Seq::new((n - i) as nat, |k: int| line),
                self.locals@ == locals0,
                self.chunk.constants@ == old(self).chunk.constants@,
                self.upvalues == old(self).upvalues,
                self.scope_depth == old(self).scope_depth,
                self.kind == old(self).kind,
                self.lambda_count == old(self).lambda_count,
                self.in_try_block == old(self).in_try_block,
                self.loop_stack == old(self).loop_stack,
                self.break_stack == old(self).break_stack,
            decreases i,
        {
            if i == 0 {
                assert(self.chunk.code@ + scope_end_code(locals0, scope_depth, 0) =~= self.chunk.code@);
                break;
            }
            let stop = match self.locals[i - 1].depth {
                Some(d) => d <= scope_depth,
                None => false,
            };
            if stop {
                assert(self.chunk.code@ + scope_end_code(locals0, scope_depth, i as int) =~= self.chunk.code@);
                break;
            }
            let op = if self.locals[i - 1].is_captured {
                OpCode::CloseUpvalue
            } else {
                OpCode::Pop
            };
            let ghost before = self.chunk.code@;
            let ghost lines_before = self.chunk.lines@;
            self.chunk.write(op.to_byte(), line);
            proof {
                let rest = scope_end_code(locals0, scope_depth, i - 1);
                assert(scope_end_code(locals0, scope_depth, i as int) == seq![opcode_byte(op)] + rest);
                assert(before + (seq![opcode_byte(op)] + rest) =~= self.chunk.code@ + rest);
                assert(self.chunk.lines@ =~= lines0 + Seq::new((n - (i - 1)) as nat, |k: int| line));
            }
            i = i - 1;
        }
        if pop_locals {
            self.locals.truncate(i);
        }
    }

    /// Leaves the innermost scope, forgetting its locals.
    pub fn end_scope(&mut self, line: i32)
        requires
            old(self).scope_depth > 0,
            forall|i: int|
                old(self).locals@.len() - scope_tail(
                    old(self).locals@,
                    (old(self).scope_depth - 1) as usize,
                    old(self).locals@.len() as int,
                ) <= i < old(self).locals@.len() ==> (#[trigger] old(self).locals@[i]).depth is Some,
        ensures
            final(self).scope_depth == old(self).scope_depth - 1,
            final(self).chunk.code@ == old(self).chunk.code@ + scope_end_code(
                old(self).locals@,
                final(self).scope_depth,
                old(self).locals@.len() as int,
            ),
            final(self).chunk.lines@ == old(self).chunk.lines@ + Seq::new(
                scope_tail(old(self).locals@, final(self).scope_depth, old(self).locals@.len() as int),
                |i: int| line,
            ),
            final(self).locals@ == old(self).locals@.take(
                old(self).locals@.len() - scope_tail(
                    old(self).locals@,
                    final(self).scope_depth,
                    old(self).locals@.len() as int,
                ),
            ),
            final(self).chunk.constants@ == old(self).chunk.constants@,
            final(self).kind == old(self).kind,
            final(self).lambda_count == old(self).lambda_count,
            final(self).in_try_block == old(self).in_try_block,
            final(self).loop_stack == old(self).loop_stack,
            final(self).break_stack == old(self).break_stack,
            final(self).upvalues == old(self).upvalues,
    {
        self.scope_depth = self.scope_depth - 1;
        let depth = self.scope_depth;
        self.emit_scope_end(true, depth, line);
    }

    /// Declares a local named after `name` in the current scope; what is
    /// to be reported, in order: a report for each local of the same name
    /// already in this scope, then one if the function has no room for
    /// another local. At the outermost scope variables are globals and
    /// nothing happens.
    pub fn declare_variable(&mut self, name: &Token) -> (reports: Vec<String>)
        requires
            old(self).wf(),
        ensures
            same_frame(*old(self), *final(self)),
            final(self).wf(),
            old(self).scope_depth == 0 ==> reports@.len() == 0 && final(self).locals == old(self).locals,
            old(self).scope_depth > 0 ==> messages_view(reports@) == Seq::new(
                same_scope_duplicates(
                    old(self).locals@,
                    name.source@,
                    old(self).scope_depth,
                    old(self).locals@.len() as int,
                ),
                |i: int| duplicate_message(),
            ) + (if old(self).locals@.len() < LOCALS_MAX {
                Seq::<Seq<char>>::empty()
            } else {
                seq![too_many_locals_message()]
            }),
            old(self).scope_depth > 0 && old(self).locals@.len() < LOCALS_MAX ==> final(self).locals@.drop_last()
                == old(self).locals@ && final(self).locals@.last().name@ == name.source@
                && final(self).locals@.last().depth is None && !final(self).locals@.last().is_captured,
            old(self).scope_depth > 0 && old(self).locals@.len() >= LOCALS_MAX ==> final(self).locals
                == old(self).locals,
            final(self).upvalues == old(self).upvalues,
            final(self).chunk == old(self).chunk,
            final(self).scope_depth == old(self).scope_depth,
    {
        let mut reports: Vec<String> = Vec::new();
        let scope_depth = self.scope_depth;
        if scope_depth == 0 {
            return reports;
        }
        let ghost locals0 = self.locals@;
        let n = self.locals.len();
        let mut i = n;
        loop
            invariant
                self.locals@ == locals0,
                n == locals0.len(),
                i <= n,
                scope_depth == self.scope_depth,
                same_scope_duplicates(locals0, name.source@, scope_depth, n as int) == reports@.len()
                    + same_scope_duplicates(locals0, name.source@, scope_depth, i as int),
                messages_view(reports@) == Seq::new(reports@.len(), |k: int| duplicate_message()),
            ensures
                same_scope_duplicates(locals0, name.source@, scope_depth, n as int) == reports@.len(),
                messages_view(reports@) == Seq::new(reports@.len(), |k: int| duplicate_message()),
            decreases i,
        {
            if i == 0 {
                break;
            }
            let stop = match self.locals[i - 1].depth {
                Some(d) => d < scope_depth,
                None => false,
            };
            if stop {
                break;
            }
            if self.locals[i - 1].name == name.source {
                let ghost before = reports@;
                reports.push("Variable with this name already declared in this scope.".to_owned());
                proof {
                    assert(messages_view(reports@) =~= messages_view(before).push(duplicate_message()));
                    assert(messages_view(reports@) =~= Seq::new(reports@.len(), |k: int| duplicate_message()));
                }
            }
            i = i - 1;
        }
        if !self.add_local(name) {
            let ghost before = reports@;
            reports.push("Too many variables in function.".to_owned());
            assert(messages_view(reports@) =~= messages_view(before) + seq![too_many_locals_message()]);
        }
        reports
    }

    /// Writes, at `offset` and in the given byte order, the distance from the
    /// jump operand there to the end of the code; fails when the distance is
    /// above the limit (a distance equal to the limit is written modulo 2^16).
    pub fn patch_jump(&mut self, offset: usize, big_endian: bool) -> (r: Result<(), CompilerError>)
        requires
            offset + 2 <= old(self).chunk.code@.len(),
        ensures
            final(self).kind == old(self).kind,
            final(self).locals == old(self).locals,
            final(self).upvalues == old(self).upvalues,
            final(self).scope_depth == old(self).scope_depth,
            final(self).lambda_count == old(self).lambda_count,
            final(self).in_try_block == old(self).in_try_block,
            final(self).loop_stack == old(self).loop_stack,
            final(self).break_stack == old(self).break_stack,
            final(self).chunk.lines == old(self).chunk.lines,
            final(self).chunk.constants == old(self).chunk.constants,
            r is Ok <==> jump_distance(old(self).chunk.code@.len() as int, offset as int) <= JUMP_SIZE_MAX,
            r is Err ==> r == Err::<(), CompilerError>(CompilerError::JumpTooLarge) && final(self).chunk.code == old(self).chunk.code,
            r is Ok ==> final(self).chunk.code@ == patch_bytes(
                old(self).chunk.code@,
                offset as int,
                jump_distance(old(self).chunk.code@.len() as int, offset as int) as u16,
                big_endian,
            ),
    {
        let jump = self.chunk.code.len() - offset - 2;
        if jump > JUMP_SIZE_MAX {
            return Err(CompilerError::JumpTooLarge);
        }
        let bytes = short_bytes(jump as u16, big_endian);
        self.chunk.code.set(offset, bytes[0]);
        self.chunk.code.set(offset + 1, bytes[1]);
        proof {
            let v = jump_distance(old(self).chunk.code@.len() as int, offset as int) as u16;
            assert(v == jump as u16);
            assert(self.chunk.code@ =~= patch_bytes(old(self).chunk.code@, offset as int, v, big_endian));
        }
        Ok(())
    }

    /// Enters a loop whose body starts at the end of the code.
    pub fn push_loop(&mut self)
        ensures
            final(self).loop_stack@ == old(self).loop_stack@.push((old(self).chunk.code@.len() as usize, old(self).scope_depth)),
            final(self).break_stack@.len() == old(self).break_stack@.len() + 1,
            final(self).break_stack@.drop_last() == old(self).break_stack@,
            final(self).break_stack@.last()@ == Seq::<usize>::empty(),
            final(self).chunk == old(self).chunk,
            final(self).kind == old(self).kind,
            final(self).locals == old(self).locals,
            final(self).upvalues == old(self).upvalues,
            final(self).scope_depth == old(self).scope_depth,
            final(self).lambda_count == old(self).lambda_count,
            final(self).in_try_block == old(self).in_try_block,
    {
        let loop_start = self.chunk.code.len();
        self.loop_stack.push((loop_start, self.scope_depth));
        self.break_stack.push(Vec::new());
        assert(self.break_stack@.drop_last() =~= old(self).break_stack@);
    }

    /// Records a break whose jump operand is at `pos` in the innermost loop;
    /// fails outside any loop.
    pub fn push_break(&mut self, pos: usize) -> (r: Result<(), CompilerError>)
        ensures
            r is Ok <==> old(self).break_stack@.len() > 0,
            r is Err ==> r == Err::<(), CompilerError>(CompilerError::InvalidControlStatement)
                && final(self).break_stack == old(self).break_stack,
            r is Ok ==> final(self).break_stack@.len() == old(self).break_stack@.len()
                && final(self).break_stack@.drop_last() == old(self).break_stack@.drop_last()
                && final(self).break_stack@.last()@ == old(self).break_stack@.last()@.push(pos),
            final(self).loop_stack == old(self).loop_stack,
            final(self).chunk == old(self).chunk,
    {
        if self.break_stack.len() == 0 {
            return Err(CompilerError::InvalidControlStatement);
        }
        match self.break_stack.pop() {
            None => Err(CompilerError::InvalidControlStatement),
            Some(mut breaks) => {
                breaks.push(pos);
                self.break_stack.push(breaks);
                assert(self.break_stack@.drop_last() =~= old(self).break_stack@.drop_last());
                Ok(())
            },
        }
    }

    /// Leaves the innermost loop, patching each of its breaks, in the given
    /// byte order, to jump to the end of the code; stops at the first break
    /// too far away.
    pub fn pop_loop(&mut self, big_endian: bool) -> (r: Result<(), CompilerError>)
        requires
            old(self).break_stack@.len() > 0,
            forall|k: int| 0 <= k < old(self).break_stack@.last()@.len() ==> #[trigger] old(self).break_stack@.last()@[k] + 2 <= old(self).chunk.code@.len(),
        ensures
            final(self).loop_stack@ == (if old(self).loop_stack@.len() > 0 {
                old(self).loop_stack@.drop_last()
            } else {
                old(self).loop_stack@
            }),
            final(self).break_stack@ == old(self).break_stack@.drop_last(),
            final(self).chunk.code@.len() == old(self).chunk.code@.len(),
            final(self).kind == old(self).kind,
            final(self).locals == old(self).locals,
            final(self).upvalues == old(self).upvalues,
            final(self).scope_depth == old(self).scope_depth,
            final(self).lambda_count == old(self).lambda_count,
            final(self).in_try_block == old(self).in_try_block,
            final(self).chunk.lines == old(self).chunk.lines,
            final(self).chunk.constants == old(self).chunk.constants,
            r is Ok <==> forall|k: int| 0 <= k < old(self).break_stack@.last()@.len() ==> jump_distance(
                old(self).chunk.code@.len() as int,
                #[trigger] old(self).break_stack@.last()@[k] as int,
            ) <= JUMP_SIZE_MAX,
            r is Err ==> r == Err::<(), CompilerError>(CompilerError::JumpTooLarge),
            r is Ok ==> final(self).chunk.code@ == patch_each(
                old(self).chunk.code@,
                old(self).break_stack@.last()@,
                big_endian,
            ),
    {
        self.loop_stack.pop();
        let break_points = self.break_stack.pop().unwrap();
        let ghost code0 = self.chunk.code@;
        assert(break_points@ == old(self).break_stack@.last()@);
        assert forall|k: int| 0 <= k < break_points@.len() implies #[trigger] break_points@[k] + 2 <= code0.len() by {
            assert(old(self).break_stack@.last()@[k] + 2 <= old(self).chunk.code@.len());
        }
        assert(break_points@.take(0) =~= Seq::<usize>::empty());
        let mut i: usize = 0;
        while i < break_points.len()
            invariant
                i <= break_points@.len(),
                break_points@ == old(self).break_stack@.last()@,
                code0 == old(self).chunk.code@,
                self.chunk.code@.len() == code0.len(),
                self.loop_stack@ == (if old(self).loop_stack@.len() > 0 {
                    old(self).loop_stack@.drop_last()
                } else {
                    old(self).loop_stack@
                }),
                self.break_stack@ == old(self).break_stack@.drop_last(),
                self.kind == old(self).kind,
                self.locals == old(self).locals,
                self.upvalues == old(self).upvalues,
                self.scope_depth == old(self).scope_depth,
                self.lambda_count == old(self).lambda_count,
                self.in_try_block == old(self).in_try_block,
                self.chunk.lines == old(self).chunk.lines,
                self.chunk.constants == old(self).chunk.constants,
                forall|k: int| 0 <= k < break_points@.len() ==> #[trigger] break_points@[k] + 2 <= code0.len(),
                forall|k: int| 0 <= k < i ==> jump_distance(code0.len() as int, #[trigger] break_points@[k] as int) <= JUMP_SIZE_MAX,
                self.chunk.code@ == patch_each(code0, break_points@.take(i as int), big_endian),
            decreases break_points@.len() - i,
        {
            let bp = break_points[i];
            let r = self.patch_jump(bp, big_endian);
            if r.is_err() {
                return Err(CompilerError::JumpTooLarge);
            }
            proof {
                assert(break_points@.take((i + 1) as int).drop_last() =~= break_points@.take(i as int));
            }
            i = i + 1;
        }
        assert(break_points@.take(i as int) =~= break_points@);
        Ok(())
    }

    /// The innermost loop: where its body starts and its scope depth.
    pub fn current_loop_header(&self) -> (h: Option<(usize, usize)>)
        ensures
            h == (if self.loop_stack@.len() > 0 {
                Some(self.loop_stack@.last())
            } else {
                None::<(usize, usize)>
            }),
    {
        if self.loop_stack.len() > 0 {
            Some(self.loop_stack[self.loop_stack.len() - 1])
        } else {
            None
        }
    }
}

/// Whether `after` and `r` are what capturing `name` from the innermost
/// enclosing compiler that has it as a local leaves: that local marked as
/// captured, the capture passed as a captured variable through each
/// compiler after it, and the index by which the last one captures it.
pub open spec fn captured_through<V>(
    cs: Seq<Compiler<V>>,
    after: Seq<Compiler<V>>,
    name: Seq<char>,
    r: Result<Option<u8>, CompilerError>,
) -> bool {
    let e = enclosing_with_local(cs, name, cs.len() - 2).unwrap();
    let slot = resolved_slot(cs[e], name).unwrap();
    &&& after.len() == cs.len()
    &&& forall|i: int| 0 <= i < e ==> after[i] == cs[i]
    &&& same_except_locals(after[e], cs[e])
    &&& after[e].locals@ == cs[e].locals@.update(slot, captured(cs[e].locals@[slot]))
    &&& forall|c: int|
        e < c < cs.len() ==> same_except_upvalues(#[trigger] after[c], cs[c]) && after[c].upvalues@
            == captures_after(cs, e, slot, c)
    &&& r == match capture_index(cs, e, slot, cs.len() - 1) {
        Some(i) => Ok::<Option<u8>, CompilerError>(Some(i)),
        None => Err::<Option<u8>, CompilerError>(CompilerError::TooManyClosureVars),
    }
}

proof fn lemma_capture_index_stays_none<V>(cs: Seq<Compiler<V>>, e: int, slot: int, k: int, c: int)
    requires
        e < k <= c,
        capture_index(cs, e, slot, k) is None,
    ensures
        capture_index(cs, e, slot, c) is None,
    decreases c - k,
{
    if c > k {
        lemma_capture_index_stays_none(cs, e, slot, k, c - 1);
    }
}

/// Resolves `name` as a variable that the innermost function (the last
/// compiler) captures from an enclosing one: the innermost enclosing
/// compiler where it is an initialised local has that local marked as
/// captured, and each compiler from the next one inwards records the
/// capture among its captured variables. The index by which the innermost
/// function captures it; `None` when no enclosing compiler has it; an
/// error with fewer than two compilers, or when a function has no room
/// for another captured variable.
#[verifier::rlimit(100)]
pub fn resolve_upvalue<V>(compilers: &mut Vec<Compiler<V>>, name: &Token) -> (r: Result<
    Option<u8>,
    CompilerError,
>)
    requires
        forall|i: int| 0 <= i < old(compilers)@.len() ==> (#[trigger] old(compilers)@[i]).wf(),
    ensures
        final(compilers)@.len() == old(compilers)@.len(),
        forall|i: int| 0 <= i < final(compilers)@.len() ==> (#[trigger] final(compilers)@[i]).wf(),
        old(compilers)@.len() < 2 ==> r == Err::<Option<u8>, CompilerError>(
            CompilerError::InvalidCompilerKind,
        ) && final(compilers)@ == old(compilers)@,
        old(compilers)@.len() >= 2 && enclosing_with_local(
            old(compilers)@,
            name.source@,
            old(compilers)@.len() - 2,
        ) is None ==> r == Ok::<Option<u8>, CompilerError>(None) && final(compilers)@ == old(
            compilers,
        )@,
        old(compilers)@.len() >= 2 && enclosing_with_local(
            old(compilers)@,
            name.source@,
            old(compilers)@.len() - 2,
        ) is Some ==> captured_through(old(compilers)@, final(compilers)@, name.source@, r),
{
    let ghost cs = compilers@;
    let n = compilers.len();
    if n < 2 {
        return Err(CompilerError::InvalidCompilerKind);
    }
    let mut e = n - 1;
    while e > 0
        invariant
            compilers@ == cs,
            cs == old(compilers)@,
            n == cs.len(),
            n >= 2,
            e <= n - 1,
            forall|i: int| 0 <= i < cs.len() ==> (#[trigger] cs[i]).wf(),
            enclosing_with_local(cs, name.source@, n - 2) == enclosing_with_local(
                cs,
                name.source@,
                e - 1,
            ),
        decreases e,
    {
        e = e - 1;
        assert(cs[e as int].wf());
        proof {
            lemma_find_last_local_bounds(cs[e as int].locals@, name.source@, cs[e as int].locals@.len() as int);
        }
        match compilers[e].resolve_local(name) {
            Ok(slot) => {
                proof {
                    assert(resolved_slot(cs[e as int], name.source@) == Some(slot as int));
                    assert(enclosing_with_local(cs, name.source@, n - 2) == Some(e as int));
                }
                let mut c = Compiler::new(FunctionKind::Script);
                compilers.set_and_swap(e, &mut c);
                c.mark_captured(slot as usize);
                compilers.set_and_swap(e, &mut c);
                let mut index = slot;
                let mut k = e + 1;
                while k < n
                    invariant
                        compilers@.len() == n,
                        cs == old(compilers)@,
                        n == cs.len(),
                        n >= 2,
                        e < k <= n,
                        enclosing_with_local(cs, name.source@, n - 2) == Some(e as int),
                        resolved_slot(cs[e as int], name.source@) == Some(slot as int),
                        forall|i: int| 0 <= i < cs.len() ==> (#[trigger] cs[i]).wf(),
                        forall|i: int| 0 <= i < n ==> (#[trigger] compilers@[i]).wf(),
                        forall|i: int| 0 <= i < e ==> compilers@[i] == cs[i],
                        same_except_locals(compilers@[e as int], cs[e as int]),
                        compilers@[e as int].locals@ == cs[e as int].locals@.update(
                            slot as int,
                            captured(cs[e as int].locals@[slot as int]),
                        ),
                        forall|c: int|
                            e < c < k ==> same_except_upvalues(#[trigger] compilers@[c], cs[c])
                                && compilers@[c].upvalues@ == captures_after(cs, e as int, slot as int, c),
                        forall|c: int| k <= c < n ==> compilers@[c] == cs[c],
                        capture_index(cs, e as int, slot as int, k - 1) == Some(index),
                    decreases n - k,
                {
                    let mut c = Compiler::new(FunctionKind::Script);
                    compilers.set_and_swap(k, &mut c);
                    let added = c.add_upvalue(index, k == e + 1);
                    compilers.set_and_swap(k, &mut c);
                    match added {
                        Ok(i) => {
                            index = i;
                        },
                        Err(err) => {
                            proof {
                                assert(capture_index(cs, e as int, slot as int, k as int) is None);
                                assert forall|c: int| k < c < n implies #[trigger] captures_after(
                                    cs,
                                    e as int,
                                    slot as int,
                                    c,
                                ) == cs[c].upvalues@ by {
                                    lemma_capture_index_stays_none(cs, e as int, slot as int, k as int, c - 1);
                                }
                                lemma_capture_index_stays_none(cs, e as int, slot as int, k as int, n - 1);
                            }
                            return Err(err);
                        },
                    }
                    k = k + 1;
                }
                return Ok(Some(index));
            },
            Err(_) => {},
        }
    }
    Ok(None)
}

proof fn lemma_find_upvalue_after_push(ups: Seq<Upvalue>, u: Upvalue)
    requires
        find_upvalue(ups, u) is None,
    ensures
        find_upvalue(ups.push(u), u) == Some(ups.len() as int),
{
    let p = ups.push(u);
    assert(p[ups.len() as int] == u);
    assert forall|j: int| 0 <= j < ups.len() implies p[j] != u by {
        assert(p[j] == ups[j]);
    }
    assert(0 <= ups.len() < p.len() && p[ups.len() as int] == u && forall|j: int|
        0 <= j < ups.len() ==> p[j] != u);
    let i = choose|i: int| 0 <= i < p.len() && p[i] == u && forall|j: int| 0 <= j < i ==> p[j] != u;
    if i < ups.len() {
        assert(p[i] == ups[i]);
    }
}

proof fn lemma_upvalue_added_again(ups: Seq<Upvalue>, u: Upvalue)
    requires
        upvalue_added(ups, u).1 is Some,
    ensures
        upvalue_added(upvalue_added(ups, u).0, u) == upvalue_added(ups, u),
{
    if find_upvalue(ups, u) is None {
        lemma_find_upvalue_after_push(ups, u);
    }
}

proof fn lemma_find_last_local_same_names(a: Seq<Local>, b: Seq<Local>, name: Seq<char>, n: int)
    requires
        a.len() == b.len(),
        n <= a.len(),
        forall|i: int| 0 <= i < a.len() ==> (#[trigger] a[i]).name == b[i].name,
    ensures
        find_last_local(a, name, n) == find_last_local(b, name, n),
    decreases n,
{
    if n > 0 {
        lemma_find_last_local_same_names(a, b, name, n - 1);
    }
}

proof fn lemma_enclosing_same<V>(cs: Seq<Compiler<V>>, after: Seq<Compiler<V>>, name: Seq<char>, k: int)
    requires
        after.len() == cs.len(),
        k < cs.len(),
        forall|c: int| 0 <= c <= k ==> resolved_slot(#[trigger] after[c], name) == resolved_slot(cs[c], name),
    ensures
        enclosing_with_local(after, name, k) == enclosing_with_local(cs, name, k),
    decreases k + 1,
{
    if k >= 0 {
        assert(resolved_slot(after[k], name) == resolved_slot(cs[k], name));
        lemma_enclosing_same(cs, after, name, k - 1);
    }
}

proof fn lemma_capture_index_again<V>(cs: Seq<Compiler<V>>, after: Seq<Compiler<V>>, e: int, slot: int, c: int)
    requires
        0 <= e <= c < cs.len(),
        after.len() == cs.len(),
        forall|d: int| e < d < cs.len() ==> (#[trigger] after[d]).upvalues@ == captures_after(cs, e, slot, d),
        capture_index(cs, e, slot, cs.len() - 1) is Some,
    ensures
        capture_index(after, e, slot, c) == capture_index(cs, e, slot, c),
        capture_index(cs, e, slot, c) is Some,
    decreases c - e,
{
    if c > e {
        lemma_capture_index_again(cs, after, e, slot, c - 1);
        if capture_index(cs, e, slot, c) is None && c < cs.len() - 1 {
            lemma_capture_index_stays_none(cs, e, slot, c, cs.len() - 1);
        }
        let prev = capture_index(cs, e, slot, c - 1).unwrap();
        let u = Upvalue { index: prev, is_local: c == e + 1 };
        assert(after[c].upvalues@ == upvalue_added(cs[c].upvalues@, u).0);
        lemma_upvalue_added_again(cs[c].upvalues@, u);
    }
}

/// Capturing a variable twice is capturing it once: from the compilers a
/// successful capture of `name` left, resolving `name` again finds the
/// same enclosing compiler and the same index, and changes nothing.
pub proof fn lemma_resolve_upvalue_idempotent<V>(
    cs: Seq<Compiler<V>>,
    after: Seq<Compiler<V>>,
    name: Seq<char>,
    r: Result<Option<u8>, CompilerError>,
)
    requires
        cs.len() >= 2,
        enclosing_with_local(cs, name, cs.len() - 2) is Some,
        captured_through(cs, after, name, r),
        r is Ok,
    ensures
        enclosing_with_local(after, name, after.len() - 2) == enclosing_with_local(cs, name, cs.len() - 2),
        captured_through(after, after, name, r),
{
    let n = cs.len() as int;
    let e = enclosing_with_local(cs, name, n - 2).unwrap();
    lemma_enclosing_bounds(cs, name, n - 2);
    let slot = resolved_slot(cs[e], name).unwrap();
    lemma_find_last_local_bounds(cs[e].locals@, name, cs[e].locals@.len() as int);
    assert forall|c: int| 0 <= c <= n - 2 implies resolved_slot(#[trigger] after[c], name) == resolved_slot(
        cs[c],
        name,
    ) by {
        if c == e {
            let a = after[e].locals@;
            let b = cs[e].locals@;
            assert forall|i: int| 0 <= i < a.len() implies (#[trigger] a[i]).name == b[i].name by {}
            lemma_find_last_local_same_names(a, b, name, a.len() as int);
        } else if c > e {
            assert(same_except_upvalues(after[c], cs[c]));
        }
    }
    lemma_enclosing_same(cs, after, name, n - 2);
    let a = after[e].locals@;
    assert(a.update(slot, captured(a[slot])) =~= a);
    lemma_capture_index_again(cs, after, e, slot, n - 1);
    assert forall|c: int| e < c < n implies same_except_upvalues(#[trigger] after[c], after[c]) && after[c].upvalues@
        == captures_after(after, e, slot, c) by {
        lemma_capture_index_again(cs, after, e, slot, c - 1);
        lemma_capture_index_again(cs, after, e, slot, c);
        let prev = capture_index(cs, e, slot, c - 1).unwrap();
        let u = Upvalue { index: prev, is_local: c == e + 1 };
        lemma_upvalue_added_again(cs[c].upvalues@, u);
    }
}

/// The enclosing function found to hold a variable is one searched, and
/// resolving the variable there succeeds.
pub proof fn lemma_enclosing_bounds<V>(cs: Seq<Compiler<V>>, name: Seq<char>, k: int)
    ensures
        enclosing_with_local(cs, name, k) matches Some(e) ==> 0 <= e <= k && resolved_slot(cs[e], name) is Some,
    decreases k + 1,
{
    if k >= 0 && resolved_slot(cs[k], name) is None {
        lemma_enclosing_bounds(cs, name, k - 1);
    }
}

} // verus!
