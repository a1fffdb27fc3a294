//! Decoding of bytecode for listings: what each instruction is called, the
//! operands that follow it, and where the next one starts.

use vstd::prelude::*;

use crate::chunk::{lemma_opcode_byte_roundtrip, opcode_byte, operand_sizes, Chunk, OpCode, NUM_OPCODES};
use crate::compiler::{jump_distance, loop_distance, patch_bytes, u16_bytes, with_short};

verus! {

/// The operands that follow an instruction, decoded.
#[derive(Clone, Copy, Debug, PartialEq, Eq, Structural)]
pub enum Operands {
    /// No operand.
    Simple,
    /// A one-byte slot or count.
    Byte(u8),
    /// The index of a constant.
    Constant(u16),
    /// The offset a jump lands on.
    Jump(isize),
    /// The constant naming a method and the number of arguments.
    Invoke(u16, u8),
    /// The function constant of a closure; its captures follow.
    Closure(u16),
}

/// An instruction decoded at an offset of a chunk.
#[derive(Clone, Copy, Debug)]
pub struct Instruction {
    pub offset: usize,
    pub op: OpCode,
    /// The source line of the instruction.
    pub line: i32,
    /// Whether the previous byte is on the same source line.
    pub same_line: bool,
    pub operands: Operands,
    /// Where the next instruction starts; for a closure, where its
    /// captures start.
    pub next: usize,
}

/// A variable a closure captures, as listed after the instruction.
#[derive(Clone, Copy, Debug, PartialEq, Eq, Structural)]
pub struct Capture {
    pub offset: usize,
    pub is_local: bool,
    pub index: u8,
}

/// The name under which an instruction is listed.
pub open spec fn instruction_name_text(op: OpCode) -> Seq<char> {
    match op {
        OpCode::Constant => "CONSTANT"@,
        OpCode::Nil => "NIL"@,
        OpCode::True => "TRUE"@,
        OpCode::False => "FALSE"@,
        OpCode::Pop => "POP"@,
        OpCode::CopyTop => "COPY_TOP"@,
        OpCode::GetLocal => "GET_LOCAL"@,
        OpCode::SetLocal => "SET_LOCAL"@,
        OpCode::GetGlobal => "GET_GLOBAL"@,
        OpCode::DefineGlobal => "DEFINE_GLOBAL"@,
        OpCode::SetGlobal => "SET_GLOBAL"@,
        OpCode::GetUpvalue => "GET_UPVALUE"@,
        OpCode::SetUpvalue => "SET_UPVALUE"@,
        OpCode::GetProperty => "GET_PROPERTY"@,
        OpCode::SetProperty => "SET_PROPERTY"@,
        OpCode::GetClass => "GET_CLASS"@,
        OpCode::GetSuper => "GET_SUPER"@,
        OpCode::Equal => "EQUAL"@,
        OpCode::Greater => "GREATER"@,
        OpCode::Less => "LESS"@,
        OpCode::Add => "ADD"@,
        OpCode::Subtract => "SUBTRACT"@,
        OpCode::Multiply => "MULTIPLY"@,
        OpCode::Divide => "DIVIDE"@,
        OpCode::Not => "NOT"@,
        OpCode::Negate => "NEGATE"@,
        OpCode::FormatString => "FORMAT_STRING"@,
        OpCode::BuildHashMap => "BUILD_HASH_MAP"@,
        OpCode::BuildRange => "BUILD_RANGE"@,
        OpCode::BuildString => "BUILD_STRING"@,
        OpCode::BuildTuple => "BUILD_TUPLE"@,
        OpCode::BuildVec => "BUILD_VEC"@,
        OpCode::IterNext => "ITER_NEXT"@,
        OpCode::Jump => "JUMP"@,
        OpCode::JumpIfFalse => "JUMP_IF_FALSE"@,
        OpCode::JumpIfSentinel => "JUMP_IF_SENTINEL"@,
        OpCode::Loop => "LOOP"@,
        OpCode::Call => "CALL"@,
        OpCode::Invoke => "INVOKE"@,
        OpCode::Construct => "CONSTRUCT"@,
        OpCode::SuperInvoke => "SUPER_INVOKE"@,
        OpCode::Closure => "CLOSURE"@,
        OpCode::CloseUpvalue => "CLOSE_UPVALUE"@,
        OpCode::Return => "RETURN"@,
        OpCode::DeclareClass => "DECLARE_CLASS"@,
        OpCode::DefineClass => "DEFINE_CLASS"@,
        OpCode::Inherit => "INHERIT"@,
        OpCode::Method => "METHOD"@,
        OpCode::StaticMethod => "STATIC_METHOD"@,
        OpCode::StartImport => "START_IMPORT"@,
        OpCode::FinishImport => "FINISH_IMPORT"@,
    }
}

/// The name under which an instruction is listed.
pub fn instruction_name(op: OpCode) -> (s: &'static str)
    ensures
        s@ == instruction_name_text(op),
{
    match op {
        OpCode::Constant => "CONSTANT",
        OpCode::Nil => "NIL",
        OpCode::True => "TRUE",
        OpCode::False => "FALSE",
        OpCode::Pop => "POP",
        OpCode::CopyTop => "COPY_TOP",
        OpCode::GetLocal => "GET_LOCAL",
        OpCode::SetLocal => "SET_LOCAL",
        OpCode::GetGlobal => "GET_GLOBAL",
        OpCode::DefineGlobal => "DEFINE_GLOBAL",
        OpCode::SetGlobal => "SET_GLOBAL",
        OpCode::GetUpvalue => "GET_UPVALUE",
        OpCode::SetUpvalue => "SET_UPVALUE",
        OpCode::GetProperty => "GET_PROPERTY",
        OpCode::SetProperty => "SET_PROPERTY",
        OpCode::GetClass => "GET_CLASS",
        OpCode::GetSuper => "GET_SUPER",
        OpCode::Equal => "EQUAL",
        OpCode::Greater => "GREATER",
        OpCode::Less => "LESS",
        OpCode::Add => "ADD",
        OpCode::Subtract => "SUBTRACT",
        OpCode::Multiply => "MULTIPLY",
        OpCode::Divide => "DIVIDE",
        OpCode::Not => "NOT",
        OpCode::Negate => "NEGATE",
        OpCode::FormatString => "FORMAT_STRING",
        OpCode::BuildHashMap => "BUILD_HASH_MAP",
        OpCode::BuildRange => "BUILD_RANGE",
        OpCode::BuildString => "BUILD_STRING",
        OpCode::BuildTuple => "BUILD_TUPLE",
        OpCode::BuildVec => "BUILD_VEC",
        OpCode::IterNext => "ITER_NEXT",
        OpCode::Jump => "JUMP",
        OpCode::JumpIfFalse => "JUMP_IF_FALSE",
        OpCode::JumpIfSentinel => "JUMP_IF_SENTINEL",
        OpCode::Loop => "LOOP",
        OpCode::Call => "CALL",
        OpCode::Invoke => "INVOKE",
        OpCode::Construct => "CONSTRUCT",
        OpCode::SuperInvoke => "SUPER_INVOKE",
        OpCode::Closure => "CLOSURE",
        OpCode::CloseUpvalue => "CLOSE_UPVALUE",
        OpCode::Return => "RETURN",
        OpCode::DeclareClass => "DECLARE_CLASS",
        OpCode::DefineClass => "DEFINE_CLASS",
        OpCode::Inherit => "INHERIT",
        OpCode::Method => "METHOD",
        OpCode::StaticMethod => "STATIC_METHOD",
        OpCode::StartImport => "START_IMPORT",
        OpCode::FinishImport => "FINISH_IMPORT",
    }
}

/// The 16-bit value of the two bytes at `at`, least significant first
/// unless `big_endian`.
pub open spec fn read_u16(code: Seq<u8>, at: int, big_endian: bool) -> u16 {
    if big_endian {
        (code[at] as int * 256 + code[at + 1] as int) as u16
    } else {
        (code[at] as int + code[at + 1] as int * 256) as u16
    }
}


/// The number of operand bytes an instruction is listed with (for a
/// closure, those before its captures).
pub open spec fn operand_width(op: OpCode) -> int {
    match op {
        OpCode::Invoke | OpCode::SuperInvoke => 3,
        OpCode::Constant | OpCode::GetGlobal | OpCode::DefineGlobal | OpCode::SetGlobal
        | OpCode::GetProperty | OpCode::SetProperty | OpCode::GetSuper | OpCode::DeclareClass
        | OpCode::Method | OpCode::StaticMethod | OpCode::StartImport | OpCode::Jump
        | OpCode::JumpIfFalse | OpCode::JumpIfSentinel | OpCode::Loop | OpCode::Closure => 2,
        OpCode::GetLocal | OpCode::SetLocal | OpCode::GetUpvalue | OpCode::SetUpvalue
        | OpCode::BuildHashMap | OpCode::BuildString | OpCode::BuildTuple | OpCode::BuildVec
        | OpCode::Call | OpCode::Construct => 1,
        _ => 0,
    }
}

/// The operands of instruction `op` at `offset` of `code`, its 16-bit
/// operands read in the given byte order.
pub open spec fn decoded_operands(op: OpCode, code: Seq<u8>, offset: int, big_endian: bool) -> Operands {
    match op {
        OpCode::Constant | OpCode::GetGlobal | OpCode::DefineGlobal | OpCode::SetGlobal
        | OpCode::GetProperty | OpCode::SetProperty | OpCode::GetSuper | OpCode::DeclareClass
        | OpCode::Method | OpCode::StaticMethod | OpCode::StartImport => Operands::Constant(
            read_u16(code, offset + 1, big_endian),
        ),
        OpCode::GetLocal | OpCode::SetLocal | OpCode::GetUpvalue | OpCode::SetUpvalue
        | OpCode::BuildHashMap | OpCode::BuildString | OpCode::BuildTuple | OpCode::BuildVec
        | OpCode::Call | OpCode::Construct => Operands::Byte(code[offset + 1]),
        OpCode::Jump | OpCode::JumpIfFalse | OpCode::JumpIfSentinel => Operands::Jump(
            (offset + 3 + read_u16(code, offset + 1, big_endian)) as isize,
        ),
        OpCode::Loop => Operands::Jump((offset + 3 - read_u16(code, offset + 1, big_endian)) as isize),
        OpCode::Invoke | OpCode::SuperInvoke => Operands::Invoke(
            read_u16(code, offset + 1, big_endian),
            code[offset + 3],
        ),
        OpCode::Closure => Operands::Closure(read_u16(code, offset + 1, big_endian)),
        _ => Operands::Simple,
    }
}

/// The 16-bit operand that starts right after the instruction at `offset`,
/// read in the given byte order: what `u16::from_ne_bytes` gives on a
/// machine of that order.
fn read_short(code: &Vec<u8>, offset: usize, big_endian: bool) -> (v: u16)
    requires
        offset + 2 < code.len(),
    ensures
        v == read_u16(code@, offset + 1, big_endian),
{
    let first = code[offset + 1] as u16;
    let second = code[offset + 2] as u16;
    if big_endian {
        first * 256 + second
    } else {
        first + second * 256
    }
}

/// Decodes the instruction at `offset`: what it is, its source line and
/// whether the byte before is on the same line, its operands (16-bit ones
/// read in the given byte order, the machine's for code it wrote), and
/// where the next instruction (or a closure's captures) starts.
pub fn disassemble_instruction<V>(chunk: &Chunk<V>, offset: usize, big_endian: bool) -> (r: Instruction)
    requires
        offset < chunk.code@.len() <= chunk.lines@.len(),
        chunk.code@.len() <= isize::MAX / 2,
        chunk.code@[offset as int] < NUM_OPCODES,
        forall|op: OpCode|
            opcode_byte(op) == chunk.code@[offset as int] ==> offset + 1 + #[trigger] operand_width(op)
                <= chunk.code@.len(),
    ensures
        r.offset == offset,
        opcode_byte(r.op) == chunk.code@[offset as int],
        r.line == chunk.lines@[offset as int],
        r.same_line == (offset > 0 && chunk.lines@[offset as int] == chunk.lines@[offset - 1]),
        r.next == offset + 1 + operand_width(r.op),
        r.operands == decoded_operands(r.op, chunk.code@, offset as int, big_endian),
{
    let line = chunk.lines[offset];
    let same_line = offset > 0 && line == chunk.lines[offset - 1];
    let op = OpCode::from(chunk.code[offset]);
    proof {
        lemma_opcode_byte_roundtrip(op);
    }
    assert(offset + 1 + operand_width(op) <= chunk.code.len());
    let operands = match op {
        OpCode::Constant | OpCode::GetGlobal | OpCode::DefineGlobal | OpCode::SetGlobal
        | OpCode::GetProperty | OpCode::SetProperty | OpCode::GetSuper | OpCode::DeclareClass
        | OpCode::Method | OpCode::StaticMethod | OpCode::StartImport => {
            let v = read_short(&chunk.code, offset, big_endian);
            Operands::Constant(v)
        },
        OpCode::GetLocal | OpCode::SetLocal | OpCode::GetUpvalue | OpCode::SetUpvalue
        | OpCode::BuildHashMap | OpCode::BuildString | OpCode::BuildTuple | OpCode::BuildVec
        | OpCode::Call | OpCode::Construct => {
            let b = chunk.code[offset + 1];
            assert(Operands::Byte(b) == decoded_operands(op, chunk.code@, offset as int, big_endian));
            Operands::Byte(b)
        },
        OpCode::Jump | OpCode::JumpIfFalse | OpCode::JumpIfSentinel | OpCode::Loop => {
            let v = read_short(&chunk.code, offset, big_endian);
            let base = (offset + 3) as isize;
            let target = if op == OpCode::Loop {
                base - v as isize
            } else {
                base + v as isize
            };
            Operands::Jump(target)
        },
        OpCode::Invoke | OpCode::SuperInvoke => {
            let v = read_short(&chunk.code, offset, big_endian);
            let args = chunk.code[offset + 3];
            Operands::Invoke(v, args)
        },
        OpCode::Closure => {
            let v = read_short(&chunk.code, offset, big_endian);
            Operands::Closure(v)
        },
        _ => {
            assert(Operands::Simple == decoded_operands(op, chunk.code@, offset as int, big_endian));
            Operands::Simple
        },
    };
    let width: usize = match operands {
        Operands::Simple => 0,
        Operands::Byte(_) => 1,
        Operands::Invoke(_, _) => 3,
        _ => 2,
    };
    Instruction { offset, op, line, same_line, operands, next: offset + 1 + width }
}

/// The total of a list of operand sizes.
pub open spec fn total_size(sizes: Seq<usize>) -> int
    decreases sizes.len(),
{
    if sizes.len() == 0 {
        0
    } else {
        total_size(sizes.drop_last()) + sizes.last()
    }
}

/// The listing steps over exactly the operand bytes the instruction has:
/// the next instruction starts after as many bytes as its operand sizes add
/// up to.
pub proof fn lemma_operand_width_matches_sizes(op: OpCode)
    ensures
        operand_width(op) == total_size(operand_sizes(op)),
{
    reveal_with_fuel(total_size, 3);
    let s = operand_sizes(op);
    if s.len() == 2 {
        assert(s.drop_last() =~= seq![s[0]]);
        assert(s.drop_last().drop_last() =~= Seq::<usize>::empty());
    } else if s.len() == 1 {
        assert(s.drop_last() =~= Seq::<usize>::empty());
    }
}

/// Reading back two bytes written in a byte order, in that same order,
/// gives the value written.
pub proof fn lemma_read_written_short(code: Seq<u8>, at: int, v: u16, big_endian: bool)
    requires
        0 <= at,
        at + 1 < code.len(),
        (code[at], code[at + 1]) == u16_bytes(v, big_endian),
    ensures
        read_u16(code, at, big_endian) == v,
{
    let lo = v % 256;
    let hi = v / 256;
    assert(lo + hi * 256 == v);
    assert((lo as u8) as int == lo);
    assert((hi as u8) as int == hi);
}

/// The listing shows what the compiler wrote: an instruction with a
/// 16-bit operand written after `prefix` in a byte order is listed, read in
/// that order, with that operand.
pub proof fn lemma_listing_shows_written_operand(
    prefix: Seq<u8>,
    rest: Seq<u8>,
    op: OpCode,
    v: u16,
    big_endian: bool,
)
    ensures
        read_u16(prefix + with_short(opcode_byte(op), v, big_endian) + rest, prefix.len() + 1int, big_endian) == v,
        operand_width(op) == 2 && op != OpCode::Jump && op != OpCode::JumpIfFalse && op != OpCode::JumpIfSentinel
            && op != OpCode::Loop && op != OpCode::Closure ==> decoded_operands(
            op,
            prefix + with_short(opcode_byte(op), v, big_endian) + rest,
            prefix.len() as int,
            big_endian,
        ) == Operands::Constant(v),
        op == OpCode::Closure ==> decoded_operands(
            op,
            prefix + with_short(opcode_byte(op), v, big_endian) + rest,
            prefix.len() as int,
            big_endian,
        ) == Operands::Closure(v),
        (op == OpCode::Invoke || op == OpCode::SuperInvoke) && rest.len() > 0 ==> decoded_operands(
            op,
            prefix + with_short(opcode_byte(op), v, big_endian) + rest,
            prefix.len() as int,
            big_endian,
        ) == Operands::Invoke(v, rest[0]),
{
    let code = prefix + with_short(opcode_byte(op), v, big_endian) + rest;
    let at = prefix.len() as int;
    assert(code[at + 1] == u16_bytes(v, big_endian).0);
    assert(code[at + 2] == u16_bytes(v, big_endian).1);
    if rest.len() > 0 {
        assert(code[at + 3] == rest[0]);
    }
    lemma_read_written_short(code, at + 1, v, big_endian);
}

/// A backward jump that `Compiler::emit_loop` wrote at the end of `prefix`
/// for a loop starting at `loop_start` is listed as landing on
/// `loop_start`, when the distance is below 2^16.
pub proof fn lemma_loop_listing(prefix: Seq<u8>, rest: Seq<u8>, loop_start: int, big_endian: bool)
    requires
        0 <= loop_start <= prefix.len(),
        loop_distance(prefix.len() as int, loop_start) < 65536,
    ensures
        decoded_operands(
            OpCode::Loop,
            prefix + with_short(
                opcode_byte(OpCode::Loop),
                loop_distance(prefix.len() as int, loop_start) as u16,
                big_endian,
            ) + rest,
            prefix.len() as int,
            big_endian,
        ) == Operands::Jump(loop_start as isize),
{
    let d = loop_distance(prefix.len() as int, loop_start) as u16;
    lemma_listing_shows_written_operand(prefix, rest, OpCode::Loop, d, big_endian);
}

/// A forward jump that `Compiler::patch_jump` patched at `offset` (the
/// jump instruction being the byte before) is listed as landing on the end
/// of the code as it was when patched, when the distance is below 2^16.
pub proof fn lemma_patched_jump_listing(code: Seq<u8>, offset: int, op: OpCode, big_endian: bool)
    requires
        1 <= offset,
        offset + 2 <= code.len(),
        code[offset - 1] == opcode_byte(op),
        op == OpCode::Jump || op == OpCode::JumpIfFalse || op == OpCode::JumpIfSentinel,
        jump_distance(code.len() as int, offset) < 65536,
    ensures
        decoded_operands(
            op,
            patch_bytes(code, offset, jump_distance(code.len() as int, offset) as u16, big_endian),
            offset - 1,
            big_endian,
        ) == Operands::Jump(code.len() as isize),
{
    let d = jump_distance(code.len() as int, offset) as u16;
    let patched = patch_bytes(code, offset, d, big_endian);
    lemma_read_written_short(patched, offset, d, big_endian);
}

/// Decodes the `count` captures of a closure listed from `offset`: each is
/// a byte telling whether the variable is a local of the enclosing
/// function, then the byte of its slot.
pub fn disassemble_captures<V>(chunk: &Chunk<V>, offset: usize, count: usize) -> (r: (
    Vec<Capture>,
    usize,
))
    requires
        offset + 2 * count <= chunk.code@.len(),
    ensures
        r.1 == offset + 2 * count,
        r.0@.len() == count,
        forall|i: int|
            0 <= i < count ==> #[trigger] r.0@[i] == (Capture {
                offset: (offset + 2 * i) as usize,
                is_local: chunk.code@[offset + 2 * i] != 0,
                index: chunk.code@[offset + 2 * i + 1],
            }),
{
    let mut captures: Vec<Capture> = Vec::new();
    let mut at = offset;
    let mut i: usize = 0;
    while i < count
        invariant
            offset + 2 * count <= chunk.code@.len(),
            chunk.code@.len() == chunk.code.len(),
            i <= count,
            at == offset + 2 * i,
            captures@.len() == i,
            forall|j: int|
                0 <= j < i ==> #[trigger] captures@[j] == (Capture {
                    offset: (offset + 2 * j) as usize,
                    is_local: chunk.code@[offset + 2 * j] != 0,
                    index: chunk.code@[offset + 2 * j + 1],
                }),
        decreases count - i,
    {
        let is_local = chunk.code[at] != 0;
        let index = chunk.code[at + 1];
        captures.push(Capture { offset: at, is_local, index });
        at = at + 2;
        i = i + 1;
    }
    (captures, at)
}

} // verus!
