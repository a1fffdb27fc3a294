use vstd::prelude::*;

use crate::memory::{Gc, GcManaged};

verus! {

/// The instructions of the virtual machine. Each is stored as one byte, its
/// position in this list, followed by its operand bytes.
#[derive(Clone, Copy, Debug, PartialEq, Eq, Structural)]
pub enum OpCode {
    Constant,
    Nil,
    True,
    False,
    Pop,
    CopyTop,
    GetLocal,
    SetLocal,
    GetGlobal,
    DefineGlobal,
    SetGlobal,
    GetUpvalue,
    SetUpvalue,
    GetProperty,
    SetProperty,
    GetClass,
    GetSuper,
    Equal,
    Greater,
    Less,
    Add,
    Subtract,
    Multiply,
    Divide,
    Not,
    Negate,
    FormatString,
    BuildHashMap,
    BuildRange,
    BuildString,
    BuildTuple,
    BuildVec,
    IterNext,
    Jump,
    JumpIfFalse,
    JumpIfSentinel,
    Loop,
    Call,
    Invoke,
    Construct,
    SuperInvoke,
    Closure,
    CloseUpvalue,
    Return,
    DeclareClass,
    DefineClass,
    Inherit,
    Method,
    StaticMethod,
    StartImport,
    FinishImport,
}

/// The number of instructions.
pub const NUM_OPCODES: u8 = 51;

/// The byte that encodes an instruction.
pub open spec fn opcode_byte(op: OpCode) -> u8 {
    match op {
        OpCode::Constant => 0u8,
        OpCode::Nil => 1u8,
        OpCode::True => 2u8,
        OpCode::False => 3u8,
        OpCode::Pop => 4u8,
        OpCode::CopyTop => 5u8,
        OpCode::GetLocal => 6u8,
        OpCode::SetLocal => 7u8,
        OpCode::GetGlobal => 8u8,
        OpCode::DefineGlobal => 9u8,
        OpCode::SetGlobal => 10u8,
        OpCode::GetUpvalue => 11u8,
        OpCode::SetUpvalue => 12u8,
        OpCode::GetProperty => 13u8,
        OpCode::SetProperty => 14u8,
        OpCode::GetClass => 15u8,
        OpCode::GetSuper => 16u8,
        OpCode::Equal => 17u8,
        OpCode::Greater => 18u8,
        OpCode::Less => 19u8,
        OpCode::Add => 20u8,
        OpCode::Subtract => 21u8,
        OpCode::Multiply => 22u8,
        OpCode::Divide => 23u8,
        OpCode::Not => 24u8,
        OpCode::Negate => 25u8,
        OpCode::FormatString => 26u8,
        OpCode::BuildHashMap => 27u8,
        OpCode::BuildRange => 28u8,
        OpCode::BuildString => 29u8,
        OpCode::BuildTuple => 30u8,
        OpCode::BuildVec => 31u8,
        OpCode::IterNext => 32u8,
        OpCode::Jump => 33u8,
        OpCode::JumpIfFalse => 34u8,
        OpCode::JumpIfSentinel => 35u8,
        OpCode::Loop => 36u8,
        OpCode::Call => 37u8,
        OpCode::Invoke => 38u8,
        OpCode::Construct => 39u8,
        OpCode::SuperInvoke => 40u8,
        OpCode::Closure => 41u8,
        OpCode::CloseUpvalue => 42u8,
        OpCode::Return => 43u8,
        OpCode::DeclareClass => 44u8,
        OpCode::DefineClass => 45u8,
        OpCode::Inherit => 46u8,
        OpCode::Method => 47u8,
        OpCode::StaticMethod => 48u8,
        OpCode::StartImport => 49u8,
        OpCode::FinishImport => 50u8,
    }
}

/// The sizes in bytes of the operands that follow an instruction.
pub open spec fn operand_sizes(op: OpCode) -> Seq<usize> {
    match op {
        OpCode::Constant => seq![2usize],
        OpCode::Nil => seq![],
        OpCode::True => seq![],
        OpCode::False => seq![],
        OpCode::Pop => seq![],
        OpCode::CopyTop => seq![],
        OpCode::GetLocal => seq![1usize],
        OpCode::SetLocal => seq![1usize],
        OpCode::GetGlobal => seq![2usize],
        OpCode::DefineGlobal => seq![2usize],
        OpCode::SetGlobal => seq![2usize],
        OpCode::GetUpvalue => seq![1usize],
        OpCode::SetUpvalue => seq![1usize],
        OpCode::GetProperty => seq![2usize],
        OpCode::SetProperty => seq![2usize],
        OpCode::GetClass => seq![],
        OpCode::GetSuper => seq![2usize],
        OpCode::Equal => seq![],
        OpCode::Greater => seq![],
        OpCode::Less => seq![],
        OpCode::Add => seq![],
        OpCode::Subtract => seq![],
        OpCode::Multiply => seq![],
        OpCode::Divide => seq![],
        OpCode::Not => seq![],
        OpCode::Negate => seq![],
        OpCode::FormatString => seq![],
        OpCode::BuildHashMap => seq![1usize],
        OpCode::BuildRange => seq![],
        OpCode::BuildString => seq![1usize],
        OpCode::BuildTuple => seq![1usize],
        OpCode::BuildVec => seq![1usize],
        OpCode::IterNext => seq![],
        OpCode::Jump => seq![2usize],
        OpCode::JumpIfFalse => seq![2usize],
        OpCode::JumpIfSentinel => seq![2usize],
        OpCode::Loop => seq![2usize],
        OpCode::Call => seq![1usize],
        OpCode::Invoke => seq![2usize, 1usize],
        OpCode::Construct => seq![1usize],
        OpCode::SuperInvoke => seq![2usize, 1usize],
        OpCode::Closure => seq![2usize],
        OpCode::CloseUpvalue => seq![],
        OpCode::Return => seq![],
        OpCode::DeclareClass => seq![2usize],
        OpCode::DefineClass => seq![],
        OpCode::Inherit => seq![],
        OpCode::Method => seq![2usize],
        OpCode::StaticMethod => seq![2usize],
        OpCode::StartImport => seq![2usize],
        OpCode::FinishImport => seq![],
    }
}

impl OpCode {
    /// The sizes in bytes of the operands that follow this instruction.
    pub fn arg_sizes(&self) -> (r: Vec<usize>)
        ensures
            r@ == operand_sizes(*self),
    {
        match self {
            OpCode::Constant => {
                let v = vec![2];
                assert(v@ =~= operand_sizes(*self));
                v
            },
            OpCode::Nil => {
                let v: Vec<usize> = Vec::new();
                assert(v@ =~= operand_sizes(*self));
                v
            },
            OpCode::True => {
                let v: Vec<usize> = Vec::new();
                assert(v@ =~= operand_sizes(*self));
                v
            },
            OpCode::False => {
                let v: Vec<usize> = Vec::new();
                assert(v@ =~= operand_sizes(*self));
                v
            },
            OpCode::Pop => {
                let v: Vec<usize> = Vec::new();
                assert(v@ =~= operand_sizes(*self));
                v
            },
            OpCode::CopyTop => {
                let v: Vec<usize> = Vec::new();
                assert(v@ =~= operand_sizes(*self));
                v
            },
            OpCode::GetLocal => {
                let v = vec![1];
                assert(v@ =~= operand_sizes(*self));
                v
            },
            OpCode::SetLocal => {
                let v = vec![1];
                assert(v@ =~= operand_sizes(*self));
                v
            },
            OpCode::GetGlobal => {
                let v = vec![2];
                assert(v@ =~= operand_sizes(*self));
                v
            },
            OpCode::DefineGlobal => {
                let v = vec![2];
                assert(v@ =~= operand_sizes(*self));
                v
            },
            OpCode::SetGlobal => {
                let v = vec![2];
                assert(v@ =~= operand_sizes(*self));
                v
            },
            OpCode::GetUpvalue => {
                let v = vec![1];
                assert(v@ =~= operand_sizes(*self));
                v
            },
            OpCode::SetUpvalue => {
                let v = vec![1];
                assert(v@ =~= operand_sizes(*self));
                v
            },
            OpCode::GetProperty => {
                let v = vec![2];
                assert(v@ =~= operand_sizes(*self));
                v
            },
            OpCode::SetProperty => {
                let v = vec![2];
                assert(v@ =~= operand_sizes(*self));
                v
            },
            OpCode::GetClass => {
                let v: Vec<usize> = Vec::new();
                assert(v@ =~= operand_sizes(*self));
                v
            },
            OpCode::GetSuper => {
                let v = vec![2];
                assert(v@ =~= operand_sizes(*self));
                v
            },
            OpCode::Equal => {
                let v: Vec<usize> = Vec::new();
                assert(v@ =~= operand_sizes(*self));
                v
            },
            OpCode::Greater => {
                let v: Vec<usize> = Vec::new();
                assert(v@ =~= operand_sizes(*self));
                v
            },
            OpCode::Less => {
                let v: Vec<usize> = Vec::new();
                assert(v@ =~= operand_sizes(*self));
                v
            },
            OpCode::Add => {
                let v: Vec<usize> = Vec::new();
                assert(v@ =~= operand_sizes(*self));
                v
            },
            OpCode::Subtract => {
                let v: Vec<usize> = Vec::new();
                assert(v@ =~= operand_sizes(*self));
                v
            },
            OpCode::Multiply => {
                let v: Vec<usize> = Vec::new();
                assert(v@ =~= operand_sizes(*self));
                v
            },
            OpCode::Divide => {
                let v: Vec<usize> = Vec::new();
                assert(v@ =~= operand_sizes(*self));
                v
            },
            OpCode::Not => {
                let v: Vec<usize> = Vec::new();
                assert(v@ =~= operand_sizes(*self));
                v
            },
            OpCode::Negate => {
                let v: Vec<usize> = Vec::new();
                assert(v@ =~= operand_sizes(*self));
                v
            },
            OpCode::FormatString => {
                let v: Vec<usize> = Vec::new();
                assert(v@ =~= operand_sizes(*self));
                v
            },
            OpCode::BuildHashMap => {
                let v = vec![1];
                assert(v@ =~= operand_sizes(*self));
                v
            },
            OpCode::BuildRange => {
                let v: Vec<usize> = Vec::new();
                assert(v@ =~= operand_sizes(*self));
                v
            },
            OpCode::BuildString => {
                let v = vec![1];
                assert(v@ =~= operand_sizes(*self));
                v
            },
            OpCode::BuildTuple => {
                let v = vec![1];
                assert(v@ =~= operand_sizes(*self));
                v
            },
            OpCode::BuildVec => {
                let v = vec![1];
                assert(v@ =~= operand_sizes(*self));
                v
            },
            OpCode::IterNext => {
                let v: Vec<usize> = Vec::new();
                assert(v@ =~= operand_sizes(*self));
                v
            },
            OpCode::Jump => {
                let v = vec![2];
                assert(v@ =~= operand_sizes(*self));
                v
            },
            OpCode::JumpIfFalse => {
                let v = vec![2];
                assert(v@ =~= operand_sizes(*self));
                v
            },
            OpCode::JumpIfSentinel => {
                let v = vec![2];
                assert(v@ =~= operand_sizes(*self));
                v
            },
            OpCode::Loop => {
                let v = vec![2];
                assert(v@ =~= operand_sizes(*self));
                v
            },
            OpCode::Call => {
                let v = vec![1];
                assert(v@ =~= operand_sizes(*self));
                v
            },
            OpCode::Invoke => {
                let v = vec![2, 1];
                assert(v@ =~= operand_sizes(*self));
                v
            },
            OpCode::Construct => {
                let v = vec![1];
                assert(v@ =~= operand_sizes(*self));
                v
            },
            OpCode::SuperInvoke => {
                let v = vec![2, 1];
                assert(v@ =~= operand_sizes(*self));
                v
            },
            OpCode::Closure => {
                let v = vec![2];
                assert(v@ =~= operand_sizes(*self));
                v
            },
            OpCode::CloseUpvalue => {
                let v: Vec<usize> = Vec::new();
                assert(v@ =~= operand_sizes(*self));
                v
            },
            OpCode::Return => {
                let v: Vec<usize> = Vec::new();
                assert(v@ =~= operand_sizes(*self));
                v
            },
            OpCode::DeclareClass => {
                let v = vec![2];
                assert(v@ =~= operand_sizes(*self));
                v
            },
            OpCode::DefineClass => {
                let v: Vec<usize> = Vec::new();
                assert(v@ =~= operand_sizes(*self));
                v
            },
            OpCode::Inherit => {
                let v: Vec<usize> = Vec::new();
                assert(v@ =~= operand_sizes(*self));
                v
            },
            OpCode::Method => {
                let v = vec![2];
                assert(v@ =~= operand_sizes(*self));
                v
            },
            OpCode::StaticMethod => {
                let v = vec![2];
                assert(v@ =~= operand_sizes(*self));
                v
            },
            OpCode::StartImport => {
                let v = vec![2];
                assert(v@ =~= operand_sizes(*self));
                v
            },
            OpCode::FinishImport => {
                let v: Vec<usize> = Vec::new();
                assert(v@ =~= operand_sizes(*self));
                v
            },
        }
    }

    /// The byte that encodes this instruction.
    pub fn to_byte(&self) -> (b: u8)
        ensures
            b == opcode_byte(*self),
            b < NUM_OPCODES,
    {
        match self {
            OpCode::Constant => 0,
            OpCode::Nil => 1,
            OpCode::True => 2,
            OpCode::False => 3,
            OpCode::Pop => 4,
            OpCode::CopyTop => 5,
            OpCode::GetLocal => 6,
            OpCode::SetLocal => 7,
            OpCode::GetGlobal => 8,
            OpCode::DefineGlobal => 9,
            OpCode::SetGlobal => 10,
            OpCode::GetUpvalue => 11,
            OpCode::SetUpvalue => 12,
            OpCode::GetProperty => 13,
            OpCode::SetProperty => 14,
            OpCode::GetClass => 15,
            OpCode::GetSuper => 16,
            OpCode::Equal => 17,
            OpCode::Greater => 18,
            OpCode::Less => 19,
            OpCode::Add => 20,
            OpCode::Subtract => 21,
            OpCode::Multiply => 22,
            OpCode::Divide => 23,
            OpCode::Not => 24,
            OpCode::Negate => 25,
            OpCode::FormatString => 26,
            OpCode::BuildHashMap => 27,
            OpCode::BuildRange => 28,
            OpCode::BuildString => 29,
            OpCode::BuildTuple => 30,
            OpCode::BuildVec => 31,
            OpCode::IterNext => 32,
            OpCode::Jump => 33,
            OpCode::JumpIfFalse => 34,
            OpCode::JumpIfSentinel => 35,
            OpCode::Loop => 36,
            OpCode::Call => 37,
            OpCode::Invoke => 38,
            OpCode::Construct => 39,
            OpCode::SuperInvoke => 40,
            OpCode::Closure => 41,
            OpCode::CloseUpvalue => 42,
            OpCode::Return => 43,
            OpCode::DeclareClass => 44,
            OpCode::DefineClass => 45,
            OpCode::Inherit => 46,
            OpCode::Method => 47,
            OpCode::StaticMethod => 48,
            OpCode::StartImport => 49,
            OpCode::FinishImport => 50,
        }
    }

    /// The instruction a byte encodes.
    pub fn from(value: u8) -> (op: OpCode)
        requires
            value < NUM_OPCODES,
        ensures
            opcode_byte(op) == value,
    {
        match value {
            0 => OpCode::Constant,
            1 => OpCode::Nil,
            2 => OpCode::True,
            3 => OpCode::False,
            4 => OpCode::Pop,
            5 => OpCode::CopyTop,
            6 => OpCode::GetLocal,
            7 => OpCode::SetLocal,
            8 => OpCode::GetGlobal,
            9 => OpCode::DefineGlobal,
            10 => OpCode::SetGlobal,
            11 => OpCode::GetUpvalue,
            12 => OpCode::SetUpvalue,
            13 => OpCode::GetProperty,
            14 => OpCode::SetProperty,
            15 => OpCode::GetClass,
            16 => OpCode::GetSuper,
            17 => OpCode::Equal,
            18 => OpCode::Greater,
            19 => OpCode::Less,
            20 => OpCode::Add,
            21 => OpCode::Subtract,
            22 => OpCode::Multiply,
            23 => OpCode::Divide,
            24 => OpCode::Not,
            25 => OpCode::Negate,
            26 => OpCode::FormatString,
            27 => OpCode::BuildHashMap,
            28 => OpCode::BuildRange,
            29 => OpCode::BuildString,
            30 => OpCode::BuildTuple,
            31 => OpCode::BuildVec,
            32 => OpCode::IterNext,
            33 => OpCode::Jump,
            34 => OpCode::JumpIfFalse,
            35 => OpCode::JumpIfSentinel,
            36 => OpCode::Loop,
            37 => OpCode::Call,
            38 => OpCode::Invoke,
            39 => OpCode::Construct,
            40 => OpCode::SuperInvoke,
            41 => OpCode::Closure,
            42 => OpCode::CloseUpvalue,
            43 => OpCode::Return,
            44 => OpCode::DeclareClass,
            45 => OpCode::DefineClass,
            46 => OpCode::Inherit,
            47 => OpCode::Method,
            48 => OpCode::StaticMethod,
            49 => OpCode::StartImport,
            50 => OpCode::FinishImport,
            _ => OpCode::FinishImport,
        }
    }

    /// The instruction a byte encodes, if any.
    pub fn try_from_byte(value: u8) -> (op: Option<OpCode>)
        ensures
            op is Some <==> value < NUM_OPCODES,
            op matches Some(o) ==> opcode_byte(o) == value,
    {
        if value < NUM_OPCODES {
            Some(OpCode::from(value))
        } else {
            None
        }
    }
}

/// Decoding the byte of an instruction gives the instruction back.
pub proof fn lemma_opcode_byte_roundtrip(op: OpCode)
    ensures
        opcode_byte(op) < NUM_OPCODES,
        forall|other: OpCode| opcode_byte(other) == opcode_byte(op) ==> other == op,
{
}

/// A sequence of instructions with the source line of each byte and the
/// constants the instructions refer to.
#[derive(Clone, Debug)]
pub struct Chunk<V> {
    pub code: Vec<u8>,
    pub lines: Vec<i32>,
    pub constants: Vec<V>,
}

impl<V> Chunk<V> {
    /// An empty chunk.
    pub fn new() -> (c: Self)
        ensures
            c.code@ == Seq::<u8>::empty(),
            c.lines@ == Seq::<i32>::empty(),
            c.constants@ == Seq::<V>::empty(),
    {
        Chunk { code: Vec::new(), lines: Vec::new(), constants: Vec::new() }
    }

    /// Appends a byte written on source line `line`.
    pub fn write(&mut self, byte: u8, line: i32)
        ensures
            final(self).code@ == old(self).code@.push(byte),
            final(self).lines@ == old(self).lines@.push(line),
            final(self).constants@ == old(self).constants@,
    {
        self.code.push(byte);
        self.lines.push(line);
    }

    /// Appends a constant; its index.
    pub fn add_constant(&mut self, value: V) -> (index: usize)
        ensures
            final(self).code@ == old(self).code@,
            final(self).lines@ == old(self).lines@,
            final(self).constants@ == old(self).constants@.push(value),
            index == old(self).constants@.len(),
    {
        self.constants.push(value);
        self.constants.len() - 1
    }
}

impl<V> Default for Chunk<V> {
    fn default() -> (c: Self)
        ensures
            c.code@ == Seq::<u8>::empty(),
            c.lines@ == Seq::<i32>::empty(),
            c.constants@ == Seq::<V>::empty(),
    {
        Chunk::new()
    }
}

impl<V: GcManaged> GcManaged for Chunk<V> {
    open spec fn references(&self) -> Seq<Gc> {
        self.constants.references()
    }

    fn trace(&self) -> (r: Vec<Gc>) {
        self.constants.trace()
    }
}

} // verus!
