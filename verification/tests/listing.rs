use yarel::chunk::{Chunk, OpCode, NUM_OPCODES};
use yarel::compiler::{Compiler, FunctionKind};
use yarel::debug::{disassemble_captures, disassemble_instruction, instruction_name, Capture, Operands};

/// Whether this machine stores the most significant byte first.
fn native_big_endian() -> bool {
    u16::from_ne_bytes([0, 1]) == 1
}

fn chunk_of(code: &[u8], lines: &[i32]) -> Chunk<u32> {
    let mut chunk = Chunk::new();
    for (b, l) in code.iter().zip(lines.iter()) {
        chunk.write(*b, *l);
    }
    chunk
}

fn short(v: u16) -> [u8; 2] {
    v.to_ne_bytes()
}

#[test]
fn names_of_instructions() {
    assert_eq!(instruction_name(OpCode::Constant), "CONSTANT");
    assert_eq!(instruction_name(OpCode::JumpIfFalse), "JUMP_IF_FALSE");
    assert_eq!(instruction_name(OpCode::BuildHashMap), "BUILD_HASH_MAP");
    assert_eq!(instruction_name(OpCode::FinishImport), "FINISH_IMPORT");
    for b in 0..NUM_OPCODES {
        assert!(!instruction_name(OpCode::from(b)).is_empty());
    }
}

#[test]
fn simple_and_byte_instructions() {
    let chunk = chunk_of(&[OpCode::Nil.to_byte(), OpCode::GetLocal.to_byte(), 7, OpCode::Return.to_byte()], &[1, 1, 1, 2]);
    let i = disassemble_instruction(&chunk, 0, native_big_endian());
    assert_eq!(i.op, OpCode::Nil);
    assert_eq!(i.operands, Operands::Simple);
    assert_eq!(i.next, 1);
    assert!(!i.same_line);
    assert_eq!(i.line, 1);
    let i = disassemble_instruction(&chunk, 1, native_big_endian());
    assert_eq!(i.op, OpCode::GetLocal);
    assert_eq!(i.operands, Operands::Byte(7));
    assert_eq!(i.next, 3);
    assert!(i.same_line);
    let i = disassemble_instruction(&chunk, 3, native_big_endian());
    assert_eq!(i.op, OpCode::Return);
    assert!(!i.same_line);
    assert_eq!(i.line, 2);
}

#[test]
fn constant_and_invoke_instructions() {
    let k = short(258);
    let code = [OpCode::Constant.to_byte(), k[0], k[1], OpCode::Invoke.to_byte(), k[0], k[1], 3];
    let chunk = chunk_of(&code, &[4; 7]);
    let i = disassemble_instruction(&chunk, 0, native_big_endian());
    assert_eq!(i.operands, Operands::Constant(258));
    assert_eq!(i.next, 3);
    let i = disassemble_instruction(&chunk, 3, native_big_endian());
    assert_eq!(i.operands, Operands::Invoke(258, 3));
    assert_eq!(i.next, 7);
}

#[test]
fn jumps_land_relative_to_the_next_instruction() {
    let j = short(5);
    let code = [OpCode::Jump.to_byte(), j[0], j[1], OpCode::Loop.to_byte(), j[0], j[1]];
    let chunk = chunk_of(&code, &[1; 6]);
    let i = disassemble_instruction(&chunk, 0, native_big_endian());
    assert_eq!(i.operands, Operands::Jump(8));
    let i = disassemble_instruction(&chunk, 3, native_big_endian());
    assert_eq!(i.operands, Operands::Jump(1));
    assert_eq!(i.next, 6);
    let back = short(10);
    let chunk = chunk_of(&[OpCode::Loop.to_byte(), back[0], back[1]], &[1; 3]);
    assert_eq!(disassemble_instruction(&chunk, 0, native_big_endian()).operands, Operands::Jump(-7));
}

#[test]
fn closures_list_their_captures() {
    let k = short(0);
    let code = [OpCode::Closure.to_byte(), k[0], k[1], 1, 4, 0, 2];
    let chunk = chunk_of(&code, &[1; 7]);
    let i = disassemble_instruction(&chunk, 0, native_big_endian());
    assert_eq!(i.operands, Operands::Closure(0));
    assert_eq!(i.next, 3);
    let (captures, next) = disassemble_captures(&chunk, i.next, 2);
    assert_eq!(next, 7);
    assert_eq!(
        captures,
        vec![
            Capture { offset: 3, is_local: true, index: 4 },
            Capture { offset: 5, is_local: false, index: 2 },
        ]
    );
}

#[test]
fn loop_listed_with_its_target() {
    let mut c: Chunk<u32> = Chunk::new();
    c.write(OpCode::Nil.to_byte(), 1);
    c.write(OpCode::Loop.to_byte(), 1);
    let b = 4u16.to_ne_bytes();
    c.write(b[0], 1);
    c.write(b[1], 1);
    let i = disassemble_instruction(&c, 1, native_big_endian());
    assert_eq!(i.next, 4);
    assert!(i.same_line);
    assert_eq!(i.operands, Operands::Jump(0));
}

#[test]
fn listing_reads_what_the_compiler_wrote_in_either_order() {
    for be in [false, true] {
        let mut c: Compiler<u32> = Compiler::new(FunctionKind::Script);
        c.emit_byte(OpCode::Nil.to_byte(), 1);
        let at = c.emit_jump(OpCode::JumpIfFalse, 1);
        c.emit_byte(OpCode::Pop.to_byte(), 1);
        c.patch_jump(at, be).unwrap();
        assert!(c.emit_loop(0, be, 2));
        c.emit_constant_op(OpCode::GetGlobal, 0x0302, be, 2);
        let jump = disassemble_instruction(&c.chunk, 1, be);
        assert_eq!(jump.operands, Operands::Jump(5));
        let back = disassemble_instruction(&c.chunk, 5, be);
        assert_eq!(back.operands, Operands::Jump(0));
        let global = disassemble_instruction(&c.chunk, 8, be);
        assert_eq!(global.operands, Operands::Constant(0x0302));
    }
}
