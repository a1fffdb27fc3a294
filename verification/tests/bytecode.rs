use yarel::chunk::{Chunk, OpCode, NUM_OPCODES};
use yarel::memory::{Gc, GcManaged};

#[test]
fn opcode_bytes_round_trip() {
    for b in 0..NUM_OPCODES {
        let op = OpCode::from(b);
        assert_eq!(op.to_byte(), b);
        assert_eq!(OpCode::try_from_byte(b), Some(op));
    }
    assert_eq!(NUM_OPCODES, 51);
    assert_eq!(OpCode::try_from_byte(NUM_OPCODES), None);
    assert_eq!(OpCode::try_from_byte(255), None);
}

#[test]
fn opcode_numbering_follows_declaration_order() {
    assert_eq!(OpCode::Constant.to_byte(), 0);
    assert_eq!(OpCode::Nil.to_byte(), 1);
    assert_eq!(OpCode::Jump.to_byte(), 33);
    assert_eq!(OpCode::Return.to_byte(), 43);
    assert_eq!(OpCode::FinishImport.to_byte(), 50);
    assert_eq!(OpCode::from(20), OpCode::Add);
}

#[test]
fn operand_sizes() {
    assert_eq!(OpCode::Constant.arg_sizes(), vec![2]);
    assert!(OpCode::Nil.arg_sizes().is_empty());
    assert!(OpCode::Add.arg_sizes().is_empty());
    assert_eq!(OpCode::GetLocal.arg_sizes(), vec![1]);
    assert_eq!(OpCode::Jump.arg_sizes(), vec![2]);
    assert_eq!(OpCode::Loop.arg_sizes(), vec![2]);
    assert_eq!(OpCode::Call.arg_sizes(), vec![1]);
    assert_eq!(OpCode::Invoke.arg_sizes(), vec![2, 1]);
}

#[test]
fn chunk_write_appends_code_and_lines() {
    let mut chunk: Chunk<u32> = Chunk::new();
    assert!(chunk.code.is_empty());
    chunk.write(OpCode::Nil.to_byte(), 1);
    chunk.write(OpCode::Return.to_byte(), 2);
    assert_eq!(chunk.code, vec![1, 43]);
    assert_eq!(chunk.lines, vec![1, 2]);
    assert!(chunk.constants.is_empty());
}

#[test]
fn chunk_constants_are_numbered_in_order() {
    let mut chunk: Chunk<&str> = Chunk::default();
    assert_eq!(chunk.add_constant("a"), 0);
    assert_eq!(chunk.add_constant("b"), 1);
    assert_eq!(chunk.constants, vec!["a", "b"]);
    assert!(chunk.code.is_empty());
}

#[test]
fn chunk_traces_its_constants() {
    let mut chunk: Chunk<Gc> = Chunk::new();
    let g = Gc::dangling();
    chunk.add_constant(g);
    chunk.add_constant(g);
    assert_eq!(chunk.trace(), vec![g, g]);
}
