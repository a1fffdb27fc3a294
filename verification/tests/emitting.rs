use yarel::chunk::OpCode;
use yarel::compiler::{resolve_upvalue, Compiler, CompilerError, FunctionKind, Local, Upvalue, UPVALUES_MAX};
use yarel::scanner::Token;

/// Whether this machine stores the most significant byte first.
fn native_big_endian() -> bool {
    u16::from_ne_bytes([0, 1]) == 1
}

fn token(name: &str) -> Token {
    Token::from_string(name)
}

fn local(name: &str, depth: usize, is_captured: bool) -> Local {
    Local { name: name.to_owned(), depth: Some(depth), is_captured }
}

#[test]
fn bytes_carry_their_line() {
    let mut c: Compiler<u32> = Compiler::new(FunctionKind::Script);
    c.emit_byte(OpCode::Nil.to_byte(), 3);
    c.emit_bytes([OpCode::GetLocal.to_byte(), 1], 4);
    assert_eq!(c.chunk.code, vec![1, 6, 1]);
    assert_eq!(c.chunk.lines, vec![3, 4, 4]);
}

#[test]
fn operands_in_machine_order() {
    let mut c: Compiler<u32> = Compiler::new(FunctionKind::Script);
    c.emit_constant_op(OpCode::Constant, 0x0102, native_big_endian(), 1);
    let b = 0x0102u16.to_ne_bytes();
    assert_eq!(c.chunk.code, vec![0, b[0], b[1]]);
    c.emit_variable_op(OpCode::GetLocal, 7, native_big_endian(), 1);
    assert_eq!(c.chunk.code[3..], [OpCode::GetLocal.to_byte(), 7]);
    c.emit_variable_op(OpCode::GetGlobal, 0x0102, native_big_endian(), 1);
    assert_eq!(c.chunk.code[5..], [OpCode::GetGlobal.to_byte(), b[0], b[1]]);
}

#[test]
fn jumps_are_patched_later() {
    let mut c: Compiler<u32> = Compiler::new(FunctionKind::Script);
    let at = c.emit_jump(OpCode::JumpIfFalse, 2);
    assert_eq!(at, 1);
    assert_eq!(c.chunk.code, vec![OpCode::JumpIfFalse.to_byte(), 0xff, 0xff]);
    c.emit_byte(OpCode::Pop.to_byte(), 2);
    assert_eq!(c.patch_jump(at, native_big_endian()), Ok(()));
    assert_eq!(c.chunk.code[1..3], 1u16.to_ne_bytes());
}

#[test]
fn loops_jump_back_to_their_start() {
    let mut c: Compiler<u32> = Compiler::new(FunctionKind::Script);
    c.emit_byte(OpCode::Nil.to_byte(), 1);
    c.emit_byte(OpCode::Pop.to_byte(), 1);
    assert!(c.emit_loop(0, native_big_endian(), 1));
    // From the end of the three-byte loop instruction back to offset 0.
    assert_eq!(c.chunk.code[2], OpCode::Loop.to_byte());
    assert_eq!(c.chunk.code[3..5], 5u16.to_ne_bytes());
}

#[test]
fn loop_bodies_are_limited() {
    let mut c: Compiler<u32> = Compiler::new(FunctionKind::Script);
    for _ in 0..65534 {
        c.emit_byte(OpCode::Nil.to_byte(), 1);
    }
    assert!(!c.emit_loop(0, native_big_endian(), 1));
    assert_eq!(c.chunk.code.len(), 65537);
}

#[test]
fn constants_are_numbered() {
    let mut c: Compiler<u32> = Compiler::new(FunctionKind::Script);
    assert_eq!(c.make_constant(10), Some(0));
    assert_eq!(c.make_constant(20), Some(1));
    for i in 2..65536u32 {
        c.make_constant(i);
    }
    assert_eq!(c.make_constant(7), None);
    assert_eq!(c.chunk.constants.len(), 65537);
}

#[test]
fn scope_end_pops_and_closes() {
    let mut c: Compiler<u32> = Compiler::new(FunctionKind::Script);
    c.scope_depth = 1;
    c.locals.push(local("a", 1, true));
    c.locals.push(local("b", 1, false));
    c.end_scope(9);
    assert_eq!(c.scope_depth, 0);
    assert_eq!(c.chunk.code, vec![OpCode::Pop.to_byte(), OpCode::CloseUpvalue.to_byte()]);
    assert_eq!(c.chunk.lines, vec![9, 9]);
    assert_eq!(c.locals.len(), 1);
}

#[test]
fn scope_end_can_keep_the_locals() {
    let mut c: Compiler<u32> = Compiler::new(FunctionKind::Script);
    c.locals.push(local("a", 1, false));
    c.locals.push(local("b", 2, false));
    c.emit_scope_end(false, 1, 5);
    assert_eq!(c.chunk.code, vec![OpCode::Pop.to_byte()]);
    assert_eq!(c.locals.len(), 3);
}

#[test]
fn declarations_report_duplicates_in_the_same_scope() {
    let mut c: Compiler<u32> = Compiler::new(FunctionKind::Script);
    assert!(c.declare_variable(&token("g")).is_empty());
    assert_eq!(c.locals.len(), 1);
    c.scope_depth = 1;
    c.locals.push(local("x", 0, false));
    assert!(c.declare_variable(&token("x")).is_empty());
    c.mark_last_initialised();
    assert_eq!(
        c.declare_variable(&token("x")),
        vec!["Variable with this name already declared in this scope.".to_owned()]
    );
    assert_eq!(c.locals.len(), 4);
}

#[test]
fn declarations_report_a_full_function() {
    let mut c: Compiler<u32> = Compiler::new(FunctionKind::Script);
    c.scope_depth = 1;
    for i in 1..256 {
        c.locals.push(local(&format!("v{}", i), 1, false));
    }
    assert_eq!(c.declare_variable(&token("w")), vec!["Too many variables in function.".to_owned()]);
    assert_eq!(c.locals.len(), 256);
}

fn nested() -> Vec<Compiler<u32>> {
    let mut outer: Compiler<u32> = Compiler::new(FunctionKind::Script);
    outer.locals.push(local("x", 1, false));
    outer.locals.push(local("y", 1, false));
    let middle: Compiler<u32> = Compiler::new(FunctionKind::Function);
    let inner: Compiler<u32> = Compiler::new(FunctionKind::Function);
    vec![outer, middle, inner]
}

#[test]
fn captures_pass_through_each_function() {
    let mut cs = nested();
    assert_eq!(resolve_upvalue(&mut cs, &token("y")), Ok(Some(0)));
    assert!(cs[0].locals[2].is_captured);
    assert!(!cs[0].locals[1].is_captured);
    assert_eq!(cs[1].upvalues, vec![Upvalue { index: 2, is_local: true }]);
    assert_eq!(cs[2].upvalues, vec![Upvalue { index: 0, is_local: false }]);
    assert_eq!(resolve_upvalue(&mut cs, &token("x")), Ok(Some(1)));
    assert_eq!(cs[1].upvalues[1], Upvalue { index: 1, is_local: true });
    assert_eq!(cs[2].upvalues[1], Upvalue { index: 1, is_local: false });
}

#[test]
fn resolving_again_reuses_the_capture() {
    let mut cs = nested();
    assert_eq!(resolve_upvalue(&mut cs, &token("x")), Ok(Some(0)));
    assert_eq!(resolve_upvalue(&mut cs, &token("x")), Ok(Some(0)));
    assert_eq!(cs[1].upvalues.len(), 1);
    assert_eq!(cs[2].upvalues.len(), 1);
}

#[test]
fn unknown_names_are_not_captured() {
    let mut cs = nested();
    assert_eq!(resolve_upvalue(&mut cs, &token("z")), Ok(None));
    assert!(cs[1].upvalues.is_empty());
    let mut one = vec![Compiler::<u32>::new(FunctionKind::Script)];
    assert_eq!(resolve_upvalue(&mut one, &token("x")), Err(CompilerError::InvalidCompilerKind));
}

#[test]
fn full_functions_refuse_captures() {
    let mut cs = nested();
    for i in 0..UPVALUES_MAX {
        cs[1].add_upvalue(i as u8, false).unwrap();
    }
    assert_eq!(resolve_upvalue(&mut cs, &token("x")), Err(CompilerError::TooManyClosureVars));
    assert!(cs[2].upvalues.is_empty());
}
