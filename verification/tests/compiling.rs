use yarel::compiler::{
    check_num_args, Compiler, CompilerError, FunctionKind, Precedence, Upvalue, JUMP_SIZE_MAX,
    LOCALS_MAX, UPVALUES_MAX,
};
use yarel::error::ErrorKind;
use yarel::scanner::Token;

/// Whether this machine stores the most significant byte first.
fn native_big_endian() -> bool {
    u16::from_ne_bytes([0, 1]) == 1
}

fn token(name: &str) -> Token {
    Token::from_string(name)
}

#[test]
fn limits() {
    assert_eq!(LOCALS_MAX, 256);
    assert_eq!(UPVALUES_MAX, 256);
    assert_eq!(JUMP_SIZE_MAX, 65536);
}

#[test]
fn arity_errors_name_both_counts() {
    assert!(check_num_args(2, 2).is_ok());
    let e = check_num_args(1, 2).unwrap_err();
    assert_eq!(e.get_kind(), ErrorKind::TypeError);
    assert_eq!(e.get_messages(), &vec!["Expected 2 parameters but found 1.".to_owned()]);
    let e = check_num_args(0, 1).unwrap_err();
    assert_eq!(e.get_messages()[0], "Expected 1 parameter but found 0.");
}

#[test]
fn precedence_levels_in_order() {
    assert_eq!(Precedence::from(0), Precedence::NoPrecedence);
    assert_eq!(Precedence::from(1), Precedence::Assignment);
    assert_eq!(Precedence::from(10), Precedence::Term);
    assert_eq!(Precedence::from(14), Precedence::Call);
    assert_eq!(Precedence::from(15), Precedence::Primary);
}

#[test]
fn function_kinds() {
    assert!(FunctionKind::Method.is_bound());
    assert!(FunctionKind::Initialiser.is_bound());
    assert!(!FunctionKind::StaticMethod.is_bound());
    assert!(!FunctionKind::Function.is_bound());
    assert!(!FunctionKind::Script.is_bound());
    assert_eq!(FunctionKind::default(), FunctionKind::Script);
}

#[test]
fn new_compiler_reserves_the_receiver_slot() {
    let c: Compiler<u32> = Compiler::new(FunctionKind::Method);
    assert_eq!(c.locals.len(), 1);
    assert_eq!(c.locals[0].name, "self");
    assert_eq!(c.locals[0].depth, Some(0));
    let c: Compiler<u32> = Compiler::new(FunctionKind::StaticMethod);
    assert_eq!(c.locals[0].name, "Self");
    let c: Compiler<u32> = Compiler::new(FunctionKind::Function);
    assert_eq!(c.locals[0].name, "");
    assert_eq!(c.upvalue_count(), 0);
}

#[test]
fn locals_resolve_innermost_first() {
    let mut c: Compiler<u32> = Compiler::new(FunctionKind::Function);
    assert!(c.add_local(&token("a")));
    assert_eq!(c.resolve_local(&token("a")), Err(CompilerError::ReadVarInInitialiser));
    c.mark_last_initialised();
    assert_eq!(c.resolve_local(&token("a")), Ok(1));
    c.scope_depth = 1;
    assert!(c.add_local(&token("a")));
    c.mark_initialised(2);
    assert_eq!(c.locals[2].depth, Some(1));
    assert_eq!(c.resolve_local(&token("a")), Ok(2));
    assert_eq!(c.resolve_local(&token("b")), Err(CompilerError::LocalNotFound));
}

#[test]
fn locals_are_limited() {
    let mut c: Compiler<u32> = Compiler::new(FunctionKind::Function);
    for _ in 1..LOCALS_MAX {
        assert!(c.add_local(&token("x")));
    }
    assert_eq!(c.locals.len(), LOCALS_MAX);
    assert!(!c.add_local(&token("y")));
    assert_eq!(c.locals.len(), LOCALS_MAX);
}

#[test]
fn upvalues_are_shared() {
    let mut c: Compiler<u32> = Compiler::new(FunctionKind::Function);
    assert_eq!(c.add_upvalue(3, true), Ok(0));
    assert_eq!(c.add_upvalue(3, false), Ok(1));
    assert_eq!(c.add_upvalue(3, true), Ok(0));
    assert_eq!(c.upvalue_count(), 2);
    assert_eq!(c.upvalues[1], Upvalue { index: 3, is_local: false });
}

#[test]
fn upvalues_are_limited() {
    let mut c: Compiler<u32> = Compiler::new(FunctionKind::Function);
    for i in 0..UPVALUES_MAX {
        assert_eq!(c.add_upvalue(i as u8, i >= 128), Ok(i as u8));
    }
    assert_eq!(c.add_upvalue(7, true), Err(CompilerError::TooManyClosureVars));
    assert_eq!(c.add_upvalue(7, false), Ok(7));
}

#[test]
fn patch_jump_writes_the_distance() {
    let mut c: Compiler<u32> = Compiler::new(FunctionKind::Script);
    for b in [34u8, 0xff, 0xff, 4, 4, 4] {
        c.chunk.write(b, 1);
    }
    assert_eq!(c.patch_jump(1, native_big_endian()), Ok(()));
    assert_eq!(&c.chunk.code[1..3], &3u16.to_ne_bytes());
    assert_eq!(c.chunk.code[0], 34);
    assert_eq!(c.chunk.code[3..], [4, 4, 4]);
}

#[test]
fn patch_jump_refuses_long_jumps() {
    let mut c: Compiler<u32> = Compiler::new(FunctionKind::Script);
    for _ in 0..(JUMP_SIZE_MAX + 3) {
        c.chunk.write(0, 1);
    }
    assert_eq!(c.patch_jump(0, native_big_endian()), Err(CompilerError::JumpTooLarge));
    assert!(c.chunk.code.iter().all(|b| *b == 0));
    assert_eq!(c.patch_jump(1, native_big_endian()), Ok(()));
}

#[test]
fn loops_patch_their_breaks() {
    let mut c: Compiler<u32> = Compiler::new(FunctionKind::Script);
    assert_eq!(c.current_loop_header(), None);
    assert_eq!(c.push_break(0), Err(CompilerError::InvalidControlStatement));
    c.chunk.write(1, 1);
    c.push_loop();
    assert_eq!(c.current_loop_header(), Some((1, 0)));
    for b in [33u8, 0xff, 0xff, 33, 0xff, 0xff, 9] {
        c.chunk.write(b, 1);
    }
    assert_eq!(c.push_break(2), Ok(()));
    assert_eq!(c.push_break(5), Ok(()));
    assert_eq!(c.pop_loop(native_big_endian()), Ok(()));
    assert_eq!(&c.chunk.code[2..4], &4u16.to_ne_bytes());
    assert_eq!(&c.chunk.code[5..7], &1u16.to_ne_bytes());
    assert_eq!(c.current_loop_header(), None);
}

#[test]
fn error_keeps_its_kind_through_added_messages() {
    let mut e = yarel::error::Error::with_message(ErrorKind::NameError, "first");
    for m in ["second", "third", "fourth"] {
        e.add_message(m);
        assert_eq!(e.get_kind(), ErrorKind::NameError);
    }
    assert_eq!(
        e.get_messages().clone(),
        vec!["first".to_owned(), "second".to_owned(), "third".to_owned(), "fourth".to_owned()]
    );
    let mut f = yarel::error::Error::new(ErrorKind::CompileError);
    f.add_message("only");
    assert_eq!(f.get_kind(), ErrorKind::CompileError);
}
