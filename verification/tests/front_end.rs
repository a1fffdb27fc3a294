use yarel::chunk::OpCode;
use yarel::compiler::Precedence;
use yarel::error::ErrorKind;
use yarel::parser::{parse_rule, InfixRule, ParseRule, PrefixRule};
use yarel::scanner::TokenKind;
use yarel::chunk::Chunk;
use yarel::frontend::{closure_end, compile, Constant, Function};

/// Whether this machine stores the most significant byte first.
fn native_big_endian() -> bool {
    u16::from_ne_bytes([0, 1]) == 1
}

fn op(o: OpCode) -> u8 {
    o.to_byte()
}

fn short(v: u16) -> [u8; 2] {
    v.to_ne_bytes()
}

fn compiled(source: &str) -> Function {
    match compile(source.to_owned(), None, native_big_endian()) {
        Ok(f) => f,
        Err(e) => panic!("unexpected errors: {:?}", e.get_messages()),
    }
}

fn errors(source: &str) -> Vec<String> {
    match compile(source.to_owned(), None, native_big_endian()) {
        Ok(_) => panic!("expected a compile error"),
        Err(e) => {
            assert_eq!(e.get_kind(), ErrorKind::CompileError);
            e.get_messages().clone()
        },
    }
}

fn with_short(o: OpCode, v: u16) -> Vec<u8> {
    let b = short(v);
    vec![op(o), b[0], b[1]]
}

fn number(c: &Constant) -> String {
    match c {
        Constant::Number(n) => n.clone(),
        _ => panic!("not a number constant"),
    }
}

fn name(c: &Constant) -> String {
    match c {
        Constant::Name(n) => n.clone(),
        _ => panic!("not a name constant"),
    }
}

#[test]
fn empty_script_returns_nil() {
    let f = compiled("");
    assert_eq!(f.arity, 1);
    assert_eq!(f.upvalue_count, 0);
    assert_eq!(f.chunk.code, vec![op(OpCode::Nil), op(OpCode::Return)]);
    assert_eq!(f.chunk.lines.len(), f.chunk.code.len());
}

#[test]
fn binary_expression_statement() {
    let f = compiled("1 + 2;");
    let mut expected = with_short(OpCode::Constant, 0);
    expected.extend(with_short(OpCode::Constant, 1));
    expected.extend([op(OpCode::Add), op(OpCode::Pop), op(OpCode::Nil), op(OpCode::Return)]);
    assert_eq!(f.chunk.code, expected);
    assert_eq!(number(&f.chunk.constants[0]), "1");
    assert_eq!(number(&f.chunk.constants[1]), "2");
}

#[test]
fn factor_binds_tighter_than_term() {
    let f = compiled("1 + 2 * 3;");
    let mut expected = with_short(OpCode::Constant, 0);
    expected.extend(with_short(OpCode::Constant, 1));
    expected.extend(with_short(OpCode::Constant, 2));
    expected.extend([op(OpCode::Multiply), op(OpCode::Add), op(OpCode::Pop), op(OpCode::Nil), op(OpCode::Return)]);
    assert_eq!(f.chunk.code, expected);
}

#[test]
fn comparisons_negate_their_complement() {
    let f = compiled("1 <= 2;");
    let n = f.chunk.code.len();
    assert_eq!(&f.chunk.code[n - 5..], &[op(OpCode::Greater), op(OpCode::Not), op(OpCode::Pop), op(OpCode::Nil), op(OpCode::Return)]);
}

#[test]
fn unary_and_literals() {
    let f = compiled("!true; -nil;");
    assert_eq!(
        f.chunk.code,
        vec![
            op(OpCode::True),
            op(OpCode::Not),
            op(OpCode::Pop),
            op(OpCode::Nil),
            op(OpCode::Negate),
            op(OpCode::Pop),
            op(OpCode::Nil),
            op(OpCode::Return),
        ]
    );
}

#[test]
fn global_variable_declared_and_read() {
    let f = compiled("var x = 1; x;");
    let mut expected = with_short(OpCode::Constant, 1);
    expected.extend(with_short(OpCode::DefineGlobal, 0));
    expected.extend(with_short(OpCode::GetGlobal, 2));
    expected.extend([op(OpCode::Pop), op(OpCode::Nil), op(OpCode::Return)]);
    assert_eq!(f.chunk.code, expected);
    assert_eq!(name(&f.chunk.constants[0]), "x");
    assert_eq!(number(&f.chunk.constants[1]), "1");
    assert_eq!(name(&f.chunk.constants[2]), "x");
}

#[test]
fn local_variable_in_block() {
    let f = compiled("{ var a = 1; a; }");
    let mut expected = with_short(OpCode::Constant, 0);
    expected.extend([op(OpCode::GetLocal), 1, op(OpCode::Pop), op(OpCode::Pop), op(OpCode::Nil), op(OpCode::Return)]);
    assert_eq!(f.chunk.code, expected);
}

#[test]
fn local_assignment() {
    let f = compiled("{ var a; a = 2; }");
    let mut expected = vec![op(OpCode::Nil)];
    expected.extend(with_short(OpCode::Constant, 0));
    expected.extend([op(OpCode::SetLocal), 1, op(OpCode::Pop), op(OpCode::Pop), op(OpCode::Nil), op(OpCode::Return)]);
    assert_eq!(f.chunk.code, expected);
}

#[test]
fn and_jumps_past_its_right_operand() {
    let f = compiled("true and false;");
    let mut expected = vec![op(OpCode::True)];
    expected.extend(with_short(OpCode::JumpIfFalse, 2));
    expected.extend([op(OpCode::Pop), op(OpCode::False), op(OpCode::Pop), op(OpCode::Nil), op(OpCode::Return)]);
    assert_eq!(f.chunk.code, expected);
}

#[test]
fn or_skips_its_right_operand_when_true() {
    let f = compiled("false or true;");
    let mut expected = vec![op(OpCode::False)];
    expected.extend(with_short(OpCode::JumpIfFalse, 3));
    expected.extend(with_short(OpCode::Jump, 2));
    expected.extend([op(OpCode::Pop), op(OpCode::True), op(OpCode::Pop), op(OpCode::Nil), op(OpCode::Return)]);
    assert_eq!(f.chunk.code, expected);
}

#[test]
fn if_else_jumps() {
    let f = compiled("if true { 1; } else { 2; }");
    let mut expected = vec![op(OpCode::True)];
    expected.extend(with_short(OpCode::JumpIfFalse, 8));
    expected.push(op(OpCode::Pop));
    expected.extend(with_short(OpCode::Constant, 0));
    expected.push(op(OpCode::Pop));
    expected.extend(with_short(OpCode::Jump, 5));
    expected.push(op(OpCode::Pop));
    expected.extend(with_short(OpCode::Constant, 1));
    expected.push(op(OpCode::Pop));
    expected.extend([op(OpCode::Nil), op(OpCode::Return)]);
    assert_eq!(f.chunk.code, expected);
}

#[test]
fn while_loops_back_to_its_condition() {
    let f = compiled("while false { }");
    let mut expected = vec![op(OpCode::False)];
    expected.extend(with_short(OpCode::JumpIfFalse, 4));
    expected.push(op(OpCode::Pop));
    expected.extend(with_short(OpCode::Loop, 8));
    expected.push(op(OpCode::Pop));
    expected.extend([op(OpCode::Nil), op(OpCode::Return)]);
    assert_eq!(f.chunk.code, expected);
}

#[test]
fn calls_lists_and_ranges() {
    let f = compiled("f(1, 2); [1]; 1..2;");
    assert_eq!(f.chunk.code[0], op(OpCode::GetGlobal));
    assert_eq!(&f.chunk.code[9..11], &[op(OpCode::Call), 2]);
    assert_eq!(&f.chunk.code[15..17], &[op(OpCode::BuildVec), 1]);
    assert_eq!(f.chunk.code[24], op(OpCode::BuildRange));
}

#[test]
fn missing_operand_is_reported() {
    let e = errors("1 +;");
    assert_eq!(e, vec!["[module \"main\", line 1] Error at ';': Expected expression.".to_owned()]);
}

#[test]
fn return_at_top_level_is_reported() {
    let e = errors("return;");
    assert_eq!(e, vec!["[module \"main\", line 1] Error at 'return': Cannot return from top-level code.".to_owned()]);
}

#[test]
fn invalid_assignment_target_is_reported() {
    let e = errors("1 = 2;");
    assert_eq!(e, vec!["[module \"main\", line 1] Error at '=': Invalid assignment target.".to_owned()]);
}

#[test]
fn one_error_per_statement_after_recovery() {
    let e = errors("1 +;\n2 *;");
    assert_eq!(
        e,
        vec![
            "[module \"main\", line 1] Error at ';': Expected expression.".to_owned(),
            "[module \"main\", line 2] Error at ';': Expected expression.".to_owned(),
        ]
    );
}

#[test]
fn duplicate_local_is_reported() {
    let e = errors("{ var a = 1; var a = 2; }");
    assert_eq!(
        e,
        vec!["[module \"main\", line 1] Error at 'a': Variable with this name already declared in this scope.".to_owned()]
    );
}

fn function(c: &Constant) -> &Function {
    match c {
        Constant::Function(f) => f,
        _ => panic!("not a function constant"),
    }
}

#[test]
fn script_takes_its_receiver_slot() {
    let f = compiled("1;");
    assert_eq!(f.arity, 1);
    assert_eq!(f.name, "");
}

#[test]
fn function_declaration_binds_a_closure() {
    let f = compiled("fn f(a) { return a; }");
    let mut expected = with_short(OpCode::Closure, 1);
    expected.extend(with_short(OpCode::DefineGlobal, 0));
    expected.extend([op(OpCode::Nil), op(OpCode::Return)]);
    assert_eq!(f.chunk.code, expected);
    assert_eq!(name(&f.chunk.constants[0]), "f");
    let inner = function(&f.chunk.constants[1]);
    assert_eq!(inner.name, "f");
    assert_eq!(inner.arity, 2);
    assert_eq!(inner.upvalue_count, 0);
    assert_eq!(
        inner.chunk.code,
        vec![op(OpCode::GetLocal), 1, op(OpCode::Return), op(OpCode::Nil), op(OpCode::Return)]
    );
}

#[test]
fn closure_captures_enclosing_local() {
    let f = compiled("fn outer() { var x = 1; fn inner() { return x; } }");
    let outer = function(&f.chunk.constants[1]);
    let mut expected = with_short(OpCode::Constant, 0);
    expected.extend(with_short(OpCode::Closure, 1));
    expected.extend([1, 1, op(OpCode::Nil), op(OpCode::Return)]);
    assert_eq!(outer.chunk.code, expected);
    let inner = function(&outer.chunk.constants[1]);
    assert_eq!(inner.upvalue_count, 1);
    assert_eq!(
        inner.chunk.code,
        vec![op(OpCode::GetUpvalue), 0, op(OpCode::Return), op(OpCode::Nil), op(OpCode::Return)]
    );
}

#[test]
fn lambda_returns_its_expression() {
    let f = compiled("var f = |a| a;");
    let mut expected = with_short(OpCode::Closure, 1);
    expected.extend(with_short(OpCode::DefineGlobal, 0));
    expected.extend([op(OpCode::Nil), op(OpCode::Return)]);
    assert_eq!(f.chunk.code, expected);
    let lambda = function(&f.chunk.constants[1]);
    assert_eq!(lambda.name, "lambda-0");
    assert_eq!(lambda.arity, 2);
    assert_eq!(
        lambda.chunk.code,
        vec![op(OpCode::GetLocal), 1, op(OpCode::Return), op(OpCode::Nil), op(OpCode::Return)]
    );
}

#[test]
fn for_loop_iterates_with_a_hidden_iterator() {
    let f = compiled("for x in v { }");
    let mut expected = vec![op(OpCode::Nil)];
    expected.extend(with_short(OpCode::GetGlobal, 0));
    expected.extend(with_short(OpCode::Invoke, 1));
    expected.push(0);
    expected.extend([op(OpCode::IterNext), op(OpCode::SetLocal), 1]);
    expected.extend(with_short(OpCode::JumpIfSentinel, 4));
    expected.push(op(OpCode::Pop));
    expected.extend(with_short(OpCode::Loop, 10));
    expected.extend([op(OpCode::Pop), op(OpCode::Pop), op(OpCode::Pop), op(OpCode::Nil), op(OpCode::Return)]);
    assert_eq!(f.chunk.code, expected);
    assert_eq!(name(&f.chunk.constants[1]), "iter");
}

#[test]
fn class_with_a_method() {
    let f = compiled("class A { fn m(self) { return self; } }");
    let mut expected = with_short(OpCode::DeclareClass, 0);
    expected.extend(with_short(OpCode::DefineGlobal, 0));
    expected.extend(with_short(OpCode::GetGlobal, 2));
    expected.extend(with_short(OpCode::Closure, 4));
    expected.extend(with_short(OpCode::Method, 3));
    expected.push(op(OpCode::DefineClass));
    expected.extend(with_short(OpCode::SetGlobal, 1));
    expected.extend([op(OpCode::Pop), op(OpCode::Nil), op(OpCode::Return)]);
    assert_eq!(f.chunk.code, expected);
    assert_eq!(name(&f.chunk.constants[3]), "m");
    let m = function(&f.chunk.constants[4]);
    assert_eq!(m.name, "m");
    assert_eq!(m.arity, 1);
    assert_eq!(
        m.chunk.code,
        vec![op(OpCode::GetLocal), 0, op(OpCode::Return), op(OpCode::Nil), op(OpCode::Return)]
    );
}

#[test]
fn self_outside_a_class_is_reported() {
    let e = errors("self;");
    assert_eq!(e, vec!["[module \"main\", line 1] Error at 'self': Cannot use 'self' outside of a class.".to_owned()]);
}

#[test]
fn super_in_a_class_without_superclass_is_reported() {
    let e = errors("class A { fn m(self) { super.m(); } }");
    assert_eq!(
        e,
        vec!["[module \"main\", line 1] Error at 'super': Cannot use 'super' in a class with no superclass.".to_owned()]
    );
}

#[test]
fn minus_starts_a_negation_and_continues_a_subtraction() {
    assert_eq!(
        parse_rule(TokenKind::Minus),
        ParseRule { prefix: Some(PrefixRule::Unary), infix: Some(InfixRule::Binary), precedence: Precedence::Term }
    );
    assert_eq!(
        parse_rule(TokenKind::And),
        ParseRule { prefix: None, infix: Some(InfixRule::And), precedence: Precedence::And }
    );
    assert_eq!(parse_rule(TokenKind::Eof), ParseRule { prefix: None, infix: None, precedence: Precedence::NoPrecedence });
}

#[test]
fn script_starting_with_an_expression_writes_code() {
    let f = compiled("x;");
    assert!(f.chunk.code.len() > 2);
    let mut expected = with_short(OpCode::GetGlobal, 0);
    expected.push(op(OpCode::Pop));
    expected.push(op(OpCode::Nil));
    expected.push(op(OpCode::Return));
    assert_eq!(f.chunk.code, expected);
}

#[test]
fn empty_block_writes_no_code() {
    let f = compiled("{}");
    assert_eq!(f.chunk.code, vec![op(OpCode::Nil), op(OpCode::Return)]);
}

#[test]
fn closure_listing_ends_after_its_captures() {
    let inner = Function {
        name: "f".to_owned(),
        arity: 1,
        upvalue_count: 2,
        chunk: Chunk { code: vec![], lines: vec![], constants: vec![] },
    };
    let chunk = Chunk {
        code: vec![op(OpCode::Closure), 0, 0, 1, 0, 0, 1, op(OpCode::Nil)],
        lines: vec![1; 8],
        constants: vec![Constant::Function(inner), Constant::Number("1".to_owned())],
    };
    assert_eq!(closure_end(&chunk, 0, false), Some(7));
    let not_a_function = Chunk {
        code: vec![op(OpCode::Closure), 1, 0],
        lines: vec![1; 3],
        constants: vec![Constant::Number("0".to_owned()), Constant::Number("1".to_owned())],
    };
    assert_eq!(closure_end(&not_a_function, 0, false), None);
    assert_eq!(closure_end(&not_a_function, 0, true), None);
}

#[test]
fn blanks_and_comments_compile_to_the_return_alone() {
    let f = compiled("  \n\t// nothing here\n");
    assert_eq!(f.chunk.code, vec![op(OpCode::Nil), op(OpCode::Return)]);
}

#[test]
fn malformed_first_token_fails() {
    assert!(compile("@ 1;".to_owned(), None, native_big_endian()).is_err());
    assert!(compile("\"open".to_owned(), None, native_big_endian()).is_err());
}
