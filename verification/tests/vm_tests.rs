use tracelang::bytecode::BC;
use tracelang::codegen::{compile_module, FunctionProto, Module};
use tracelang::lexer::Lexer;
use tracelang::parser::Parser;
use tracelang::vm::{Frame, VmError, VM};

fn run_source(src: &str) -> (Result<i64, VmError>, Vec<i64>) {
    let lexer = Lexer::new(src.as_bytes().to_vec());
    let mut parser = Parser::new(lexer).expect("tokenise");
    let ast = parser.parse_program().expect("parse");
    let module = compile_module(ast);
    let mut vm = VM::new(module);
    let r = vm.run_main();
    (r, vm.output().clone())
}

fn bare_module(code: Vec<BC>) -> Module {
    Module {
        funs: Vec::new(),
        main: FunctionProto { name: b"main".to_vec(), params: Vec::new(), code },
    }
}

#[test]
fn arithmetic_round_trip_prints_five() {
    let (r, out) = run_source("x = 2 + 3; print x;");
    assert_eq!(r, Ok(0));
    assert_eq!(out, vec![5]);
}

#[test]
fn call_semantics_prints_5_15_22() {
    let src = "
        fn add(a, b) {
            return a + b;
        }
        fn twice(z) {
            return add(z, z);
        }
        x = add(2, 3);
        print x;
        y = twice(x);
        print add(x, y);
        print add(x + y, 7);
    ";
    let (r, out) = run_source(src);
    assert_eq!(r, Ok(0));
    assert_eq!(out, vec![5, 15, 22]);
}

#[test]
fn worked_example_prints_5_10_22() {
    let src = "
        fn add(a, b) {
            return a + b;
        }
        fn twice(x) {
            return add(x, x);
        }
        x = add(2, 3);
        print x;
        y = twice(x);
        print y;
        print add(x + y, 7);
    ";
    let (r, out) = run_source(src);
    assert_eq!(r, Ok(0));
    assert_eq!(out, vec![5, 10, 22]);
}

#[test]
fn stack_underflow_is_fatal_not_defaulted() {
    let mut vm = VM::new(bare_module(vec![BC::Add, BC::Ret]));
    assert_eq!(vm.run_main(), Err(VmError::StackUnderflow));
    assert_eq!(vm.output().len(), 0);

    let mut vm2 = VM::new(bare_module(vec![BC::LoadConst(1), BC::Add, BC::Ret]));
    assert_eq!(vm2.run_main(), Err(VmError::StackUnderflow));
}

#[test]
fn addition_wraps_on_overflow() {
    let mut vm = VM::new(bare_module(vec![
        BC::LoadConst(i64::MAX),
        BC::LoadConst(1),
        BC::Add,
        BC::Ret,
    ]));
    assert_eq!(vm.run_main(), Ok(i64::MIN));
}

#[test]
fn return_on_empty_stack_yields_zero() {
    let mut vm = VM::new(bare_module(vec![BC::Ret]));
    assert_eq!(vm.run_main(), Ok(0));
}

#[test]
fn falling_off_the_end_is_an_error() {
    let mut vm = VM::new(bare_module(vec![BC::LoadConst(1)]));
    assert_eq!(vm.run_main(), Err(VmError::MissingReturn));
}

#[test]
fn undefined_variable_is_an_error() {
    let mut vm = VM::new(bare_module(vec![BC::LoadVar(b"x".to_vec()), BC::Ret]));
    assert_eq!(vm.run_main(), Err(VmError::UndefinedVariable));
}

#[test]
fn undefined_function_is_an_error() {
    let mut vm = VM::new(bare_module(vec![BC::Call(b"nope".to_vec(), 0), BC::Ret]));
    assert_eq!(vm.run_main(), Err(VmError::UndefinedFunction));
}

#[test]
fn arity_mismatch_is_an_error() {
    let module = Module {
        funs: vec![FunctionProto {
            name: b"f".to_vec(),
            params: vec![b"a".to_vec()],
            code: vec![BC::LoadConst(0), BC::Ret],
        }],
        main: FunctionProto {
            name: b"main".to_vec(),
            params: Vec::new(),
            code: vec![BC::Call(b"f".to_vec(), 0), BC::Ret],
        },
    };
    let mut vm = VM::new(module);
    assert_eq!(vm.run_main(), Err(VmError::ArityMismatch));
}

#[test]
fn runaway_recursion_exceeds_call_depth() {
    let (r, out) = run_source("fn f() { return f(); } x = f();");
    assert_eq!(r, Err(VmError::DepthExceeded));
    assert_eq!(out.len(), 0);
}

#[test]
fn scoping_is_strictly_per_frame() {
    // the callee must not observe the caller's local y
    let (r, _) = run_source("fn f() { return y; } y = 1; print f();");
    assert_eq!(r, Err(VmError::UndefinedVariable));
}

#[test]
fn output_is_ordered_and_partial_on_error() {
    let mut vm = VM::new(bare_module(vec![
        BC::LoadConst(1),
        BC::Print,
        BC::LoadConst(2),
        BC::Print,
        BC::Add,
        BC::Ret,
    ]));
    assert_eq!(vm.run_main(), Err(VmError::StackUnderflow));
    // both prints executed before the failing add
    assert_eq!(vm.output().clone(), vec![1, 2]);
}

#[test]
fn frame_set_then_get_reads_latest_binding() {
    let mut frame = Frame::new();
    assert_eq!(VM::get(&frame, &b"x".to_vec()), None);
    VM::set(&mut frame, &b"x".to_vec(), 1);
    VM::set(&mut frame, &b"y".to_vec(), 2);
    VM::set(&mut frame, &b"x".to_vec(), 3);
    assert_eq!(VM::get(&frame, &b"x".to_vec()), Some(3));
    assert_eq!(VM::get(&frame, &b"y".to_vec()), Some(2));
}

#[test]
fn call_as_statement_prints_its_result() {
    let (r, out) = run_source("fn g() { return 9; } g();");
    assert_eq!(r, Ok(0));
    assert_eq!(out, vec![9]);
}
