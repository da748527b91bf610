use tracelang::ast::Stmt;
use tracelang::bytecode::BC;
use tracelang::codegen::compile_module;
use tracelang::lexer::{LexError, Lexer, Token};
use tracelang::parser::{ParseError, Parser};

fn lex_all(src: &str) -> Vec<Token> {
    let mut lx = Lexer::new(src.as_bytes().to_vec());
    let mut toks = Vec::new();
    loop {
        match lx.next_token().expect("lex") {
            Token::EOF => break,
            t => toks.push(t),
        }
    }
    toks
}

#[test]
fn lexes_numbers_idents_keywords_and_punctuation() {
    let toks = lex_all("fn foo(a, b) { return a + 12; } print foo;");
    assert!(matches!(toks[0], Token::Fn));
    assert!(matches!(&toks[1], Token::Ident(s) if s == b"foo"));
    assert!(matches!(toks[2], Token::LParen));
    assert!(matches!(&toks[3], Token::Ident(s) if s == b"a"));
    assert!(matches!(toks[4], Token::Comma));
    assert!(matches!(&toks[5], Token::Ident(s) if s == b"b"));
    assert!(matches!(toks[6], Token::RParen));
    assert!(matches!(toks[7], Token::LBrace));
    assert!(matches!(toks[8], Token::Return));
    assert!(matches!(&toks[9], Token::Ident(s) if s == b"a"));
    assert!(matches!(toks[10], Token::Plus));
    assert!(matches!(toks[11], Token::Number(12)));
    assert!(matches!(toks[12], Token::Semicolon));
    assert!(matches!(toks[13], Token::RBrace));
    assert!(matches!(toks[14], Token::Print));
    assert!(matches!(&toks[15], Token::Ident(s) if s == b"foo"));
    assert!(matches!(toks[16], Token::Semicolon));
    assert_eq!(toks.len(), 17);
}

#[test]
fn lexes_exact_number_values() {
    let toks = lex_all("12345 007 0");
    assert!(matches!(toks[0], Token::Number(12345)));
    assert!(matches!(toks[1], Token::Number(7)));
    assert!(matches!(toks[2], Token::Number(0)));
}

#[test]
fn number_overflow_is_reported() {
    let mut lx = Lexer::new(b"99999999999999999999".to_vec());
    assert!(matches!(lx.next_token(), Err(LexError::NumberTooLarge)));
    // the largest value itself still lexes
    let mut lx2 = Lexer::new(b"9223372036854775807".to_vec());
    assert!(matches!(lx2.next_token(), Ok(Token::Number(i64::MAX))));
}

#[test]
fn unknown_bytes_are_skipped() {
    let toks = lex_all("x # $ = 1");
    assert!(matches!(&toks[0], Token::Ident(s) if s == b"x"));
    assert!(matches!(toks[1], Token::Assign));
    assert!(matches!(toks[2], Token::Number(1)));
    assert_eq!(toks.len(), 3);
}

#[test]
fn keywords_require_exact_spelling() {
    let toks = lex_all("printer fns returns");
    assert!(matches!(&toks[0], Token::Ident(s) if s == b"printer"));
    assert!(matches!(&toks[1], Token::Ident(s) if s == b"fns"));
    assert!(matches!(&toks[2], Token::Ident(s) if s == b"returns"));
}

fn parse(src: &str) -> Result<Vec<Stmt>, ParseError> {
    let mut p = Parser::new(Lexer::new(src.as_bytes().to_vec()))?;
    p.parse_program()
}

#[test]
fn parses_assignment_print_and_function() {
    let prog = parse("fn f(a) { return a; } x = f(1) + 2; print x;").expect("parse");
    assert_eq!(prog.len(), 3);
    assert!(matches!(&prog[0], Stmt::FunctionDef(f) if f.name == b"f" && f.params.len() == 1));
    assert!(matches!(&prog[1], Stmt::Assign(name, _) if name == b"x"));
    assert!(matches!(&prog[2], Stmt::Print(_)));
}

#[test]
fn malformed_input_is_an_error_not_a_panic() {
    assert!(matches!(parse("print ;"), Err(ParseError::UnexpectedToken)));
    assert!(matches!(parse("x = 1"), Err(ParseError::UnexpectedToken)));
    assert!(matches!(parse("fn () {}"), Err(ParseError::UnexpectedToken)));
    assert!(matches!(parse("= 3;"), Err(ParseError::UnexpectedToken)));
    assert!(matches!(parse("x = 99999999999999999999;"), Err(ParseError::NumberTooLarge)));
}

#[test]
fn codegen_emits_expected_sequence() {
    let prog = parse("x = 1 + 2; print x;").expect("parse");
    let m = compile_module(prog);
    let code = &m.main.code;
    assert!(matches!(code[0], BC::LoadConst(1)));
    assert!(matches!(code[1], BC::LoadConst(2)));
    assert!(matches!(code[2], BC::Add));
    assert!(matches!(&code[3], BC::StoreVar(s) if s == b"x"));
    assert!(matches!(&code[4], BC::LoadVar(s) if s == b"x"));
    assert!(matches!(code[5], BC::Print));
    // synthesised "return zero" tail
    assert!(matches!(code[6], BC::LoadConst(0)));
    assert!(matches!(code[7], BC::Ret));
    assert_eq!(code.len(), 8);
}

#[test]
fn codegen_every_prototype_ends_in_return() {
    let prog = parse("fn f() { x = 1; } fn g() { return 2; }").expect("parse");
    let m = compile_module(prog);
    assert!(matches!(m.main.code.last(), Some(BC::Ret)));
    for f in &m.funs {
        assert!(matches!(f.code.last(), Some(BC::Ret)));
    }
    // f got a synthesised tail, g kept its own single return
    let f = m.funs.iter().find(|p| p.name == b"f").unwrap();
    let n = f.code.len();
    assert!(matches!(f.code[n - 2], BC::LoadConst(0)));
}

#[test]
fn codegen_call_arguments_precede_call() {
    let prog = parse("print f(1, 2);").expect("parse");
    let m = compile_module(prog);
    let code = &m.main.code;
    assert!(matches!(code[0], BC::LoadConst(1)));
    assert!(matches!(code[1], BC::LoadConst(2)));
    assert!(matches!(&code[2], BC::Call(name, 2) if name == b"f"));
    assert!(matches!(code[3], BC::Print));
}

#[test]
fn later_function_definition_replaces_earlier() {
    let prog = parse("fn f() { return 1; } fn f() { return 2; }").expect("parse");
    let m = compile_module(prog);
    assert_eq!(m.funs.len(), 1);
    assert!(matches!(m.funs[0].code[0], BC::LoadConst(2)));
}

#[test]
fn empty_program_compiles_to_return_zero() {
    let prog = parse("").expect("parse");
    let m = compile_module(prog);
    assert!(matches!(m.main.code[0], BC::LoadConst(0)));
    assert!(matches!(m.main.code[1], BC::Ret));
    assert_eq!(m.main.code.len(), 2);
}
