//! The abstract syntax tree produced by the parser and consumed by the code
//! generator. Only integer literals, variables, addition and calls exist.

use vstd::prelude::*;

verus! {

#[derive(Debug)]
pub enum Expr {
    Number(i64),
    Var(Vec<u8>),
    Add(Box<Expr>, Box<Expr>),
    Call(Vec<u8>, Vec<Expr>),
}

#[derive(Debug)]
pub enum Stmt {
    Assign(Vec<u8>, Expr),
    Print(Expr),
    Return(Expr),
    FunctionDef(Function),
}

#[derive(Debug)]
pub struct Function {
    pub name: Vec<u8>,
    pub params: Vec<Vec<u8>>,
    pub body: Vec<Stmt>,
}

} // verus!
