//! The recursive-descent parser: tokens in, syntax tree out. Like the lexer
//! this stage is mechanical tree building; its contracts state
//! well-formedness of the parser state and strict progress through the token
//! stream, on which termination of the descent rests. Malformed input is
//! reported as an error, never panicked on.

use vstd::prelude::*;

use crate::ast::{Expr, Function, Stmt};
use crate::bytecode::copy_bytes;
use crate::lexer::{Lexer, Token};

verus! {

/// A parse failure: an integer literal too large for the value type, or a
/// token where a different one was required.
#[derive(Debug, Clone, Copy, PartialEq, Eq, Structural)]
pub enum ParseError {
    NumberTooLarge,
    UnexpectedToken,
}

/// The parser holds the whole token stream (ending in a single EOF token)
/// and a cursor into it.
pub struct Parser {
    toks: Vec<Token>,
    i: usize,
}

impl Parser {
    pub closed spec fn spec_toks(&self) -> Seq<Token> {
        self.toks@
    }

    pub closed spec fn spec_i(&self) -> int {
        self.i as int
    }

    /// The token stream is nonempty, exactly its last token is EOF, and the
    /// cursor is in bounds.
    pub open spec fn wf(&self) -> bool {
        &&& self.spec_toks().len() > 0
        &&& self.spec_toks().last() matches Token::EOF
        &&& forall|j: int|
            0 <= j < self.spec_toks().len() - 1 ==> !((#[trigger] self.spec_toks()[j])
                matches Token::EOF)
        &&& 0 <= self.spec_i() < self.spec_toks().len()
    }

    /// Tokenises the whole input up front; the lexer's one error is passed
    /// through.
    pub fn new(lex: Lexer) -> (r: Result<Parser, ParseError>)
        requires
            lex.wf(),
        ensures
            r matches Ok(p) ==> p.wf() && p.spec_i() == 0,
    {
        let mut lx = lex;
        let mut toks: Vec<Token> = Vec::new();
        loop
            invariant
                lx.wf(),
                forall|j: int| 0 <= j < toks@.len() ==> !((#[trigger] toks@[j]) matches Token::EOF),
            ensures
                forall|j: int| 0 <= j < toks@.len() ==> !((#[trigger] toks@[j]) matches Token::EOF),
            decreases lx.spec_src().len() - lx.spec_pos(),
        {
            match lx.next_token() {
                Ok(t) => {
                    match t {
                        Token::EOF => {
                            break;
                        },
                        other => {
                            toks.push(other);
                        },
                    }
                },
                Err(_) => {
                    return Err(ParseError::NumberTooLarge);
                },
            }
        }
        toks.push(Token::EOF);
        Ok(Parser { toks, i: 0 })
    }

    /// The token under the cursor.
    pub fn cur(&self) -> (t: &Token)
        requires
            self.wf(),
        ensures
            *t == self.spec_toks()[self.spec_i()],
    {
        &self.toks[self.i]
    }

    /// Advances the cursor; at the trailing EOF it stays put, so EOF repeats.
    pub fn bump(&mut self)
        requires
            old(self).wf(),
        ensures
            final(self).wf(),
            final(self).spec_toks() == old(self).spec_toks(),
            final(self).spec_i() == (if old(self).spec_i() + 1 < old(self).spec_toks().len() {
                old(self).spec_i() + 1
            } else {
                old(self).spec_i()
            }),
    {
        if self.i < self.toks.len() - 1 {
            self.i = self.i + 1;
        }
    }

    /// Structural equality of two tokens.
    fn tok_eq(a: &Token, b: &Token) -> (r: bool)
        ensures
            r ==> ((*a matches Token::EOF) <==> (*b matches Token::EOF)),
    {
        match (a, b) {
            (Token::Number(x), Token::Number(y)) => *x == *y,
            (Token::Ident(x), Token::Ident(y)) => crate::bytecode::bytes_eq(x, y),
            (Token::Plus, Token::Plus) => true,
            (Token::Assign, Token::Assign) => true,
            (Token::Semicolon, Token::Semicolon) => true,
            (Token::Comma, Token::Comma) => true,
            (Token::LParen, Token::LParen) => true,
            (Token::RParen, Token::RParen) => true,
            (Token::LBrace, Token::LBrace) => true,
            (Token::RBrace, Token::RBrace) => true,
            (Token::Print, Token::Print) => true,
            (Token::Fn, Token::Fn) => true,
            (Token::Return, Token::Return) => true,
            (Token::EOF, Token::EOF) => true,
            _ => false,
        }
    }

    /// Demands exactly the wanted token and steps past it; anything else is
    /// an error.
    pub fn expect(&mut self, want: &Token) -> (r: Result<(), ParseError>)
        requires
            old(self).wf(),
            !(*want matches Token::EOF),
        ensures
            final(self).wf(),
            final(self).spec_toks() == old(self).spec_toks(),
            old(self).spec_i() <= final(self).spec_i(),
            r matches Ok(_) ==> final(self).spec_i() == old(self).spec_i() + 1,
    {
        let matched = Self::tok_eq(self.cur(), want);
        if matched {
            proof {
                assert(!(self.spec_toks()[self.spec_i()] matches Token::EOF));
                assert(self.spec_i() != self.spec_toks().len() - 1);
            }
            self.bump();
            Ok(())
        } else {
            Err(ParseError::UnexpectedToken)
        }
    }

    /// The whole program: function definitions and top-level statements,
    /// until EOF.
    pub fn parse_program(&mut self) -> (r: Result<Vec<Stmt>, ParseError>)
        requires
            old(self).wf(),
        ensures
            final(self).wf(),
    {
        let mut v: Vec<Stmt> = Vec::new();
        loop
            invariant
                self.wf(),
            ensures
                self.wf(),
            decreases self.spec_toks().len() - self.spec_i(),
        {
            let is_eof = match self.cur() {
                Token::EOF => true,
                _ => false,
            };
            if is_eof {
                break;
            }
            let is_fn = match self.cur() {
                Token::Fn => true,
                _ => false,
            };
            if is_fn {
                match self.parse_fn() {
                    Ok(f) => {
                        v.push(Stmt::FunctionDef(f));
                    },
                    Err(e) => {
                        return Err(e);
                    },
                }
            } else {
                match self.parse_stmt() {
                    Ok(s) => {
                        v.push(s);
                    },
                    Err(e) => {
                        return Err(e);
                    },
                }
            }
        }
        Ok(v)
    }

    /// One function definition: name, parenthesised parameter names, braced
    /// body.
    pub fn parse_fn(&mut self) -> (r: Result<Function, ParseError>)
        requires
            old(self).wf(),
        ensures
            final(self).wf(),
            final(self).spec_toks() == old(self).spec_toks(),
            old(self).spec_i() <= final(self).spec_i(),
            r matches Ok(_) ==> old(self).spec_i() < final(self).spec_i(),
    {
        match self.expect(&Token::Fn) {
            Ok(_) => {},
            Err(e) => {
                return Err(e);
            },
        }
        let name = match self.cur() {
            Token::Ident(s) => copy_bytes(s),
            _ => {
                return Err(ParseError::UnexpectedToken);
            },
        };
        self.bump();
        match self.expect(&Token::LParen) {
            Ok(_) => {},
            Err(e) => {
                return Err(e);
            },
        }
        let mut params: Vec<Vec<u8>> = Vec::new();
        let at_rparen = match self.cur() {
            Token::RParen => true,
            _ => false,
        };
        if !at_rparen {
            loop
                invariant
                    self.wf(),
                    self.spec_toks() == old(self).spec_toks(),
                    old(self).spec_i() <= self.spec_i(),
                ensures
                    self.wf(),
                    self.spec_toks() == old(self).spec_toks(),
                    old(self).spec_i() <= self.spec_i(),
                decreases self.spec_toks().len() - self.spec_i(),
            {
                match self.cur() {
                    Token::Ident(s) => {
                        params.push(copy_bytes(s));
                    },
                    _ => {
                        return Err(ParseError::UnexpectedToken);
                    },
                }
                self.bump();
                let at_comma = match self.cur() {
                    Token::Comma => true,
                    _ => false,
                };
                if at_comma {
                    self.bump();
                } else {
                    break;
                }
            }
        }
        match self.expect(&Token::RParen) {
            Ok(_) => {},
            Err(e) => {
                return Err(e);
            },
        }
        match self.expect(&Token::LBrace) {
            Ok(_) => {},
            Err(e) => {
                return Err(e);
            },
        }
        let mut body: Vec<Stmt> = Vec::new();
        loop
            invariant
                self.wf(),
                self.spec_toks() == old(self).spec_toks(),
                old(self).spec_i() <= self.spec_i(),
            ensures
                self.wf(),
                self.spec_toks() == old(self).spec_toks(),
                old(self).spec_i() <= self.spec_i(),
            decreases self.spec_toks().len() - self.spec_i(),
        {
            let at_rbrace = match self.cur() {
                Token::RBrace => true,
                _ => false,
            };
            if at_rbrace {
                break;
            }
            match self.parse_stmt() {
                Ok(s) => {
                    body.push(s);
                },
                Err(e) => {
                    return Err(e);
                },
            }
        }
        match self.expect(&Token::RBrace) {
            Ok(_) => {},
            Err(e) => {
                return Err(e);
            },
        }
        Ok(Function { name, params, body })
    }

    /// One statement: `print e;`, `return e;`, an assignment, or a bare call
    /// (which is evaluated and its result printed).
    pub fn parse_stmt(&mut self) -> (r: Result<Stmt, ParseError>)
        requires
            old(self).wf(),
        ensures
            final(self).wf(),
            final(self).spec_toks() == old(self).spec_toks(),
            old(self).spec_i() <= final(self).spec_i(),
            r matches Ok(_) ==> old(self).spec_i() < final(self).spec_i(),
    {
        let kind: u8 = match self.cur() {
            Token::Print => 0,
            Token::Return => 1,
            Token::Ident(_) => 2,
            _ => {
                return Err(ParseError::UnexpectedToken);
            },
        };
        if kind == 0 {
            self.bump();
            let e = match self.parse_expr() {
                Ok(e) => e,
                Err(e) => {
                    return Err(e);
                },
            };
            match self.expect(&Token::Semicolon) {
                Ok(_) => Ok(Stmt::Print(e)),
                Err(e) => Err(e),
            }
        } else if kind == 1 {
            self.bump();
            let e = match self.parse_expr() {
                Ok(e) => e,
                Err(e) => {
                    return Err(e);
                },
            };
            match self.expect(&Token::Semicolon) {
                Ok(_) => Ok(Stmt::Return(e)),
                Err(e) => Err(e),
            }
        } else {
            let name = match self.cur() {
                Token::Ident(s) => copy_bytes(s),
                _ => {
                    return Err(ParseError::UnexpectedToken);
                },
            };
            self.bump();
            let next: u8 = match self.cur() {
                Token::Assign => 0,
                Token::LParen => 1,
                _ => {
                    return Err(ParseError::UnexpectedToken);
                },
            };
            if next == 0 {
                self.bump();
                let e = match self.parse_expr() {
                    Ok(e) => e,
                    Err(e) => {
                        return Err(e);
                    },
                };
                match self.expect(&Token::Semicolon) {
                    Ok(_) => Ok(Stmt::Assign(name, e)),
                    Err(e) => Err(e),
                }
            } else {
                self.bump();
                let call = match self.finish_call(name) {
                    Ok(c) => c,
                    Err(e) => {
                        return Err(e);
                    },
                };
                match self.expect(&Token::Semicolon) {
                    Ok(_) => Ok(Stmt::Print(call)),
                    Err(e) => Err(e),
                }
            }
        }
    }

    /// A sum of atoms, left-associated.
    pub fn parse_expr(&mut self) -> (r: Result<Expr, ParseError>)
        requires
            old(self).wf(),
        ensures
            final(self).wf(),
            final(self).spec_toks() == old(self).spec_toks(),
            old(self).spec_i() <= final(self).spec_i(),
            r matches Ok(_) ==> old(self).spec_i() < final(self).spec_i(),
        decreases self.spec_toks().len() - self.spec_i(), 2int,
    {
        let mut lhs = match self.parse_atom() {
            Ok(e) => e,
            Err(e) => {
                return Err(e);
            },
        };
        loop
            invariant
                self.wf(),
                self.spec_toks() == old(self).spec_toks(),
                old(self).spec_i() < self.spec_i(),
            ensures
                self.wf(),
                self.spec_toks() == old(self).spec_toks(),
                old(self).spec_i() < self.spec_i(),
            decreases self.spec_toks().len() - self.spec_i(),
        {
            let at_plus = match self.cur() {
                Token::Plus => true,
                _ => false,
            };
            if !at_plus {
                break;
            }
            self.bump();
            match self.parse_atom() {
                Ok(rhs) => {
                    lhs = Expr::Add(Box::new(lhs), Box::new(rhs));
                },
                Err(e) => {
                    return Err(e);
                },
            }
        }
        Ok(lhs)
    }

    /// A literal, a variable, or a call.
    pub fn parse_atom(&mut self) -> (r: Result<Expr, ParseError>)
        requires
            old(self).wf(),
        ensures
            final(self).wf(),
            final(self).spec_toks() == old(self).spec_toks(),
            old(self).spec_i() <= final(self).spec_i(),
            r matches Ok(_) ==> old(self).spec_i() < final(self).spec_i(),
        decreases self.spec_toks().len() - self.spec_i(), 1int,
    {
        let kind: u8 = match self.cur() {
            Token::Number(_) => 0,
            Token::Ident(_) => 1,
            _ => {
                return Err(ParseError::UnexpectedToken);
            },
        };
        if kind == 0 {
            let n = match self.cur() {
                Token::Number(n) => *n,
                _ => {
                    return Err(ParseError::UnexpectedToken);
                },
            };
            self.bump();
            Ok(Expr::Number(n))
        } else {
            let name = match self.cur() {
                Token::Ident(s) => copy_bytes(s),
                _ => {
                    return Err(ParseError::UnexpectedToken);
                },
            };
            self.bump();
            let at_lparen = match self.cur() {
                Token::LParen => true,
                _ => false,
            };
            if at_lparen {
                self.bump();
                self.finish_call(name)
            } else {
                Ok(Expr::Var(name))
            }
        }
    }

    /// The argument list of a call whose name and opening parenthesis are
    /// already consumed.
    pub fn finish_call(&mut self, name: Vec<u8>) -> (r: Result<Expr, ParseError>)
        requires
            old(self).wf(),
        ensures
            final(self).wf(),
            final(self).spec_toks() == old(self).spec_toks(),
            old(self).spec_i() <= final(self).spec_i(),
            r matches Ok(_) ==> old(self).spec_i() < final(self).spec_i(),
        decreases self.spec_toks().len() - self.spec_i(), 3int,
    {
        let mut args: Vec<Expr> = Vec::new();
        let at_rparen = match self.cur() {
            Token::RParen => true,
            _ => false,
        };
        if !at_rparen {
            loop
                invariant
                    self.wf(),
                    self.spec_toks() == old(self).spec_toks(),
                    old(self).spec_i() <= self.spec_i(),
                ensures
                    self.wf(),
                    self.spec_toks() == old(self).spec_toks(),
                    old(self).spec_i() <= self.spec_i(),
                decreases self.spec_toks().len() - self.spec_i(),
            {
                match self.parse_expr() {
                    Ok(e) => {
                        args.push(e);
                    },
                    Err(e) => {
                        return Err(e);
                    },
                }
                let at_comma = match self.cur() {
                    Token::Comma => true,
                    _ => false,
                };
                if at_comma {
                    self.bump();
                } else {
                    break;
                }
            }
        }
        match self.expect(&Token::RParen) {
            Ok(_) => Ok(Expr::Call(name, args)),
            Err(e) => Err(e),
        }
    }
}

} // verus!
