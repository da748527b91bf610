//! The lexer: turns source bytes into a finite token stream. This stage is
//! mechanical; its contracts state token shape and strict progress, which is
//! what the parser's termination rests on.

use vstd::prelude::*;

verus! {

#[derive(Debug)]
pub enum Token {
    Number(i64),
    Ident(Vec<u8>),
    Plus,
    Assign,
    Semicolon,
    Comma,
    LParen,
    RParen,
    LBrace,
    RBrace,
    Print,
    Fn,
    Return,
    EOF,
}

/// A number literal too large for the value type is reported, not wrapped.
#[derive(Debug, Clone, Copy, PartialEq, Eq, Structural)]
pub enum LexError {
    NumberTooLarge,
}

pub open spec fn is_digit(c: u8) -> bool {
    48 <= c <= 57
}

pub open spec fn is_ident_start(c: u8) -> bool {
    (97 <= c <= 122) || (65 <= c <= 90) || c == 95
}

pub open spec fn is_ident_char(c: u8) -> bool {
    is_ident_start(c) || is_digit(c)
}

/// The integer a run of decimal digit bytes denotes.
pub open spec fn digits_val(s: Seq<u8>) -> int
    decreases s.len(),
{
    if s.len() == 0 {
        0
    } else {
        digits_val(s.drop_last()) * 10 + (s.last() - 48)
    }
}

pub open spec fn is_print_kw(s: Seq<u8>) -> bool {
    s == seq![112u8, 114u8, 105u8, 110u8, 116u8]
}

pub open spec fn is_fn_kw(s: Seq<u8>) -> bool {
    s == seq![102u8, 110u8]
}

pub open spec fn is_return_kw(s: Seq<u8>) -> bool {
    s == seq![114u8, 101u8, 116u8, 117u8, 114u8, 110u8]
}

pub struct Lexer {
    src: Vec<u8>,
    pos: usize,
}

impl Lexer {
    pub closed spec fn spec_src(&self) -> Seq<u8> {
        self.src@
    }

    pub closed spec fn spec_pos(&self) -> int {
        self.pos as int
    }

    pub open spec fn wf(&self) -> bool {
        self.spec_pos() <= self.spec_src().len()
    }

    pub fn new(src: Vec<u8>) -> (l: Lexer)
        ensures
            l.wf(),
            l.spec_src() == src@,
            l.spec_pos() == 0,
    {
        Lexer { src, pos: 0 }
    }

    /// Consumes the maximal run of decimal digits and yields its value, or
    /// the overflow error when the literal exceeds the value type; either
    /// way the whole run is consumed.
    pub fn lex_num(&mut self) -> (r: Result<Token, LexError>)
        requires
            old(self).wf(),
            old(self).spec_pos() < old(self).spec_src().len(),
            is_digit(old(self).spec_src()[old(self).spec_pos()]),
        ensures
            final(self).wf(),
            final(self).spec_src() == old(self).spec_src(),
            old(self).spec_pos() < final(self).spec_pos(),
            forall|j: int|
                old(self).spec_pos() <= j < final(self).spec_pos() ==> is_digit(
                    #[trigger] final(self).spec_src()[j],
                ),
            final(self).spec_pos() < final(self).spec_src().len() ==> !is_digit(
                final(self).spec_src()[final(self).spec_pos()],
            ),
            ({
                let run = final(self).spec_src().subrange(
                    old(self).spec_pos(),
                    final(self).spec_pos(),
                );
                match r {
                    Ok(t) => digits_val(run) <= i64::MAX && t == Token::Number(
                        digits_val(run) as i64,
                    ),
                    Err(e) => digits_val(run) > i64::MAX && e == LexError::NumberTooLarge,
                }
            }),
    {
        let ghost p0 = self.spec_pos();
        let mut acc: i64 = 0;
        let mut over: bool = false;
        loop
            invariant
                p0 == old(self).spec_pos(),
                p0 < self.spec_src().len(),
                is_digit(self.spec_src()[p0]),
                p0 <= self.spec_pos() <= self.spec_src().len(),
                self.spec_src() == old(self).spec_src(),
                forall|j: int|
                    p0 <= j < self.spec_pos() ==> is_digit(#[trigger] self.spec_src()[j]),
                acc >= 0,
                !over ==> acc == digits_val(self.spec_src().subrange(p0, self.spec_pos())),
                over ==> digits_val(self.spec_src().subrange(p0, self.spec_pos())) > i64::MAX,
            ensures
                p0 < self.spec_pos() <= self.spec_src().len(),
                self.spec_src() == old(self).spec_src(),
                forall|j: int|
                    p0 <= j < self.spec_pos() ==> is_digit(#[trigger] self.spec_src()[j]),
                self.spec_pos() == self.spec_src().len() || !is_digit(
                    self.spec_src()[self.spec_pos()],
                ),
                acc >= 0,
                !over ==> acc == digits_val(self.spec_src().subrange(p0, self.spec_pos())),
                over ==> digits_val(self.spec_src().subrange(p0, self.spec_pos())) > i64::MAX,
            decreases self.spec_src().len() - self.spec_pos(),
        {
            if self.pos >= self.src.len() {
                break;
            }
            let c = self.src[self.pos];
            if c < 48 || c > 57 {
                break;
            }
            let d: i64 = (c - 48) as i64;
            proof {
                let run0 = self.spec_src().subrange(p0, self.spec_pos());
                let run1 = self.spec_src().subrange(p0, self.spec_pos() + 1);
                assert(run1.drop_last() =~= run0);
                assert(run1.last() == c);
            }
            if !over {
                if acc > (i64::MAX - d) / 10 {
                    over = true;
                    proof {
                        assert(acc * 10 + d > i64::MAX) by (nonlinear_arith)
                            requires
                                acc > (i64::MAX - d) / 10,
                                0 <= d <= 9,
                        ;
                    }
                } else {
                    proof {
                        assert(acc * 10 + d <= i64::MAX && acc * 10 + d >= 0) by (nonlinear_arith)
                            requires
                                0 <= acc <= (i64::MAX - d) / 10,
                                0 <= d <= 9,
                        ;
                    }
                    acc = acc * 10 + d;
                }
            } else {
                proof {
                    let run0 = self.spec_src().subrange(p0, self.spec_pos());
                    assert(digits_val(run0) * 10 + (c - 48) > i64::MAX) by (nonlinear_arith)
                        requires
                            digits_val(run0) > i64::MAX,
                            48 <= c,
                    ;
                }
            }
            self.pos = self.pos + 1;
        }
        if over {
            Err(LexError::NumberTooLarge)
        } else {
            Ok(Token::Number(acc))
        }
    }

    /// Consumes the maximal identifier run and yields the matching keyword
    /// token, or an identifier token carrying the consumed name.
    pub fn lex_ident(&mut self) -> (t: Token)
        requires
            old(self).wf(),
            old(self).spec_pos() < old(self).spec_src().len(),
            is_ident_start(old(self).spec_src()[old(self).spec_pos()]),
        ensures
            final(self).wf(),
            final(self).spec_src() == old(self).spec_src(),
            old(self).spec_pos() < final(self).spec_pos(),
            forall|j: int|
                old(self).spec_pos() <= j < final(self).spec_pos() ==> is_ident_char(
                    #[trigger] final(self).spec_src()[j],
                ),
            final(self).spec_pos() < final(self).spec_src().len() ==> !is_ident_char(
                final(self).spec_src()[final(self).spec_pos()],
            ),
            ({
                let run = final(self).spec_src().subrange(
                    old(self).spec_pos(),
                    final(self).spec_pos(),
                );
                if is_print_kw(run) {
                    t == Token::Print
                } else if is_fn_kw(run) {
                    t == Token::Fn
                } else if is_return_kw(run) {
                    t == Token::Return
                } else {
                    t matches Token::Ident(v) && v@ == run
                }
            }),
    {
        let ghost p0 = self.spec_pos();
        let mut word: Vec<u8> = Vec::new();
        loop
            invariant
                p0 == old(self).spec_pos(),
                p0 < self.spec_src().len(),
                is_ident_start(self.spec_src()[p0]),
                p0 <= self.spec_pos() <= self.spec_src().len(),
                self.spec_src() == old(self).spec_src(),
                word@ == self.spec_src().subrange(p0, self.spec_pos()),
                forall|j: int|
                    p0 <= j < self.spec_pos() ==> is_ident_char(#[trigger] self.spec_src()[j]),
            ensures
                p0 < self.spec_pos() <= self.spec_src().len(),
                self.spec_src() == old(self).spec_src(),
                word@ == self.spec_src().subrange(p0, self.spec_pos()),
                forall|j: int|
                    p0 <= j < self.spec_pos() ==> is_ident_char(#[trigger] self.spec_src()[j]),
                self.spec_pos() == self.spec_src().len() || !is_ident_char(
                    self.spec_src()[self.spec_pos()],
                ),
            decreases self.spec_src().len() - self.spec_pos(),
        {
            if self.pos >= self.src.len() {
                break;
            }
            let c = self.src[self.pos];
            if !((97 <= c && c <= 122) || (65 <= c && c <= 90) || c == 95 || (48 <= c && c <= 57)) {
                break;
            }
            word.push(c);
            self.pos = self.pos + 1;
            proof {
                assert(word@ =~= self.spec_src().subrange(p0, self.spec_pos()));
            }
        }
        let kw = Self::keyword_of(&word);
        match kw {
            Some(t) => t,
            None => Token::Ident(word),
        }
    }

    /// The keyword a word spells, if any.
    fn keyword_of(word: &Vec<u8>) -> (t: Option<Token>)
        ensures
            is_print_kw(word@) ==> t == Some(Token::Print),
            is_fn_kw(word@) ==> t == Some(Token::Fn),
            is_return_kw(word@) ==> t == Some(Token::Return),
            !is_print_kw(word@) && !is_fn_kw(word@) && !is_return_kw(word@) ==> t is None,
    {
        if word.len() == 5 && word[0] == 112 && word[1] == 114 && word[2] == 105 && word[3] == 110
            && word[4] == 116 {
            proof {
                assert(word@ =~= seq![112u8, 114u8, 105u8, 110u8, 116u8]);
            }
            Some(Token::Print)
        } else if word.len() == 2 && word[0] == 102 && word[1] == 110 {
            proof {
                assert(word@ =~= seq![102u8, 110u8]);
            }
            Some(Token::Fn)
        } else if word.len() == 6 && word[0] == 114 && word[1] == 101 && word[2] == 116 && word[3]
            == 117 && word[4] == 114 && word[5] == 110 {
            proof {
                assert(word@ =~= seq![114u8, 101u8, 116u8, 117u8, 114u8, 110u8]);
            }
            Some(Token::Return)
        } else {
            proof {
                if word@ == seq![112u8, 114u8, 105u8, 110u8, 116u8] {
                    assert(word@.len() == 5 && word@[0] == 112 && word@[1] == 114 && word@[2] == 105
                        && word@[3] == 110 && word@[4] == 116);
                }
                if word@ == seq![102u8, 110u8] {
                    assert(word@.len() == 2 && word@[0] == 102 && word@[1] == 110);
                }
                if word@ == seq![114u8, 101u8, 116u8, 117u8, 114u8, 110u8] {
                    assert(word@.len() == 6 && word@[0] == 114 && word@[1] == 101 && word@[2] == 116
                        && word@[3] == 117 && word@[4] == 114 && word@[5] == 110);
                }
            }
            None
        }
    }

    /// The next token: skips whitespace and unknown bytes, then dispatches
    /// on the leading byte; the end of input is the EOF token, repeatedly.
    pub fn next_token(&mut self) -> (r: Result<Token, LexError>)
        requires
            old(self).wf(),
        ensures
            final(self).wf(),
            final(self).spec_src() == old(self).spec_src(),
            old(self).spec_pos() <= final(self).spec_pos(),
            (r matches Ok(t) && !(t matches Token::EOF)) ==> old(self).spec_pos() < final(self).spec_pos(),
            (r matches Ok(t) && (t matches Token::EOF)) ==> final(self).spec_pos() == final(self).spec_src().len(),
    {
        let ghost p0 = self.spec_pos();
        loop
            invariant
                p0 == old(self).spec_pos(),
                p0 <= self.spec_pos() <= self.spec_src().len(),
                self.spec_src() == old(self).spec_src(),
            ensures
                p0 <= self.spec_pos(),
                self.spec_pos() == self.spec_src().len(),
                self.spec_src() == old(self).spec_src(),
            decreases self.spec_src().len() - self.spec_pos(),
        {
            if self.pos >= self.src.len() {
                break;
            }
            let c = self.src[self.pos];
            if 48 <= c && c <= 57 {
                return self.lex_num();
            }
            if (97 <= c && c <= 122) || (65 <= c && c <= 90) || c == 95 {
                let t = self.lex_ident();
                return Ok(t);
            }
            self.pos = self.pos + 1;
            if c == 43 {
                return Ok(Token::Plus);
            }
            if c == 61 {
                return Ok(Token::Assign);
            }
            if c == 59 {
                return Ok(Token::Semicolon);
            }
            if c == 44 {
                return Ok(Token::Comma);
            }
            if c == 40 {
                return Ok(Token::LParen);
            }
            if c == 41 {
                return Ok(Token::RParen);
            }
            if c == 123 {
                return Ok(Token::LBrace);
            }
            if c == 125 {
                return Ok(Token::RBrace);
            }
            // anything else — whitespace included — is skipped
        }
        Ok(Token::EOF)
    }
}

} // verus!
