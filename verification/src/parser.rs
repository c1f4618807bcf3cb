//! The recursive-descent parser: a token stream to a term.
//!
//! The grammar: an abstraction `\x:t.e`, a conditional
//! `if e then e else e`, or a left-associative application of atoms,
//! where an atom is an identifier, `true`, `false`, or a parenthesized
//! term.  Each parsing function is stated against its own mirror
//! (`sp_*`), a function of the token sequence and the position alone,
//! and `parse` accepts a stream only when it is, in full, one term of
//! the grammar.

use vstd::prelude::*;

use crate::ast::Constant;
use crate::ast::Expr;
use crate::ast::Term;
use crate::ast::Type;
use crate::scanner::Token;
use crate::scanner::TokenView;
use crate::scanner::token_views;

verus! {

/// Why a token stream cannot be parsed.
#[derive(Debug, Clone, Copy, PartialEq, Eq, Structural)]
pub enum ParseError {
    /// No token where a term or a type must begin.
    EmptyInput,
    /// A token that cannot begin a term.
    UnexpectedToken,
    /// A particular token was expected and is missing.
    MissingToken,
    /// An identifier was expected.
    ExpectedIdentifier,
    /// A type was expected.
    ExpectedType,
}

/// How many tokens are left at a position.
pub open spec fn remaining(toks: Seq<TokenView>, pos: int) -> int {
    if 0 <= pos <= toks.len() {
        toks.len() - pos
    } else {
        0
    }
}

/// The token at a position.
pub open spec fn sp_peek(toks: Seq<TokenView>, pos: int) -> Option<TokenView> {
    if 0 <= pos < toks.len() {
        Some(toks[pos])
    } else {
        None
    }
}

/// One expected token: consumed where it stands at the position.
pub open spec fn sp_consume(toks: Seq<TokenView>, pos: int, expected: TokenView) -> (Result<
    (),
    ParseError,
>, int) {
    if sp_peek(toks, pos) == Some(expected) {
        (Ok(()), pos + 1)
    } else {
        (Err(ParseError::MissingToken), pos)
    }
}

/// One identifier, consumed and returned.
pub open spec fn sp_consume_ident(toks: Seq<TokenView>, pos: int) -> (Result<
    Seq<char>,
    ParseError,
>, int) {
    match sp_peek(toks, pos) {
        Some(TokenView::Identifier(s)) => (Ok(s), pos + 1),
        _ => (Err(ParseError::ExpectedIdentifier), pos),
    }
}

/// A variable: one identifier.
pub open spec fn sp_var(toks: Seq<TokenView>, pos: int) -> (Result<Term, ParseError>, int) {
    let (r, p) = sp_consume_ident(toks, pos);
    match r {
        Ok(s) => (Ok(Term::Var(s)), p),
        Err(e) => (Err(e), p),
    }
}

/// A type: `bool` or a parenthesized type, then optionally an arrow to
/// a codomain type; the arrow associates to the right.
pub open spec fn sp_ty(toks: Seq<TokenView>, pos: int) -> (Result<Type, ParseError>, int)
    decreases remaining(toks, pos), 0int,
{
    match sp_peek(toks, pos) {
        Some(TokenView::LeftParen) => {
            let (ri, pi) = sp_ty(toks, pos + 1);
            match ri {
                Ok(t) => {
                    let (rc, pc) = sp_consume(toks, pi, TokenView::RightParen);
                    match rc {
                        Ok(_) => if 0 <= pos < pc && pc <= toks.len() {
                            sp_ty_arrow(toks, pc, t)
                        } else {
                            (Ok(t), pc)
                        },
                        Err(e) => (Err(e), pc),
                    }
                },
                Err(e) => (Err(e), pi),
            }
        },
        Some(TokenView::Bool) => sp_ty_arrow(toks, pos + 1, Type::Bool),
        _ => (Err(ParseError::ExpectedType), pos),
    }
}

/// What may follow a finished domain type: an arrow and a codomain
/// type, or nothing.
pub open spec fn sp_ty_arrow(toks: Seq<TokenView>, pos: int, t1: Type) -> (Result<
    Type,
    ParseError,
>, int)
    decreases remaining(toks, pos), 1int,
{
    if sp_peek(toks, pos) == Some(TokenView::Arrow) {
        let (r2, p2) = sp_ty(toks, pos + 1);
        match r2 {
            Ok(t2) => (Ok(Type::Fn(Box::new(t1), Box::new(t2))), p2),
            Err(e) => (Err(e), p2),
        }
    } else {
        (Ok(t1), pos)
    }
}

/// A term; with `recurse_app` it goes on to gather a left-associative
/// application after an identifier or a parenthesized term.
pub open spec fn sp_do_expr(toks: Seq<TokenView>, pos: int, recurse_app: bool) -> (Result<
    Term,
    ParseError,
>, int)
    decreases remaining(toks, pos), 2int,
{
    match sp_peek(toks, pos) {
        None => (Err(ParseError::EmptyInput), pos),
        Some(tv) => match tv {
            TokenView::Identifier(_) => {
                let (r1, p1) = sp_var(toks, pos);
                match r1 {
                    Ok(e1) => if recurse_app {
                        if 0 <= pos < p1 && p1 <= toks.len() {
                            sp_maybe_app(e1, toks, p1)
                        } else {
                            (Ok(e1), p1)
                        }
                    } else {
                        (Ok(e1), p1)
                    },
                    Err(e) => (Err(e), p1),
                }
            },
            TokenView::Lambda => sp_abstraction(toks, pos),
            TokenView::If => sp_if_then_else(toks, pos),
            TokenView::LeftParen => {
                let (ri, pi) = sp_do_expr(toks, pos + 1, true);
                match ri {
                    Ok(e) => {
                        let (rc, pc) = sp_consume(toks, pi, TokenView::RightParen);
                        match rc {
                            Ok(_) => if recurse_app {
                                if 0 <= pos < pc && pc <= toks.len() {
                                    sp_maybe_app(e, toks, pc)
                                } else {
                                    (Ok(e), pc)
                                }
                            } else {
                                (Ok(e), pc)
                            },
                            Err(er) => (Err(er), pc),
                        }
                    },
                    Err(er) => (Err(er), pi),
                }
            },
            TokenView::True => if recurse_app {
                if 0 <= pos && pos + 1 <= toks.len() {
                    sp_maybe_app(Term::Constant(Constant::True), toks, pos + 1)
                } else {
                    (Ok(Term::Constant(Constant::True)), pos + 1)
                }
            } else {
                (Ok(Term::Constant(Constant::True)), pos + 1)
            },
            TokenView::False => if recurse_app {
                if 0 <= pos && pos + 1 <= toks.len() {
                    sp_maybe_app(Term::Constant(Constant::False), toks, pos + 1)
                } else {
                    (Ok(Term::Constant(Constant::False)), pos + 1)
                }
            } else {
                (Ok(Term::Constant(Constant::False)), pos + 1)
            },
            _ => (Err(ParseError::UnexpectedToken), pos),
        },
    }
}

/// The rest of an application after `e1`: as long as another atom
/// parses, apply what stands so far to it.  A failed attempt ends the
/// application and gives the attempt's tokens back.
pub open spec fn sp_maybe_app(e1: Term, toks: Seq<TokenView>, pos: int) -> (Result<
    Term,
    ParseError,
>, int)
    decreases remaining(toks, pos), 3int,
{
    let (r2, p2) = sp_do_expr(toks, pos, false);
    match r2 {
        Ok(e2) => if 0 <= pos < p2 && p2 <= toks.len() {
            sp_maybe_app(Term::App(Box::new(e1), Box::new(e2)), toks, p2)
        } else {
            (Ok(e1), p2)
        },
        Err(_) => (Ok(e1), pos),
    }
}

/// An abstraction: `\`, a bound name, `:`, its type, `.`, the body.
pub open spec fn sp_abstraction(toks: Seq<TokenView>, pos: int) -> (Result<Term, ParseError>, int)
    decreases remaining(toks, pos), 1int,
{
    let (rl, p1) = sp_consume(toks, pos, TokenView::Lambda);
    match rl {
        Err(e) => (Err(e), p1),
        Ok(_) => {
            let (rx, p2) = sp_var(toks, p1);
            match rx {
                Err(e) => (Err(e), p2),
                Ok(xv) => {
                    let (rc, p3) = sp_consume(toks, p2, TokenView::Colon);
                    match rc {
                        Err(e) => (Err(e), p3),
                        Ok(_) => {
                            let (rt, p4) = sp_ty(toks, p3);
                            match rt {
                                Err(e) => (Err(e), p4),
                                Ok(t) => {
                                    let (rd, p5) = sp_consume(toks, p4, TokenView::Dot);
                                    match rd {
                                        Err(e) => (Err(e), p5),
                                        Ok(_) => {
                                            let (re, p6) = if 0 <= pos < p5 && p5 <= toks.len() {
                                                sp_do_expr(toks, p5, true)
                                            } else {
                                                (Err(ParseError::EmptyInput), p5)
                                            };
                                            match re {
                                                Err(e) => (Err(e), p6),
                                                Ok(body) => match xv {
                                                    Term::Var(x) => (
                                                        Ok(
                                                            Term::Abs(x, t, Box::new(body)),
                                                        ),
                                                        p6,
                                                    ),
                                                    _ => (
                                                        Err(ParseError::UnexpectedToken),
                                                        p6,
                                                    ),
                                                },
                                            }
                                        },
                                    }
                                },
                            }
                        },
                    }
                },
            }
        },
    }
}

/// A conditional: `if`, the condition, `then`, one branch, `else`, the
/// other.
pub open spec fn sp_if_then_else(toks: Seq<TokenView>, pos: int) -> (Result<Term, ParseError>, int)
    decreases remaining(toks, pos), 1int,
{
    let (ri, p1) = sp_consume(toks, pos, TokenView::If);
    match ri {
        Err(e) => (Err(e), p1),
        Ok(_) => {
            let (r1, p2) = if 0 <= pos < p1 && p1 <= toks.len() {
                sp_do_expr(toks, p1, true)
            } else {
                (Err(ParseError::EmptyInput), p1)
            };
            match r1 {
                Err(e) => (Err(e), p2),
                Ok(e1) => {
                    let (rt, p3) = sp_consume(toks, p2, TokenView::Then);
                    match rt {
                        Err(e) => (Err(e), p3),
                        Ok(_) => {
                            let (r2, p4) = if 0 <= pos < p3 && p3 <= toks.len() {
                                sp_do_expr(toks, p3, true)
                            } else {
                                (Err(ParseError::EmptyInput), p3)
                            };
                            match r2 {
                                Err(e) => (Err(e), p4),
                                Ok(e2) => {
                                    let (rl, p5) = sp_consume(toks, p4, TokenView::Else);
                                    match rl {
                                        Err(e) => (Err(e), p5),
                                        Ok(_) => {
                                            let (r3, p6) = if 0 <= pos < p5 && p5 <= toks.len() {
                                                sp_do_expr(toks, p5, true)
                                            } else {
                                                (Err(ParseError::EmptyInput), p5)
                                            };
                                            match r3 {
                                                Err(e) => (Err(e), p6),
                                                Ok(e3) => (
                                                    Ok(
                                                        Term::If(
                                                            Box::new(e1),
                                                            Box::new(e2),
                                                            Box::new(e3),
                                                        ),
                                                    ),
                                                    p6,
                                                ),
                                            }
                                        },
                                    }
                                },
                            }
                        },
                    }
                },
            }
        },
    }
}

/// What a whole token stream parses to: the one term the grammar
/// derives from all of it.  A stream holding tokens beyond that term
/// is refused.
pub open spec fn parse_result(toks: Seq<TokenView>) -> Result<Term, ParseError> {
    let (r, p) = sp_do_expr(toks, 0, true);
    match r {
        Ok(e) => if p == toks.len() {
            Ok(e)
        } else {
            Err(ParseError::UnexpectedToken)
        },
        Err(e) => Err(e),
    }
}

/// Whether an executable outcome and a final position are what a
/// mirror function says.
pub open spec fn mirrors(
    r: Result<Expr, ParseError>,
    m: (Result<Term, ParseError>, int),
    pos: int,
) -> bool {
    m.1 == pos && (match r {
        Ok(e) => m.0 == Ok::<Term, ParseError>(e@),
        Err(pe) => m.0 == Err::<Term, ParseError>(pe),
    })
}

proof fn lemma_toks_len(s: Seq<Token>)
    ensures
        token_views(s).len() == s.len(),
{
}

/// The parser: the token stream and how far it has been read.
pub struct Parser {
    stream: Vec<Token>,
    pos: usize,
}

impl Parser {
    /// The position is inside the stream.
    pub closed spec fn wf(&self) -> bool {
        self.pos <= self.stream@.len()
    }

    /// The models of the parser's tokens.
    pub closed spec fn toks(&self) -> Seq<TokenView> {
        token_views(self.stream@)
    }

    /// How far the parser has read.
    pub closed spec fn at(&self) -> int {
        self.pos as int
    }

    /// Parse a token stream: exactly the term or error that
    /// `parse_result` assigns to it.  A stream with tokens left over
    /// after one complete term is refused.
    pub fn parse(stream: Vec<Token>) -> (res: Result<Expr, ParseError>)
        ensures
            (match res {
                Ok(e) => parse_result(token_views(stream@)) == Ok::<Term, ParseError>(e@),
                Err(pe) => parse_result(token_views(stream@)) == Err::<Term, ParseError>(pe),
            }),
    {
        let mut parser = Parser { stream, pos: 0 };
        proof {
            lemma_toks_len(parser.stream@);
        }
        match parser.expr() {
            Ok(e) => match parser.peek() {
                Some(_) => Err(ParseError::UnexpectedToken),
                None => Ok(e),
            },
            Err(er) => Err(er),
        }
    }

    fn expr(&mut self) -> (r: Result<Expr, ParseError>)
        requires
            old(self).wf(),
        ensures
            final(self).wf(),
            final(self).toks() == old(self).toks(),
            old(self).at() <= final(self).at(),
            r is Ok ==> old(self).at() < final(self).at(),
            mirrors(r, sp_do_expr(old(self).toks(), old(self).at(), true), final(self).at()),
        decreases old(self).stream@.len() - old(self).pos, 4int,
    {
        proof {
            lemma_toks_len(self.stream@);
        }
        self.do_expr(true)
    }

    fn do_expr(&mut self, recurse_app: bool) -> (r: Result<Expr, ParseError>)
        requires
            old(self).wf(),
        ensures
            final(self).wf(),
            final(self).toks() == old(self).toks(),
            old(self).at() <= final(self).at(),
            r is Ok ==> old(self).at() < final(self).at(),
            mirrors(
                r,
                sp_do_expr(old(self).toks(), old(self).at(), recurse_app),
                final(self).at(),
            ),
        decreases old(self).stream@.len() - old(self).pos, 2int,
    {
        proof {
            lemma_toks_len(self.stream@);
        }
        match self.peek() {
            None => Err(ParseError::EmptyInput),
            Some(Token::Identifier(_)) => {
                let e1 = match self.var() {
                    Ok(e) => e,
                    Err(er) => {
                        return Err(er);
                    },
                };
                if recurse_app {
                    self.maybe_app(e1)
                } else {
                    Ok(e1)
                }
            },
            Some(Token::Lambda) => self.abstraction(),
            Some(Token::If) => self.if_then_else(),
            Some(Token::LeftParen) => {
                if let Err(er) = self.consume(&Token::LeftParen) {
                    return Err(er);
                }
                let e = match self.expr() {
                    Ok(e) => e,
                    Err(er) => {
                        return Err(er);
                    },
                };
                if let Err(er) = self.consume(&Token::RightParen) {
                    return Err(er);
                }
                if recurse_app {
                    self.maybe_app(e)
                } else {
                    Ok(e)
                }
            },
            Some(Token::True) => {
                if let Err(er) = self.consume(&Token::True) {
                    return Err(er);
                }
                if recurse_app {
                    self.maybe_app(Expr::Constant(Constant::True))
                } else {
                    Ok(Expr::Constant(Constant::True))
                }
            },
            Some(Token::False) => {
                if let Err(er) = self.consume(&Token::False) {
                    return Err(er);
                }
                if recurse_app {
                    self.maybe_app(Expr::Constant(Constant::False))
                } else {
                    Ok(Expr::Constant(Constant::False))
                }
            },
            Some(_) => Err(ParseError::UnexpectedToken),
        }
    }

    fn if_then_else(&mut self) -> (r: Result<Expr, ParseError>)
        requires
            old(self).wf(),
        ensures
            final(self).wf(),
            final(self).toks() == old(self).toks(),
            old(self).at() <= final(self).at(),
            r is Ok ==> old(self).at() < final(self).at(),
            mirrors(r, sp_if_then_else(old(self).toks(), old(self).at()), final(self).at()),
        decreases old(self).stream@.len() - old(self).pos, 1int,
    {
        proof {
            lemma_toks_len(self.stream@);
        }
        if let Err(er) = self.consume(&Token::If) {
            return Err(er);
        }
        let e1 = match self.expr() {
            Ok(e) => e,
            Err(er) => {
                return Err(er);
            },
        };
        if let Err(er) = self.consume(&Token::Then) {
            return Err(er);
        }
        let e2 = match self.expr() {
            Ok(e) => e,
            Err(er) => {
                return Err(er);
            },
        };
        if let Err(er) = self.consume(&Token::Else) {
            return Err(er);
        }
        let e3 = match self.expr() {
            Ok(e) => e,
            Err(er) => {
                return Err(er);
            },
        };
        Ok(Expr::If { e1: Box::new(e1), e2: Box::new(e2), e3: Box::new(e3) })
    }

    fn var(&mut self) -> (r: Result<Expr, ParseError>)
        requires
            old(self).wf(),
        ensures
            final(self).wf(),
            final(self).toks() == old(self).toks(),
            old(self).at() <= final(self).at(),
            r is Ok ==> final(self).at() == old(self).at() + 1,
            mirrors(r, sp_var(old(self).toks(), old(self).at()), final(self).at()),
    {
        proof {
            lemma_toks_len(self.stream@);
        }
        match self.consume_ident() {
            Ok(s) => Ok(Expr::Var(s)),
            Err(er) => Err(er),
        }
    }

    fn maybe_app(&mut self, e1: Expr) -> (r: Result<Expr, ParseError>)
        requires
            old(self).wf(),
        ensures
            final(self).wf(),
            final(self).toks() == old(self).toks(),
            old(self).at() <= final(self).at(),
            mirrors(r, sp_maybe_app(e1@, old(self).toks(), old(self).at()), final(self).at()),
        decreases old(self).stream@.len() - old(self).pos, 3int,
    {
        proof {
            lemma_toks_len(self.stream@);
        }
        let saved = self.pos;
        match self.do_expr(false) {
            Ok(e2) => self.maybe_app(Expr::App { e1: Box::new(e1), e2: Box::new(e2) }),
            Err(_) => {
                self.pos = saved;
                Ok(e1)
            },
        }
    }

    fn abstraction(&mut self) -> (r: Result<Expr, ParseError>)
        requires
            old(self).wf(),
        ensures
            final(self).wf(),
            final(self).toks() == old(self).toks(),
            old(self).at() <= final(self).at(),
            r is Ok ==> old(self).at() < final(self).at(),
            mirrors(r, sp_abstraction(old(self).toks(), old(self).at()), final(self).at()),
        decreases old(self).stream@.len() - old(self).pos, 1int,
    {
        proof {
            lemma_toks_len(self.stream@);
        }
        if let Err(er) = self.consume(&Token::Lambda) {
            return Err(er);
        }
        let xv = match self.var() {
            Ok(v) => v,
            Err(er) => {
                return Err(er);
            },
        };
        if let Err(er) = self.consume(&Token::Colon) {
            return Err(er);
        }
        let t = match self.ty() {
            Ok(t) => t,
            Err(er) => {
                return Err(er);
            },
        };
        if let Err(er) = self.consume(&Token::Dot) {
            return Err(er);
        }
        let body = match self.expr() {
            Ok(e) => e,
            Err(er) => {
                return Err(er);
            },
        };
        match xv {
            Expr::Var(x) => Ok(Expr::Abs { x, t, e: Box::new(body) }),
            _ => Err(ParseError::UnexpectedToken),
        }
    }

    fn ty(&mut self) -> (r: Result<Type, ParseError>)
        requires
            old(self).wf(),
        ensures
            final(self).wf(),
            final(self).toks() == old(self).toks(),
            old(self).at() <= final(self).at(),
            r is Ok ==> old(self).at() < final(self).at(),
            (sp_ty(old(self).toks(), old(self).at()).1 == final(self).at() && (match r {
                Ok(t) => sp_ty(old(self).toks(), old(self).at()).0 == Ok::<Type, ParseError>(t),
                Err(pe) => sp_ty(old(self).toks(), old(self).at()).0 == Err::<Type, ParseError>(
                    pe,
                ),
            })),
        decreases old(self).stream@.len() - old(self).pos, 0int,
    {
        proof {
            lemma_toks_len(self.stream@);
        }
        let ghost toks0 = self.toks();
        let ghost pos0 = self.at();
        let t1 = match self.peek() {
            Some(Token::LeftParen) => {
                if let Err(er) = self.consume(&Token::LeftParen) {
                    return Err(er);
                }
                let t = match self.ty() {
                    Ok(t) => t,
                    Err(er) => {
                        return Err(er);
                    },
                };
                if let Err(er) = self.consume(&Token::RightParen) {
                    return Err(er);
                }
                t
            },
            Some(Token::Bool) => {
                if let Err(er) = self.consume(&Token::Bool) {
                    return Err(er);
                }
                Type::Bool
            },
            _ => {
                return Err(ParseError::ExpectedType);
            },
        };
        proof {
            assert(sp_ty(toks0, pos0) == sp_ty_arrow(toks0, self.at(), t1));
        }
        match self.peek() {
            Some(Token::Arrow) => {
                if let Err(er) = self.consume(&Token::Arrow) {
                    return Err(er);
                }
                let t2 = match self.ty() {
                    Ok(t) => t,
                    Err(er) => {
                        return Err(er);
                    },
                };
                Ok(Type::Fn(Box::new(t1), Box::new(t2)))
            },
            _ => Ok(t1),
        }
    }

    fn peek(&self) -> (r: Option<&Token>)
        ensures
            (match r {
                Some(t) => sp_peek(self.toks(), self.at()) == Some(t@),
                None => sp_peek(self.toks(), self.at()) is None,
            }),
    {
        proof {
            lemma_toks_len(self.stream@);
        }
        if self.pos < self.stream.len() {
            proof {
                assert(self.toks()[self.at()] == self.stream@[self.at()]@);
            }
            Some(&self.stream[self.pos])
        } else {
            None
        }
    }

    fn consume(&mut self, tok: &Token) -> (r: Result<(), ParseError>)
        requires
            old(self).wf(),
        ensures
            final(self).wf(),
            final(self).toks() == old(self).toks(),
            old(self).at() <= final(self).at(),
            r is Ok ==> final(self).at() == old(self).at() + 1,
            (sp_consume(old(self).toks(), old(self).at(), tok@).1 == final(self).at() && (
            match r {
                Ok(_) => sp_consume(old(self).toks(), old(self).at(), tok@).0 is Ok,
                Err(pe) => sp_consume(old(self).toks(), old(self).at(), tok@).0 == Err::<
                    (),
                    ParseError,
                >(pe),
            })),
    {
        proof {
            lemma_toks_len(self.stream@);
        }
        let n = self.stream.len();
        let matched = match self.peek() {
            Some(t) => t.eq(tok),
            None => false,
        };
        if matched {
            proof {
                assert(self.toks().len() == self.stream@.len());
            }
            self.pos = self.pos + 1;
            Ok(())
        } else {
            Err(ParseError::MissingToken)
        }
    }

    fn consume_ident(&mut self) -> (r: Result<String, ParseError>)
        requires
            old(self).wf(),
        ensures
            final(self).wf(),
            final(self).toks() == old(self).toks(),
            old(self).at() <= final(self).at(),
            r is Ok ==> final(self).at() == old(self).at() + 1,
            (sp_consume_ident(old(self).toks(), old(self).at()).1 == final(self).at() && (
            match r {
                Ok(s) => sp_consume_ident(old(self).toks(), old(self).at()).0 == Ok::<
                    Seq<char>,
                    ParseError,
                >(s@),
                Err(pe) => sp_consume_ident(old(self).toks(), old(self).at()).0 == Err::<
                    Seq<char>,
                    ParseError,
                >(pe),
            })),
    {
        proof {
            lemma_toks_len(self.stream@);
        }
        let n = self.stream.len();
        let cloned: Option<String> = match self.peek() {
            Some(Token::Identifier(s)) => Some(s.clone()),
            _ => None,
        };
        match cloned {
            Some(s) => {
                proof {
                    assert(self.toks().len() == self.stream@.len());
                }
                self.pos = self.pos + 1;
                Ok(s)
            },
            None => Err(ParseError::ExpectedIdentifier),
        }
    }
}

} // verus!
