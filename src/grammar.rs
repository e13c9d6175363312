use vstd::prelude::*;

use crate::error::Error;
use crate::lexer::{scan, trim};
use crate::token::{branch, leaf, AddOp, Tok, Tree, Type, UnaryOp};

verus! {

/// A parser state: the token that the lexer holds and the position after it.
pub type PState = (Tok, int);

/// The source text and first state of a parse of `input`: the input without
/// its surrounding whitespace, and its first token.
pub open spec fn start(input: Seq<char>) -> Result<(Seq<char>, PState), Error> {
    if input.len() == 0 {
        Err(Error::EmptyInput)
    } else {
        match scan(trim(input), 0) {
            Ok(st) => Ok((trim(input), st)),
            Err(e) => Err(e),
        }
    }
}

/// The state after the current token.
pub open spec fn advance(s: Seq<char>, st: PState) -> Result<PState, Error> {
    scan(s, st.1)
}

/// A measure that every step past a token that is not end-of-input lowers.
pub open spec fn measure(s: Seq<char>, st: PState) -> int {
    2 * (s.len() - st.1) + if st.0 is Eof {
        0int
    } else {
        1int
    }
}

/// State `a` lies strictly further into the input than state `b`. The
/// grammar asks this before each step that recurses on a later state; every
/// step of the parser meets it.
pub open spec fn progressed(s: Seq<char>, a: PState, b: PState) -> bool {
    0 <= measure(s, a) < measure(s, b)
}

/// `atom`: a literal, a parenthesised expression, a signed atom, a name, or a
/// call `name(args)`.
pub open spec fn atom(s: Seq<char>, st: PState) -> Result<(Tree, PState), Error>
    decreases measure(s, st), 0int,
{
    match st.0 {
        Tok::Digit(_) | Tok::Float(_) => match advance(s, st) {
            Ok(st1) => Ok((leaf(st.0), st1)),
            Err(e) => Err(e),
        },
        Tok::LParen => match advance(s, st) {
            Ok(st1) => if progressed(s, st1, st) {
                match expr(s, st1) {
                    Ok((e, st2)) => if st2.0 is RParen {
                        match advance(s, st2) {
                            Ok(st3) => Ok((e, st3)),
                            Err(x) => Err(x),
                        }
                    } else {
                        Err(Error::ExpectedRParen)
                    },
                    Err(x) => Err(x),
                }
            } else {
                Err(Error::ExpectedOperand)
            },
            Err(e) => Err(e),
        },
        Tok::AddOp(op) => match advance(s, st) {
            Ok(st1) => if progressed(s, st1, st) {
                let u = match op {
                    AddOp::PLUS => UnaryOp::PLUS,
                    AddOp::MINUS => UnaryOp::MINUS,
                };
                match atom(s, st1) {
                    Ok((a, st2)) => Ok((branch(Tok::UnOp(u), Some(a), None), st2)),
                    Err(x) => Err(x),
                }
            } else {
                Err(Error::ExpectedOperand)
            },
            Err(e) => Err(e),
        },
        Tok::Ident(name) => match advance(s, st) {
            Ok(st1) => if st1.0 is LParen && progressed(s, st1, st) {
                match advance(s, st1) {
                    Ok(st2) => if progressed(s, st2, st) {
                        match args(s, st2) {
                            Ok((a, st3)) => Ok(
                                (
                                    branch(
                                        Tok::Ident(name),
                                        Some(leaf(Tok::ArgList(a))),
                                        None,
                                    ),
                                    st3,
                                ),
                            ),
                            Err(x) => Err(x),
                        }
                    } else {
                        Err(Error::ExpectedOperand)
                    },
                    Err(x) => Err(x),
                }
            } else {
                Ok((leaf(Tok::Ident(name)), st1))
            },
            Err(e) => Err(e),
        },
        _ => Err(Error::ExpectedOperand),
    }
}

/// The arguments of a call, after its `(`, up to and past the `)`; an
/// argument may be followed by a comma.
pub open spec fn args(s: Seq<char>, st: PState) -> Result<(Seq<Tree>, PState), Error>
    decreases measure(s, st), 5int,
{
    if st.0 is RParen {
        match advance(s, st) {
            Ok(st1) => Ok((Seq::empty(), st1)),
            Err(e) => Err(e),
        }
    } else {
        match expr(s, st) {
            Ok((e, st1)) => {
                let st2 = if st1.0 is Comma {
                    advance(s, st1)
                } else {
                    Ok(st1)
                };
                match st2 {
                    Ok(st2) => if progressed(s, st2, st) {
                        match args(s, st2) {
                            Ok((rest, st3)) => Ok((seq![e] + rest, st3)),
                            Err(x) => Err(x),
                        }
                    } else {
                        Err(Error::ExpectedOperand)
                    },
                    Err(x) => Err(x),
                }
            },
            Err(x) => Err(x),
        }
    }
}

/// The right operand of a binary operator, after the operator. Binary
/// operators are right-associative: `a-b-c` reads as `a-(b-c)`.
pub open spec fn binary_rest(s: Seq<char>, st0: PState, l: Tree, st1: PState) -> Result<(Tree, PState), Error>
    decreases measure(s, st0), 0int,
{
    match advance(s, st1) {
        Ok(st2) => if progressed(s, st2, st0) {
            match expr(s, st2) {
                Ok((r, st3)) => Ok((branch(st1.0, Some(l), Some(r)), st3)),
                Err(x) => Err(x),
            }
        } else {
            Err(Error::ExpectedOperand)
        },
        Err(x) => Err(x),
    }
}

/// `term`: an atom, or an atom, a multiplicative operator and an expression.
pub open spec fn term(s: Seq<char>, st: PState) -> Result<(Tree, PState), Error>
    decreases measure(s, st), 1int,
{
    match atom(s, st) {
        Ok((l, st1)) => if st1.0 is MulOp {
            binary_rest(s, st, l, st1)
        } else {
            Ok((l, st1))
        },
        Err(x) => Err(x),
    }
}

/// `addop`: a term, or a term, an additive operator and an expression.
pub open spec fn addop(s: Seq<char>, st: PState) -> Result<(Tree, PState), Error>
    decreases measure(s, st), 2int,
{
    match term(s, st) {
        Ok((l, st1)) => if st1.0 is AddOp {
            binary_rest(s, st, l, st1)
        } else {
            Ok((l, st1))
        },
        Err(x) => Err(x),
    }
}

/// `compare`: an addop, or an addop, a comparison operator and an expression.
pub open spec fn compare(s: Seq<char>, st: PState) -> Result<(Tree, PState), Error>
    decreases measure(s, st), 3int,
{
    match addop(s, st) {
        Ok((l, st1)) => if st1.0 is Compare {
            binary_rest(s, st, l, st1)
        } else {
            Ok((l, st1))
        },
        Err(x) => Err(x),
    }
}

/// `expr`: a comparison, or a comparison, `=` and an expression.
pub open spec fn expr(s: Seq<char>, st: PState) -> Result<(Tree, PState), Error>
    decreases measure(s, st), 4int,
{
    match compare(s, st) {
        Ok((l, st1)) => if st1.0 is Assign {
            binary_rest(s, st, l, st1)
        } else {
            Ok((l, st1))
        },
        Err(x) => Err(x),
    }
}

/// A statement that may start with `return`.
pub open spec fn return_value(s: Seq<char>, st: PState) -> Result<(Tree, PState), Error>
    decreases measure(s, st), 5int,
{
    if st.0 is Ret {
        match advance(s, st) {
            Ok(st1) => if progressed(s, st1, st) {
                match expr(s, st1) {
                    Ok((e, st2)) => Ok((branch(Tok::Ret, Some(e), None), st2)),
                    Err(x) => Err(x),
                }
            } else {
                Err(Error::ExpectedOperand)
            },
            Err(x) => Err(x),
        }
    } else {
        expr(s, st)
    }
}

/// The typed parameters of a function, after its `(`, up to its `)`, which
/// stays current; a parameter may be followed by a comma.
pub open spec fn params(s: Seq<char>, st: PState) -> Result<(Seq<(Type, Seq<char>)>, PState), Error>
    decreases measure(s, st),
{
    if st.0 is RParen {
        Ok((Seq::empty(), st))
    } else if let Tok::Type(t) = st.0 {
        match advance(s, st) {
            Ok(st1) => if let Tok::Ident(n) = st1.0 {
                match advance(s, st1) {
                    Ok(st2) => {
                        let st3 = if st2.0 is Comma {
                            advance(s, st2)
                        } else {
                            Ok(st2)
                        };
                        match st3 {
                            Ok(st3) => if progressed(s, st3, st) {
                                match params(s, st3) {
                                    Ok((rest, st4)) => Ok((seq![(t, n)] + rest, st4)),
                                    Err(x) => Err(x),
                                }
                            } else {
                                Err(Error::ExpectedType)
                            },
                            Err(x) => Err(x),
                        }
                    },
                    Err(x) => Err(x),
                }
            } else {
                Err(Error::ExpectedIdentifier)
            },
            Err(x) => Err(x),
        }
    } else {
        Err(Error::ExpectedType)
    }
}

/// The return type of a function, after its parameter list: `-> type`, or
/// nothing, which means `NONE`.
pub open spec fn return_type(s: Seq<char>, st: PState) -> Result<(Type, PState), Error> {
    if st.0 is Arrow {
        match advance(s, st) {
            Ok(st1) => if let Tok::Type(t) = st1.0 {
                match advance(s, st1) {
                    Ok(st2) => Ok((t, st2)),
                    Err(x) => Err(x),
                }
            } else {
                Err(Error::ExpectedType)
            },
            Err(x) => Err(x),
        }
    } else {
        Ok((Type::NONE, st))
    }
}

/// A function declaration, after its name: parameters, return type, body.
pub open spec fn function_rest(s: Seq<char>, st0: PState, name: Seq<char>, st: PState) -> Result<(Tree, PState), Error>
    decreases measure(s, st0), 0int,
{
    if !(st.0 is LParen) {
        Err(Error::ExpectedLParen)
    } else {
        match advance(s, st) {
            Ok(st1) => match params(s, st1) {
                Ok((ps, st2)) => match advance(s, st2) {
                    Ok(st3) => match return_type(s, st3) {
                        Ok((ty, st4)) => if !(st4.0 is LBrace) {
                            Err(Error::ExpectedArrowOrBrace)
                        } else if progressed(s, st4, st0) {
                            match parse_block(s, st4) {
                                Ok((body, st5)) => Ok(
                                    (
                                        branch(
                                            Tok::Type(Type::FUNC),
                                            Some(
                                                leaf(Tok::FuncData(name, ty, ps, Box::new(body))),
                                            ),
                                            None,
                                        ),
                                        st5,
                                    ),
                                ),
                                Err(x) => Err(x),
                            }
                        } else {
                            Err(Error::ExpectedArrowOrBrace)
                        },
                        Err(x) => Err(x),
                    },
                    Err(x) => Err(x),
                },
                Err(x) => Err(x),
            },
            Err(x) => Err(x),
        }
    }
}

/// A declaration: `fn name(params) [-> type] { body }`, or `type name`
/// optionally followed by `= expr`.
pub open spec fn declaration(s: Seq<char>, st: PState) -> Result<(Tree, PState), Error>
    decreases measure(s, st), 5int,
{
    if let Tok::Type(ty) = st.0 {
        match advance(s, st) {
            Ok(st1) => if let Tok::Ident(n) = st1.0 {
                match advance(s, st1) {
                    Ok(st2) => if ty == Type::FUNC {
                        function_rest(s, st, n, st2)
                    } else if st2.0 is Assign {
                        match advance(s, st2) {
                            Ok(st3) => if progressed(s, st3, st) {
                                match expr(s, st3) {
                                    Ok((e, st4)) => Ok(
                                        (
                                            branch(
                                                Tok::Type(ty),
                                                Some(leaf(Tok::Ident(n))),
                                                Some(e),
                                            ),
                                            st4,
                                        ),
                                    ),
                                    Err(x) => Err(x),
                                }
                            } else {
                                Err(Error::ExpectedOperand)
                            },
                            Err(x) => Err(x),
                        }
                    } else {
                        Ok((branch(Tok::Type(ty), Some(leaf(Tok::Ident(n))), None), st2))
                    },
                    Err(x) => Err(x),
                }
            } else if ty == Type::FUNC {
                Err(Error::ExpectedFunctionName)
            } else {
                Err(Error::ExpectedIdentifier)
            },
            Err(x) => Err(x),
        }
    } else {
        Err(Error::ExpectedType)
    }
}

/// The body of an `if` or `else`: `{ statements }`, leaving the `}` current.
pub open spec fn if_body(s: Seq<char>, st: PState) -> Result<(Tree, PState), Error>
    decreases measure(s, st), 4int,
{
    if !(st.0 is LBrace) {
        Err(Error::ExpectedLBrace)
    } else {
        match advance(s, st) {
            Ok(st1) => if progressed(s, st1, st) {
                match statements(s, st1) {
                    Ok((body, st2)) => Ok((leaf(Tok::StatementList(body)), st2)),
                    Err(x) => Err(x),
                }
            } else {
                Err(Error::ExpectedLBrace)
            },
            Err(x) => Err(x),
        }
    }
}

/// `if cond { ... }`, optionally followed by `else if ...` or `else { ... }`.
pub open spec fn if_statement(s: Seq<char>, st: PState) -> Result<(Tree, PState), Error>
    decreases measure(s, st), 5int,
{
    match advance(s, st) {
        Ok(st1) => if progressed(s, st1, st) {
            match expr(s, st1) {
                Ok((cond, st2)) => if progressed(s, st2, st) {
                    if_tail(s, cond, st2)
                } else {
                    Err(Error::ExpectedLBrace)
                },
                Err(x) => Err(x),
            }
        } else {
            Err(Error::ExpectedOperand)
        },
        Err(x) => Err(x),
    }
}

/// The rest of an `if` statement after its condition.
pub open spec fn if_tail(s: Seq<char>, cond: Tree, st: PState) -> Result<(Tree, PState), Error>
    decreases measure(s, st), 5int,
{
    match if_body(s, st) {
        Ok((then_b, st1)) => match advance(s, st1) {
            Ok(st2) => if st2.0 is Else {
                match advance(s, st2) {
                    Ok(st3) => if progressed(s, st3, st) {
                        match else_branch(s, st3) {
                            Ok((else_b, st4)) => Ok(
                                (
                                    branch(Tok::IfData(Box::new(cond)), Some(then_b), Some(else_b)),
                                    st4,
                                ),
                            ),
                            Err(x) => Err(x),
                        }
                    } else {
                        Err(Error::ExpectedLBrace)
                    },
                    Err(x) => Err(x),
                }
            } else {
                Ok((branch(Tok::IfData(Box::new(cond)), Some(then_b), None), st2))
            },
            Err(x) => Err(x),
        },
        Err(x) => Err(x),
    }
}

/// What follows `else`: another `if` statement, or a body past its `}`.
pub open spec fn else_branch(s: Seq<char>, st: PState) -> Result<(Tree, PState), Error>
    decreases measure(s, st), 6int,
{
    if st.0 is If {
        if_statement(s, st)
    } else {
        match if_body(s, st) {
            Ok((b, st1)) => match advance(s, st1) {
                Ok(st2) => Ok((b, st2)),
                Err(x) => Err(x),
            },
            Err(x) => Err(x),
        }
    }
}

/// A statement: a declaration, an `if`, or an expression that may start with
/// `return`.
pub open spec fn statement(s: Seq<char>, st: PState) -> Result<(Tree, PState), Error>
    decreases measure(s, st), 6int,
{
    if st.0 is Type {
        declaration(s, st)
    } else if st.0 is If {
        if_statement(s, st)
    } else {
        return_value(s, st)
    }
}

/// One item of a statement list: a nested block; a function declaration or
/// an `if`, which need no `;`; a last statement before `}`, which becomes a
/// `return`; or a statement and its `;`.
pub open spec fn list_item(s: Seq<char>, st: PState) -> Result<(Tree, PState), Error>
    decreases measure(s, st), 7int,
{
    if st.0 is LBrace {
        parse_block(s, st)
    } else {
        match statement(s, st) {
            Ok((c, st1)) => if c.value == Tok::Type(Type::FUNC) || c.value is IfData {
                Ok((c, st1))
            } else if st1.0 is RBrace {
                Ok((branch(Tok::Ret, Some(c), None), st1))
            } else if st1.0 is Semi {
                match advance(s, st1) {
                    Ok(st2) => Ok((c, st2)),
                    Err(x) => Err(x),
                }
            } else {
                Err(Error::ExpectedSemi)
            },
            Err(x) => Err(x),
        }
    }
}

/// The statements up to a `}`, which stays current.
pub open spec fn statements(s: Seq<char>, st: PState) -> Result<(Seq<Tree>, PState), Error>
    decreases measure(s, st), 8int,
{
    if st.0 is RBrace {
        Ok((Seq::empty(), st))
    } else {
        match list_item(s, st) {
            Ok((c, st1)) => if progressed(s, st1, st) {
                match statements(s, st1) {
                    Ok((rest, st2)) => Ok((seq![c] + rest, st2)),
                    Err(x) => Err(x),
                }
            } else {
                Err(Error::ExpectedSemi)
            },
            Err(x) => Err(x),
        }
    }
}

/// A block `{ statements }`, past its `}`.
pub open spec fn parse_block(s: Seq<char>, st: PState) -> Result<(Tree, PState), Error>
    decreases measure(s, st), 6int,
{
    if !(st.0 is LBrace) {
        Err(Error::ExpectedLBrace)
    } else {
        match advance(s, st) {
            Ok(st1) => if progressed(s, st1, st) {
                match statements(s, st1) {
                    Ok((body, st2)) => match advance(s, st2) {
                        Ok(st3) => Ok((leaf(Tok::StatementList(body)), st3)),
                        Err(x) => Err(x),
                    },
                    Err(x) => Err(x),
                }
            } else {
                Err(Error::ExpectedLBrace)
            },
            Err(x) => Err(x),
        }
    }
}

} // verus!
