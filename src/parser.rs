use vstd::prelude::*;

use crate::error::Error;
use crate::grammar::{self, advance, measure, progressed, PState};
use crate::lexer::{lemma_scan_progress, Lexer};
use crate::token::{branch, leaf, params_view, trees_view, ASTreeNode, AddOp, Token, Tree, Type, UnaryOp};

verus! {

impl ASTreeNode {
    /// A node with no children.
    pub fn new(value: Token) -> (r: ASTreeNode)
        ensures
            r.value == value,
            r.left is None,
            r.right is None,
            r@ == leaf(value@),
    {
        ASTreeNode { value, left: None, right: None }
    }

    /// A node with the given children.
    pub fn new_with_values(
        value: Token,
        left: Option<Box<ASTreeNode>>,
        right: Option<Box<ASTreeNode>>,
    ) -> (r: ASTreeNode)
        ensures
            r.value == value,
            r.left == left,
            r.right == right,
            r@ == branch(
                value@,
                match left {
                    Some(b) => Some((*b)@),
                    None => None,
                },
                match right {
                    Some(b) => Some((*b)@),
                    None => None,
                },
            ),
    {
        ASTreeNode { value, left, right }
    }
}

pub proof fn lemma_trees_view_push(v: Seq<ASTreeNode>, x: ASTreeNode)
    ensures
        trees_view(v.push(x)) == trees_view(v).push(x@),
{
    assert(v.push(x).drop_last() =~= v);
}

/// A recursive-descent parser with one token of lookahead.
pub struct Parser {
    pub lexer: Lexer,
}

impl Parser {
    pub open spec fn wf(&self) -> bool {
        self.lexer.wf() && self.lexer.lexed()
    }

    /// The characters being parsed.
    pub open spec fn src(&self) -> Seq<char> {
        self.lexer.input@
    }

    /// The current token and the position after it.
    pub open spec fn state(&self) -> PState {
        (self.lexer.current_token@, self.lexer.position as int)
    }

    /// A parser over `input`, holding its first token.
    pub fn new(input: &str) -> (r: Result<Parser, Error>)
        requires
            input@.len() < usize::MAX,
        ensures
            match grammar::start(input@) {
                Ok((s, st)) => r is Ok && r->Ok_0.wf() && r->Ok_0.src() == s && r->Ok_0.state()
                    == st,
                Err(e) => r == Err::<Parser, Error>(e),
            },
    {
        match Lexer::new(input) {
            Ok(lexer) => Ok(Parser { lexer }),
            Err(e) => Err(e),
        }
    }

    /// A copy of the current token.
    fn current(&self) -> (r: Token)
        requires
            self.wf(),
        ensures
            r@ == self.lexer.current_token@,
    {
        match &self.lexer.current_token {
            Token::FLOAT(x) => Token::FLOAT(x.clone()),
            Token::DIGIT(i) => Token::DIGIT(*i),
            Token::ADDOP(o) => Token::ADDOP(*o),
            Token::MULOP(o) => Token::MULOP(*o),
            Token::UNOP(o) => Token::UNOP(*o),
            Token::LPAREN => Token::LPAREN,
            Token::RPAREN => Token::RPAREN,
            Token::LBRACE => Token::LBRACE,
            Token::RBRACE => Token::RBRACE,
            Token::SEMI => Token::SEMI,
            Token::COMPARE(c) => Token::COMPARE(*c),
            Token::ASSIGN => Token::ASSIGN,
            Token::EOF => Token::EOF,
            Token::COMMA => Token::COMMA,
            Token::IDENT(x) => Token::IDENT(x.clone()),
            Token::RET => Token::RET,
            Token::ARROW => Token::ARROW,
            Token::Type(t) => Token::Type(*t),
            Token::If => Token::If,
            Token::Else => Token::Else,
            Token::BOOL(b) => Token::BOOL(*b),
            _ => Token::EOF,
        }
    }

    /// Moves to the next token.
    fn advance(&mut self) -> (r: Result<(), Error>)
        requires
            old(self).wf(),
        ensures
            final(self).wf(),
            final(self).src() == old(self).src(),
            match advance(old(self).src(), old(self).state()) {
                Ok(st) => r is Ok && final(self).state() == st,
                Err(e) => r == Err::<(), Error>(e),
            },
            r is Ok && !(old(self).state().0 is Eof) ==> progressed(
                old(self).src(),
                final(self).state(),
                old(self).state(),
            ),
    {
        proof {
            lemma_scan_progress(self.src(), self.lexer.position as int);
        }
        self.lexer.get_next_token()
    }

    /// The right operand of a binary operator that is current, and the node
    /// that joins it to `left`.
    fn binary_rest(&mut self, Ghost(st0): Ghost<PState>, left: ASTreeNode) -> (r: Result<ASTreeNode, Error>)
        requires
            old(self).wf(),
            !(old(self).state().0 is Eof),
            measure(old(self).src(), old(self).state()) <= measure(old(self).src(), st0),
        ensures
            final(self).wf(),
            final(self).src() == old(self).src(),
            match grammar::binary_rest(old(self).src(), st0, left@, old(self).state()) {
                Ok((t, st)) => r is Ok && r->Ok_0@ == t && final(self).state() == st,
                Err(e) => r == Err::<ASTreeNode, Error>(e),
            },
            r is Ok ==> progressed(old(self).src(), final(self).state(), old(self).state()),
        decreases measure(old(self).src(), old(self).state()), 0int,
    {
        let op = self.current();
        match self.advance() {
            Ok(()) => {},
            Err(e) => return Err(e),
        }
        match self.expr() {
            Ok(right) => Ok(
                ASTreeNode::new_with_values(op, Some(Box::new(left)), Some(Box::new(right))),
            ),
            Err(e) => Err(e),
        }
    }

    /// Parses an atom.
    pub fn atom(&mut self) -> (r: Result<ASTreeNode, Error>)
        requires
            old(self).wf(),
        ensures
            final(self).wf(),
            final(self).src() == old(self).src(),
            match grammar::atom(old(self).src(), old(self).state()) {
                Ok((t, st)) => r is Ok && r->Ok_0@ == t && final(self).state() == st,
                Err(e) => r == Err::<ASTreeNode, Error>(e),
            },
            r is Ok ==> progressed(old(self).src(), final(self).state(), old(self).state()),
        decreases measure(old(self).src(), old(self).state()), 0int,
    {
        let t = self.current();
        match t {
            Token::DIGIT(_) | Token::FLOAT(_) => match self.advance() {
                Ok(()) => {
                    let n = ASTreeNode::new(t);
                    Ok(n)
                },
                Err(e) => Err(e),
            },
            Token::LPAREN => {
                match self.advance() {
                    Ok(()) => {},
                    Err(e) => return Err(e),
                }
                let e = match self.expr() {
                    Ok(e) => e,
                    Err(x) => return Err(x),
                };
                if matches!(self.lexer.current_token, Token::RPAREN) {
                    match self.advance() {
                        Ok(()) => Ok(e),
                        Err(x) => Err(x),
                    }
                } else {
                    Err(Error::ExpectedRParen)
                }
            },
            Token::ADDOP(op) => {
                match self.advance() {
                    Ok(()) => {},
                    Err(e) => return Err(e),
                }
                let u = match op {
                    AddOp::PLUS => UnaryOp::PLUS,
                    AddOp::MINUS => UnaryOp::MINUS,
                };
                match self.atom() {
                    Ok(a) => {
                        let n = ASTreeNode::new_with_values(Token::UNOP(u), Some(Box::new(a)), None);
                        Ok(n)
                    },
                    Err(x) => Err(x),
                }
            },
            Token::IDENT(name) => {
                match self.advance() {
                    Ok(()) => {},
                    Err(e) => return Err(e),
                }
                if !matches!(self.lexer.current_token, Token::LPAREN) {
                    return Ok(ASTreeNode::new(Token::IDENT(name)));
                }
                match self.advance() {
                    Ok(()) => {},
                    Err(e) => return Err(e),
                }
                match self.call_args() {
                    Ok(a) => Ok(
                        ASTreeNode::new_with_values(
                            Token::IDENT(name),
                            Some(Box::new(ASTreeNode::new(Token::ArgList(a)))),
                            None,
                        ),
                    ),
                    Err(x) => Err(x),
                }
            },
            _ => Err(Error::ExpectedOperand),
        }
    }

    /// The arguments of a call, after its `(`, up to and past its `)`.
    fn call_args(&mut self) -> (r: Result<Vec<ASTreeNode>, Error>)
        requires
            old(self).wf(),
        ensures
            final(self).wf(),
            final(self).src() == old(self).src(),
            match grammar::args(old(self).src(), old(self).state()) {
                Ok((a, st)) => r is Ok && trees_view(r->Ok_0@) == a && final(self).state() == st,
                Err(e) => r == Err::<Vec<ASTreeNode>, Error>(e),
            },
            r is Ok ==> progressed(old(self).src(), final(self).state(), old(self).state()),
        decreases measure(old(self).src(), old(self).state()), 5int,
    {
        let ghost s = self.src();
        let ghost st0 = self.state();
        let mut v: Vec<ASTreeNode> = Vec::new();
        loop
            invariant
                self.wf(),
                self.src() == s,
                s == old(self).src(),
                st0 == old(self).state(),
                measure(s, self.state()) <= measure(s, st0),
                grammar::args(s, st0) == match grammar::args(s, self.state()) {
                    Ok((rest, e)) => Ok((trees_view(v@) + rest, e)),
                    Err(x) => Err(x),
                },
            decreases measure(s, self.state()),
        {
            assert(trees_view(v@) + Seq::<Tree>::empty() =~= trees_view(v@));
            if matches!(self.lexer.current_token, Token::RPAREN) {
                return match self.advance() {
                    Ok(()) => Ok(v),
                    Err(e) => Err(e),
                };
            }
            let e = match self.expr() {
                Ok(e) => e,
                Err(x) => return Err(x),
            };
            if matches!(self.lexer.current_token, Token::COMMA) {
                match self.advance() {
                    Ok(()) => {},
                    Err(x) => return Err(x),
                }
            }
            proof {
                lemma_trees_view_push(v@, e);
                let ghost rest = grammar::args(s, self.state());
                if let Ok((r2, e2)) = rest {
                    assert(trees_view(v@) + (seq![e@] + r2) =~= trees_view(v@).push(e@) + r2);
                }
            }
            v.push(e);
        }
    }

    /// Parses a term.
    pub fn term(&mut self) -> (r: Result<ASTreeNode, Error>)
        requires
            old(self).wf(),
        ensures
            final(self).wf(),
            final(self).src() == old(self).src(),
            match grammar::term(old(self).src(), old(self).state()) {
                Ok((t, st)) => r is Ok && r->Ok_0@ == t && final(self).state() == st,
                Err(e) => r == Err::<ASTreeNode, Error>(e),
            },
            r is Ok ==> progressed(old(self).src(), final(self).state(), old(self).state()),
        decreases measure(old(self).src(), old(self).state()), 1int,
    {
        let ghost st0 = self.state();
        let left = match self.atom() {
            Ok(l) => l,
            Err(e) => return Err(e),
        };
        if matches!(self.lexer.current_token, Token::MULOP(_)) {
            self.binary_rest(Ghost(st0), left)
        } else {
            Ok(left)
        }
    }

    /// Parses an additive expression.
    pub fn addop(&mut self) -> (r: Result<ASTreeNode, Error>)
        requires
            old(self).wf(),
        ensures
            final(self).wf(),
            final(self).src() == old(self).src(),
            match grammar::addop(old(self).src(), old(self).state()) {
                Ok((t, st)) => r is Ok && r->Ok_0@ == t && final(self).state() == st,
                Err(e) => r == Err::<ASTreeNode, Error>(e),
            },
            r is Ok ==> progressed(old(self).src(), final(self).state(), old(self).state()),
        decreases measure(old(self).src(), old(self).state()), 2int,
    {
        let ghost st0 = self.state();
        let left = match self.term() {
            Ok(l) => l,
            Err(e) => return Err(e),
        };
        if matches!(self.lexer.current_token, Token::ADDOP(_)) {
            self.binary_rest(Ghost(st0), left)
        } else {
            Ok(left)
        }
    }

    /// Parses a comparison.
    pub fn compare(&mut self) -> (r: Result<ASTreeNode, Error>)
        requires
            old(self).wf(),
        ensures
            final(self).wf(),
            final(self).src() == old(self).src(),
            match grammar::compare(old(self).src(), old(self).state()) {
                Ok((t, st)) => r is Ok && r->Ok_0@ == t && final(self).state() == st,
                Err(e) => r == Err::<ASTreeNode, Error>(e),
            },
            r is Ok ==> progressed(old(self).src(), final(self).state(), old(self).state()),
        decreases measure(old(self).src(), old(self).state()), 3int,
    {
        let ghost st0 = self.state();
        let left = match self.addop() {
            Ok(l) => l,
            Err(e) => return Err(e),
        };
        if matches!(self.lexer.current_token, Token::COMPARE(_)) {
            self.binary_rest(Ghost(st0), left)
        } else {
            Ok(left)
        }
    }

    /// Parses an expression.
    pub fn expr(&mut self) -> (r: Result<ASTreeNode, Error>)
        requires
            old(self).wf(),
        ensures
            final(self).wf(),
            final(self).src() == old(self).src(),
            match grammar::expr(old(self).src(), old(self).state()) {
                Ok((t, st)) => r is Ok && r->Ok_0@ == t && final(self).state() == st,
                Err(e) => r == Err::<ASTreeNode, Error>(e),
            },
            r is Ok ==> progressed(old(self).src(), final(self).state(), old(self).state()),
        decreases measure(old(self).src(), old(self).state()), 4int,
    {
        let ghost st0 = self.state();
        let left = match self.compare() {
            Ok(l) => l,
            Err(e) => return Err(e),
        };
        if matches!(self.lexer.current_token, Token::ASSIGN) {
            self.binary_rest(Ghost(st0), left)
        } else {
            Ok(left)
        }
    }

    /// Parses an expression that may start with `return`.
    pub fn return_value(&mut self) -> (r: Result<ASTreeNode, Error>)
        requires
            old(self).wf(),
        ensures
            final(self).wf(),
            final(self).src() == old(self).src(),
            match grammar::return_value(old(self).src(), old(self).state()) {
                Ok((t, st)) => r is Ok && r->Ok_0@ == t && final(self).state() == st,
                Err(e) => r == Err::<ASTreeNode, Error>(e),
            },
            r is Ok ==> progressed(old(self).src(), final(self).state(), old(self).state()),
        decreases measure(old(self).src(), old(self).state()), 5int,
    {
        if !matches!(self.lexer.current_token, Token::RET) {
            return self.expr();
        }
        match self.advance() {
            Ok(()) => {},
            Err(e) => return Err(e),
        }
        match self.expr() {
            Ok(e) => Ok(ASTreeNode::new_with_values(Token::RET, Some(Box::new(e)), None)),
            Err(x) => Err(x),
        }
    }

    /// The typed parameters of a function, after its `(`, up to its `)`.
    fn get_arg_list(&mut self) -> (r: Result<Vec<(Type, String)>, Error>)
        requires
            old(self).wf(),
        ensures
            final(self).wf(),
            final(self).src() == old(self).src(),
            match grammar::params(old(self).src(), old(self).state()) {
                Ok((ps, st)) => r is Ok && params_view(r->Ok_0@) == ps && final(self).state() == st,
                Err(e) => r == Err::<Vec<(Type, String)>, Error>(e),
            },
            r is Ok ==> final(self).state().0 is RParen,
            r is Ok ==> measure(old(self).src(), final(self).state()) <= measure(
                old(self).src(),
                old(self).state(),
            ),
    {
        let ghost s = self.src();
        let ghost st0 = self.state();
        let mut v: Vec<(Type, String)> = Vec::new();
        loop
            invariant
                self.wf(),
                self.src() == s,
                s == old(self).src(),
                st0 == old(self).state(),
                measure(s, self.state()) <= measure(s, st0),
                grammar::params(s, st0) == match grammar::params(s, self.state()) {
                    Ok((rest, e)) => Ok((params_view(v@) + rest, e)),
                    Err(x) => Err(x),
                },
            decreases measure(s, self.state()),
        {
            assert(params_view(v@) + Seq::<(Type, Seq<char>)>::empty() =~= params_view(v@));
            let t = match &self.lexer.current_token {
                Token::RPAREN => return Ok(v),
                Token::Type(t) => *t,
                _ => return Err(Error::ExpectedType),
            };
            match self.advance() {
                Ok(()) => {},
                Err(e) => return Err(e),
            }
            let name = match &self.lexer.current_token {
                Token::IDENT(n) => n.clone(),
                _ => return Err(Error::ExpectedIdentifier),
            };
            match self.advance() {
                Ok(()) => {},
                Err(e) => return Err(e),
            }
            if matches!(self.lexer.current_token, Token::COMMA) {
                match self.advance() {
                    Ok(()) => {},
                    Err(e) => return Err(e),
                }
            }
            proof {
                let p = (t, name);
                assert(params_view(v@.push(p)) =~= params_view(v@).push((t, name@)));
                if let Ok((r2, e2)) = grammar::params(s, self.state()) {
                    assert(params_view(v@) + (seq![(t, name@)] + r2) =~= params_view(v@).push(
                        (t, name@),
                    ) + r2);
                }
            }
            v.push((t, name));
        }
    }

    /// The return type of a function, after its parameter list.
    fn return_type(&mut self) -> (r: Result<Type, Error>)
        requires
            old(self).wf(),
        ensures
            final(self).wf(),
            final(self).src() == old(self).src(),
            match grammar::return_type(old(self).src(), old(self).state()) {
                Ok((t, st)) => r == Ok::<Type, Error>(t) && final(self).state() == st,
                Err(e) => r == Err::<Type, Error>(e),
            },
            r is Ok ==> measure(old(self).src(), final(self).state()) <= measure(
                old(self).src(),
                old(self).state(),
            ),
    {
        if !matches!(self.lexer.current_token, Token::ARROW) {
            return Ok(Type::NONE);
        }
        match self.advance() {
            Ok(()) => {},
            Err(e) => return Err(e),
        }
        let t = match &self.lexer.current_token {
            Token::Type(t) => *t,
            _ => return Err(Error::ExpectedType),
        };
        match self.advance() {
            Ok(()) => Ok(t),
            Err(e) => Err(e),
        }
    }

    /// A function declaration after its name.
    #[verifier::rlimit(40)]
    fn function_rest(&mut self, Ghost(st0): Ghost<PState>, name: String) -> (r: Result<ASTreeNode, Error>)
        requires
            old(self).wf(),
            measure(old(self).src(), old(self).state()) < measure(old(self).src(), st0),
        ensures
            final(self).wf(),
            final(self).src() == old(self).src(),
            match grammar::function_rest(old(self).src(), st0, name@, old(self).state()) {
                Ok((t, st)) => r is Ok && r->Ok_0@ == t && final(self).state() == st,
                Err(e) => r == Err::<ASTreeNode, Error>(e),
            },
            r is Ok ==> progressed(old(self).src(), final(self).state(), old(self).state()),
        decreases measure(old(self).src(), old(self).state()), 0int,
    {
        if !matches!(self.lexer.current_token, Token::LPAREN) {
            return Err(Error::ExpectedLParen);
        }
        match self.advance() {
            Ok(()) => {},
            Err(e) => return Err(e),
        }
        let ps = match self.get_arg_list() {
            Ok(ps) => ps,
            Err(e) => return Err(e),
        };
        match self.advance() {
            Ok(()) => {},
            Err(e) => return Err(e),
        }
        let ty = match self.return_type() {
            Ok(t) => t,
            Err(e) => return Err(e),
        };
        if !matches!(self.lexer.current_token, Token::LBRACE) {
            return Err(Error::ExpectedArrowOrBrace);
        }
        let body = match self.parse_block() {
            Ok(b) => b,
            Err(e) => return Err(e),
        };
        let data = ASTreeNode::new(Token::FuncData(name, ty, ps, Box::new(body)));
        Ok(ASTreeNode::new_with_values(Token::Type(Type::FUNC), Some(Box::new(data)), None))
    }

    /// Parses a declaration.
    pub fn declaration(&mut self) -> (r: Result<ASTreeNode, Error>)
        requires
            old(self).wf(),
        ensures
            final(self).wf(),
            final(self).src() == old(self).src(),
            match grammar::declaration(old(self).src(), old(self).state()) {
                Ok((t, st)) => r is Ok && r->Ok_0@ == t && final(self).state() == st,
                Err(e) => r == Err::<ASTreeNode, Error>(e),
            },
            r is Ok ==> progressed(old(self).src(), final(self).state(), old(self).state()),
        decreases measure(old(self).src(), old(self).state()), 5int,
    {
        let ghost st0 = self.state();
        let ty = match &self.lexer.current_token {
            Token::Type(t) => *t,
            _ => return Err(Error::ExpectedType),
        };
        match self.advance() {
            Ok(()) => {},
            Err(e) => return Err(e),
        }
        let name = match &self.lexer.current_token {
            Token::IDENT(n) => n.clone(),
            _ => return Err(
                if ty == Type::FUNC {
                    Error::ExpectedFunctionName
                } else {
                    Error::ExpectedIdentifier
                },
            ),
        };
        match self.advance() {
            Ok(()) => {},
            Err(e) => return Err(e),
        }
        if ty == Type::FUNC {
            return self.function_rest(Ghost(st0), name);
        }
        let id = ASTreeNode::new(Token::IDENT(name));
        if !matches!(self.lexer.current_token, Token::ASSIGN) {
            return Ok(ASTreeNode::new_with_values(Token::Type(ty), Some(Box::new(id)), None));
        }
        match self.advance() {
            Ok(()) => {},
            Err(e) => return Err(e),
        }
        match self.expr() {
            Ok(e) => Ok(
                ASTreeNode::new_with_values(Token::Type(ty), Some(Box::new(id)), Some(Box::new(e))),
            ),
            Err(x) => Err(x),
        }
    }

    /// The body of an `if` or `else`, leaving its `}` current.
    fn get_if_body(&mut self) -> (r: Result<ASTreeNode, Error>)
        requires
            old(self).wf(),
        ensures
            r is Ok ==> final(self).state().0 is RBrace,
            final(self).wf(),
            final(self).src() == old(self).src(),
            match grammar::if_body(old(self).src(), old(self).state()) {
                Ok((t, st)) => r is Ok && r->Ok_0@ == t && final(self).state() == st,
                Err(e) => r == Err::<ASTreeNode, Error>(e),
            },
            r is Ok ==> progressed(old(self).src(), final(self).state(), old(self).state()),
        decreases measure(old(self).src(), old(self).state()), 4int,
    {
        if !matches!(self.lexer.current_token, Token::LBRACE) {
            return Err(Error::ExpectedLBrace);
        }
        match self.advance() {
            Ok(()) => {},
            Err(e) => return Err(e),
        }
        match self.statement_list() {
            Ok(v) => Ok(ASTreeNode::new(Token::StatementList(v))),
            Err(e) => Err(e),
        }
    }

    /// Parses an `if` statement, with its `else` branch if any.
    fn if_statement(&mut self) -> (r: Result<ASTreeNode, Error>)
        requires
            old(self).wf(),
            old(self).state().0 is If,
        ensures
            final(self).wf(),
            final(self).src() == old(self).src(),
            match grammar::if_statement(old(self).src(), old(self).state()) {
                Ok((t, st)) => r is Ok && r->Ok_0@ == t && final(self).state() == st,
                Err(e) => r == Err::<ASTreeNode, Error>(e),
            },
            r is Ok ==> progressed(old(self).src(), final(self).state(), old(self).state()),
        decreases measure(old(self).src(), old(self).state()), 5int,
    {
        match self.advance() {
            Ok(()) => {},
            Err(e) => return Err(e),
        }
        let cond = match self.expr() {
            Ok(c) => c,
            Err(e) => return Err(e),
        };
        self.if_tail(cond)
    }

    /// The rest of an `if` statement after its condition.
    #[verifier::rlimit(40)]
    fn if_tail(&mut self, cond: ASTreeNode) -> (r: Result<ASTreeNode, Error>)
        requires
            old(self).wf(),
        ensures
            final(self).wf(),
            final(self).src() == old(self).src(),
            match grammar::if_tail(old(self).src(), cond@, old(self).state()) {
                Ok((t, st)) => r is Ok && r->Ok_0@ == t && final(self).state() == st,
                Err(e) => r == Err::<ASTreeNode, Error>(e),
            },
            r is Ok ==> progressed(old(self).src(), final(self).state(), old(self).state()),
        decreases measure(old(self).src(), old(self).state()), 5int,
    {
        let then_b = match self.get_if_body() {
            Ok(b) => b,
            Err(e) => return Err(e),
        };
        match self.advance() {
            Ok(()) => {},
            Err(e) => return Err(e),
        }
        if !matches!(self.lexer.current_token, Token::Else) {
            return Ok(
                ASTreeNode::new_with_values(
                    Token::IfData(Box::new(cond)),
                    Some(Box::new(then_b)),
                    None,
                ),
            );
        }
        match self.advance() {
            Ok(()) => {},
            Err(e) => return Err(e),
        }
        match self.else_branch() {
            Ok(else_b) => Ok(
                ASTreeNode::new_with_values(
                    Token::IfData(Box::new(cond)),
                    Some(Box::new(then_b)),
                    Some(Box::new(else_b)),
                ),
            ),
            Err(e) => Err(e),
        }
    }

    /// What follows `else`.
    fn else_branch(&mut self) -> (r: Result<ASTreeNode, Error>)
        requires
            old(self).wf(),
        ensures
            final(self).wf(),
            final(self).src() == old(self).src(),
            match grammar::else_branch(old(self).src(), old(self).state()) {
                Ok((t, st)) => r is Ok && r->Ok_0@ == t && final(self).state() == st,
                Err(e) => r == Err::<ASTreeNode, Error>(e),
            },
            r is Ok ==> progressed(old(self).src(), final(self).state(), old(self).state()),
        decreases measure(old(self).src(), old(self).state()), 6int,
    {
        if matches!(self.lexer.current_token, Token::If) {
            return self.if_statement();
        }
        let b = match self.get_if_body() {
            Ok(b) => b,
            Err(e) => return Err(e),
        };
        match self.advance() {
            Ok(()) => Ok(b),
            Err(e) => Err(e),
        }
    }

    /// Parses one statement.
    pub fn statement(&mut self) -> (r: Result<ASTreeNode, Error>)
        requires
            old(self).wf(),
        ensures
            final(self).wf(),
            final(self).src() == old(self).src(),
            match grammar::statement(old(self).src(), old(self).state()) {
                Ok((t, st)) => r is Ok && r->Ok_0@ == t && final(self).state() == st,
                Err(e) => r == Err::<ASTreeNode, Error>(e),
            },
            r is Ok ==> progressed(old(self).src(), final(self).state(), old(self).state()),
        decreases measure(old(self).src(), old(self).state()), 6int,
    {
        if matches!(self.lexer.current_token, Token::Type(_)) {
            self.declaration()
        } else if matches!(self.lexer.current_token, Token::If) {
            self.if_statement()
        } else {
            self.return_value()
        }
    }

    /// One item of a statement list.
    fn list_item(&mut self) -> (r: Result<ASTreeNode, Error>)
        requires
            old(self).wf(),
        ensures
            final(self).wf(),
            final(self).src() == old(self).src(),
            match grammar::list_item(old(self).src(), old(self).state()) {
                Ok((t, st)) => r is Ok && r->Ok_0@ == t && final(self).state() == st,
                Err(e) => r == Err::<ASTreeNode, Error>(e),
            },
            r is Ok ==> progressed(old(self).src(), final(self).state(), old(self).state()),
        decreases measure(old(self).src(), old(self).state()), 7int,
    {
        if matches!(self.lexer.current_token, Token::LBRACE) {
            return self.parse_block();
        }
        let c = match self.statement() {
            Ok(c) => c,
            Err(e) => return Err(e),
        };
        assert(c@.value == c.value@);
        if matches!(c.value, Token::Type(Type::FUNC)) || matches!(c.value, Token::IfData(_)) {
            Ok(c)
        } else if matches!(self.lexer.current_token, Token::RBRACE) {
            Ok(ASTreeNode::new_with_values(Token::RET, Some(Box::new(c)), None))
        } else if matches!(self.lexer.current_token, Token::SEMI) {
            match self.advance() {
                Ok(()) => Ok(c),
                Err(e) => Err(e),
            }
        } else {
            Err(Error::ExpectedSemi)
        }
    }

    /// The statements up to a `}`, which stays current.
    fn statement_list(&mut self) -> (r: Result<Vec<ASTreeNode>, Error>)
        requires
            old(self).wf(),
        ensures
            final(self).wf(),
            final(self).src() == old(self).src(),
            match grammar::statements(old(self).src(), old(self).state()) {
                Ok((a, st)) => r is Ok && trees_view(r->Ok_0@) == a && final(self).state() == st,
                Err(e) => r == Err::<Vec<ASTreeNode>, Error>(e),
            },
            r is Ok ==> measure(old(self).src(), final(self).state()) <= measure(
                old(self).src(),
                old(self).state(),
            ),
            r is Ok ==> final(self).state().0 is RBrace,
        decreases measure(old(self).src(), old(self).state()), 8int,
    {
        let ghost s = self.src();
        let ghost st0 = self.state();
        let mut v: Vec<ASTreeNode> = Vec::new();
        loop
            invariant
                self.wf(),
                self.src() == s,
                s == old(self).src(),
                st0 == old(self).state(),
                measure(s, self.state()) <= measure(s, st0),
                grammar::statements(s, st0) == match grammar::statements(s, self.state()) {
                    Ok((rest, e)) => Ok((trees_view(v@) + rest, e)),
                    Err(x) => Err(x),
                },
            decreases measure(s, self.state()),
        {
            assert(trees_view(v@) + Seq::<Tree>::empty() =~= trees_view(v@));
            if matches!(self.lexer.current_token, Token::RBRACE) {
                return Ok(v);
            }
            let c = match self.list_item() {
                Ok(c) => c,
                Err(x) => return Err(x),
            };
            proof {
                lemma_trees_view_push(v@, c);
                if let Ok((r2, e2)) = grammar::statements(s, self.state()) {
                    assert(trees_view(v@) + (seq![c@] + r2) =~= trees_view(v@).push(c@) + r2);
                }
            }
            v.push(c);
        }
    }

    /// Parses a block `{ statements }`.
    pub fn parse_block(&mut self) -> (r: Result<ASTreeNode, Error>)
        requires
            old(self).wf(),
        ensures
            final(self).wf(),
            final(self).src() == old(self).src(),
            match grammar::parse_block(old(self).src(), old(self).state()) {
                Ok((t, st)) => r is Ok && r->Ok_0@ == t && final(self).state() == st,
                Err(e) => r == Err::<ASTreeNode, Error>(e),
            },
            r is Ok ==> progressed(old(self).src(), final(self).state(), old(self).state()),
        decreases measure(old(self).src(), old(self).state()), 6int,
    {
        if !matches!(self.lexer.current_token, Token::LBRACE) {
            return Err(Error::ExpectedLBrace);
        }
        match self.advance() {
            Ok(()) => {},
            Err(e) => return Err(e),
        }
        let v = match self.statement_list() {
            Ok(v) => v,
            Err(e) => return Err(e),
        };
        match self.advance() {
            Ok(()) => Ok(ASTreeNode::new(Token::StatementList(v))),
            Err(e) => Err(e),
        }
    }
}

} // verus!
