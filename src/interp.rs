use vstd::prelude::*;

use crate::error::Error;
use crate::grammar;
use crate::parser::Parser;
use crate::semantics::{
    arith, bind_params, call, declare, declared_here, enter, eval, eval_args, eval_stmts,
    find_in, frame_base, lemma_find_in, has_block, int_op, leave, lookup, op_symbol, pop_block, same_value,
    trunc_div, trunc_rem, type_of, update, Env, SVar, Slot,
};
use crate::token::{
    copy_token, copy_tree, lemma_trees_view, params_view, trees_view, ASTreeNode, AddOp, Bool,
    Compare, MulOp, Tok, Token, Tree, Type, UnaryOp,
};

verus! {

/// The largest number of calls that may be in progress at once.
pub const MAX_CALL_DEPTH: u64 = 200;

/// A variable binding.
pub struct Var {
    pub name: String,
    pub ty: Type,
    pub value: Option<Token>,
}

impl View for Var {
    type V = SVar;

    open spec fn view(&self) -> SVar {
        SVar {
            name: self.name@,
            ty: self.ty,
            value: match self.value {
                Some(t) => Some(t@),
                None => None,
            },
        }
    }
}

pub open spec fn vars_view(v: Seq<Var>) -> Seq<SVar> {
    v.map_values(|x: Var| x@)
}

pub open spec fn marks_view(v: Seq<usize>) -> Seq<int> {
    v.map_values(|x: usize| x as int)
}

pub open spec fn values_view(v: Seq<Token>) -> Seq<Tok> {
    v.map_values(|x: Token| x@)
}

pub open spec fn opt_view(o: Option<Box<ASTreeNode>>) -> Option<Box<Tree>> {
    match o {
        Some(b) => Some(Box::new((*b)@)),
        None => None,
    }
}

pub proof fn lemma_node_view(n: ASTreeNode)
    ensures
        n@.value == n.value@,
        n@.left == opt_view(n.left),
        n@.right == opt_view(n.right),
{
}

/// The index of the innermost binding of `name` among `vs[lo..hi]`.
fn find_var_in(vs: &Vec<Var>, lo: usize, hi: usize, name: &String) -> (r: Option<usize>)
    requires
        hi <= vs@.len(),
    ensures
        match r {
            Some(j) => find_in(vars_view(vs@), lo as int, hi as int, name@) == Some(j as int),
            None => find_in(vars_view(vs@), lo as int, hi as int, name@) is None,
        },
{
    let mut k = hi;
    while k > lo
        invariant
            k <= hi <= vs@.len(),
            find_in(vars_view(vs@), lo as int, hi as int, name@) == find_in(
                vars_view(vs@),
                lo as int,
                k as int,
                name@,
            ),
        decreases k,
    {
        if vs[k - 1].name == *name {
            return Some(k - 1);
        }
        k = k - 1;
    }
    None
}

/// The value category of an argument.
fn value_type(v: &Token) -> (r: Option<Type>)
    ensures
        r == type_of(v@),
{
    match v {
        Token::DIGIT(_) => Some(Type::INT),
        Token::FLOAT(_) => Some(Type::FLOAT),
        Token::Type(t) => Some(*t),
        _ => None,
    }
}

/// Whether two values are equal.
fn values_equal(a: &Token, b: &Token) -> (r: bool)
    ensures
        r == same_value(a@, b@),
{
    match (a, b) {
        (Token::DIGIT(x), Token::DIGIT(y)) => *x == *y,
        (Token::FLOAT(x), Token::FLOAT(y)) => *x == *y,
        (Token::BOOL(x), Token::BOOL(y)) => *x == *y,
        (Token::Type(x), Token::Type(y)) => *x == *y,
        _ => false,
    }
}

/// The postfix suffix of a float operation: a space and the operator.
pub(crate) fn op_suffix(op: &Token) -> (r: &'static str)
    ensures
        r@ == seq![' ', op_symbol(op@)],
{
    match op {
        Token::ADDOP(AddOp::PLUS) => {
            proof {
                reveal_strlit(" +");
            }
            " +"
        },
        Token::ADDOP(AddOp::MINUS) => {
            proof {
                reveal_strlit(" -");
            }
            " -"
        },
        Token::MULOP(MulOp::MULT) => {
            proof {
                reveal_strlit(" *");
            }
            " *"
        },
        Token::MULOP(MulOp::DIV) => {
            proof {
                reveal_strlit(" /");
            }
            " /"
        },
        _ => {
            proof {
                reveal_strlit(" %");
            }
            " %"
        },
    }
}

/// Integer division and remainder, truncating toward zero.
fn int_div_rem(m: i32, n: i32, want_rem: bool) -> (r: i64)
    requires
        n != 0,
    ensures
        r == if want_rem {
            trunc_rem(m as int, n as int)
        } else {
            trunc_div(m as int, n as int)
        },
{
    let am: u64 = if m < 0 {
        (-(m as i64)) as u64
    } else {
        m as u64
    };
    let an: u64 = if n < 0 {
        (-(n as i64)) as u64
    } else {
        n as u64
    };
    let q: u64 = am / an;
    assert(q <= am) by (nonlinear_arith)
        requires
            q == am / an,
            an >= 1,
    ;
    let sq: i64 = if (m < 0) != (n < 0) {
        -(q as i64)
    } else {
        q as i64
    };
    assert(sq == trunc_div(m as int, n as int));
    if want_rem {
        assert(-2147483648 <= sq <= 2147483648);
        assert(-4611686018427387904 <= (n as i64) * sq <= 4611686018427387904) by (nonlinear_arith)
            requires
                -2147483648 <= sq <= 2147483648,
                -2147483648 <= n <= 2147483647,
        ;
        (m as i64) - (n as i64) * sq
    } else {
        sq
    }
}

/// An arithmetic operation on two values.
fn arith_exec(op: &Token, a: Token, b: Token) -> (r: Result<Token, Error>)
    requires
        op is ADDOP || op is MULOP,
    ensures
        match arith(op@, a@, b@) {
            Ok(v) => r is Ok && r->Ok_0@ == v,
            Err(x) => r == Err::<Token, Error>(x),
        },
{
    match (a, b) {
        (Token::DIGIT(m), Token::DIGIT(n)) => {
            let v: i64 = match op {
                Token::ADDOP(AddOp::PLUS) => m as i64 + n as i64,
                Token::ADDOP(AddOp::MINUS) => m as i64 - n as i64,
                Token::MULOP(MulOp::MULT) => {
                    assert(-4611686018427387904 <= (m as i64) * (n as i64) <= 4611686018427387904)
                        by (nonlinear_arith)
                        requires
                            -2147483648 <= m <= 2147483647,
                            -2147483648 <= n <= 2147483647,
                    ;
                    m as i64 * n as i64
                },
                Token::MULOP(MulOp::DIV) => {
                    if n == 0 {
                        return Err(Error::DivisionByZero);
                    }
                    int_div_rem(m, n, false)
                },
                _ => {
                    if n == 0 {
                        return Err(Error::DivisionByZero);
                    }
                    int_div_rem(m, n, true)
                },
            };
            assert(v == int_op(op@, m as int, n as int));
            assert(!((op@ is MulOp) && !(op@ == Tok::MulOp(MulOp::MULT)) && n == 0));
            if v < i32::MIN as i64 || v > i32::MAX as i64 {
                Err(Error::Overflow)
            } else {
                Ok(Token::DIGIT(v as i32))
            }
        },
        (Token::FLOAT(x), Token::FLOAT(y)) => {
            let mut s = x;
            s.append(" ");
            s.append(y.as_str());
            s.append(op_suffix(op));
            proof {
                reveal_strlit(" ");
            }
            assert(s@ == x@ + seq![' '] + y@ + seq![' ', op_symbol(op@)]);
            Ok(Token::FLOAT(s))
        },
        _ => Err(Error::OperandTypeMismatch),
    }
}

/// A tree-walking evaluator over a parsed program, with a scope stack of
/// global, frame-local and block-local bindings.
pub struct Interpreter {
    pub parser: Parser,
    pub global_vars: Vec<Var>,
    pub vars: Vec<Var>,
    pub blocks: Vec<usize>,
    pub frames: Vec<usize>,
}

impl Interpreter {
    /// The model of the scope stack.
    pub open spec fn env(&self) -> Env {
        Env {
            globals: vars_view(self.global_vars@),
            vars: vars_view(self.vars@),
            blocks: marks_view(self.blocks@),
            frames: marks_view(self.frames@),
        }
    }

    /// An interpreter for `input`, with empty scopes.
    pub fn new(input: &str) -> (r: Result<Interpreter, Error>)
        requires
            input@.len() < usize::MAX,
        ensures
            match grammar::start(input@) {
                Ok((s, st)) => r is Ok && r->Ok_0.parser.wf() && r->Ok_0.parser.src() == s
                    && r->Ok_0.parser.state() == st && r->Ok_0.env() == (Env {
                    globals: Seq::empty(),
                    vars: Seq::empty(),
                    blocks: Seq::empty(),
                    frames: Seq::empty(),
                }),
                Err(e) => r is Err && r->Err_0 == e,
            },
    {
        match Parser::new(input) {
            Ok(parser) => {
                let it = Interpreter {
                    parser,
                    global_vars: Vec::new(),
                    vars: Vec::new(),
                    blocks: Vec::new(),
                    frames: Vec::new(),
                };
                assert(it.env().globals =~= Seq::<SVar>::empty());
                assert(it.env().vars =~= Seq::<SVar>::empty());
                assert(it.env().blocks =~= Seq::<int>::empty());
                assert(it.env().frames =~= Seq::<int>::empty());
                Ok(it)
            },
            Err(e) => Err(e),
        }
    }

    fn has_block(&self) -> (r: bool)
        ensures
            r == has_block(self.env()),
    {
        let nf = self.frames.len();
        nf > 0 && self.frames[nf - 1] < self.blocks.len()
    }

    /// Where `name` is bound: `(true, i)` for `vars[i]`, `(false, i)` for
    /// the global `i`.
    fn lookup(&self, name: &String) -> (r: Option<(bool, usize)>)
        ensures
            match r {
                Some((true, j)) => lookup(self.env(), name@) == Some(Slot::Local(j as int)),
                Some((false, j)) => lookup(self.env(), name@) == Some(Slot::Global(j as int)),
                None => lookup(self.env(), name@) is None,
            },
    {
        let base = if self.has_block() {
            self.blocks[self.frames[self.frames.len() - 1]]
        } else {
            self.vars.len()
        };
        match find_var_in(&self.vars, base, self.vars.len(), name) {
            Some(i) => Some((true, i)),
            None => match find_var_in(&self.global_vars, 0, self.global_vars.len(), name) {
                Some(i) => Some((false, i)),
                None => None,
            },
        }
    }

    fn declared_here(&self, name: &String) -> (r: bool)
        ensures
            r == declared_here(self.env(), name@),
    {
        if self.has_block() {
            find_var_in(&self.vars, self.blocks[self.blocks.len() - 1], self.vars.len(), name).is_some()
        } else {
            find_var_in(&self.global_vars, 0, self.global_vars.len(), name).is_some()
        }
    }

    fn declare(&mut self, v: Var) -> (r: Result<(), Error>)
        ensures
            final(self).parser == old(self).parser,
            match declare(old(self).env(), v@) {
                Ok(e) => r is Ok && final(self).env() == e,
                Err(x) => r == Err::<(), Error>(x),
            },
    {
        if self.declared_here(&v.name) {
            return Err(Error::AlreadyDeclared);
        }
        if self.has_block() {
            self.vars.push(v);
            assert(vars_view(self.vars@) =~= vars_view(old(self).vars@).push(v@));
        } else {
            self.global_vars.push(v);
            assert(vars_view(self.global_vars@) =~= vars_view(old(self).global_vars@).push(v@));
        }
        Ok(())
    }

    fn update_var(&mut self, name: &String, value: Token) -> (r: Result<(), Error>)
        ensures
            final(self).parser == old(self).parser,
            match update(old(self).env(), name@, value@) {
                Ok(e) => r is Ok && final(self).env() == e,
                Err(x) => r == Err::<(), Error>(x),
            },
    {
        proof {
            let env = self.env();
            lemma_find_in(env.vars, frame_base(env), env.vars.len() as int, name@);
            lemma_find_in(env.globals, 0, env.globals.len() as int, name@);
        }
        match self.lookup(name) {
            Some((true, i)) => {
                self.vars[i].value = Some(value);
                assert(vars_view(self.vars@) =~= vars_view(old(self).vars@).update(
                    i as int,
                    SVar { value: Some(value@), ..vars_view(old(self).vars@)[i as int] },
                ));

                Ok(())
            },
            Some((false, i)) => {
                self.global_vars[i].value = Some(value);
                assert(vars_view(self.global_vars@) =~= vars_view(old(self).global_vars@).update(
                    i as int,
                    SVar { value: Some(value@), ..vars_view(old(self).global_vars@)[i as int] },
                ));
                Ok(())
            },
            None => Err(Error::NotDeclared),
        }
    }

    fn push_block(&mut self)
        ensures
            final(self).parser == old(self).parser,
            final(self).env() == crate::semantics::push_block(old(self).env()),
    {
        let n = self.vars.len();
        self.blocks.push(n);
        assert(marks_view(self.blocks@) =~= marks_view(old(self).blocks@).push(n as int));
    }

    fn pop_block(&mut self)
        ensures
            final(self).parser == old(self).parser,
            final(self).env() == pop_block(old(self).env()),
    {
        match self.blocks.pop() {
            Some(b) => {
                self.vars.truncate(b);
                assert(marks_view(self.blocks@) =~= marks_view(old(self).blocks@).drop_last());
                proof {
                    if b <= old(self).vars.len() {
                        assert(vars_view(self.vars@) =~= vars_view(old(self).vars@).subrange(
                            0,
                            b as int,
                        ));
                    }
                }
            },
            None => {},
        }
    }

    /// Evaluates `n`, with at most `fuel` calls nested.
    pub fn interpret_input(&mut self, n: &ASTreeNode, fuel: u64) -> (r: Result<Token, Error>)
        ensures
            final(self).parser == old(self).parser,
            match eval(old(self).env(), n@, fuel as nat) {
                Ok((e, v)) => r is Ok && r->Ok_0@ == v && final(self).env() == e,
                Err(x) => r == Err::<Token, Error>(x),
            },
        decreases fuel, n, 2int,
    {
        proof {
            lemma_node_view(*n);
        }
        match &n.value {
            Token::DIGIT(_) | Token::FLOAT(_) => Ok(copy_token(&n.value)),
            Token::IDENT(name) => self.variable(n, name, fuel),
            Token::ADDOP(_) | Token::MULOP(_) => self.binary(n, fuel),
            Token::UNOP(op) => self.unary(n, *op, fuel),
            Token::StatementList(v) => {
                self.push_block();
                match self.run_statements(v, fuel) {
                    Ok(val) => {
                        self.pop_block();
                        Ok(val)
                    },
                    Err(x) => Err(x),
                }
            },
            Token::Type(ty) => self.declaration(n, *ty, fuel),
            Token::ASSIGN => self.assign(n, fuel),
            Token::RET => match &n.left {
                Some(l) => self.interpret_input(l, fuel),
                None => Err(Error::MissingOperand),
            },
            Token::IfData(c) => self.if_node(n, c, fuel),
            Token::COMPARE(c) => self.compare(n, *c, fuel),
            _ => Err(Error::UnexpectedNode),
        }
    }

    /// An arithmetic node.
    fn binary(&mut self, n: &ASTreeNode, fuel: u64) -> (r: Result<Token, Error>)
        requires
            n.value is ADDOP || n.value is MULOP,
        ensures
            final(self).parser == old(self).parser,
            match eval(old(self).env(), n@, fuel as nat) {
                Ok((e, v)) => r is Ok && r->Ok_0@ == v && final(self).env() == e,
                Err(x) => r == Err::<Token, Error>(x),
            },
        decreases fuel, n, 1int,
    {
        proof {
            lemma_node_view(*n);
        }
        let (l, r) = match (&n.left, &n.right) {
            (Some(l), Some(r)) => (l, r),
            _ => return Err(Error::MissingOperand),
        };
        let a = match self.interpret_input(l, fuel) {
            Ok(a) => a,
            Err(x) => return Err(x),
        };
        let b = match self.interpret_input(r, fuel) {
            Ok(b) => b,
            Err(x) => return Err(x),
        };
        arith_exec(&n.value, a, b)
    }

    /// A signed operand.
    fn unary(&mut self, n: &ASTreeNode, op: UnaryOp, fuel: u64) -> (r: Result<Token, Error>)
        requires
            n.value == Token::UNOP(op),
        ensures
            final(self).parser == old(self).parser,
            match eval(old(self).env(), n@, fuel as nat) {
                Ok((e, v)) => r is Ok && r->Ok_0@ == v && final(self).env() == e,
                Err(x) => r == Err::<Token, Error>(x),
            },
        decreases fuel, n, 1int,
    {
        proof {
            lemma_node_view(*n);
        }
        let l = match &n.left {
            Some(l) => l,
            None => return Err(Error::MissingOperand),
        };
        match self.interpret_input(l, fuel) {
            Ok(Token::DIGIT(m)) => {
                if op == UnaryOp::PLUS {
                    Ok(Token::DIGIT(m))
                } else if m == i32::MIN {
                    Err(Error::Overflow)
                } else {
                    Ok(Token::DIGIT(-m))
                }
            },
            Ok(_) => Err(Error::OperandTypeMismatch),
            Err(x) => Err(x),
        }
    }

    /// An assignment to a name.
    fn assign(&mut self, n: &ASTreeNode, fuel: u64) -> (r: Result<Token, Error>)
        requires
            n.value is ASSIGN,
        ensures
            final(self).parser == old(self).parser,
            match eval(old(self).env(), n@, fuel as nat) {
                Ok((e, v)) => r is Ok && r->Ok_0@ == v && final(self).env() == e,
                Err(x) => r == Err::<Token, Error>(x),
            },
        decreases fuel, n, 1int,
    {
        proof {
            lemma_node_view(*n);
        }
        let l = match &n.left {
            Some(l) => l,
            None => return Err(Error::MissingOperand),
        };
        proof {
            lemma_node_view(**l);
        }
        let name = match &l.value {
            Token::IDENT(name) => name,
            _ => return Err(Error::NotAssignable),
        };
        let r = match &n.right {
            Some(r) => r,
            None => return Err(Error::MissingOperand),
        };
        let v = match self.interpret_input(r, fuel) {
            Ok(v) => v,
            Err(x) => return Err(x),
        };
        if matches!(v, Token::Type(Type::NONE)) {
            return Err(Error::NoValue);
        }
        let out = copy_token(&v);
        match self.update_var(name, v) {
            Ok(()) => Ok(out),
            Err(x) => Err(x),
        }
    }

    /// An `if` node with condition `c`.
    fn if_node(&mut self, n: &ASTreeNode, c: &Box<ASTreeNode>, fuel: u64) -> (r: Result<Token, Error>)
        requires
            n.value == Token::IfData(*c),
        ensures
            final(self).parser == old(self).parser,
            match eval(old(self).env(), n@, fuel as nat) {
                Ok((e, v)) => r is Ok && r->Ok_0@ == v && final(self).env() == e,
                Err(x) => r == Err::<Token, Error>(x),
            },
        decreases fuel, n, 1int,
    {
        proof {
            lemma_node_view(*n);
        }
        assert(decreases_to!(n => **c));
        let cv = match self.interpret_input(c, fuel) {
            Ok(cv) => cv,
            Err(x) => return Err(x),
        };
        let holds = !(matches!(cv, Token::DIGIT(0)) || matches!(cv, Token::BOOL(Bool::False)));
        if holds {
            match &n.left {
                Some(b) => self.interpret_input(b, fuel),
                None => Err(Error::UnexpectedNode),
            }
        } else {
            match &n.right {
                Some(b) => self.interpret_input(b, fuel),
                None => Ok(Token::Type(Type::NONE)),
            }
        }
    }

    /// A comparison.
    fn compare(&mut self, n: &ASTreeNode, c: Compare, fuel: u64) -> (r: Result<Token, Error>)
        requires
            n.value == Token::COMPARE(c),
        ensures
            final(self).parser == old(self).parser,
            match eval(old(self).env(), n@, fuel as nat) {
                Ok((e, v)) => r is Ok && r->Ok_0@ == v && final(self).env() == e,
                Err(x) => r == Err::<Token, Error>(x),
            },
        decreases fuel, n, 1int,
    {
        proof {
            lemma_node_view(*n);
        }
        if !(c == Compare::EQ || c == Compare::NE) {
            return Err(Error::Unimplemented);
        }
        let (l, r) = match (&n.left, &n.right) {
            (Some(l), Some(r)) => (l, r),
            _ => return Err(Error::MissingOperand),
        };
        let a = match self.interpret_input(l, fuel) {
            Ok(a) => a,
            Err(x) => return Err(x),
        };
        let b = match self.interpret_input(r, fuel) {
            Ok(b) => b,
            Err(x) => return Err(x),
        };
        let same = values_equal(&a, &b);
        Ok(
            Token::BOOL(
                if same == (c == Compare::EQ) {
                    Bool::True
                } else {
                    Bool::False
                },
            ),
        )
    }

    /// A name: reads a variable, or calls the function it is bound to.
    fn variable(&mut self, n: &ASTreeNode, name: &String, fuel: u64) -> (r: Result<Token, Error>)
        requires
            n.value == Token::IDENT(*name),
        ensures
            final(self).parser == old(self).parser,
            match eval(old(self).env(), n@, fuel as nat) {
                Ok((e, v)) => r is Ok && r->Ok_0@ == v && final(self).env() == e,
                Err(x) => r == Err::<Token, Error>(x),
            },
        decreases fuel, n, 1int,
    {
        proof {
            lemma_node_view(*n);
        }
        let (local, i) = match self.lookup(name) {
            Some(p) => p,
            None => return Err(Error::NotDeclared),
        };
        proof {
            let env = self.env();
            lemma_find_in(env.vars, frame_base(env), env.vars.len() as int, name@);
            lemma_find_in(env.globals, 0, env.globals.len() as int, name@);
        }
        let var = if local {
            &self.vars[i]
        } else {
            &self.global_vars[i]
        };
        if var.ty != Type::FUNC {
            return match &var.value {
                Some(v) => Ok(copy_token(v)),
                None => Err(Error::NotInitialized),
            };
        }
        let fd = match &var.value {
            Some(v) => copy_token(v),
            None => return Err(Error::UnexpectedNode),
        };
        proof {
            if n.left is Some {
                lemma_node_view(*n.left->0);
            }
        }
        match fd {
            Token::FuncData(fname, rty, ps, body) => match &n.left {
                Some(l) => match &l.value {
                    Token::ArgList(args) => {
                        assert(decreases_to!(n => args));
                        self.call_fn(fname, rty, ps, body, args, fuel)
                    },
                    _ => Err(Error::UnexpectedNode),
                },
                None => Err(Error::UnexpectedNode),
            },
            _ => Err(Error::UnexpectedNode),
        }
    }

    /// A declaration node of type `ty`.
    fn declaration(&mut self, n: &ASTreeNode, ty: Type, fuel: u64) -> (r: Result<Token, Error>)
        requires
            n.value == Token::Type(ty),
        ensures
            final(self).parser == old(self).parser,
            match eval(old(self).env(), n@, fuel as nat) {
                Ok((e, v)) => r is Ok && r->Ok_0@ == v && final(self).env() == e,
                Err(x) => r == Err::<Token, Error>(x),
            },
        decreases fuel, n, 1int,
    {
        proof {
            lemma_node_view(*n);
        }
        let l = match &n.left {
            Some(l) => l,
            None => return Err(Error::MissingOperand),
        };
        proof {
            lemma_node_view(**l);
        }
        match &l.value {
            Token::IDENT(name) => {
                if self.declared_here(name) {
                    return Err(Error::AlreadyDeclared);
                }
                let value = match &n.right {
                    Some(init) => match self.interpret_input(init, fuel) {
                        Ok(v) => Some(v),
                        Err(x) => return Err(x),
                    },
                    None => None,
                };
                match self.declare(Var { name: name.clone(), ty, value }) {
                    Ok(()) => Ok(Token::Type(Type::NONE)),
                    Err(x) => Err(x),
                }
            },
            Token::FuncData(fname, _, _, _) => {
                let v = Var { name: fname.clone(), ty, value: Some(copy_token(&l.value)) };
                match self.declare(v) {
                    Ok(()) => Ok(Token::Type(Type::NONE)),
                    Err(x) => Err(x),
                }
            },
            _ => Err(Error::ExpectedIdentifier),
        }
    }

    /// Evaluates a statement list in the current block.
    fn run_statements(&mut self, v: &Vec<ASTreeNode>, fuel: u64) -> (r: Result<Token, Error>)
        ensures
            final(self).parser == old(self).parser,
            match eval_stmts(old(self).env(), trees_view(v@), 0, fuel as nat) {
                Ok((e, x)) => r is Ok && r->Ok_0@ == x && final(self).env() == e,
                Err(x) => r == Err::<Token, Error>(x),
            },
        decreases fuel, v, 1int,
    {
        let ghost sv = trees_view(v@);
        proof {
            lemma_trees_view(v@);
        }
        let mut k: usize = 0;
        while k < v.len()
            invariant
                k <= v@.len(),
                sv == trees_view(v@),
                sv.len() == v@.len(),
                forall|j: int| 0 <= j < v@.len() ==> #[trigger] sv[j] == v@[j]@,
                self.parser == old(self).parser,
                eval_stmts(old(self).env(), sv, 0, fuel as nat) == eval_stmts(
                    self.env(),
                    sv,
                    k as int,
                    fuel as nat,
                ),
            decreases v.len() - k,
        {
            let item = &v[k];
            assert(decreases_to!(v => v@[k as int]));
            proof {
                lemma_node_view(*item);
            }
            let val = match self.interpret_input(item, fuel) {
                Ok(val) => val,
                Err(x) => return Err(x),
            };
            let passes = matches!(item.value, Token::IfData(_)) || matches!(item.value, Token::RET);
            if passes && !matches!(val, Token::Type(Type::NONE)) {
                return Ok(val);
            }
            k = k + 1;
        }
        Ok(Token::Type(Type::NONE))
    }

    /// Evaluates call arguments from left to right.
    fn eval_arguments(&mut self, args: &Vec<ASTreeNode>, fuel: u64) -> (r: Result<Vec<Token>, Error>)
        ensures
            final(self).parser == old(self).parser,
            match eval_args(old(self).env(), trees_view(args@), 0, fuel as nat) {
                Ok((e, vs)) => r is Ok && values_view(r->Ok_0@) == vs && final(self).env() == e,
                Err(x) => r == Err::<Vec<Token>, Error>(x),
            },
        decreases fuel, args, 1int,
    {
        let ghost sv = trees_view(args@);
        proof {
            lemma_trees_view(args@);
        }
        let mut out: Vec<Token> = Vec::new();
        let mut k: usize = 0;
        while k < args.len()
            invariant
                k <= args@.len(),
                sv == trees_view(args@),
                sv.len() == args@.len(),
                forall|j: int| 0 <= j < args@.len() ==> #[trigger] sv[j] == args@[j]@,
                self.parser == old(self).parser,
                eval_args(old(self).env(), sv, 0, fuel as nat) == match eval_args(
                    self.env(),
                    sv,
                    k as int,
                    fuel as nat,
                ) {
                    Ok((e, vs)) => Ok((e, values_view(out@) + vs)),
                    Err(x) => Err(x),
                },
            decreases args.len() - k,
        {
            assert(values_view(out@) + Seq::<Tok>::empty() =~= values_view(out@));
            assert(decreases_to!(args => args@[k as int]));
            let val = match self.interpret_input(&args[k], fuel) {
                Ok(val) => val,
                Err(x) => return Err(x),
            };
            proof {
                if let Ok((e2, vs2)) = eval_args(self.env(), sv, k + 1, fuel as nat) {
                    assert(values_view(out@) + (seq![val@] + vs2) =~= values_view(out@.push(val))
                        + vs2);
                }
            }
            out.push(val);
            k = k + 1;
        }
        assert(values_view(out@) + Seq::<Tok>::empty() =~= values_view(out@));
        Ok(out)
    }

    /// Calls the function `name` on the arguments `args`.
    fn call_fn(
        &mut self,
        name: String,
        rty: Type,
        ps: Vec<(Type, String)>,
        body: Box<ASTreeNode>,
        args: &Vec<ASTreeNode>,
        fuel: u64,
    ) -> (r: Result<Token, Error>)
        ensures
            final(self).parser == old(self).parser,
            match call(
                old(self).env(),
                name@,
                rty,
                params_view(ps@),
                (*body)@,
                trees_view(args@),
                fuel as nat,
            ) {
                Ok((e, v)) => r is Ok && r->Ok_0@ == v && final(self).env() == e,
                Err(x) => r == Err::<Token, Error>(x),
            },
        decreases fuel, args, 2int,
    {
        let ghost pv = params_view(ps@);
        let vals = match self.eval_arguments(args, fuel) {
            Ok(vals) => vals,
            Err(x) => return Err(x),
        };
        assert(values_view(vals@).len() == vals@.len());
        assert(pv.len() == ps@.len());
        if vals.len() != ps.len() {
            return Err(Error::ArgumentCount);
        }
        if fuel == 0 {
            return Err(Error::CallDepthExceeded);
        }
        let ghost e1 = self.env();
        let ghost f1 = self.frames@;
        let nb = self.blocks.len();
        self.frames.push(nb);
        assert(marks_view(self.frames@) =~= marks_view(f1).push(nb as int));
        self.push_block();
        assert(self.env() == crate::semantics::push_frame(e1));
        let ghost vv = values_view(vals@);
        let ghost e_start = self.env();
        let mut k: usize = 0;
        while k < ps.len()
            invariant
                k <= ps@.len(),
                ps@.len() == vals@.len(),
                pv == params_view(ps@),
                vv == values_view(vals@),
                self.parser == old(self).parser,
                bind_params(e_start, pv, vv, 0) == bind_params(self.env(), pv, vv, k as int),
                e_start == crate::semantics::push_frame(e1),
                eval_args(old(self).env(), trees_view(args@), 0, fuel as nat) == Ok::<
                    (Env, Seq<Tok>),
                    Error,
                >((e1, vv)),
                fuel != 0,
                vv.len() == pv.len(),
            decreases ps.len() - k,
        {
            assert(vv[k as int] == vals@[k as int]@);
            assert(pv[k as int] == (ps@[k as int].0, ps@[k as int].1@));
            let t = value_type(&vals[k]);
            if t != Some(ps[k].0) {
                return Err(Error::ArgumentTypeMismatch);
            }
            let v = Var { name: ps[k].1.clone(), ty: ps[k].0, value: Some(copy_token(&vals[k])) };
            match self.declare(v) {
                Ok(()) => {},
                Err(x) => return Err(x),
            }
            k = k + 1;
        }
        let code = copy_tree(&body);
        let me = Var {
            name: name.clone(),
            ty: Type::FUNC,
            value: Some(Token::FuncData(name, rty, ps, body)),
        };
        match self.declare(me) {
            Ok(()) => {},
            Err(x) => return Err(x),
        }
        let res = self.interpret_input(&code, fuel - 1);
        match res {
            Ok(v) => {
                self.pop_block();
                let ghost f4 = self.frames@;
                self.frames.pop();
                proof {
                    if f4.len() > 0 {
                        assert(marks_view(self.frames@) =~= marks_view(f4).drop_last());
                    }
                }
                Ok(v)
            },
            Err(x) => Err(x),
        }
    }

    /// Parses one statement and evaluates it in a fresh top-level frame,
    /// whose declarations are global.
    pub fn interpret_block(&mut self) -> (r: Result<Token, Error>)
        requires
            old(self).parser.wf(),
        ensures
            final(self).parser.wf(),
            match grammar::statement(old(self).parser.src(), old(self).parser.state()) {
                Ok((t, _)) => match eval(enter(old(self).env()), t, MAX_CALL_DEPTH as nat) {
                    Ok((e, v)) => r is Ok && r->Ok_0@ == v && final(self).env() == leave(e),
                    Err(x) => r == Err::<Token, Error>(x),
                },
                Err(x) => r == Err::<Token, Error>(x),
            },
    {
        let t = match self.parser.statement() {
            Ok(t) => t,
            Err(e) => return Err(e),
        };
        self.run_in_frame(&t)
    }

    /// Parses a block and evaluates it in a fresh top-level frame.
    pub fn interpret_program(&mut self) -> (r: Result<Token, Error>)
        requires
            old(self).parser.wf(),
        ensures
            final(self).parser.wf(),
            match grammar::parse_block(old(self).parser.src(), old(self).parser.state()) {
                Ok((t, _)) => match eval(enter(old(self).env()), t, MAX_CALL_DEPTH as nat) {
                    Ok((e, v)) => r is Ok && r->Ok_0@ == v && final(self).env() == leave(e),
                    Err(x) => r == Err::<Token, Error>(x),
                },
                Err(x) => r == Err::<Token, Error>(x),
            },
    {
        let t = match self.parser.parse_block() {
            Ok(t) => t,
            Err(e) => return Err(e),
        };
        self.run_in_frame(&t)
    }

    /// Parses an expression and evaluates it to an integer.
    pub fn interpret(&mut self) -> (r: Result<i32, Error>)
        requires
            old(self).parser.wf(),
        ensures
            final(self).parser.wf(),
            match grammar::expr(old(self).parser.src(), old(self).parser.state()) {
                Ok((t, _)) => match eval(old(self).env(), t, MAX_CALL_DEPTH as nat) {
                    Ok((e, Tok::Digit(v))) => r == Ok::<i32, Error>(v) && final(self).env() == e,
                    Ok(_) => r == Err::<i32, Error>(Error::OperandTypeMismatch),
                    Err(x) => r == Err::<i32, Error>(x),
                },
                Err(x) => r == Err::<i32, Error>(x),
            },
    {
        let t = match self.parser.expr() {
            Ok(t) => t,
            Err(e) => return Err(e),
        };
        match self.interpret_input(&t, MAX_CALL_DEPTH) {
            Ok(Token::DIGIT(v)) => Ok(v),
            Ok(_) => Err(Error::OperandTypeMismatch),
            Err(x) => Err(x),
        }
    }

    fn run_in_frame(&mut self, t: &ASTreeNode) -> (r: Result<Token, Error>)
        ensures
            final(self).parser == old(self).parser,
            match eval(enter(old(self).env()), t@, MAX_CALL_DEPTH as nat) {
                Ok((e, v)) => r is Ok && r->Ok_0@ == v && final(self).env() == leave(e),
                Err(x) => r == Err::<Token, Error>(x),
            },
    {
        let ghost f0 = self.frames@;
        let nb = self.blocks.len();
        self.frames.push(nb);
        assert(marks_view(self.frames@) =~= marks_view(f0).push(nb as int));
        let res = self.interpret_input(t, MAX_CALL_DEPTH);
        let ghost f1 = self.frames@;
        self.frames.pop();
        proof {
            if f1.len() > 0 {
                assert(marks_view(self.frames@) =~= marks_view(f1).drop_last());
            }
        }
        res
    }
}

} // verus!
