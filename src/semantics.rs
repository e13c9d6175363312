use vstd::prelude::*;

use crate::error::Error;
use crate::token::{AddOp, Bool, Compare, MulOp, Tok, Tree, Type, UnaryOp};

verus! {

/// A variable binding: its name, declared type and value, if any.
pub struct SVar {
    pub name: Seq<char>,
    pub ty: Type,
    pub value: Option<Tok>,
}

/// The scope stack. `vars` holds the bindings of every open block, oldest
/// first; `blocks[k]` is the index in `vars` where block `k` begins;
/// `frames[f]` is the index in `blocks` of the first block of call frame `f`.
/// Lookup sees the blocks of the innermost frame, innermost first, and then
/// the globals: a function body does not see its caller's locals.
pub struct Env {
    pub globals: Seq<SVar>,
    pub vars: Seq<SVar>,
    pub blocks: Seq<int>,
    pub frames: Seq<int>,
}

/// Where a name is bound.
pub enum Slot {
    Local(int),
    Global(int),
}

/// Whether the innermost frame has an open block.
pub open spec fn has_block(env: Env) -> bool {
    env.frames.len() > 0 && 0 <= env.frames.last() < env.blocks.len()
}

/// The index in `vars` of the first binding that the innermost frame sees.
pub open spec fn frame_base(env: Env) -> int {
    if has_block(env) {
        env.blocks[env.frames.last()]
    } else {
        env.vars.len() as int
    }
}

/// The index in `vars` of the first binding of the innermost block.
pub open spec fn block_base(env: Env) -> int {
    if has_block(env) {
        env.blocks.last()
    } else {
        env.vars.len() as int
    }
}

/// The highest index in `lo..hi` whose binding has the given name.
pub open spec fn find_in(vs: Seq<SVar>, lo: int, hi: int, name: Seq<char>) -> Option<int>
    decreases hi - lo,
{
    if hi <= lo || hi < 1 || hi > vs.len() {
        None
    } else if vs[hi - 1].name == name {
        Some(hi - 1)
    } else {
        find_in(vs, lo, hi - 1, name)
    }
}

/// A found binding lies in the searched range and has the name.
pub proof fn lemma_find_in(vs: Seq<SVar>, lo: int, hi: int, name: Seq<char>)
    ensures
        find_in(vs, lo, hi, name) matches Some(i) ==> lo <= i < hi <= vs.len() && 0 <= i
            && vs[i].name == name,
    decreases hi - lo,
{
    if hi > lo && hi >= 1 && hi <= vs.len() && vs[hi - 1].name != name {
        lemma_find_in(vs, lo, hi - 1, name);
    }
}

/// The binding that a name refers to: the innermost one of the current frame,
/// else a global.
pub open spec fn lookup(env: Env, name: Seq<char>) -> Option<Slot> {
    match find_in(env.vars, frame_base(env), env.vars.len() as int, name) {
        Some(i) => Some(Slot::Local(i)),
        None => match find_in(env.globals, 0, env.globals.len() as int, name) {
            Some(i) => Some(Slot::Global(i)),
            None => None,
        },
    }
}

pub open spec fn slot_var(env: Env, slot: Slot) -> SVar {
    match slot {
        Slot::Local(i) => env.vars[i],
        Slot::Global(i) => env.globals[i],
    }
}

/// Whether a name is bound in the table that a declaration would add to: the
/// innermost block, or the globals when the current frame has no block.
pub open spec fn declared_here(env: Env, name: Seq<char>) -> bool {
    if has_block(env) {
        find_in(env.vars, block_base(env), env.vars.len() as int, name) is Some
    } else {
        find_in(env.globals, 0, env.globals.len() as int, name) is Some
    }
}

/// Adds a binding to the innermost block, or to the globals when the current
/// frame has no block. A name already bound there is refused.
pub open spec fn declare(env: Env, v: SVar) -> Result<Env, Error> {
    if declared_here(env, v.name) {
        Err(Error::AlreadyDeclared)
    } else if has_block(env) {
        Ok(Env { vars: env.vars.push(v), ..env })
    } else {
        Ok(Env { globals: env.globals.push(v), ..env })
    }
}

/// Gives a value to the binding that a name refers to.
pub open spec fn update(env: Env, name: Seq<char>, val: Tok) -> Result<Env, Error> {
    match lookup(env, name) {
        Some(Slot::Local(i)) => Ok(
            Env { vars: env.vars.update(i, SVar { value: Some(val), ..env.vars[i] }), ..env },
        ),
        Some(Slot::Global(i)) => Ok(
            Env {
                globals: env.globals.update(i, SVar { value: Some(val), ..env.globals[i] }),
                ..env
            },
        ),
        None => Err(Error::NotDeclared),
    }
}

pub open spec fn push_block(env: Env) -> Env {
    Env { blocks: env.blocks.push(env.vars.len() as int), ..env }
}

/// Closes the innermost block, dropping its bindings.
pub open spec fn pop_block(env: Env) -> Env {
    if env.blocks.len() == 0 {
        env
    } else {
        let b = env.blocks.last();
        Env {
            vars: if 0 <= b <= env.vars.len() {
                env.vars.subrange(0, b)
            } else {
                env.vars
            },
            blocks: env.blocks.drop_last(),
            ..env
        }
    }
}

/// Opens a call frame with one block, for the parameters.
pub open spec fn push_frame(env: Env) -> Env {
    push_block(Env { frames: env.frames.push(env.blocks.len() as int), ..env })
}

/// Closes the innermost call frame and its block.
pub open spec fn pop_frame(env: Env) -> Env {
    let e = pop_block(env);
    if e.frames.len() == 0 {
        e
    } else {
        Env { frames: e.frames.drop_last(), ..e }
    }
}

/// Opens a frame without a block, as the top level of a program has.
pub open spec fn enter(env: Env) -> Env {
    Env { frames: env.frames.push(env.blocks.len() as int), ..env }
}

pub open spec fn leave(env: Env) -> Env {
    if env.frames.len() == 0 {
        env
    } else {
        Env { frames: env.frames.drop_last(), ..env }
    }
}

pub open spec fn none_value() -> Tok {
    Tok::Type(Type::NONE)
}

/// Integer division that truncates toward zero.
pub open spec fn trunc_div(m: int, n: int) -> int {
    let q = abs(m) / abs(n);
    if (m < 0) != (n < 0) {
        -q
    } else {
        q
    }
}

pub open spec fn abs(m: int) -> int {
    if m < 0 {
        -m
    } else {
        m
    }
}

/// The remainder that goes with `trunc_div`; it has the sign of `m`.
pub open spec fn trunc_rem(m: int, n: int) -> int {
    m - n * trunc_div(m, n)
}

pub open spec fn fits_i32(v: int) -> bool {
    i32::MIN <= v <= i32::MAX
}

/// The exact result of an integer operation, before the range check.
pub open spec fn int_op(op: Tok, m: int, n: int) -> int {
    match op {
        Tok::AddOp(AddOp::PLUS) => m + n,
        Tok::AddOp(AddOp::MINUS) => m - n,
        Tok::MulOp(MulOp::MULT) => m * n,
        Tok::MulOp(MulOp::DIV) => trunc_div(m, n),
        _ => trunc_rem(m, n),
    }
}

/// The symbol of an arithmetic operator in postfix text.
pub open spec fn op_symbol(op: Tok) -> char {
    match op {
        Tok::AddOp(AddOp::PLUS) => '+',
        Tok::AddOp(AddOp::MINUS) => '-',
        Tok::MulOp(MulOp::MULT) => '*',
        Tok::MulOp(MulOp::DIV) => '/',
        _ => '%',
    }
}

/// An arithmetic operation on two values of one numeric type. Integer
/// division and remainder by zero, and results outside 32 bits, are errors.
/// Float operations are kept exactly, as postfix text.
pub open spec fn arith(op: Tok, a: Tok, b: Tok) -> Result<Tok, Error> {
    match (a, b) {
        (Tok::Digit(m), Tok::Digit(n)) => if (op is MulOp) && !(op == Tok::MulOp(MulOp::MULT))
            && n == 0 {
            Err(Error::DivisionByZero)
        } else if fits_i32(int_op(op, m as int, n as int)) {
            Ok(Tok::Digit(int_op(op, m as int, n as int) as i32))
        } else {
            Err(Error::Overflow)
        },
        (Tok::Float(x), Tok::Float(y)) => Ok(
            Tok::Float(x + seq![' '] + y + seq![' ', op_symbol(op)]),
        ),
        _ => Err(Error::OperandTypeMismatch),
    }
}

/// Equality of two values: the same integer, float text, truth value or
/// type tag.
pub open spec fn same_value(a: Tok, b: Tok) -> bool {
    match (a, b) {
        (Tok::Digit(x), Tok::Digit(y)) => x == y,
        (Tok::Float(x), Tok::Float(y)) => x == y,
        (Tok::Bool(x), Tok::Bool(y)) => x == y,
        (Tok::Type(x), Tok::Type(y)) => x == y,
        _ => false,
    }
}

/// A condition holds unless it is the integer zero or false.
pub open spec fn truthy(v: Tok) -> bool {
    !(v == Tok::Digit(0) || v == Tok::Bool(Bool::False))
}

/// The type tag of an argument value.
pub open spec fn type_of(v: Tok) -> Option<Type> {
    match v {
        Tok::Digit(_) => Some(Type::INT),
        Tok::Float(_) => Some(Type::FLOAT),
        Tok::Type(t) => Some(t),
        _ => None,
    }
}

/// Binds the parameters `ps[i..]` to the values `vals[i..]`, checking each
/// value's type against the declared one.
pub open spec fn bind_params(env: Env, ps: Seq<(Type, Seq<char>)>, vals: Seq<Tok>, i: int) -> Result<Env, Error>
    decreases ps.len() - i,
{
    if i < 0 || i >= ps.len() || i >= vals.len() {
        Ok(env)
    } else if type_of(vals[i]) != Some(ps[i].0) {
        Err(Error::ArgumentTypeMismatch)
    } else {
        match declare(env, SVar { name: ps[i].1, ty: ps[i].0, value: Some(vals[i]) }) {
            Ok(e) => bind_params(e, ps, vals, i + 1),
            Err(x) => Err(x),
        }
    }
}

/// Whether a statement passes its value on to the enclosing list.
pub open spec fn passes_value(t: Tree) -> bool {
    t.value is IfData || t.value is Ret
}

/// Evaluates `t`. `fuel` bounds how deeply calls may nest.
pub open spec fn eval(env: Env, t: Tree, fuel: nat) -> Result<(Env, Tok), Error>
    decreases fuel, t, 0int,
{
    match t.value {
        Tok::Digit(_) | Tok::Float(_) => Ok((env, t.value)),
        Tok::Ident(name) => match lookup(env, name) {
            None => Err(Error::NotDeclared),
            Some(slot) => {
                let var = slot_var(env, slot);
                if var.ty == Type::FUNC {
                    match var.value {
                        Some(Tok::FuncData(fname, rty, ps, body)) => match t.left {
                            Some(l) => match l.value {
                                Tok::ArgList(args) => call(
                                    env,
                                    fname,
                                    rty,
                                    ps,
                                    *body,
                                    args,
                                    fuel,
                                ),
                                _ => Err(Error::UnexpectedNode),
                            },
                            None => Err(Error::UnexpectedNode),
                        },
                        _ => Err(Error::UnexpectedNode),
                    }
                } else {
                    match var.value {
                        Some(v) => Ok((env, v)),
                        None => Err(Error::NotInitialized),
                    }
                }
            },
        },
        Tok::AddOp(_) | Tok::MulOp(_) => match (t.left, t.right) {
            (Some(l), Some(r)) => match eval(env, *l, fuel) {
                Ok((e1, a)) => match eval(e1, *r, fuel) {
                    Ok((e2, b)) => match arith(t.value, a, b) {
                        Ok(v) => Ok((e2, v)),
                        Err(x) => Err(x),
                    },
                    Err(x) => Err(x),
                },
                Err(x) => Err(x),
            },
            _ => Err(Error::MissingOperand),
        },
        Tok::UnOp(op) => match t.left {
            Some(l) => match eval(env, *l, fuel) {
                Ok((e1, Tok::Digit(m))) => if op == UnaryOp::PLUS {
                    Ok((e1, Tok::Digit(m)))
                } else if m == i32::MIN {
                    Err(Error::Overflow)
                } else {
                    Ok((e1, Tok::Digit((-m) as i32)))
                },
                Ok(_) => Err(Error::OperandTypeMismatch),
                Err(x) => Err(x),
            },
            None => Err(Error::MissingOperand),
        },
        Tok::StatementList(stmts) => match eval_stmts(push_block(env), stmts, 0, fuel) {
            Ok((e1, v)) => Ok((pop_block(e1), v)),
            Err(x) => Err(x),
        },
        Tok::Type(ty) => match t.left {
            Some(l) => match l.value {
                Tok::Ident(n) => if declared_here(env, n) {
                    Err(Error::AlreadyDeclared)
                } else {
                    match t.right {
                        Some(init) => match eval(env, *init, fuel) {
                            Ok((e1, v)) => match declare(
                                e1,
                                SVar { name: n, ty: ty, value: Some(v) },
                            ) {
                                Ok(e2) => Ok((e2, none_value())),
                                Err(x) => Err(x),
                            },
                            Err(x) => Err(x),
                        },
                        None => match declare(env, SVar { name: n, ty: ty, value: None }) {
                            Ok(e1) => Ok((e1, none_value())),
                            Err(x) => Err(x),
                        },
                    }
                },
                Tok::FuncData(fname, _, _, _) => match declare(
                    env,
                    SVar { name: fname, ty: ty, value: Some(l.value) },
                ) {
                    Ok(e1) => Ok((e1, none_value())),
                    Err(x) => Err(x),
                },
                _ => Err(Error::ExpectedIdentifier),
            },
            None => Err(Error::MissingOperand),
        },
        Tok::Assign => match t.left {
            Some(l) => match l.value {
                Tok::Ident(n) => match t.right {
                    Some(r) => match eval(env, *r, fuel) {
                        Ok((e1, v)) => if v == none_value() {
                            Err(Error::NoValue)
                        } else {
                            match update(e1, n, v) {
                                Ok(e2) => Ok((e2, v)),
                                Err(x) => Err(x),
                            }
                        },
                        Err(x) => Err(x),
                    },
                    None => Err(Error::MissingOperand),
                },
                _ => Err(Error::NotAssignable),
            },
            None => Err(Error::MissingOperand),
        },
        Tok::Ret => match t.left {
            Some(l) => eval(env, *l, fuel),
            None => Err(Error::MissingOperand),
        },
        Tok::IfData(cond) => match eval(env, *cond, fuel) {
            Ok((e1, c)) => if truthy(c) {
                match t.left {
                    Some(b) => eval(e1, *b, fuel),
                    None => Err(Error::UnexpectedNode),
                }
            } else {
                match t.right {
                    Some(b) => eval(e1, *b, fuel),
                    None => Ok((e1, none_value())),
                }
            },
            Err(x) => Err(x),
        },
        Tok::Compare(c) => if c == Compare::EQ || c == Compare::NE {
            match (t.left, t.right) {
                (Some(l), Some(r)) => match eval(env, *l, fuel) {
                    Ok((e1, a)) => match eval(e1, *r, fuel) {
                        Ok((e2, b)) => Ok(
                            (
                                e2,
                                Tok::Bool(
                                    if same_value(a, b) == (c == Compare::EQ) {
                                        Bool::True
                                    } else {
                                        Bool::False
                                    },
                                ),
                            ),
                        ),
                        Err(x) => Err(x),
                    },
                    Err(x) => Err(x),
                },
                _ => Err(Error::MissingOperand),
            }
        } else {
            Err(Error::Unimplemented)
        },
        _ => Err(Error::UnexpectedNode),
    }
}

/// Evaluates the statements `stmts[i..]` in order. The first value that a
/// `return` or an `if` passes on ends the list.
pub open spec fn eval_stmts(env: Env, stmts: Seq<Tree>, i: int, fuel: nat) -> Result<(Env, Tok), Error>
    decreases fuel, stmts, stmts.len() - i,
{
    if i < 0 || i >= stmts.len() {
        Ok((env, none_value()))
    } else {
        match eval(env, stmts[i], fuel) {
            Ok((e1, v)) => if passes_value(stmts[i]) && v != none_value() {
                Ok((e1, v))
            } else {
                eval_stmts(e1, stmts, i + 1, fuel)
            },
            Err(x) => Err(x),
        }
    }
}

/// Evaluates the arguments `args[i..]` from left to right.
pub open spec fn eval_args(env: Env, args: Seq<Tree>, i: int, fuel: nat) -> Result<(Env, Seq<Tok>), Error>
    decreases fuel, args, args.len() - i,
{
    if i < 0 || i >= args.len() {
        Ok((env, Seq::empty()))
    } else {
        match eval(env, args[i], fuel) {
            Ok((e1, v)) => match eval_args(e1, args, i + 1, fuel) {
                Ok((e2, vs)) => Ok((e2, seq![v] + vs)),
                Err(x) => Err(x),
            },
            Err(x) => Err(x),
        }
    }
}

/// Calls a function: evaluates the arguments in the caller's scope, opens a
/// frame, binds the parameters and the function's own name (for recursion),
/// evaluates the body, and closes the frame.
pub open spec fn call(
    env: Env,
    name: Seq<char>,
    rty: Type,
    ps: Seq<(Type, Seq<char>)>,
    body: Tree,
    args: Seq<Tree>,
    fuel: nat,
) -> Result<(Env, Tok), Error>
    decreases fuel, args, args.len() + 1,
{
    match eval_args(env, args, 0, fuel) {
        Ok((e1, vals)) => if vals.len() != ps.len() {
            Err(Error::ArgumentCount)
        } else if fuel == 0 {
            Err(Error::CallDepthExceeded)
        } else {
            match bind_params(push_frame(e1), ps, vals, 0) {
                Ok(e2) => match declare(
                    e2,
                    SVar {
                        name: name,
                        ty: Type::FUNC,
                        value: Some(Tok::FuncData(name, rty, ps, Box::new(body))),
                    },
                ) {
                    Ok(e3) => match eval(e3, body, (fuel - 1) as nat) {
                        Ok((e4, v)) => Ok((pop_frame(e4), v)),
                        Err(x) => Err(x),
                    },
                    Err(x) => Err(x),
                },
                Err(x) => Err(x),
            }
        },
        Err(x) => Err(x),
    }
}

/// Declaring a name again in the table that already binds it is refused,
/// with or without an initializer.
pub proof fn lemma_redeclaration_rejected(env: Env, t: Tree, fuel: nat)
    requires
        t.value is Type,
        t.left is Some,
        t.left->0.value is Ident,
        declared_here(env, t.left->0.value->Ident_0),
    ensures
        eval(env, t, fuel) == Err::<(Env, Tok), Error>(Error::AlreadyDeclared),
{
}

/// A call whose argument has a type other than its parameter's declared type
/// is refused; the value is not converted.
pub proof fn lemma_argument_type_checked(
    env: Env,
    name: Seq<char>,
    rty: Type,
    ps: Seq<(Type, Seq<char>)>,
    body: Tree,
    args: Seq<Tree>,
    fuel: nat,
)
    requires
        eval_args(env, args, 0, fuel) is Ok,
        eval_args(env, args, 0, fuel)->Ok_0.1.len() == ps.len() > 0,
        fuel > 0,
        type_of(eval_args(env, args, 0, fuel)->Ok_0.1[0]) != Some(ps[0].0),
    ensures
        call(env, name, rty, ps, body, args, fuel) == Err::<(Env, Tok), Error>(
            Error::ArgumentTypeMismatch,
        ),
{
}

/// `e` is `env` after evaluation: the same blocks and frames, and bindings
/// that were only added to or given new values, never removed or renamed.
/// While a block is open, globals are not added to.
pub open spec fn extends(env: Env, e: Env) -> bool {
    &&& e.blocks == env.blocks
    &&& e.frames == env.frames
    &&& env.vars.len() <= e.vars.len()
    &&& forall|i: int| 0 <= i < env.vars.len() ==> (#[trigger] e.vars[i]).name == env.vars[i].name
    &&& env.globals.len() <= e.globals.len()
    &&& forall|i: int|
        0 <= i < env.globals.len() ==> (#[trigger] e.globals[i]).name == env.globals[i].name
    &&& has_block(env) ==> e.globals.len() == env.globals.len()
}

proof fn lemma_extends_trans(a: Env, b: Env, c: Env)
    requires
        extends(a, b),
        extends(b, c),
    ensures
        extends(a, c),
{
    assert forall|i: int| 0 <= i < a.vars.len() implies (#[trigger] c.vars[i]).name == a.vars[i].name by {
        assert(c.vars[i].name == b.vars[i].name);
    }
    assert forall|i: int| 0 <= i < a.globals.len() implies (#[trigger] c.globals[i]).name
        == a.globals[i].name by {
        assert(c.globals[i].name == b.globals[i].name);
    }
}

proof fn lemma_extends_refl(a: Env)
    ensures
        extends(a, a),
{
}

proof fn lemma_declare_extends(env: Env, v: SVar)
    ensures
        declare(env, v) matches Ok(e) ==> extends(env, e),
{
}

proof fn lemma_update_extends(env: Env, name: Seq<char>, val: Tok)
    ensures
        update(env, name, val) matches Ok(e) ==> extends(env, e),
{
    lemma_find_in(env.vars, frame_base(env), env.vars.len() as int, name);
    lemma_find_in(env.globals, 0, env.globals.len() as int, name);
    match lookup(env, name) {
        Some(Slot::Local(i)) => {
            let e = update(env, name, val)->Ok_0;
            assert forall|j: int| 0 <= j < env.vars.len() implies (#[trigger] e.vars[j]).name
                == env.vars[j].name by {
                if j == i {
                } else {
                }
            }
        },
        Some(Slot::Global(i)) => {
            let e = update(env, name, val)->Ok_0;
            assert forall|j: int| 0 <= j < env.globals.len() implies (#[trigger] e.globals[j]).name
                == env.globals[j].name by {
                if j == i {
                } else {
                }
            }
        },
        None => {},
    }
}

proof fn lemma_bind_extends(env: Env, ps: Seq<(Type, Seq<char>)>, vals: Seq<Tok>, i: int)
    ensures
        bind_params(env, ps, vals, i) matches Ok(e) ==> extends(env, e),
    decreases ps.len() - i,
{
    if i < 0 || i >= ps.len() || i >= vals.len() {
    } else if type_of(vals[i]) != Some(ps[i].0) {
    } else {
        let v = SVar { name: ps[i].1, ty: ps[i].0, value: Some(vals[i]) };
        lemma_declare_extends(env, v);
        if let Ok(e) = declare(env, v) {
            lemma_bind_extends(e, ps, vals, i + 1);
            if let Ok(e2) = bind_params(e, ps, vals, i + 1) {
                lemma_extends_trans(env, e, e2);
            }
        }
    }
}

/// Closing a block that was opened on `env`, after evaluation only extended
/// it, gives back `env` with the same bindings in place.
proof fn lemma_close_block(env: Env, e: Env)
    requires
        extends(push_block(env), e),
    ensures
        extends(env, pop_block(e)),
        pop_block(e).vars.len() == env.vars.len(),
{
    let b = env.vars.len() as int;
    assert(e.blocks.last() == b);
    assert(pop_block(e).blocks =~= env.blocks);
}

proof fn lemma_eval_extends(env: Env, t: Tree, fuel: nat)
    ensures
        eval(env, t, fuel) matches Ok((e, _)) ==> extends(env, e),
    decreases fuel, t, 0int,
{
    match t.value {
        Tok::Ident(name) => {
            if let Some(slot) = lookup(env, name) {
                let var = slot_var(env, slot);
                if var.ty == Type::FUNC {
                    if let Some(Tok::FuncData(fname, rty, ps, body)) = var.value {
                        if let Some(l) = t.left {
                            if let Tok::ArgList(args) = l.value {
                                lemma_call_extends(env, fname, rty, ps, *body, args, fuel);
                            }
                        }
                    }
                }
            }
        },
        Tok::AddOp(_) | Tok::MulOp(_) | Tok::Compare(_) => {
            if let (Some(l), Some(r)) = (t.left, t.right) {
                lemma_eval_extends(env, *l, fuel);
                if let Ok((e1, _)) = eval(env, *l, fuel) {
                    lemma_eval_extends(e1, *r, fuel);
                    if let Ok((e2, _)) = eval(e1, *r, fuel) {
                        lemma_extends_trans(env, e1, e2);
                    }
                }
            }
        },
        Tok::UnOp(_) | Tok::Ret => {
            if let Some(l) = t.left {
                lemma_eval_extends(env, *l, fuel);
            }
        },
        Tok::StatementList(stmts) => {
            lemma_stmts_extends(push_block(env), stmts, 0, fuel);
            if let Ok((e1, _)) = eval_stmts(push_block(env), stmts, 0, fuel) {
                lemma_close_block(env, e1);
            }
        },
        Tok::Type(ty) => {
            if let Some(l) = t.left {
                match l.value {
                    Tok::Ident(n) => {
                        match t.right {
                            Some(init) => {
                                lemma_eval_extends(env, *init, fuel);
                                if let Ok((e1, v)) = eval(env, *init, fuel) {
                                    let sv = SVar { name: n, ty: ty, value: Some(v) };
                                    lemma_declare_extends(e1, sv);
                                    if let Ok(e2) = declare(e1, sv) {
                                        lemma_extends_trans(env, e1, e2);
                                    }
                                }
                            },
                            None => {
                                lemma_declare_extends(env, SVar { name: n, ty: ty, value: None });
                            },
                        }
                    },
                    Tok::FuncData(fname, _, _, _) => {
                        lemma_declare_extends(env, SVar { name: fname, ty: ty, value: Some(l.value) });
                    },
                    _ => {},
                }
            }
        },
        Tok::Assign => {
            if let Some(l) = t.left {
                if let Tok::Ident(n) = l.value {
                    if let Some(r) = t.right {
                        lemma_eval_extends(env, *r, fuel);
                        if let Ok((e1, v)) = eval(env, *r, fuel) {
                            lemma_update_extends(e1, n, v);
                            if let Ok(e2) = update(e1, n, v) {
                                lemma_extends_trans(env, e1, e2);
                            }
                        }
                    }
                }
            }
        },
        Tok::IfData(cond) => {
            lemma_eval_extends(env, *cond, fuel);
            if let Ok((e1, c)) = eval(env, *cond, fuel) {
                if truthy(c) {
                    if let Some(b) = t.left {
                        lemma_eval_extends(e1, *b, fuel);
                        if let Ok((e2, _)) = eval(e1, *b, fuel) {
                            lemma_extends_trans(env, e1, e2);
                        }
                    }
                } else {
                    if let Some(b) = t.right {
                        lemma_eval_extends(e1, *b, fuel);
                        if let Ok((e2, _)) = eval(e1, *b, fuel) {
                            lemma_extends_trans(env, e1, e2);
                        }
                    }
                }
            }
        },
        _ => {},
    }
}

proof fn lemma_stmts_extends(env: Env, stmts: Seq<Tree>, i: int, fuel: nat)
    ensures
        eval_stmts(env, stmts, i, fuel) matches Ok((e, _)) ==> extends(env, e),
    decreases fuel, stmts, stmts.len() - i,
{
    if i < 0 || i >= stmts.len() {
    } else {
        lemma_eval_extends(env, stmts[i], fuel);
        if let Ok((e1, v)) = eval(env, stmts[i], fuel) {
            lemma_stmts_extends(e1, stmts, i + 1, fuel);
            if let Ok((e2, _)) = eval_stmts(e1, stmts, i + 1, fuel) {
                lemma_extends_trans(env, e1, e2);
            }
        }
    }
}

proof fn lemma_args_extends(env: Env, args: Seq<Tree>, i: int, fuel: nat)
    ensures
        eval_args(env, args, i, fuel) matches Ok((e, _)) ==> extends(env, e),
    decreases fuel, args, args.len() - i,
{
    if i < 0 || i >= args.len() {
    } else {
        lemma_eval_extends(env, args[i], fuel);
        if let Ok((e1, v)) = eval(env, args[i], fuel) {
            lemma_args_extends(e1, args, i + 1, fuel);
            if let Ok((e2, _)) = eval_args(e1, args, i + 1, fuel) {
                lemma_extends_trans(env, e1, e2);
            }
        }
    }
}

proof fn lemma_call_extends(
    env: Env,
    name: Seq<char>,
    rty: Type,
    ps: Seq<(Type, Seq<char>)>,
    body: Tree,
    args: Seq<Tree>,
    fuel: nat,
)
    ensures
        call(env, name, rty, ps, body, args, fuel) matches Ok((e, _)) ==> extends(env, e),
    decreases fuel, args, args.len() + 1,
{
    lemma_args_extends(env, args, 0, fuel);
    if let Ok((e1, vals)) = eval_args(env, args, 0, fuel) {
        if vals.len() == ps.len() && fuel > 0 {
            let f = push_frame(e1);
            lemma_bind_extends(f, ps, vals, 0);
            if let Ok(e2) = bind_params(f, ps, vals, 0) {
                let me = SVar {
                    name: name,
                    ty: Type::FUNC,
                    value: Some(Tok::FuncData(name, rty, ps, Box::new(body))),
                };
                lemma_declare_extends(e2, me);
                if let Ok(e3) = declare(e2, me) {
                    lemma_extends_trans(f, e2, e3);
                    lemma_eval_extends(e3, body, (fuel - 1) as nat);
                    if let Ok((e4, _)) = eval(e3, body, (fuel - 1) as nat) {
                        lemma_extends_trans(f, e3, e4);
                        let fb = Env { frames: e1.frames.push(e1.blocks.len() as int), ..e1 };
                        assert(f == push_block(fb));
                        lemma_close_block(fb, e4);
                        assert(pop_frame(e4).frames =~= e1.frames);
                        assert(pop_frame(e4).blocks =~= e1.blocks);
                        assert(has_block(f));
                        lemma_extends_trans(env, e1, pop_frame(e4));
                    }
                }
            }
        }
    }
}

proof fn lemma_find_in_names(a: Seq<SVar>, b: Seq<SVar>, lo: int, hi: int, name: Seq<char>)
    requires
        a.len() == b.len(),
        forall|i: int| 0 <= i < a.len() ==> (#[trigger] a[i]).name == b[i].name,
    ensures
        find_in(a, lo, hi, name) == find_in(b, lo, hi, name),
    decreases hi - lo,
{
    if hi > lo && hi >= 1 && hi <= a.len() {
        assert(a[hi - 1].name == b[hi - 1].name);
        lemma_find_in_names(a, b, lo, hi - 1, name);
    }
}

/// The declarations of a block do not outlive it. Once a block has been
/// evaluated in an open frame, every name refers to the binding it referred
/// to before, so a name declared inside, shadowing an outer one or not, is
/// not visible after the block.
pub proof fn lemma_block_does_not_leak(env: Env, t: Tree, fuel: nat, name: Seq<char>)
    requires
        t.value is StatementList,
        env.frames.len() > 0,
        0 <= env.frames.last() <= env.blocks.len(),
        eval(env, t, fuel) is Ok,
    ensures
        lookup(eval(env, t, fuel)->Ok_0.0, name) == lookup(env, name),
{
    let stmts = t.value->StatementList_0;
    let pb = push_block(env);
    lemma_stmts_extends(pb, stmts, 0, fuel);
    let e1 = eval_stmts(pb, stmts, 0, fuel)->Ok_0.0;
    assert(has_block(pb));
    lemma_close_block(env, e1);
    let e = pop_block(e1);
    assert(e == eval(env, t, fuel)->Ok_0.0);
    assert(e.globals.len() == env.globals.len());
    lemma_find_in_names(e.vars, env.vars, frame_base(env), env.vars.len() as int, name);
    lemma_find_in_names(e.globals, env.globals, 0, env.globals.len() as int, name);
}

} // verus!
