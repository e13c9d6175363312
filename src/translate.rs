use vstd::prelude::*;

use crate::error::Error;
use crate::grammar;
use crate::interp::lemma_node_view;
use crate::parser::Parser;
use crate::semantics::{arith, eval, op_symbol, Env};
use crate::token::{ASTreeNode, Tok, Token, Tree};

verus! {

pub open spec fn digit_char(d: int) -> char {
    if d == 0 {
        '0'
    } else if d == 1 {
        '1'
    } else if d == 2 {
        '2'
    } else if d == 3 {
        '3'
    } else if d == 4 {
        '4'
    } else if d == 5 {
        '5'
    } else if d == 6 {
        '6'
    } else if d == 7 {
        '7'
    } else if d == 8 {
        '8'
    } else {
        '9'
    }
}

/// The decimal digits of a natural number.
pub open spec fn nat_text(n: nat) -> Seq<char>
    decreases n,
{
    if n < 10 {
        seq![digit_char(n as int)]
    } else {
        nat_text(n / 10).push(digit_char((n % 10) as int))
    }
}

/// The decimal text of an integer, with a leading `-` when it is negative.
pub open spec fn int_text(n: int) -> Seq<char> {
    if n < 0 {
        seq!['-'] + nat_text((-n) as nat)
    } else {
        nat_text(n as nat)
    }
}

/// The postfix text of an arithmetic tree: operands first, separated by
/// spaces, each operator after its operands.
pub open spec fn postfix(t: Tree) -> Result<Seq<char>, Error>
    decreases t,
{
    match t.value {
        Tok::Digit(n) => Ok(int_text(n as int)),
        Tok::AddOp(_) | Tok::MulOp(_) => match (t.left, t.right) {
            (Some(l), Some(r)) => match postfix(*l) {
                Ok(a) => match postfix(*r) {
                    Ok(b) => Ok(a + seq![' '] + b + seq![' ', op_symbol(t.value)]),
                    Err(x) => Err(x),
                },
                Err(x) => Err(x),
            },
            _ => Err(Error::MissingOperand),
        },
        _ => Err(Error::UnexpectedNode),
    }
}

/// An item of a postfix program.
pub enum Item {
    Num(i32),
    Op(Tok),
}

/// Whether a tree is an arithmetic expression without variables: integer
/// literals joined by binary arithmetic operators.
pub open spec fn is_arith(t: Tree) -> bool
    decreases t,
{
    match t.value {
        Tok::Digit(_) => true,
        Tok::AddOp(_) | Tok::MulOp(_) => match (t.left, t.right) {
            (Some(l), Some(r)) => is_arith(*l) && is_arith(*r),
            _ => false,
        },
        _ => false,
    }
}

/// The postfix program of an arithmetic tree, item by item.
pub open spec fn postfix_items(t: Tree) -> Seq<Item>
    decreases t,
{
    match t.value {
        Tok::Digit(n) => seq![Item::Num(n)],
        Tok::AddOp(_) | Tok::MulOp(_) => match (t.left, t.right) {
            (Some(l), Some(r)) => postfix_items(*l) + postfix_items(*r) + seq![Item::Op(t.value)],
            _ => Seq::empty(),
        },
        _ => Seq::empty(),
    }
}

/// The text of one postfix item.
pub open spec fn item_text(i: Item) -> Seq<char> {
    match i {
        Item::Num(n) => int_text(n as int),
        Item::Op(op) => seq![op_symbol(op)],
    }
}

/// The items' texts, separated by single spaces.
pub open spec fn render(items: Seq<Item>) -> Seq<char>
    decreases items.len(),
{
    if items.len() == 0 {
        Seq::empty()
    } else if items.len() == 1 {
        item_text(items[0])
    } else {
        render(items.drop_last()) + seq![' '] + item_text(items.last())
    }
}

/// Runs a postfix program on a stack machine: a number is pushed; an
/// operator pops two numbers and pushes its result. A missing operand or a
/// failing operation stops the machine.
pub open spec fn run_postfix(items: Seq<Item>, stack: Seq<i32>) -> Option<Seq<i32>>
    decreases items.len(),
{
    if items.len() == 0 {
        Some(stack)
    } else {
        match items[0] {
            Item::Num(n) => run_postfix(items.drop_first(), stack.push(n)),
            Item::Op(op) => if stack.len() < 2 {
                None
            } else {
                match arith(
                    op,
                    Tok::Digit(stack[stack.len() - 2]),
                    Tok::Digit(stack[stack.len() - 1]),
                ) {
                    Ok(Tok::Digit(v)) => run_postfix(
                        items.drop_first(),
                        stack.drop_last().drop_last().push(v),
                    ),
                    _ => None,
                }
            },
        }
    }
}

proof fn lemma_render_concat(a: Seq<Item>, b: Seq<Item>)
    requires
        a.len() > 0,
        b.len() > 0,
    ensures
        render(a + b) == render(a) + seq![' '] + render(b),
    decreases b.len(),
{
    if b.len() == 1 {
        assert((a + b).drop_last() =~= a);
    } else {
        lemma_render_concat(a, b.drop_last());
        assert((a + b).drop_last() =~= a + b.drop_last());
        assert(render(a + b) =~= render(a) + seq![' '] + render(b));
    }
}

/// The translator's text is the rendering of the postfix program.
pub proof fn lemma_postfix_text(t: Tree)
    requires
        is_arith(t),
    ensures
        postfix(t) == Ok::<Seq<char>, Error>(render(postfix_items(t))),
        postfix_items(t).len() > 0,
    decreases t,
{
    match t.value {
        Tok::Digit(n) => {},
        _ => {
            let l = *t.left->0;
            let r = *t.right->0;
            lemma_postfix_text(l);
            lemma_postfix_text(r);
            let il = postfix_items(l);
            let ir = postfix_items(r);
            let op = seq![Item::Op(t.value)];
            lemma_render_concat(il, ir);
            lemma_render_concat(il + ir, op);
            assert(postfix_items(t) == il + ir + op);
            assert(render(op) == seq![op_symbol(t.value)]);
            let a = render(il);
            let b = render(ir);
            assert(a + seq![' '] + b + seq![' ', op_symbol(t.value)] =~= render(il) + seq![' ']
                + render(ir) + seq![' '] + render(op));
        },
    }
}

proof fn lemma_run_arith(env: Env, t: Tree, fuel: nat, rest: Seq<Item>, stack: Seq<i32>)
    requires
        is_arith(t),
    ensures
        match eval(env, t, fuel) {
            Ok((e, Tok::Digit(v))) => e == env && run_postfix(postfix_items(t) + rest, stack)
                == run_postfix(rest, stack.push(v)),
            Ok(_) => false,
            Err(_) => run_postfix(postfix_items(t) + rest, stack) is None,
        },
    decreases t,
{
    match t.value {
        Tok::Digit(n) => {
            assert((seq![Item::Num(n)] + rest).drop_first() =~= rest);
        },
        _ => {
            let l = *t.left->0;
            let r = *t.right->0;
            let il = postfix_items(l);
            let ir = postfix_items(r);
            let op = seq![Item::Op(t.value)];
            assert(postfix_items(t) + rest =~= il + (ir + (op + rest)));
            lemma_run_arith(env, l, fuel, ir + (op + rest), stack);
            match eval(env, l, fuel) {
                Ok((_, Tok::Digit(a))) => {
                    lemma_run_arith(env, r, fuel, op + rest, stack.push(a));
                    match eval(env, r, fuel) {
                        Ok((_, Tok::Digit(b))) => {
                            let st2 = stack.push(a).push(b);
                            assert(st2[st2.len() - 2] == a);
                            assert(st2[st2.len() - 1] == b);
                            assert(st2.drop_last().drop_last() =~= stack);
                            assert((op + rest).drop_first() =~= rest);
                        },
                        _ => {},
                    }
                },
                _ => {},
            }
        },
    }
}

/// For an arithmetic expression without variables, running the translator's
/// postfix program on an empty stack leaves exactly the evaluator's result,
/// and fails exactly when evaluation fails.
pub proof fn lemma_postfix_agrees(env: Env, t: Tree, fuel: nat)
    requires
        is_arith(t),
    ensures
        postfix(t) == Ok::<Seq<char>, Error>(render(postfix_items(t))),
        match eval(env, t, fuel) {
            Ok((e, v)) => e == env && exists|n: i32|
                v == Tok::Digit(n) && run_postfix(postfix_items(t), Seq::empty()) == Some(
                    seq![n],
                ),
            Err(_) => run_postfix(postfix_items(t), Seq::empty()) is None,
        },
{
    lemma_postfix_text(t);
    lemma_run_arith(env, t, fuel, Seq::empty(), Seq::empty());
    assert(postfix_items(t) + Seq::<Item>::empty() =~= postfix_items(t));
    if let Ok((e, Tok::Digit(n))) = eval(env, t, fuel) {
        assert(Seq::<i32>::empty().push(n) =~= seq![n]);
        assert(run_postfix(Seq::<Item>::empty(), seq![n]) == Some(seq![n]));
    }
}

fn digit_str(d: u32) -> (r: &'static str)
    requires
        d < 10,
    ensures
        r@ == seq![digit_char(d as int)],
{
    proof {
        reveal_strlit("0");
        reveal_strlit("1");
        reveal_strlit("2");
        reveal_strlit("3");
        reveal_strlit("4");
        reveal_strlit("5");
        reveal_strlit("6");
        reveal_strlit("7");
        reveal_strlit("8");
        reveal_strlit("9");
    }
    if d == 0 {
        "0"
    } else if d == 1 {
        "1"
    } else if d == 2 {
        "2"
    } else if d == 3 {
        "3"
    } else if d == 4 {
        "4"
    } else if d == 5 {
        "5"
    } else if d == 6 {
        "6"
    } else if d == 7 {
        "7"
    } else if d == 8 {
        "8"
    } else {
        "9"
    }
}

fn append_nat(s: &mut String, n: u32)
    ensures
        final(s)@ == old(s)@ + nat_text(n as nat),
    decreases n,
{
    if n >= 10 {
        append_nat(s, n / 10);
    }
    s.append(digit_str(n % 10));
}

/// The decimal text of an integer.
pub fn int_to_text(n: i32) -> (r: String)
    ensures
        r@ == int_text(n as int),
{
    let mut s = String::new();
    if n < 0 {
        proof {
            reveal_strlit("-");
        }
        s.append("-");
        append_nat(&mut s, (-(n as i64)) as u32);
    } else {
        append_nat(&mut s, n as u32);
    }
    s
}

/// The postfix text of a tree.
pub fn rpn_interp(n: &ASTreeNode) -> (r: Result<String, Error>)
    ensures
        match postfix(n@) {
            Ok(t) => r is Ok && r->Ok_0@ == t,
            Err(x) => r == Err::<String, Error>(x),
        },
    decreases n,
{
    proof {
        lemma_node_view(*n);
    }
    match &n.value {
        Token::DIGIT(d) => Ok(int_to_text(*d)),
        Token::ADDOP(_) | Token::MULOP(_) => {
            let (l, r) = match (&n.left, &n.right) {
                (Some(l), Some(r)) => (l, r),
                _ => return Err(Error::MissingOperand),
            };
            let mut a = match rpn_interp(l) {
                Ok(a) => a,
                Err(x) => return Err(x),
            };
            let b = match rpn_interp(r) {
                Ok(b) => b,
                Err(x) => return Err(x),
            };
            proof {
                reveal_strlit(" ");
            }
            a.append(" ");
            a.append(b.as_str());
            a.append(crate::interp::op_suffix(&n.value));
            Ok(a)
        },
        _ => Err(Error::UnexpectedNode),
    }
}

/// Translates an arithmetic expression into postfix notation.
pub struct Translator {
    pub parser: Parser,
}

impl Translator {
    pub fn new(input: &str) -> (r: Result<Translator, Error>)
        requires
            input@.len() < usize::MAX,
        ensures
            match grammar::start(input@) {
                Ok((s, st)) => r is Ok && r->Ok_0.parser.wf() && r->Ok_0.parser.src() == s
                    && r->Ok_0.parser.state() == st,
                Err(e) => r is Err && r->Err_0 == e,
            },
    {
        match Parser::new(input) {
            Ok(parser) => Ok(Translator { parser }),
            Err(e) => Err(e),
        }
    }

    /// Parses an expression and returns its postfix text.
    pub fn rpn_translate(&mut self) -> (r: Result<String, Error>)
        requires
            old(self).parser.wf(),
        ensures
            match grammar::expr(old(self).parser.src(), old(self).parser.state()) {
                Ok((t, _)) => match postfix(t) {
                    Ok(s) => r is Ok && r->Ok_0@ == s,
                    Err(x) => r == Err::<String, Error>(x),
                },
                Err(x) => r == Err::<String, Error>(x),
            },
    {
        match self.parser.expr() {
            Ok(t) => rpn_interp(&t),
            Err(e) => Err(e),
        }
    }

    /// The same as `rpn_translate`.
    pub fn to_rpn(&mut self) -> (r: Result<String, Error>)
        requires
            old(self).parser.wf(),
        ensures
            match grammar::expr(old(self).parser.src(), old(self).parser.state()) {
                Ok((t, _)) => match postfix(t) {
                    Ok(s) => r is Ok && r->Ok_0@ == s,
                    Err(x) => r == Err::<String, Error>(x),
                },
                Err(x) => r == Err::<String, Error>(x),
            },
    {
        self.rpn_translate()
    }
}

} // verus!
