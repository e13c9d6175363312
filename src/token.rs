use vstd::prelude::*;

verus! {

/// A declared type tag.
#[derive(Clone, Copy, Debug, PartialEq, Eq, Structural)]
pub enum Type {
    INT,
    FLOAT,
    FUNC,
    NONE,
}

/// A comparison operator.
#[derive(Clone, Copy, Debug, PartialEq, Eq, Structural)]
pub enum Compare {
    LT,
    GT,
    EQ,
    NE,
    LE,
    GE,
}

/// A binary additive operator.
#[derive(Clone, Copy, Debug, PartialEq, Eq, Structural)]
pub enum AddOp {
    PLUS,
    MINUS,
}

/// A unary sign.
#[derive(Clone, Copy, Debug, PartialEq, Eq, Structural)]
pub enum UnaryOp {
    PLUS,
    MINUS,
}

/// A binary multiplicative operator.
#[derive(Clone, Copy, Debug, PartialEq, Eq, Structural)]
pub enum MulOp {
    MULT,
    DIV,
    MODU,
}

/// A truth value, the result of a comparison.
#[derive(Clone, Copy, Debug, PartialEq, Eq, Structural)]
pub enum Bool {
    True,
    False,
}

/// A lexical token. The compound variants are used only as payloads of
/// syntax-tree nodes, and a few of them double as run-time values.
///
/// A float value is held exactly, as the text of a literal (`1.5`) or as the
/// postfix form of the float arithmetic that produced it (`1.5 2.0 +` for
/// `1.5+2.0`). The host folds it into a machine float.
#[derive(Debug, PartialEq)]
pub enum Token {
    FLOAT(String),
    DIGIT(i32),
    ADDOP(AddOp),
    MULOP(MulOp),
    UNOP(UnaryOp),
    LPAREN,
    RPAREN,
    LBRACE,
    RBRACE,
    SEMI,
    COMPARE(Compare),
    ASSIGN,
    EOF,
    COMMA,
    IDENT(String),
    StatementList(Vec<ASTreeNode>),
    FuncData(String, Type, Vec<(Type, String)>, Box<ASTreeNode>),
    ArgList(Vec<ASTreeNode>),
    RET,
    ARROW,
    Type(Type),
    If,
    Else,
    IfData(Box<ASTreeNode>),
    BOOL(Bool),
}

/// A syntax-tree node: a token and up to two owned children.
#[derive(Debug, PartialEq)]
pub struct ASTreeNode {
    pub value: Token,
    pub left: Option<Box<ASTreeNode>>,
    pub right: Option<Box<ASTreeNode>>,
}

/// The mathematical model of a token: strings become character sequences and
/// vectors become sequences.
pub enum Tok {
    Float(Seq<char>),
    Digit(i32),
    AddOp(AddOp),
    MulOp(MulOp),
    UnOp(UnaryOp),
    LParen,
    RParen,
    LBrace,
    RBrace,
    Semi,
    Compare(Compare),
    Assign,
    Eof,
    Comma,
    Ident(Seq<char>),
    StatementList(Seq<Tree>),
    FuncData(Seq<char>, Type, Seq<(Type, Seq<char>)>, Box<Tree>),
    ArgList(Seq<Tree>),
    Ret,
    Arrow,
    Type(Type),
    If,
    Else,
    IfData(Box<Tree>),
    Bool(Bool),
}

/// The mathematical model of a syntax-tree node.
pub struct Tree {
    pub value: Tok,
    pub left: Option<Box<Tree>>,
    pub right: Option<Box<Tree>>,
}

pub open spec fn leaf(t: Tok) -> Tree {
    Tree { value: t, left: None, right: None }
}

pub open spec fn branch(t: Tok, l: Option<Tree>, r: Option<Tree>) -> Tree {
    Tree {
        value: t,
        left: match l {
            Some(x) => Some(Box::new(x)),
            None => None,
        },
        right: match r {
            Some(x) => Some(Box::new(x)),
            None => None,
        },
    }
}

pub open spec fn params_view(ps: Seq<(Type, String)>) -> Seq<(Type, Seq<char>)> {
    ps.map_values(|p: (Type, String)| (p.0, p.1@))
}

pub open spec fn tok_view(t: Token) -> Tok
    decreases t,
{
    match t {
        Token::FLOAT(s) => Tok::Float(s@),
        Token::DIGIT(i) => Tok::Digit(i),
        Token::ADDOP(o) => Tok::AddOp(o),
        Token::MULOP(o) => Tok::MulOp(o),
        Token::UNOP(o) => Tok::UnOp(o),
        Token::LPAREN => Tok::LParen,
        Token::RPAREN => Tok::RParen,
        Token::LBRACE => Tok::LBrace,
        Token::RBRACE => Tok::RBrace,
        Token::SEMI => Tok::Semi,
        Token::COMPARE(c) => Tok::Compare(c),
        Token::ASSIGN => Tok::Assign,
        Token::EOF => Tok::Eof,
        Token::COMMA => Tok::Comma,
        Token::IDENT(s) => Tok::Ident(s@),
        Token::StatementList(v) => Tok::StatementList(trees_view(v@)),
        Token::FuncData(n, ty, ps, body) => Tok::FuncData(
            n@,
            ty,
            params_view(ps@),
            Box::new(tree_view(*body)),
        ),
        Token::ArgList(v) => Tok::ArgList(trees_view(v@)),
        Token::RET => Tok::Ret,
        Token::ARROW => Tok::Arrow,
        Token::Type(ty) => Tok::Type(ty),
        Token::If => Tok::If,
        Token::Else => Tok::Else,
        Token::IfData(c) => Tok::IfData(Box::new(tree_view(*c))),
        Token::BOOL(b) => Tok::Bool(b),
    }
}

pub open spec fn tree_view(n: ASTreeNode) -> Tree
    decreases n,
{
    Tree {
        value: tok_view(n.value),
        left: match n.left {
            Some(b) => Some(Box::new(tree_view(*b))),
            None => None,
        },
        right: match n.right {
            Some(b) => Some(Box::new(tree_view(*b))),
            None => None,
        },
    }
}

pub open spec fn trees_view(v: Seq<ASTreeNode>) -> Seq<Tree>
    decreases v,
{
    if v.len() == 0 {
        Seq::empty()
    } else {
        trees_view(v.drop_last()).push(tree_view(v.last()))
    }
}

impl View for Token {
    type V = Tok;

    open spec fn view(&self) -> Tok {
        tok_view(*self)
    }
}

impl View for ASTreeNode {
    type V = Tree;

    open spec fn view(&self) -> Tree {
        tree_view(*self)
    }
}

/// `trees_view` maps each node to its view.
pub proof fn lemma_trees_view(v: Seq<ASTreeNode>)
    ensures
        trees_view(v).len() == v.len(),
        forall|i: int| 0 <= i < v.len() ==> #[trigger] trees_view(v)[i] == v[i]@,
    decreases v.len(),
{
    if v.len() > 0 {
        lemma_trees_view(v.drop_last());
    }
}

/// A deep copy of a token.
pub fn copy_token(t: &Token) -> (r: Token)
    ensures
        r@ == t@,
    decreases t,
{
    match t {
        Token::FLOAT(x) => Token::FLOAT(x.clone()),
        Token::DIGIT(i) => Token::DIGIT(*i),
        Token::ADDOP(o) => Token::ADDOP(*o),
        Token::MULOP(o) => Token::MULOP(*o),
        Token::UNOP(o) => Token::UNOP(*o),
        Token::LPAREN => Token::LPAREN,
        Token::RPAREN => Token::RPAREN,
        Token::LBRACE => Token::LBRACE,
        Token::RBRACE => Token::RBRACE,
        Token::SEMI => Token::SEMI,
        Token::COMPARE(c) => Token::COMPARE(*c),
        Token::ASSIGN => Token::ASSIGN,
        Token::EOF => Token::EOF,
        Token::COMMA => Token::COMMA,
        Token::IDENT(x) => Token::IDENT(x.clone()),
        Token::StatementList(v) => Token::StatementList(copy_trees(v)),
        Token::FuncData(n, ty, ps, body) => {
            let mut qs: Vec<(Type, String)> = Vec::new();
            let mut k: usize = 0;
            while k < ps.len()
                invariant
                    k <= ps@.len(),
                    qs@.len() == k,
                    forall|j: int| 0 <= j < k ==> #[trigger] qs@[j].0 == ps@[j].0 && qs@[j].1@ == ps@[j].1@,
                decreases ps.len() - k,
            {
                qs.push((ps[k].0, ps[k].1.clone()));
                k = k + 1;
            }
            assert(params_view(qs@) =~= params_view(ps@));
            Token::FuncData(n.clone(), *ty, qs, Box::new(copy_tree(body)))
        },
        Token::ArgList(v) => Token::ArgList(copy_trees(v)),
        Token::RET => Token::RET,
        Token::ARROW => Token::ARROW,
        Token::Type(ty) => Token::Type(*ty),
        Token::If => Token::If,
        Token::Else => Token::Else,
        Token::IfData(c) => Token::IfData(Box::new(copy_tree(c))),
        Token::BOOL(b) => Token::BOOL(*b),
    }
}

/// A deep copy of a syntax tree.
pub fn copy_tree(n: &ASTreeNode) -> (r: ASTreeNode)
    ensures
        r@ == n@,
    decreases n,
{
    let value = copy_token(&n.value);
    let left = match &n.left {
        Some(b) => Some(Box::new(copy_tree(b))),
        None => None,
    };
    let right = match &n.right {
        Some(b) => Some(Box::new(copy_tree(b))),
        None => None,
    };
    ASTreeNode { value, left, right }
}

/// A deep copy of a sequence of syntax trees.
pub fn copy_trees(v: &Vec<ASTreeNode>) -> (r: Vec<ASTreeNode>)
    ensures
        trees_view(r@) == trees_view(v@),
    decreases v,
{
    let mut out: Vec<ASTreeNode> = Vec::new();
    let mut k: usize = 0;
    while k < v.len()
        invariant
            k <= v@.len(),
            trees_view(out@) == trees_view(v@.subrange(0, k as int)),
        decreases v.len() - k,
    {
        assert(decreases_to!(v => v@[k as int]));
        let c = copy_tree(&v[k]);
        assert(out@.push(c).drop_last() =~= out@);
        assert(v@.subrange(0, k + 1).drop_last() =~= v@.subrange(0, k as int));
        out.push(c);
        k = k + 1;
    }
    assert(v@.subrange(0, k as int) =~= v@);
    out
}

} // verus!
