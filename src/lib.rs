//! A small imperative language: a lexer, a recursive-descent parser that
//! builds a binary-branching syntax tree, a tree-walking evaluator with
//! lexical scoping and user functions, and a postfix translator for
//! arithmetic expressions.
//!
//! Each stage has a mathematical model that its code is proved against:
//! `lexer::scan` for tokens, the functions of `grammar` for the syntax tree,
//! `semantics::eval` for evaluation, and `translate::postfix` for the
//! translator.

pub mod chars;
pub mod error;
pub mod grammar;
pub mod interp;
pub mod lexer;
pub mod parser;
pub mod semantics;
pub mod token;
pub mod translate;

pub use error::Error;
pub use interp::Interpreter;
pub use token::{ASTreeNode, AddOp, Bool, Compare, MulOp, Token, Type, UnaryOp};
pub use translate::Translator;
