//! The syntax tree: statements containing nested expressions. Each node
//! carries the one-based line/column of its defining token, so every
//! later diagnostic can name a position without re-scanning the source.

use vstd::prelude::*;
use std::rc::Rc;

verus! {

/// A literal expression's value as written in the source. Numbers are
/// fixed-point (scaled by ten thousand), as the lexer produces them.
pub enum LitVal {
    Num(i64),
    Text(String),
    Truth(bool),
    Undef,
}

/// Unary operators: numeric negation and boolean negation (`not`).
#[derive(Clone, Copy, PartialEq, Eq, Structural)]
pub enum UnOp {
    Neg,
    Not,
}

/// Binary operators, from the grammar's comparison, additive and
/// multiplicative levels.
#[derive(Clone, Copy, PartialEq, Eq, Structural)]
pub enum BinOp {
    Add,
    Sub,
    Mul,
    Div,
    Eq,
    Ne,
    Lt,
    Gt,
    Le,
    Ge,
}

/// An expression.
pub struct Expr {
    pub kind: ExprKind,
    pub line: u64,
    pub col: u64,
}

pub enum ExprKind {
    Lit(LitVal),
    Var(String),
    Unary(UnOp, Box<Expr>),
    Binary(BinOp, Box<Expr>, Box<Expr>),
    Call(String, Vec<Expr>),
}

/// A statement.
pub struct Stmt {
    pub kind: StmtKind,
    pub line: u64,
    pub col: u64,
}

pub enum StmtKind {
    /// `var name = e !` or `const name = e !`; `mutable` records which.
    Decl { mutable: bool, name: String, init: Expr },
    /// `name = e !`
    Assign { name: String, value: Expr },
    /// `print e !`
    Print(Expr),
    /// An expression evaluated for its effects (typically a call), `e !`.
    ExprStmt(Expr),
    /// `if (e) { ... }` with an optional `else { ... }`.
    If { cond: Expr, then_branch: Vec<Stmt>, else_branch: Vec<Stmt> },
    /// `while (e) { ... }`
    While { cond: Expr, body: Vec<Stmt> },
    /// A bare `{ ... }` block opening a child scope.
    Block(Vec<Stmt>),
    /// `function name(p, q) { ... }`; parameters and body are shared
    /// with every function value created from this declaration.
    FuncDecl { name: String, params: Rc<Vec<String>>, body: Rc<Vec<Stmt>> },
    /// `return !` or `return e !`
    Return(Option<Expr>),
}

/// A parsed program: its top-level statements in execution order.
pub struct SyntaxTree {
    pub stmts: Vec<Stmt>,
}

} // verus!
