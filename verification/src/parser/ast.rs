//! The abstract syntax tree.
//!
//! Expressions produce a value; statements do something. They are separate
//! types, so a statement can never stand where a value is expected.

use vstd::prelude::*;

verus! {

/// An expression.
#[derive(Debug, PartialEq)]
pub enum Expr {
    /// A number literal, kept as its text: how integers are represented is
    /// the evaluator's decision.
    Number(String),
    /// Using a variable's value.
    Identifier(String),
    /// A prefix operation, e.g. `-5`.
    Unary { op: UnaryOp, operand: Box<Expr> },
    /// An infix operation, e.g. `2 * 3`.
    Binary { left: Box<Expr>, op: BinaryOp, right: Box<Expr> },
}

/// A statement. A program is a sequence of these, run in order.
#[derive(Debug, PartialEq)]
pub enum Stmt {
    /// `let name = value`: define (or overwrite) a variable.
    Let { name: String, value: Expr },
    /// `name = value`: reassign a variable that already exists.
    Assign { name: String, value: Expr },
    /// A bare expression, whose value the program keeps.
    Expression(Expr),
}

/// A whole program: statements run in order.
pub type Program = Vec<Stmt>;

/// The unary (prefix) operators.
#[derive(Debug, Clone, Copy, PartialEq, Eq)]
pub enum UnaryOp {
    Negate,
}

/// The four arithmetic operators.
#[derive(Debug, Clone, Copy, PartialEq, Eq)]
pub enum BinaryOp {
    Add,
    Subtract,
    Multiply,
    Divide,
}

/// The mathematical model of an expression: names and literals as
/// sequences of characters.
pub enum SpecExpr {
    Number(Seq<char>),
    Identifier(Seq<char>),
    Unary { op: UnaryOp, operand: Box<SpecExpr> },
    Binary { left: Box<SpecExpr>, op: BinaryOp, right: Box<SpecExpr> },
}

/// The mathematical model of a statement.
pub enum SpecStmt {
    Let { name: Seq<char>, value: SpecExpr },
    Assign { name: Seq<char>, value: SpecExpr },
    Expression(SpecExpr),
}

pub open spec fn expr_model(e: Expr) -> SpecExpr
    decreases e,
{
    match e {
        Expr::Number(t) => SpecExpr::Number(t@),
        Expr::Identifier(n) => SpecExpr::Identifier(n@),
        Expr::Unary { op, operand } => SpecExpr::Unary {
            op,
            operand: Box::new(expr_model(*operand)),
        },
        Expr::Binary { left, op, right } => SpecExpr::Binary {
            left: Box::new(expr_model(*left)),
            op,
            right: Box::new(expr_model(*right)),
        },
    }
}

impl View for Expr {
    type V = SpecExpr;

    open spec fn view(&self) -> SpecExpr {
        expr_model(*self)
    }
}

impl View for Stmt {
    type V = SpecStmt;

    open spec fn view(&self) -> SpecStmt {
        match self {
            Stmt::Let { name, value } => SpecStmt::Let { name: name@, value: value@ },
            Stmt::Assign { name, value } => SpecStmt::Assign { name: name@, value: value@ },
            Stmt::Expression(e) => SpecStmt::Expression(e@),
        }
    }
}

impl Clone for Expr {
    fn clone(&self) -> (copy: Expr)
        ensures
            copy@ == self@,
        decreases self,
    {
        match self {
            Expr::Number(t) => Expr::Number(t.clone()),
            Expr::Identifier(n) => Expr::Identifier(n.clone()),
            Expr::Unary { op, operand } => {
                let inner: &Expr = operand;
                Expr::Unary { op: *op, operand: Box::new(inner.clone()) }
            },
            Expr::Binary { left, op, right } => {
                let l: &Expr = left;
                let r: &Expr = right;
                Expr::Binary { left: Box::new(l.clone()), op: *op, right: Box::new(r.clone()) }
            },
        }
    }
}

impl Clone for Stmt {
    fn clone(&self) -> (copy: Stmt)
        ensures
            copy@ == self@,
    {
        match self {
            Stmt::Let { name, value } => Stmt::Let { name: name.clone(), value: value.clone() },
            Stmt::Assign { name, value } => Stmt::Assign { name: name.clone(), value: value.clone() },
            Stmt::Expression(e) => Stmt::Expression(e.clone()),
        }
    }
}

/// The models of a program's statements.
pub open spec fn program_model(p: Seq<Stmt>) -> Seq<SpecStmt> {
    p.map_values(|s: Stmt| s@)
}

} // verus!
