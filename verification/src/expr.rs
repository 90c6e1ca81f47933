//! The expression tree.
use vstd::prelude::*;
use crate::literal::Literal;
use crate::token::Token;

verus! {

/// An expression. Each node owns its operands.
#[derive(Debug)]
pub enum Expr {
    Assign(AssignExpr),
    Binary(BinaryExpr),
    Grouping(GroupingExpr),
    Literal(LiteralExpr),
    Logical(LogicalExpr),
    Unary(UnaryExpr),
    Variable(VariableExpr),
}

/// `name = value`.
#[derive(Debug)]
pub struct AssignExpr {
    pub name: Token,
    pub value: Box<Expr>,
}

/// `left operator right`, both operands always evaluated.
#[derive(Debug)]
pub struct BinaryExpr {
    pub left: Box<Expr>,
    pub operator: Token,
    pub right: Box<Expr>,
}

/// `( expression )`.
#[derive(Debug)]
pub struct GroupingExpr {
    pub expression: Box<Expr>,
}

/// A value written in the source. One without a value stands for `nil`.
#[derive(Debug)]
pub struct LiteralExpr {
    pub value: Option<Literal>,
}

/// `left and right`, `left or right`: the right operand is evaluated only
/// where the left one does not decide.
#[derive(Debug)]
pub struct LogicalExpr {
    pub left: Box<Expr>,
    pub operator: Token,
    pub right: Box<Expr>,
}

/// `operator right`.
#[derive(Debug)]
pub struct UnaryExpr {
    pub operator: Token,
    pub right: Box<Expr>,
}

/// A variable read.
#[derive(Debug)]
pub struct VariableExpr {
    pub name: Token,
}

} // verus!
