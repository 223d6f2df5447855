//! The expression tree.

use vstd::prelude::*;
use crate::token::Token;
use crate::value::Value;

verus! {

/// A prefix operator.
#[derive(Clone, Copy, Debug, PartialEq, Eq, Structural)]
pub enum UnaryOp {
    Minus,
    Bang,
}

/// An infix operator that evaluates both of its operands.
#[derive(Clone, Copy, Debug, PartialEq, Eq, Structural)]
pub enum BinaryOp {
    Minus,
    Plus,
    Slash,
    Star,
    Greater,
    GreaterEqual,
    Less,
    LessEqual,
    EqualEqual,
    BangEqual,
}

/// An infix operator that may leave its right operand unevaluated.
#[derive(Clone, Copy, Debug, PartialEq, Eq, Structural)]
pub enum LogicalOp {
    And,
    Or,
}

/// An expression. Every node owns its operands. Beside its operator a node
/// keeps the operator's token, which gives a diagnostic its line and lexeme.
#[derive(Debug, PartialEq)]
#[allow(inconsistent_fields)]
pub enum Expr {
    Literal { value: Value },
    Grouping { expression: Box<Expr> },
    Unary { operator: UnaryOp, token: Token, right: Box<Expr> },
    Binary { left: Box<Expr>, operator: BinaryOp, token: Token, right: Box<Expr> },
    Logical { left: Box<Expr>, operator: LogicalOp, token: Token, right: Box<Expr> },
    Variable { name: Token },
    Assign { name: Token, value: Box<Expr> },
}

} // verus!
