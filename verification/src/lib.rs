//! A tree-walking evaluator for a small dynamically-typed language.
//!
//! The crate holds a recursive-descent parser, which turns a token stream
//! into statements, and an interpreter, which runs those statements against
//! a stack of lexical scopes. Both are stated against mathematical models
//! and proved to follow them:
//!
//! - [`grammar`] says what stands at a position of a token sequence, and
//!   [`parser`] reads it; [`spelling`] says which tokens spell a tree, and
//!   proves that the parser reads exactly what is spelled;
//! - [`semantics`] says what an expression is worth and what a statement
//!   does, and [`interpreter`] does it, on the scopes of [`environment`].
//!
//! Numbers are IEEE 754 binary64 values, held as their 64-bit patterns.
//! Ordering, equality and negation are decided on the patterns
//! ([`number`]); the four rounded operations are handed to the interpreter
//! by its owner, and what the interpreter does is stated for every function
//! that they compute.

pub mod environment;
pub mod error;
pub mod expr;
pub mod grammar;
pub mod interpreter;
pub mod number;
pub mod parser;
pub mod semantics;
pub mod spelling;
pub mod stmt;
pub mod token;
pub mod value;

pub use environment::Environment;
pub use error::{ParseError, ParseErrorKind, RuntimeError, RuntimeErrorKind};
pub use expr::{BinaryOp, Expr, LogicalOp, UnaryOp};
pub use interpreter::Interpreter;
pub use number::ArithOp;
pub use parser::Parser;
pub use stmt::Stmt;
pub use token::{LiteralValue, Token, TokenType};
pub use value::{Value, ValueView};
