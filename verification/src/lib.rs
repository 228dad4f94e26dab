//! A minimal arithmetic expression language: text is split into tokens,
//! tokens are parsed into a statement, and statements are evaluated against
//! a session's variable bindings.
//!
//! - [`token`] and [`lexer`]: tokens, and how a text is split into them.
//! - [`ast`], [`grammar`] and [`parser`]: syntax trees, which token sequences
//!   are statements, and the recursive-descent parser that reads them.
//! - [`eval`] and [`session`]: the value of an expression, the effect of a
//!   statement, and one line of text run against a session.
//! - [`laws`]: what holds of all of these together.
//!
//! Values are `u32`. Arithmetic wraps: number literals, sums and products
//! are taken modulo 2^32. Parsing and evaluation recurse once for each level
//! of nesting, and nothing but the stack limits how deep that is.
pub mod token;
pub mod lexer;
pub mod ast;
pub mod grammar;
pub mod parser;
pub mod eval;
pub mod session;
pub mod laws;
