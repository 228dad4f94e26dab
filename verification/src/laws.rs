//! What holds of the language as a whole, proved from the definitions of
//! the lexer, the parser and the evaluator.
pub mod text;
pub mod evaluation;
pub mod parsing;
