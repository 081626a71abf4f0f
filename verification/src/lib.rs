//! The Anzan language (暗算, mental abacus calculation): exact decimal
//! numbers, the lexer, the expression tree and its re-parseable rendering,
//! and the declaration and calendar helpers of the evaluation layer.

pub mod ast;
pub mod bigint;
pub mod calculator;
pub mod documentation;
pub mod error;
pub mod eval;
pub mod lexer;
pub mod mode;
pub mod number;
pub mod parser;
pub mod text;
