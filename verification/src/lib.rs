//! A calculator over 16-bit unsigned integers: a tokenizer, a precedence
//! reorderer, a tree builder and an evaluator, each with its behaviour stated
//! as a contract over a mathematical model of its input.

pub mod ast;
pub mod binary;
pub mod chars;
pub mod decimal;
pub mod eval;
pub mod laws;
pub mod lexer;
pub mod parser;
pub mod precedence;
pub mod reorder;
