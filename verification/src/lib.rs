//! Front end of an interpreter for a small scripting language: a tokenizer
//! over bytes and a statement-level parser that collects every structural
//! error instead of stopping at the first one.

pub mod text;
pub mod lexer;
pub mod parser;
