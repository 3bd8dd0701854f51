//! A tree-walking interpreter for a small dynamically typed scripting
//! language: source text is split into tokens, parsed into statements and
//! evaluated against a stack of scope frames.

pub mod text;
pub mod input_stream;
pub mod number;
pub mod errors;
pub mod lexer;
pub mod ast;
pub mod environment;
pub mod interpreter;
pub mod parser;
pub mod runner;
