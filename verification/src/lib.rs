//! A compiler for a small subset of C to x86-64 assembly (Intel syntax).
pub mod types;
pub mod text;
pub mod arraybuf;
pub mod lexer;
pub mod parser;
pub mod vars;
pub mod codegen;
pub mod codegen_output;
