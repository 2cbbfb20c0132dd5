//! A Brainfuck front end and Rust back end: tokenizer, loop structurer and a
//! policy-driven code generator, together with a direct interpreter.

pub mod ast;
pub mod debugger;
pub mod gen_crate;
pub mod generator;
pub mod input;
pub mod interpreter;
pub mod laws;
pub mod literal;
pub mod model;
