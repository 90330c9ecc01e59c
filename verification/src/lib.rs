//! A Lox implementation in two layers: a tree-walking front end (scanner,
//! parser, environment) and a bytecode back end (scanner, single-pass
//! compiler, chunk and virtual machine).
pub mod ast;
pub mod bytecode;
pub mod clock;
pub mod discipline;
pub mod environment;
pub mod expr;
pub mod grammar;
pub mod interpreter;
pub mod parser;
pub mod scanner;
pub mod walker;
pub mod wellformed;
