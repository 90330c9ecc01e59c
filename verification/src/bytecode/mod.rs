pub mod chunk;
pub mod common;
pub mod compile;
pub mod error;
pub mod local;
pub mod scanner;
pub mod table;
pub mod token;
pub mod codegen;
pub mod value;
pub mod vm;
