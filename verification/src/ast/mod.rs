pub mod error;
pub mod stmt;
pub mod text;
pub mod token;
