use vstd::prelude::*;

use vstd::string::StringExecFns;

use crate::ast::text::{decimal, decimal_chars, string_of};
use crate::bytecode::token::{Token, TokenType};

verus! {

/// Everything that can go wrong while scanning, compiling or running.
#[derive(Debug)]
pub enum Error {
    Scan(ScanError),
    Interpret(InterpretError),
    Parser(ParserError),
    Runtime(RuntimeError),
}

#[derive(Debug)]
pub enum InterpretError {
    Compile(String),
    Runtime(String),
}

#[derive(Debug)]
pub struct ScanError {
    pub message: String,
    pub line: usize,
}

impl ScanError {
    pub fn new(message: String, line: usize) -> (e: Self)
        ensures
            e.message@ == message@,
            e.line == line,
    {
        Self { message, line }
    }
}

/// A compile error, with the token at which it was found.
#[derive(Debug)]
pub struct ParserError {
    pub lexeme: Vec<u8>,
    pub token_type: TokenType,
    pub line: usize,
    pub message: String,
}

impl ParserError {
    pub fn new(token: &Token, message: &str) -> (e: Self)
        ensures
            e.lexeme@ == token.lex@,
            e.token_type == token.token_type,
            e.line == token.line as usize,
            e.message@ == message@,
    {
        Self {
            lexeme: vstd::slice::slice_to_vec(token.lex.as_slice()),
            token_type: token.token_type,
            line: token.line as usize,
            message: message.to_string(),
        }
    }
}

/// A fault of a running program, at the offset of the instruction that
/// raised it. The message is kept as UTF-8 bytes, so that it can quote a
/// variable's name as the program spelled it.
#[derive(Debug)]
pub struct RuntimeError {
    pub ip: usize,
    pub message: Vec<u8>,
}

impl RuntimeError {
    pub fn new(ip: usize, message: &[u8]) -> (e: Self)
        ensures
            e.ip == ip,
            e.message@ == message@,
    {
        Self { ip, message: vstd::slice::slice_to_vec(message) }
    }
}

/// A scan or parse error as it is reported: its kind, its message and its
/// line.
pub open spec fn error_text(e: Error) -> Seq<char> {
    match e {
        Error::Scan(s) => "ScanError: "@ + s.message@ + " at line "@ + decimal(s.line as nat),
        Error::Parser(p) => "ParserError: "@ + p.message@ + " at line "@ + decimal(p.line as nat),
        _ => Seq::empty(),
    }
}

impl Error {
    /// A scan or parse error as it is reported.
    pub fn report(&self) -> (s: String)
        requires
            self is Scan || self is Parser,
        ensures
            s@ == error_text(*self),
    {
        let (kind, message, line) = match self {
            Error::Scan(e) => ("ScanError: ", e.message.as_str(), e.line),
            Error::Parser(e) => ("ParserError: ", e.message.as_str(), e.line),
            _ => ("", "", 0),
        };
        let digits = decimal_chars(line);
        let mut s = String::from_str(kind);
        s.append(message);
        s.append(" at line ");
        s.append(string_of(digits.as_slice()).as_str());
        s
    }
}

} // verus!
