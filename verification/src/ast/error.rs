use vstd::prelude::*;

use vstd::string::StringExecFns;

use crate::ast::text::{decimal, decimal_chars, string_of};
use crate::ast::token::{Token, TokenType};

verus! {

/// Everything that can go wrong while scanning, parsing or running.
#[derive(Debug)]
pub enum Error {
    Scan(ScanError),
    Parser(ParserError),
    Runtime(RuntimeError),
}

#[derive(Debug)]
pub struct ScanError {
    pub line: usize,
    pub message: String,
}

#[derive(Debug)]
pub struct ParserError {
    pub token: Token,
    pub message: String,
}

#[derive(Debug)]
pub struct RuntimeError {
    pub token: Token,
    pub message: String,
}

impl ParserError {
    pub fn new(token: Token, message: String) -> (e: Self)
        ensures
            e.token == token,
            e.message == message,
    {
        Self { token, message }
    }
}

impl ScanError {
    pub fn new(line: usize, message: String) -> (e: Self)
        ensures
            e.line == line,
            e.message == message,
    {
        Self { line, message }
    }
}

impl RuntimeError {
    pub fn new(token: Token, message: String) -> (e: Self)
        ensures
            e.token == token,
            e.message == message,
    {
        Self { token, message }
    }
}

/// Where a parse error was found: at the end of the input, or at the
/// token's text.
pub open spec fn where_text(t: Token) -> Seq<char> {
    if t.token_type == TokenType::EOF {
        " at end"@
    } else {
        " at '"@ + t.lexeme@ + "'"@
    }
}

/// An error as it is reported: a scan error with its line, a parse error
/// with the line and place of its token, a runtime error with the line and
/// text of its token.
pub open spec fn error_text(e: Error) -> Seq<char> {
    match e {
        Error::Scan(s) => "[line "@ + decimal(s.line as nat) + "] error: "@ + s.message@,
        Error::Parser(p) => decimal(p.token.line as nat) + where_text(p.token) + ": "@ + p.message@,
        Error::Runtime(r) => decimal(r.token.line as nat) + " at '"@ + r.token.lexeme@ + "': "@ + r.message@,
    }
}

/// The decimal digits of `n` as a string.
fn decimal_string(n: usize) -> (s: String)
    ensures
        s@ == decimal(n as nat),
{
    let digits = decimal_chars(n);
    string_of(digits.as_slice())
}

impl Error {
    /// The error as it is reported.
    pub fn report(&self) -> (s: String)
        ensures
            s@ == error_text(*self),
    {
        match self {
            Error::Scan(e) => {
                let mut s = String::from_str("[line ");
                s.append(decimal_string(e.line).as_str());
                s.append("] error: ");
                s.append(e.message.as_str());
                s
            },
            Error::Parser(e) => {
                let mut s = decimal_string(e.token.line);
                if e.token.token_type == TokenType::EOF {
                    s.append(" at end");
                } else {
                    s.append(" at '");
                    s.append(e.token.lexeme.as_str());
                    s.append("'");
                }
                s.append(": ");
                s.append(e.message.as_str());
                s
            },
            Error::Runtime(e) => {
                let mut s = decimal_string(e.token.line);
                s.append(" at '");
                s.append(e.token.lexeme.as_str());
                s.append("': ");
                s.append(e.message.as_str());
                s
            },
        }
    }
}

} // verus!
