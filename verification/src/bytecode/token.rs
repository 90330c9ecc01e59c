use vstd::prelude::*;

use crate::bytecode::compile::{ParseFn, ParseRule, Precedence, precedence_rank};

verus! {

/// A token of the bytecode front end. The lexeme is kept as the bytes of
/// the source it was read from.
#[derive(Debug)]
pub struct Token {
    pub token_type: TokenType,
    pub lex: Vec<u8>,
    pub line: i32,
    pub literal: Option<Literal>,
}

impl Token {
    pub fn new(token_type: TokenType, lex: &[u8], line: i32, literal: Option<Literal>) -> (t: Self)
        ensures
            t.token_type == token_type,
            t.lex@ == lex@,
            t.line == line,
            t.literal == literal,
    {
        Self { token_type, lex: vstd::slice::slice_to_vec(lex), line, literal }
    }
}

/// The value a literal token carries. A number is carried as the numeral
/// the scanner read; its floating-point meaning is given to it outside
/// this library.
#[derive(Debug)]
pub enum Literal {
    Number(Vec<u8>),
    String(Vec<u8>),
    Bool(bool),
    Nil,
}

#[derive(Debug, Clone, Copy, PartialEq, Eq, Structural)]
pub enum TokenType {
    // Single-character tokens.
    LeftParen,
    RightParen,
    LeftBrace,
    RightBrace,
    Comma,
    Dot,
    Minus,
    Plus,
    Semicolon,
    Slash,
    Star,
    // One or two character tokens.
    Bang,
    BangEqual,
    Equal,
    EqualEqual,
    Greater,
    GreaterEqual,
    Less,
    LessEqual,
    // Literals.
    Identifier,
    String,
    Number,
    // Keywords.
    And,
    Class,
    Else,
    False,
    Fun,
    For,
    If,
    Nil,
    Or,
    Print,
    Return,
    Super,
    This,
    True,
    Var,
    While,
    EOF,
}

/// The rule that starts an expression at a token of this type.
pub open spec fn spec_prefix_rule(t: TokenType) -> Option<ParseFn> {
    match t {
        TokenType::LeftParen => Some(ParseFn::Grouping),
        TokenType::Minus | TokenType::Bang => Some(ParseFn::Unary),
        TokenType::Number => Some(ParseFn::Number),
        TokenType::False | TokenType::True | TokenType::Nil => Some(ParseFn::Literal),
        _ => None,
    }
}

/// Whether a token type is a binary operator of the expression grammar.
pub open spec fn is_binary_operator(t: TokenType) -> bool {
    match t {
        TokenType::Minus | TokenType::Plus | TokenType::Star | TokenType::Slash
        | TokenType::BangEqual | TokenType::EqualEqual | TokenType::Greater
        | TokenType::GreaterEqual | TokenType::Less | TokenType::LessEqual => true,
        _ => false,
    }
}

/// The rule that continues an expression at a token of this type.
pub open spec fn spec_infix_rule(t: TokenType) -> Option<ParseFn> {
    if is_binary_operator(t) { Some(ParseFn::Binary) } else { None }
}

/// How tightly a binary operator binds; `None` for every other token.
pub open spec fn spec_precedence(t: TokenType) -> Precedence {
    match t {
        TokenType::Minus | TokenType::Plus => Precedence::Term,
        TokenType::Star | TokenType::Slash => Precedence::Factor,
        TokenType::BangEqual | TokenType::EqualEqual => Precedence::Equality,
        TokenType::Greater | TokenType::GreaterEqual | TokenType::Less | TokenType::LessEqual => Precedence::Comparison,
        _ => Precedence::Lowest,
    }
}

impl TokenType {
    pub fn prefix_rule(&self) -> (r: Option<ParseFn>)
        ensures
            r == spec_prefix_rule(*self),
    {
        match self {
            TokenType::LeftParen => Some(ParseFn::Grouping),
            TokenType::Minus | TokenType::Bang => Some(ParseFn::Unary),
            TokenType::Number => Some(ParseFn::Number),
            TokenType::False | TokenType::True | TokenType::Nil => Some(ParseFn::Literal),
            _ => None,
        }
    }

    pub fn infix_rule(&self) -> (r: Option<ParseFn>)
        ensures
            r == spec_infix_rule(*self),
    {
        match self {
            TokenType::Minus | TokenType::Plus | TokenType::Star | TokenType::Slash
            | TokenType::BangEqual | TokenType::EqualEqual | TokenType::Greater
            | TokenType::GreaterEqual | TokenType::Less | TokenType::LessEqual => Some(ParseFn::Binary),
            _ => None,
        }
    }

    pub fn precedence(&self) -> (p: Precedence)
        ensures
            p == spec_precedence(*self),
    {
        match self {
            TokenType::Minus | TokenType::Plus => Precedence::Term,
            TokenType::Star | TokenType::Slash => Precedence::Factor,
            TokenType::BangEqual | TokenType::EqualEqual => Precedence::Equality,
            TokenType::Greater | TokenType::GreaterEqual | TokenType::Less | TokenType::LessEqual => Precedence::Comparison,
            _ => Precedence::Lowest,
        }
    }

    pub fn rule(&self) -> (r: ParseRule)
        ensures
            r.prefix == spec_prefix_rule(*self),
            r.infix == spec_infix_rule(*self),
            r.precedence == spec_precedence(*self),
    {
        ParseRule { prefix: self.prefix_rule(), infix: self.infix_rule(), precedence: self.precedence() }
    }
}

/// A token type has an infix rule exactly when it binds tighter than
/// `Precedence::Lowest`: the Pratt loop only ever meets operators.
pub proof fn law_infix_iff_precedence(t: TokenType)
    ensures
        spec_infix_rule(t) is Some <==> precedence_rank(spec_precedence(t)) > 0,
{
}

} // verus!
