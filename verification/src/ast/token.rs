use vstd::prelude::*;

pub use crate::bytecode::token::TokenType;

verus! {

/// A token of the tree-walking front end.
#[derive(Debug, Clone)]
pub struct Token {
    pub token_type: TokenType,
    pub lexeme: String,
    pub line: usize,
    pub literal: Option<Literal>,
}

/// The value a literal carries. A number is carried as the numeral the
/// scanner read; its floating-point meaning is given to it outside this
/// library.
#[derive(Debug, Clone)]
pub enum Literal {
    Number(String),
    String(String),
    Bool(bool),
    Nil,
}

/// The content of a literal.
pub enum LiteralModel {
    Number(Seq<char>),
    String(Seq<char>),
    Bool(bool),
    Nil,
}

/// The content of a token.
pub struct TokenModel {
    pub kind: TokenType,
    pub lexeme: Seq<char>,
    pub line: int,
    pub literal: Option<LiteralModel>,
}

impl View for Literal {
    type V = LiteralModel;

    open spec fn view(&self) -> LiteralModel {
        match self {
            Literal::Number(s) => LiteralModel::Number(s@),
            Literal::String(s) => LiteralModel::String(s@),
            Literal::Bool(b) => LiteralModel::Bool(*b),
            Literal::Nil => LiteralModel::Nil,
        }
    }
}

impl View for Token {
    type V = TokenModel;

    open spec fn view(&self) -> TokenModel {
        TokenModel {
            kind: self.token_type,
            lexeme: self.lexeme@,
            line: self.line as int,
            literal: match self.literal {
                Some(l) => Some(l@),
                None => None,
            },
        }
    }
}

impl Literal {
    pub fn duplicate(&self) -> (r: Literal)
        ensures
            r == *self,
    {
        match self {
            Literal::Number(s) => Literal::Number(s.clone()),
            Literal::String(s) => Literal::String(s.clone()),
            Literal::Bool(b) => Literal::Bool(*b),
            Literal::Nil => Literal::Nil,
        }
    }
}

impl Token {
    pub fn new(token_type: TokenType, lexeme: String, line: usize, literal: Option<Literal>) -> (t: Self)
        ensures
            t.token_type == token_type,
            t.lexeme == lexeme,
            t.line == line,
            t.literal == literal,
    {
        Self { token_type, lexeme, line, literal }
    }

    /// A copy of this token.
    pub fn duplicate(&self) -> (r: Token)
        ensures
            r == *self,
    {
        let literal = match &self.literal {
            Some(l) => Some(l.duplicate()),
            None => None,
        };
        Token { token_type: self.token_type, lexeme: self.lexeme.clone(), line: self.line, literal }
    }
}

} // verus!
