use vstd::prelude::*;
use vstd::string::StringExecFns;

use crate::ast::error::{Error, ScanError};
use crate::ast::text::{chars_of, string_of};
use crate::ast::token::{Literal, LiteralModel, Token, TokenModel, TokenType};

verus! {

pub open spec fn is_digit_char(c: char) -> bool {
    '0' <= c <= '9'
}

pub open spec fn is_alpha_char(c: char) -> bool {
    ('a' <= c <= 'z') || ('A' <= c <= 'Z')
}

pub open spec fn is_alnum_char(c: char) -> bool {
    is_digit_char(c) || is_alpha_char(c)
}

/// End of the run of digits from `i`.
pub open spec fn digits_run(src: Seq<char>, i: int) -> int
    decreases src.len() - i,
{
    if 0 <= i < src.len() && is_digit_char(src[i]) { digits_run(src, i + 1) } else { i }
}

/// End of the run of letters and digits from `i`.
pub open spec fn alnum_run(src: Seq<char>, i: int) -> int
    decreases src.len() - i,
{
    if 0 <= i < src.len() && is_alnum_char(src[i]) { alnum_run(src, i + 1) } else { i }
}

/// First newline from `i` on, or the end.
pub open spec fn line_end(src: Seq<char>, i: int) -> int
    decreases src.len() - i,
{
    if 0 <= i < src.len() && src[i] != '\n' { line_end(src, i + 1) } else { i }
}

/// First `"` from `i` on, or the end.
pub open spec fn quote_run(src: Seq<char>, i: int) -> int
    decreases src.len() - i,
{
    if 0 <= i < src.len() && src[i] != '"' { quote_run(src, i + 1) } else { i }
}

/// Number of newlines in `src[i..j]`.
pub open spec fn newline_count(src: Seq<char>, i: int, j: int) -> int
    decreases j - i,
{
    if i >= j { 0 } else { newline_count(src, i, j - 1) + if 0 <= j - 1 < src.len() && src[j - 1] == '\n' { 1int } else { 0int } }
}

/// The type of an identifier-shaped lexeme: a keyword, or `Identifier`.
pub open spec fn keyword_of(s: Seq<char>) -> TokenType {
    if s =~= "and"@ { TokenType::And }
    else if s =~= "class"@ { TokenType::Class }
    else if s =~= "else"@ { TokenType::Else }
    else if s =~= "false"@ { TokenType::False }
    else if s =~= "for"@ { TokenType::For }
    else if s =~= "fun"@ { TokenType::Fun }
    else if s =~= "if"@ { TokenType::If }
    else if s =~= "nil"@ { TokenType::Nil }
    else if s =~= "or"@ { TokenType::Or }
    else if s =~= "print"@ { TokenType::Print }
    else if s =~= "return"@ { TokenType::Return }
    else if s =~= "super"@ { TokenType::Super }
    else if s =~= "this"@ { TokenType::This }
    else if s =~= "true"@ { TokenType::True }
    else if s =~= "var"@ { TokenType::Var }
    else if s =~= "while"@ { TokenType::While }
    else { TokenType::Identifier }
}

/// Type of a one-character token.
pub open spec fn single_char(c: char) -> Option<TokenType> {
    if c == '(' { Some(TokenType::LeftParen) }
    else if c == ')' { Some(TokenType::RightParen) }
    else if c == '{' { Some(TokenType::LeftBrace) }
    else if c == '}' { Some(TokenType::RightBrace) }
    else if c == ',' { Some(TokenType::Comma) }
    else if c == '.' { Some(TokenType::Dot) }
    else if c == '-' { Some(TokenType::Minus) }
    else if c == '+' { Some(TokenType::Plus) }
    else if c == ';' { Some(TokenType::Semicolon) }
    else if c == '*' { Some(TokenType::Star) }
    else { None }
}

/// Whether `c` starts an operator that may be followed by `=`.
pub open spec fn is_operator_char(c: char) -> bool {
    c == '!' || c == '=' || c == '<' || c == '>'
}

/// Type of an operator character alone.
pub open spec fn operator_alone(c: char) -> TokenType {
    if c == '!' { TokenType::Bang } else if c == '=' { TokenType::Equal } else if c == '<' { TokenType::Less } else { TokenType::Greater }
}

/// Type of an operator character followed by `=`.
pub open spec fn operator_equal(c: char) -> TokenType {
    if c == '!' { TokenType::BangEqual } else if c == '=' { TokenType::EqualEqual } else if c == '<' { TokenType::LessEqual } else { TokenType::GreaterEqual }
}

/// End of a number whose first digit is at `p`.
pub open spec fn number_run(src: Seq<char>, p: int) -> int {
    let d = digits_run(src, p + 1);
    if d < src.len() && src[d] == '.' && d + 1 < src.len() && is_digit_char(src[d + 1]) { digits_run(src, d + 2) } else { d }
}

/// What scanning from one character does.
pub enum Lexed {
    /// A token of `kind` spanning `src[pos..end]`, on `line`.
    Add { kind: TokenType, end: int, line: int },
    /// Blank, newline or comment; scanning resumes at `end`.
    Skip { end: int, line: int },
    /// A scan error on `line`.
    Fail { line: int, message: Seq<char> },
    /// An operator character last in the source: the scanner steps past
    /// the end and panics.
    Stuck,
}

/// Scanning from `pos`, which is inside the source, on `line`.
pub open spec fn lex_at(src: Seq<char>, pos: int, line: int) -> Lexed {
    let c = src[pos];
    let has_next = pos + 1 < src.len();
    if single_char(c) is Some {
        Lexed::Add { kind: single_char(c)->0, end: pos + 1, line }
    } else if is_operator_char(c) {
        if !has_next {
            Lexed::Stuck
        } else if src[pos + 1] == '=' {
            Lexed::Add { kind: operator_equal(c), end: pos + 2, line }
        } else {
            Lexed::Add { kind: operator_alone(c), end: pos + 1, line }
        }
    } else if c == '/' {
        if !has_next {
            Lexed::Skip { end: pos + 2, line }
        } else if src[pos + 1] == '/' {
            Lexed::Skip { end: line_end(src, pos + 2), line }
        } else {
            Lexed::Add { kind: TokenType::Slash, end: pos + 1, line }
        }
    } else if c == ' ' || c == '\r' || c == '\t' {
        Lexed::Skip { end: pos + 1, line }
    } else if c == '\n' {
        Lexed::Skip { end: pos + 1, line: line + 1 }
    } else if c == '"' {
        let q = quote_run(src, pos + 1);
        let l = line + newline_count(src, pos + 1, q);
        if q >= src.len() {
            Lexed::Fail { line: l, message: "Unterminated string"@ }
        } else {
            Lexed::Add { kind: TokenType::String, end: q + 1, line: l }
        }
    } else if is_digit_char(c) {
        Lexed::Add { kind: TokenType::Number, end: number_run(src, pos), line }
    } else if is_alpha_char(c) {
        let e = alnum_run(src, pos + 1);
        Lexed::Add { kind: keyword_of(src.subrange(pos, e)), end: e, line }
    } else {
        Lexed::Fail { line, message: "Unexpected character: "@ + seq![c] }
    }
}

/// The token a scan step adds for `src[pos..end]`.
pub open spec fn token_model(src: Seq<char>, kind: TokenType, pos: int, end: int, line: int) -> TokenModel {
    TokenModel {
        kind,
        lexeme: src.subrange(pos, end),
        line,
        literal: match kind {
            TokenType::Number => Some(LiteralModel::Number(src.subrange(pos, end))),
            TokenType::String => Some(LiteralModel::String(src.subrange(pos + 1, end - 1))),
            _ => None,
        },
    }
}

pub proof fn lemma_runs(src: Seq<char>, i: int)
    requires
        0 <= i,
    ensures
        i <= digits_run(src, i),
        i <= alnum_run(src, i),
        i <= line_end(src, i),
        i <= quote_run(src, i),
        i <= src.len() ==> digits_run(src, i) <= src.len() && alnum_run(src, i) <= src.len()
            && line_end(src, i) <= src.len() && quote_run(src, i) <= src.len(),
    decreases src.len() - i,
{
    if i < src.len() {
        lemma_runs(src, i + 1);
    }
}

pub proof fn lemma_newline_count(src: Seq<char>, i: int, j: int)
    requires
        i <= j,
    ensures
        0 <= newline_count(src, i, j) <= j - i,
    decreases j - i,
{
    if i < j {
        lemma_newline_count(src, i, j - 1);
    }
}

/// A scan step moves forward, by at most one past the end.
pub proof fn lemma_lex_progress(src: Seq<char>, pos: int, line: int)
    requires
        0 <= pos < src.len(),
    ensures
        match lex_at(src, pos, line) {
            Lexed::Add { kind, end, line: l } => pos < end <= src.len() && line <= l && kind != TokenType::EOF,
            Lexed::Skip { end, line: l } => pos < end <= src.len() + 1 && line <= l <= line + 1,
            Lexed::Fail { line: l, message } => line <= l,
            Lexed::Stuck => true,
        },
{
    lemma_runs(src, pos + 1);
    lemma_runs(src, pos + 2);
    let d = digits_run(src, pos + 1);
    if d + 2 <= src.len() {
        lemma_runs(src, d + 2);
    }
    lemma_newline_count(src, pos + 1, quote_run(src, pos + 1));
}

/// Everything the scanner yields from `pos` on `line`: the tokens before
/// the end and the line it reaches, a scan error, or a panic.
pub enum LexedAll {
    Tokens(Seq<TokenModel>, int),
    Fails(int, Seq<char>),
    Stuck,
}

pub open spec fn lex_all(src: Seq<char>, pos: int, line: int) -> LexedAll
    decreases src.len() + 1 - pos,
{
    if pos < 0 || pos >= src.len() {
        LexedAll::Tokens(Seq::empty(), line)
    } else {
        proof { lemma_lex_progress(src, pos, line); }
        match lex_at(src, pos, line) {
            Lexed::Add { kind, end, line: l } => match lex_all(src, end, l) {
                LexedAll::Tokens(ts, fl) => LexedAll::Tokens(seq![token_model(src, kind, pos, end, l)] + ts, fl),
                other => other,
            },
            Lexed::Skip { end, line: l } => lex_all(src, end, l),
            Lexed::Fail { line: l, message } => LexedAll::Fails(l, message),
            Lexed::Stuck => LexedAll::Stuck,
        }
    }
}

/// Puts tokens in front of what a scan yields.
pub open spec fn prepend(ts: Seq<TokenModel>, r: LexedAll) -> LexedAll {
    match r {
        LexedAll::Tokens(x, fl) => LexedAll::Tokens(ts + x, fl),
        other => other,
    }
}

pub open spec fn tokens_model(ts: Seq<Token>) -> Seq<TokenModel> {
    ts.map_values(|t: Token| t@)
}

/// The end-of-input token on `line`.
pub open spec fn eof_model(line: int) -> TokenModel {
    TokenModel { kind: TokenType::EOF, lexeme: Seq::empty(), line, literal: None }
}

/// Where the scanner stands: start of the current lexeme, next character,
/// and line.
pub struct ScannerState {
    pub start: usize,
    pub current: usize,
    pub line: usize,
}

impl Default for ScannerState {
    fn default() -> (s: Self)
        ensures
            s.start == 0,
            s.current == 0,
            s.line == 1,
    {
        Self { start: 0, current: 0, line: 1 }
    }
}

/// The scanner of the tree-walking front end: reads the whole source into
/// a list of tokens.
pub struct Scanner {
    pub source: Vec<char>,
    pub state: ScannerState,
    pub tokens: Vec<Token>,
}

fn is_word(s: &[char], w: &[char]) -> (r: bool)
    ensures
        r == (s@ =~= w@),
{
    if s.len() != w.len() {
        return false;
    }
    let mut i: usize = 0;
    while i < s.len()
        invariant
            s@.len() == w@.len(),
            i <= s@.len(),
            forall|j: int| 0 <= j < i ==> s@[j] == w@[j],
        decreases s@.len() - i,
    {
        if s[i] != w[i] {
            return false;
        }
        i = i + 1;
    }
    true
}

/// The type of an identifier-shaped lexeme.
fn keyword(s: &[char]) -> (t: TokenType)
    ensures
        t == keyword_of(s@),
{
    proof {
        reveal_strlit("and");
        reveal_strlit("class");
        reveal_strlit("else");
        reveal_strlit("false");
        reveal_strlit("for");
        reveal_strlit("fun");
        reveal_strlit("if");
        reveal_strlit("nil");
        reveal_strlit("or");
        reveal_strlit("print");
        reveal_strlit("return");
        reveal_strlit("super");
        reveal_strlit("this");
        reveal_strlit("true");
        reveal_strlit("var");
        reveal_strlit("while");
    }
    if is_word(s, &['a', 'n', 'd']) { TokenType::And }
    else if is_word(s, &['c', 'l', 'a', 's', 's']) { TokenType::Class }
    else if is_word(s, &['e', 'l', 's', 'e']) { TokenType::Else }
    else if is_word(s, &['f', 'a', 'l', 's', 'e']) { TokenType::False }
    else if is_word(s, &['f', 'o', 'r']) { TokenType::For }
    else if is_word(s, &['f', 'u', 'n']) { TokenType::Fun }
    else if is_word(s, &['i', 'f']) { TokenType::If }
    else if is_word(s, &['n', 'i', 'l']) { TokenType::Nil }
    else if is_word(s, &['o', 'r']) { TokenType::Or }
    else if is_word(s, &['p', 'r', 'i', 'n', 't']) { TokenType::Print }
    else if is_word(s, &['r', 'e', 't', 'u', 'r', 'n']) { TokenType::Return }
    else if is_word(s, &['s', 'u', 'p', 'e', 'r']) { TokenType::Super }
    else if is_word(s, &['t', 'h', 'i', 's']) { TokenType::This }
    else if is_word(s, &['t', 'r', 'u', 'e']) { TokenType::True }
    else if is_word(s, &['v', 'a', 'r']) { TokenType::Var }
    else if is_word(s, &['w', 'h', 'i', 'l', 'e']) { TokenType::While }
    else { TokenType::Identifier }
}

fn is_digit(c: char) -> (r: bool)
    ensures
        r == is_digit_char(c),
{
    '0' <= c && c <= '9'
}

fn is_alpha(c: char) -> (r: bool)
    ensures
        r == is_alpha_char(c),
{
    ('a' <= c && c <= 'z') || ('A' <= c && c <= 'Z')
}

impl Scanner {
    /// Where scanning stands.
    pub closed spec fn position(&self) -> int {
        self.state.current as int
    }

    pub closed spec fn line_no(&self) -> int {
        self.state.line as int
    }

    pub closed spec fn wf(&self) -> bool {
        &&& self.state.start <= self.state.current <= self.source@.len() + 1
        &&& self.source@.len() + 2 < usize::MAX
        &&& 1 <= self.state.line <= self.state.current + 1
    }

    pub fn new(source: &str) -> (s: Self)
        requires
            source@.len() + 2 < usize::MAX,
        ensures
            s.wf(),
            s.source@ == source@,
            s.tokens@.len() == 0,
            s.position() == 0,
            s.line_no() == 1,
    {
        Self { source: chars_of(source), state: ScannerState::default(), tokens: Vec::new() }
    }

    fn at_end(&self) -> (r: bool)
        ensures
            r == (self.state.current >= self.source@.len()),
    {
        self.state.current >= self.source.len()
    }

    fn peek(&self) -> (c: Option<char>)
        ensures
            c == if self.state.current < self.source@.len() { Some(self.source@[self.state.current as int]) } else { None::<char> },
    {
        if !self.at_end() { Some(self.source[self.state.current]) } else { None }
    }

    fn peek_next(&self) -> (c: Option<char>)
        ensures
            c == if self.state.current + 1 < self.source@.len() { Some(self.source@[self.state.current + 1]) } else { None::<char> },
    {
        if self.state.current < self.source.len() && self.state.current + 1 < self.source.len() {
            Some(self.source[self.state.current + 1])
        } else {
            None
        }
    }

    /// Consumes the next character unless it is one other than `c`: at the
    /// end of the source it steps past the end.
    fn match_char(&mut self, c: char) -> (r: bool)
        requires
            old(self).wf(),
            old(self).state.current <= old(self).source@.len(),
        ensures
            final(self).wf(),
            final(self).source == old(self).source,
            final(self).tokens == old(self).tokens,
            final(self).state.start == old(self).state.start,
            final(self).state.line == old(self).state.line,
            r == !(old(self).state.current < old(self).source@.len() && old(self).source@[old(self).state.current as int] != c),
            final(self).state.current == old(self).state.current + if r { 1int } else { 0int },
    {
        let p = self.peek();
        if p.is_some() && p.unwrap() != c {
            return false;
        }
        self.state.current = self.state.current + 1;
        true
    }

    /// Adds the token spanning the current lexeme.
    fn add_token(&mut self, token_type: TokenType, literal: Option<Literal>)
        requires
            old(self).wf(),
            old(self).state.current <= old(self).source@.len(),
        ensures
            final(self).wf(),
            final(self).source == old(self).source,
            final(self).state == old(self).state,
            final(self).tokens@ == old(self).tokens@.push(Token {
                token_type,
                lexeme: final(self).tokens@.last().lexeme,
                line: old(self).state.line,
                literal,
            }),
            final(self).tokens@.last().lexeme@ == old(self).source@.subrange(old(self).state.start as int, old(self).state.current as int),
    {
        let text = string_of(&self.source.as_slice()[self.state.start..self.state.current]);
        let line = self.state.line;
        self.tokens.push(Token::new(token_type, text, line, literal));
    }

    fn process_number(&mut self) -> (r: Result<(), Error>)
        requires
            old(self).wf(),
            old(self).state.current == old(self).state.start + 1,
            old(self).state.start < old(self).source@.len(),
            is_digit_char(old(self).source@[old(self).state.start as int]),
        ensures
            final(self).wf(),
            final(self).source == old(self).source,
            r is Ok,
            final(self).state.current == number_run(old(self).source@, old(self).state.start as int),
            final(self).state.line == old(self).state.line,
            final(self).state.start == old(self).state.start,
            tokens_model(final(self).tokens@) == tokens_model(old(self).tokens@).push(token_model(old(self).source@,
                TokenType::Number, old(self).state.start as int, final(self).state.current as int, old(self).state.line as int)),
    {
        proof { lemma_runs(self.source@, self.state.current as int); }
        while self.peek().is_some() && is_digit(self.peek().unwrap())
            invariant
                self.wf(),
                self.source == old(self).source,
                self.tokens == old(self).tokens,
                self.state.start == old(self).state.start,
                self.state.line == old(self).state.line,
                old(self).state.current <= self.state.current <= self.source@.len(),
                digits_run(self.source@, self.state.current as int) == digits_run(self.source@, old(self).state.current as int),
            decreases self.source@.len() - self.state.current,
        {
            self.state.current = self.state.current + 1;
        }
        let n = self.peek_next();
        if self.peek().is_some() && self.peek().unwrap() == '.' && n.is_some() && is_digit(n.unwrap()) {
            self.state.current = self.state.current + 1;
            let ghost d2 = self.state.current as int + 1;
            proof { lemma_runs(self.source@, self.state.current as int); }
            while self.peek().is_some() && is_digit(self.peek().unwrap())
                invariant
                    self.wf(),
                    self.source == old(self).source,
                    self.tokens == old(self).tokens,
                    self.state.start == old(self).state.start,
                    self.state.line == old(self).state.line,
                    self.state.current <= self.source@.len(),
                    digits_run(self.source@, self.state.current as int) == number_run(self.source@, old(self).state.start as int),
                decreases self.source@.len() - self.state.current,
            {
                self.state.current = self.state.current + 1;
            }
        }
        let num = string_of(&self.source.as_slice()[self.state.start..self.state.current]);
        let ghost lex = num@;
        self.add_token(TokenType::Number, Some(Literal::Number(num)));
        proof {
            assert(tokens_model(self.tokens@) =~= tokens_model(old(self).tokens@).push(token_model(old(self).source@,
                TokenType::Number, old(self).state.start as int, self.state.current as int, old(self).state.line as int)));
        }
        Ok(())
    }

    fn process_identifier(&mut self) -> (r: Result<(), Error>)
        requires
            old(self).wf(),
            old(self).state.current == old(self).state.start + 1,
            old(self).state.start < old(self).source@.len(),
        ensures
            final(self).wf(),
            final(self).source == old(self).source,
            r is Ok,
            final(self).state.current == alnum_run(old(self).source@, old(self).state.current as int),
            final(self).state.line == old(self).state.line,
            final(self).state.start == old(self).state.start,
            tokens_model(final(self).tokens@) == tokens_model(old(self).tokens@).push(token_model(old(self).source@,
                keyword_of(old(self).source@.subrange(old(self).state.start as int, final(self).state.current as int)),
                old(self).state.start as int, final(self).state.current as int, old(self).state.line as int)),
    {
        proof { lemma_runs(self.source@, self.state.current as int); }
        while self.peek().is_some() && (is_digit(self.peek().unwrap()) || is_alpha(self.peek().unwrap()))
            invariant
                self.wf(),
                self.source == old(self).source,
                self.tokens == old(self).tokens,
                self.state.start == old(self).state.start,
                self.state.line == old(self).state.line,
                old(self).state.current <= self.state.current <= self.source@.len(),
                alnum_run(self.source@, self.state.current as int) == alnum_run(self.source@, old(self).state.current as int),
            decreases self.source@.len() - self.state.current,
        {
            self.state.current = self.state.current + 1;
        }
        let token_type = keyword(&self.source.as_slice()[self.state.start..self.state.current]);
        self.add_token(token_type, None);
        proof {
            assert(tokens_model(self.tokens@) =~= tokens_model(old(self).tokens@).push(token_model(old(self).source@,
                token_type, old(self).state.start as int, self.state.current as int, old(self).state.line as int)));
        }
        Ok(())
    }

    /// Scans the rest of a string literal whose opening quote was just
    /// consumed.
    fn process_string(&mut self) -> (r: Result<(), Error>)
        requires
            old(self).wf(),
            old(self).state.current == old(self).state.start + 1,
            old(self).state.start < old(self).source@.len(),
        ensures
            final(self).wf(),
            final(self).source == old(self).source,
            ({
                let src = old(self).source@;
                let pos = old(self).state.start as int;
                let q = quote_run(src, pos + 1);
                let l = old(self).state.line + newline_count(src, pos + 1, q);
                if q >= src.len() {
                    r matches Err(Error::Scan(e)) && e.line == l && e.message@ == "Unterminated string"@
                } else {
                    &&& r is Ok
                    &&& final(self).state.current == q + 1
                    &&& final(self).state.line == l
                    &&& tokens_model(final(self).tokens@) == tokens_model(old(self).tokens@).push(
                        token_model(src, TokenType::String, pos, q + 1, l))
                }
            }),
    {
        let ghost src = self.source@;
        let ghost p1 = self.state.current as int;
        proof { lemma_runs(src, p1); }
        while self.peek().is_some() && self.peek().unwrap() != '"'
            invariant
                self.wf(),
                self.source == old(self).source,
                self.source@ == src,
                self.tokens == old(self).tokens,
                self.state.start == old(self).state.start,
                p1 == old(self).state.current,
                p1 <= self.state.current <= src.len(),
                quote_run(src, self.state.current as int) == quote_run(src, p1),
                self.state.line == old(self).state.line + newline_count(src, p1, self.state.current as int),
            decreases self.source@.len() - self.state.current,
        {
            proof { lemma_newline_count(src, p1, self.state.current as int); }
            if self.source[self.state.current] == '\n' {
                self.state.line = self.state.line + 1;
            }
            self.state.current = self.state.current + 1;
        }
        if self.at_end() {
            return Err(Error::Scan(ScanError::new(self.state.line, "Unterminated string".to_string())));
        }
        let literal = string_of(&self.source.as_slice()[self.state.start + 1..self.state.current]);
        self.state.current = self.state.current + 1;
        self.add_token(TokenType::String, Some(Literal::String(literal)));
        proof {
            assert(tokens_model(self.tokens@) =~= tokens_model(old(self).tokens@).push(token_model(src,
                TokenType::String, old(self).state.start as int, self.state.current as int, self.state.line as int)));
        }
        Ok(())
    }

    /// Scans from the current character: adds a token, skips a blank, a
    /// newline or a comment, or fails.
    fn scan_token(&mut self) -> (r: Result<(), Error>)
        requires
            old(self).wf(),
            old(self).state.start == old(self).state.current,
            old(self).state.current < old(self).source@.len(),
            !(lex_at(old(self).source@, old(self).state.current as int, old(self).state.line as int) is Stuck),
        ensures
            final(self).wf(),
            final(self).source == old(self).source,
            match lex_at(old(self).source@, old(self).state.current as int, old(self).state.line as int) {
                Lexed::Add { kind, end, line } => {
                    &&& r is Ok
                    &&& tokens_model(final(self).tokens@) == tokens_model(old(self).tokens@).push(
                        token_model(old(self).source@, kind, old(self).state.current as int, end, line))
                    &&& final(self).state.current == end
                    &&& final(self).state.line == line
                },
                Lexed::Skip { end, line } => {
                    &&& r is Ok
                    &&& final(self).tokens == old(self).tokens
                    &&& final(self).state.current == end
                    &&& final(self).state.line == line
                },
                Lexed::Fail { line, message } => r matches Err(Error::Scan(e)) && e.line == line && e.message@ == message,
                Lexed::Stuck => false,
            },
    {
        proof { lemma_runs(self.source@, self.state.current as int + 1); }
        let c = self.source[self.state.current];
        self.state.current = self.state.current + 1;
        let single = if c == '(' { Some(TokenType::LeftParen) }
            else if c == ')' { Some(TokenType::RightParen) }
            else if c == '{' { Some(TokenType::LeftBrace) }
            else if c == '}' { Some(TokenType::RightBrace) }
            else if c == ',' { Some(TokenType::Comma) }
            else if c == '.' { Some(TokenType::Dot) }
            else if c == '-' { Some(TokenType::Minus) }
            else if c == '+' { Some(TokenType::Plus) }
            else if c == ';' { Some(TokenType::Semicolon) }
            else if c == '*' { Some(TokenType::Star) }
            else { None };
        if let Some(token_type) = single {
            self.add_token(token_type, None);
            proof {
                assert(tokens_model(self.tokens@) =~= tokens_model(old(self).tokens@).push(token_model(self.source@,
                    token_type, old(self).state.current as int, self.state.current as int, self.state.line as int)));
            }
            return Ok(());
        }
        if c == '!' || c == '=' || c == '<' || c == '>' {
            let matched = self.match_char('=');
            let token_type = if c == '!' {
                if matched { TokenType::BangEqual } else { TokenType::Bang }
            } else if c == '=' {
                if matched { TokenType::EqualEqual } else { TokenType::Equal }
            } else if c == '<' {
                if matched { TokenType::LessEqual } else { TokenType::Less }
            } else {
                if matched { TokenType::GreaterEqual } else { TokenType::Greater }
            };
            self.add_token(token_type, None);
            proof {
                assert(tokens_model(self.tokens@) =~= tokens_model(old(self).tokens@).push(token_model(self.source@,
                    token_type, old(self).state.current as int, self.state.current as int, self.state.line as int)));
            }
            return Ok(());
        }
        if c == '/' {
            if self.match_char('/') {
                while self.peek().is_some() && self.peek().unwrap() != '\n'
                    invariant
                        self.wf(),
                        self.source == old(self).source,
                        self.tokens == old(self).tokens,
                        self.state.line == old(self).state.line,
                        old(self).state.current + 2 <= self.state.current,
                        self.state.current <= self.source@.len() ==> line_end(self.source@, self.state.current as int)
                            == line_end(self.source@, old(self).state.current + 2),
                        old(self).state.current + 1 >= self.source@.len() ==> self.state.current == old(self).state.current + 2,
                        old(self).state.current + 1 < self.source@.len() ==> self.state.current <= self.source@.len(),
                    decreases self.source@.len() + 1 - self.state.current,
                {
                    self.state.current = self.state.current + 1;
                }
                proof {
                    if old(self).state.current + 1 < self.source@.len() {
                        assert(self.state.current <= self.source@.len());
                        assert(line_end(self.source@, self.state.current as int) == self.state.current);
                    }
                }
                return Ok(());
            }
            self.add_token(TokenType::Slash, None);
            proof {
                assert(tokens_model(self.tokens@) =~= tokens_model(old(self).tokens@).push(token_model(self.source@,
                    TokenType::Slash, old(self).state.current as int, self.state.current as int, self.state.line as int)));
            }
            return Ok(());
        }
        if c == ' ' || c == '\r' || c == '\t' {
            return Ok(());
        }
        if c == '\n' {
            self.state.line = self.state.line + 1;
            return Ok(());
        }
        if c == '"' {
            return self.process_string();
        }
        if is_digit(c) {
            return self.process_number();
        }
        if is_alpha(c) {
            return self.process_identifier();
        }
        let mut message = String::from_str("Unexpected character: ");
        let one = [c];
        let text = string_of(&one);
        message.append(text.as_str());
        Err(Error::Scan(ScanError::new(self.state.line, message)))
    }

    /// Whether scanning `source` from its start stays within it: false
    /// exactly when the scan reaches an operator character that is the last
    /// character of the source, which `scan_tokens` does not accept.
    pub fn can_scan(source: &str) -> (r: bool)
        requires
            source@.len() + 2 < usize::MAX,
        ensures
            r == !(lex_all(source@, 0, 1) is Stuck),
    {
        let mut probe = Scanner::new(source);
        let ghost src = probe.source@;
        while !probe.at_end()
            invariant
                probe.wf(),
                probe.source@ == src,
                src == source@,
                (lex_all(src, 0, 1) is Stuck) == (lex_all(src, probe.state.current as int, probe.state.line as int) is Stuck),
            decreases src.len() + 1 - probe.state.current,
        {
            probe.state.start = probe.state.current;
            let ghost pos = probe.state.current as int;
            let ghost line = probe.state.line as int;
            proof {
                lemma_lex_progress(src, pos, line);
                assert(lex_all(src, pos, line) == match lex_at(src, pos, line) {
                    Lexed::Add { kind, end, line: l } => match lex_all(src, end, l) {
                        LexedAll::Tokens(ts, fl) => LexedAll::Tokens(seq![token_model(src, kind, pos, end, l)] + ts, fl),
                        other => other,
                    },
                    Lexed::Skip { end, line: l } => lex_all(src, end, l),
                    Lexed::Fail { line: l, message } => LexedAll::Fails(l, message),
                    Lexed::Stuck => LexedAll::Stuck,
                });
            }
            let c = probe.source[probe.state.current];
            if (c == '!' || c == '=' || c == '<' || c == '>') && probe.state.current + 1 == probe.source.len() {
                return false;
            }
            if probe.scan_token().is_err() {
                return true;
            }
        }
        true
    }

    /// Scans the whole source, then adds the end-of-input token.
    pub fn scan_tokens(&mut self) -> (r: Result<(), Error>)
        requires
            old(self).wf(),
            !(lex_all(old(self).source@, old(self).position(), old(self).line_no()) is Stuck),
        ensures
            final(self).source == old(self).source,
            match lex_all(old(self).source@, old(self).position(), old(self).line_no()) {
                LexedAll::Tokens(ts, fl) => r is Ok
                    && tokens_model(final(self).tokens@) == tokens_model(old(self).tokens@) + ts + seq![eof_model(fl)],
                LexedAll::Fails(line, message) => r matches Err(Error::Scan(e)) && e.line == line && e.message@ == message,
                LexedAll::Stuck => false,
            },
    {
        let ghost src = self.source@;
        let ghost total = lex_all(src, self.state.current as int, self.state.line as int);
        let ghost base = tokens_model(self.tokens@);
        while !self.at_end()
            invariant
                self.wf(),
                self.source@ == src,
                self.source == old(self).source,
                base.len() <= tokens_model(self.tokens@).len(),
                tokens_model(self.tokens@).subrange(0, base.len() as int) == base,
                total == prepend(tokens_model(self.tokens@).subrange(base.len() as int, tokens_model(self.tokens@).len() as int),
                    lex_all(src, self.state.current as int, self.state.line as int)),
                !(total is Stuck),
                total == lex_all(old(self).source@, old(self).position(), old(self).line_no()),
                base == tokens_model(old(self).tokens@),
            decreases src.len() + 1 - self.state.current,
        {
            self.state.start = self.state.current;
            let ghost pos = self.state.current as int;
            let ghost line = self.state.line as int;
            let ghost before = tokens_model(self.tokens@);
            proof {
                lemma_lex_progress(src, pos, line);
                assert(lex_all(src, pos, line) == match lex_at(src, pos, line) {
                    Lexed::Add { kind, end, line: l } => match lex_all(src, end, l) {
                        LexedAll::Tokens(ts, fl) => LexedAll::Tokens(seq![token_model(src, kind, pos, end, l)] + ts, fl),
                        other => other,
                    },
                    Lexed::Skip { end, line: l } => lex_all(src, end, l),
                    Lexed::Fail { line: l, message } => LexedAll::Fails(l, message),
                    Lexed::Stuck => LexedAll::Stuck,
                });
                if lex_at(src, pos, line) is Stuck {
                    assert(total is Stuck);
                }
            }
            let res = self.scan_token();
            if res.is_err() {
                proof {
                    assert(lex_at(src, pos, line) is Fail);
                    assert(lex_all(src, pos, line) is Fails);
                    assert(total == lex_all(src, pos, line));
                    match lex_at(src, pos, line) {
                        Lexed::Fail { line: l, message } => {
                            assert(total == LexedAll::Fails(l, message));
                            assert(res matches Err(Error::Scan(e)) && e.line == l && e.message@ == message);
                        },
                        _ => {},
                    }
                }
                return res;
            }
            proof {
                let after = tokens_model(self.tokens@);
                match lex_at(src, pos, line) {
                    Lexed::Add { kind, end, line: l } => {
                        let t = token_model(src, kind, pos, end, l);
                        assert(after.subrange(0, base.len() as int) =~= before.subrange(0, base.len() as int));
                        assert(after.subrange(base.len() as int, after.len() as int)
                            =~= before.subrange(base.len() as int, before.len() as int) + seq![t]);
                        match lex_all(src, end, l) {
                            LexedAll::Tokens(ts, fl) => {
                                assert(before.subrange(base.len() as int, before.len() as int) + (seq![t] + ts)
                                    =~= (before.subrange(base.len() as int, before.len() as int) + seq![t]) + ts);
                            },
                            _ => {},
                        }
                    },
                    _ => {},
                }
            }
        }
        let ghost fl = self.state.line as int;
        let line = self.state.line;
        self.tokens.push(Token::new(TokenType::EOF, String::new(), line, None));
        proof {
            let ts = tokens_model(self.tokens@);
            assert(ts.drop_last() =~= tokens_model(old(self).tokens@) + (ts.drop_last().subrange(base.len() as int, ts.len() - 1)));
            match total {
                LexedAll::Tokens(x, f) => {
                    assert(ts =~= tokens_model(old(self).tokens@) + x + seq![eof_model(f)]);
                },
                _ => {},
            }
        }
        Ok(())
    }
}

/// An operator character followed by `=` scans as one two-character token
/// (`!=`, `==`, `<=`, `>=`), and otherwise as the one-character token (`!`,
/// `=`, `<`, `>`); the two types differ.
pub proof fn law_operator_tokens(src: Seq<char>, pos: int, line: int)
    requires
        0 <= pos,
        pos + 1 < src.len(),
        is_operator_char(src[pos]),
    ensures
        ({
            let c = src[pos];
            let two = src[pos + 1] == '=';
            let kind = if c == '!' {
                if two { TokenType::BangEqual } else { TokenType::Bang }
            } else if c == '=' {
                if two { TokenType::EqualEqual } else { TokenType::Equal }
            } else if c == '<' {
                if two { TokenType::LessEqual } else { TokenType::Less }
            } else {
                if two { TokenType::GreaterEqual } else { TokenType::Greater }
            };
            lex_at(src, pos, line) == Lexed::Add { kind, end: if two { pos + 2 } else { pos + 1 }, line }
        }),
        operator_equal(src[pos]) != operator_alone(src[pos]),
{
}

} // verus!
