use vstd::prelude::*;

use crate::bytecode::error::{Error, ScanError};
use crate::bytecode::token::{Literal, Token, TokenType};

verus! {

/// The byte at `i`, or 0 past the end of the source (the scanner treats the
/// end of the source as a NUL byte that nothing matches).
pub open spec fn byte_at(src: Seq<u8>, i: int) -> u8 {
    if 0 <= i < src.len() { src[i] } else { 0 }
}

pub open spec fn is_digit(c: u8) -> bool {
    48 <= c <= 57
}

pub open spec fn spec_is_alpha(c: u8) -> bool {
    (97 <= c <= 122) || (65 <= c <= 90) || c == 95 || c >= 128
}

/// Position and line reached from `pos` by skipping spaces, carriage
/// returns, tabs, newlines and `//` comments (`in_comment`: inside one).
pub open spec fn skip_blank(src: Seq<u8>, pos: int, line: int, in_comment: bool) -> (int, int)
    decreases src.len() - pos,
{
    if pos < 0 || pos >= src.len() {
        (pos, line)
    } else if in_comment {
        if src[pos] == 10 {
            skip_blank(src, pos + 1, line + 1, false)
        } else {
            skip_blank(src, pos + 1, line, true)
        }
    } else {
        let c = src[pos];
        if c == 32 || c == 13 || c == 9 {
            skip_blank(src, pos + 1, line, false)
        } else if c == 10 {
            skip_blank(src, pos + 1, line + 1, false)
        } else if c == 47 && byte_at(src, pos + 1) == 47 {
            skip_blank(src, pos + 1, line, true)
        } else {
            (pos, line)
        }
    }
}

/// End of the run of digits that starts at `i`.
pub open spec fn digits_end(src: Seq<u8>, i: int) -> int
    decreases src.len() - i,
{
    if 0 <= i < src.len() && is_digit(src[i]) { digits_end(src, i + 1) } else { i }
}

/// End of the run of identifier bytes that starts at `i`.
pub open spec fn alpha_end(src: Seq<u8>, i: int) -> int
    decreases src.len() - i,
{
    if 0 <= i < src.len() && spec_is_alpha(src[i]) { alpha_end(src, i + 1) } else { i }
}

/// Position of the first `"` from `i` on, or the end of the source.
pub open spec fn quote_end(src: Seq<u8>, i: int) -> int
    decreases src.len() - i,
{
    if 0 <= i < src.len() && src[i] != 34 { quote_end(src, i + 1) } else { i }
}

/// Number of newlines in `src[i..j]`.
pub open spec fn newlines(src: Seq<u8>, i: int, j: int) -> int
    decreases j - i,
{
    if i >= j { 0 } else { newlines(src, i, j - 1) + if byte_at(src, j - 1) == 10 { 1int } else { 0int } }
}

/// End of a number whose first digit is at `p`: digits, then a fraction
/// if a `.` is followed by a digit.
pub open spec fn number_end(src: Seq<u8>, p: int) -> int {
    let d = digits_end(src, p + 1);
    if byte_at(src, d) == 46 && is_digit(byte_at(src, d + 1)) { digits_end(src, d + 2) } else { d }
}

/// The type of an identifier-shaped lexeme: a keyword, or `Identifier`.
pub open spec fn keyword_type(s: Seq<u8>) -> TokenType {
    if s =~= seq![97u8, 110, 100] { TokenType::And }
    else if s =~= seq![99u8, 108, 97, 115, 115] { TokenType::Class }
    else if s =~= seq![101u8, 108, 115, 101] { TokenType::Else }
    else if s =~= seq![102u8, 97, 108, 115, 101] { TokenType::False }
    else if s =~= seq![102u8, 111, 114] { TokenType::For }
    else if s =~= seq![102u8, 117, 110] { TokenType::Fun }
    else if s =~= seq![105u8, 102] { TokenType::If }
    else if s =~= seq![110u8, 105, 108] { TokenType::Nil }
    else if s =~= seq![111u8, 114] { TokenType::Or }
    else if s =~= seq![112u8, 114, 105, 110, 116] { TokenType::Print }
    else if s =~= seq![114u8, 101, 116, 117, 114, 110] { TokenType::Return }
    else if s =~= seq![115u8, 117, 112, 101, 114] { TokenType::Super }
    else if s =~= seq![116u8, 104, 105, 115] { TokenType::This }
    else if s =~= seq![116u8, 114, 117, 101] { TokenType::True }
    else if s =~= seq![118u8, 97, 114] { TokenType::Var }
    else if s =~= seq![119u8, 104, 105, 108, 101] { TokenType::While }
    else { TokenType::Identifier }
}

/// Token type and length of an operator or punctuation token starting
/// with byte `c`, followed by byte `n`; `None` for any other byte.
pub open spec fn punct(c: u8, n: u8) -> Option<(TokenType, int)> {
    if c == 40 { Some((TokenType::LeftParen, 1)) }
    else if c == 41 { Some((TokenType::RightParen, 1)) }
    else if c == 123 { Some((TokenType::LeftBrace, 1)) }
    else if c == 125 { Some((TokenType::RightBrace, 1)) }
    else if c == 44 { Some((TokenType::Comma, 1)) }
    else if c == 46 { Some((TokenType::Dot, 1)) }
    else if c == 45 { Some((TokenType::Minus, 1)) }
    else if c == 43 { Some((TokenType::Plus, 1)) }
    else if c == 59 { Some((TokenType::Semicolon, 1)) }
    else if c == 42 { Some((TokenType::Star, 1)) }
    else if c == 47 { Some((TokenType::Slash, 1)) }
    else if c == 33 { if n == 61 { Some((TokenType::BangEqual, 2)) } else { Some((TokenType::Bang, 1)) } }
    else if c == 61 { if n == 61 { Some((TokenType::EqualEqual, 2)) } else { Some((TokenType::Equal, 1)) } }
    else if c == 60 { if n == 61 { Some((TokenType::LessEqual, 2)) } else { Some((TokenType::Less, 1)) } }
    else if c == 62 { if n == 61 { Some((TokenType::GreaterEqual, 2)) } else { Some((TokenType::Greater, 1)) } }
    else { None }
}

/// What scanning one token from `pos` at `line` yields.
pub enum Scanned {
    /// A token of `kind` spanning `src[start..end]`, ending on `line`.
    Token { kind: TokenType, start: int, end: int, line: int },
    /// A byte that starts no token; scanning resumes after it.
    Unexpected { end: int, line: int },
    /// A string that runs to the end of the source.
    Unterminated { end: int, line: int },
}

/// A token's text starts where the scan started, before the blanks and
/// comments skipped ahead of it, so a token after any of them carries them
/// in its text (and an identifier after them is never a keyword). The end
/// of input has empty text.
pub open spec fn scan_spec(src: Seq<u8>, pos: int, line: int) -> Scanned {
    let (p, l) = skip_blank(src, pos, line, false);
    if p >= src.len() {
        Scanned::Token { kind: TokenType::EOF, start: p, end: p, line: l }
    } else {
        let c = src[p];
        if is_digit(c) {
            Scanned::Token { kind: TokenType::Number, start: pos, end: number_end(src, p), line: l }
        } else if spec_is_alpha(c) {
            let e = alpha_end(src, p + 1);
            Scanned::Token { kind: keyword_type(src.subrange(pos, e)), start: pos, end: e, line: l }
        } else if c == 34 {
            let q = quote_end(src, p + 1);
            if q >= src.len() {
                Scanned::Unterminated { end: q, line: l + newlines(src, p + 1, q) }
            } else {
                Scanned::Token { kind: TokenType::String, start: pos, end: q + 1, line: l + newlines(src, p + 1, q) }
            }
        } else {
            match punct(c, byte_at(src, p + 1)) {
                Some((kind, n)) => Scanned::Token { kind, start: pos, end: p + n, line: l },
                None => Scanned::Unexpected { end: p + 1, line: l },
            }
        }
    }
}

/// The literal a token of `kind` spanning `src[start..end]` carries.
pub open spec fn literal_matches(lit: Option<Literal>, kind: TokenType, src: Seq<u8>, start: int, end: int) -> bool {
    match kind {
        TokenType::Number => lit matches Some(Literal::Number(v)) && v@ == src.subrange(start, end),
        TokenType::String => lit matches Some(Literal::String(v)) && v@ == src.subrange(start + 1, end - 1),
        _ => lit is None,
    }
}

pub proof fn lemma_skip_blank(src: Seq<u8>, pos: int, line: int, in_comment: bool)
    requires
        0 <= pos <= src.len(),
    ensures
        pos <= skip_blank(src, pos, line, in_comment).0 <= src.len(),
        line <= skip_blank(src, pos, line, in_comment).1,
        skip_blank(src, pos, line, in_comment).1 - line <= skip_blank(src, pos, line, in_comment).0 - pos,
    decreases src.len() - pos,
{
    if pos < src.len() {
        lemma_skip_blank(src, pos + 1, line, true);
        lemma_skip_blank(src, pos + 1, line + 1, true);
        lemma_skip_blank(src, pos + 1, line, false);
        lemma_skip_blank(src, pos + 1, line + 1, false);
    }
}

pub proof fn lemma_runs(src: Seq<u8>, i: int)
    requires
        0 <= i <= src.len(),
    ensures
        i <= digits_end(src, i) <= src.len(),
        i <= alpha_end(src, i) <= src.len(),
        i <= quote_end(src, i) <= src.len(),
    decreases src.len() - i,
{
    if i < src.len() {
        lemma_runs(src, i + 1);
    }
}

pub proof fn lemma_newlines(src: Seq<u8>, i: int, j: int)
    requires
        i <= j,
    ensures
        0 <= newlines(src, i, j) <= j - i,
    decreases j - i,
{
    if i < j {
        lemma_newlines(src, i, j - 1);
    }
}

/// Scanning a token never goes back, consumes at least one byte for every
/// token but the end of input, and yields the end of input only at the end
/// of the source.
pub proof fn lemma_scan_progress(src: Seq<u8>, pos: int, line: int)
    requires
        0 <= pos <= src.len(),
    ensures
        match scan_spec(src, pos, line) {
            Scanned::Token { kind, start, end, line: l } => {
                &&& pos <= start <= end <= src.len()
                &&& line <= l
                &&& (kind == TokenType::EOF <==> start == src.len())
                &&& kind == TokenType::EOF ==> end == src.len()
                &&& kind != TokenType::EOF ==> start < end
            },
            Scanned::Unexpected { end, line: l } => pos < end <= src.len() && line <= l,
            Scanned::Unterminated { end, line: l } => pos < end == src.len() && line <= l,
        },
{
    lemma_skip_blank(src, pos, line, false);
    let (p, l) = skip_blank(src, pos, line, false);
    if p < src.len() {
        lemma_runs(src, p + 1);
        let d = digits_end(src, p + 1);
        if d + 1 < src.len() {
            lemma_runs(src, d + 2);
        }
        let q = quote_end(src, p + 1);
        lemma_newlines(src, p + 1, q);
    }
}

pub struct Scanner<'a> {
    pub source: &'a [u8],
    pub start: usize,
    pub current: usize,
    pub line: i32,
}

impl<'a> Scanner<'a> {
    /// The scanner's own invariant: positions inside the source, and a line
    /// number that cannot outgrow an `i32`.
    pub open spec fn wf(&self) -> bool {
        &&& self.start <= self.current <= self.source@.len()
        &&& self.source@.len() < i32::MAX
        &&& 1 <= self.line <= self.current + 1
    }

    pub fn new(source: &'a [u8]) -> (s: Self)
        requires
            source@.len() < i32::MAX,
        ensures
            s.wf(),
            s.source@ == source@,
            s.start == 0,
            s.current == 0,
            s.line == 1,
    {
        Self { source, start: 0, current: 0, line: 1 }
    }

    pub fn at_end(&self) -> (r: bool)
        ensures
            r == (self.current >= self.source@.len()),
    {
        self.current >= self.source.len()
    }

    /// The byte under the cursor, 0 at the end.
    pub fn peek(&self) -> (c: u8)
        ensures
            c == byte_at(self.source@, self.current as int),
    {
        if self.current < self.source.len() { self.source[self.current] } else { 0 }
    }

    pub fn peek_next(&self) -> (c: Option<u8>)
        ensures
            c == if self.current + 1 < self.source@.len() {
                Some(self.source@[self.current + 1])
            } else {
                None::<u8>
            },
    {
        if self.current < self.source.len() && self.current + 1 < self.source.len() {
            Some(self.source[self.current + 1])
        } else {
            None
        }
    }

    pub fn advance(&mut self) -> (c: u8)
        requires
            old(self).current < old(self).source@.len(),
        ensures
            c == old(self).source@[old(self).current as int],
            final(self).current == old(self).current + 1,
            final(self).source == old(self).source,
            final(self).start == old(self).start,
            final(self).line == old(self).line,
    {
        let c = self.source[self.current];
        self.current = self.current + 1;
        c
    }

    pub fn match_byte(&mut self, c: u8) -> (r: bool)
        requires
            old(self).current <= old(self).source@.len(),
        ensures
            r == (old(self).current < old(self).source@.len() && old(self).source@[old(self).current as int] == c),
            final(self).current == old(self).current + if r { 1int } else { 0int },
            final(self).source == old(self).source,
            final(self).start == old(self).start,
            final(self).line == old(self).line,
    {
        if self.at_end() {
            return false;
        }
        if self.peek() != c {
            return false;
        }
        self.advance();
        true
    }

    pub fn skip_whitespace(&mut self)
        requires
            old(self).wf(),
        ensures
            final(self).wf(),
            (final(self).current as int, final(self).line as int)
                == skip_blank(old(self).source@, old(self).current as int, old(self).line as int, false),
            final(self).source == old(self).source,
            final(self).start == old(self).start,
    {
        let ghost target = skip_blank(self.source@, self.current as int, self.line as int, false);
        loop
            invariant
                self.wf(),
                skip_blank(self.source@, self.current as int, self.line as int, false) == target,
                target == skip_blank(old(self).source@, old(self).current as int, old(self).line as int, false),
                self.source == old(self).source,
                self.start == old(self).start,
            ensures
                (self.current as int, self.line as int) == target,
            decreases self.source@.len() - self.current,
        {
            let c = self.peek();
            if c == 32 || c == 13 || c == 9 {
                self.advance();
            } else if c == 10 {
                self.line = self.line + 1;
                self.advance();
            } else if c == 47 {
                let n = self.peek_next();
                if n.is_some() && n.unwrap() == 47 {
                    self.advance();
                    let ghost c0 = self.current;
                    while self.peek() != 10 && !self.at_end()
                        invariant
                            self.wf(),
                            self.current >= c0,
                            skip_blank(self.source@, self.current as int, self.line as int, true) == target,
                            target == skip_blank(old(self).source@, old(self).current as int, old(self).line as int, false),
                            self.source == old(self).source,
                            self.start == old(self).start,
                        decreases self.source@.len() - self.current,
                    {
                        self.advance();
                    }
                    if self.at_end() {
                        return;
                    }
                } else {
                    return;
                }
            } else {
                return;
            }
        }
    }

    pub fn consume_number(&mut self)
        requires
            old(self).wf(),
        ensures
            final(self).wf(),
            final(self).current == digits_end(old(self).source@, old(self).current as int),
            final(self).source == old(self).source,
            final(self).start == old(self).start,
            final(self).line == old(self).line,
    {
        while is_digit_byte(self.peek())
            invariant
                self.wf(),
                old(self).current <= self.current,
                digits_end(self.source@, self.current as int) == digits_end(old(self).source@, old(self).current as int),
                self.source == old(self).source,
                self.start == old(self).start,
                self.line == old(self).line,
            decreases self.source@.len() - self.current,
        {
            self.advance();
        }
    }

    /// Scans the rest of a number whose first digit was just consumed.
    fn number(&mut self) -> (r: Result<Token, Error>)
        requires
            old(self).wf(),
            old(self).start < old(self).current,
            is_digit(old(self).source@[old(self).current - 1]),
        ensures
            final(self).wf(),
            final(self).source == old(self).source,
            final(self).start == old(self).start,
            final(self).line == old(self).line,
            final(self).current == number_end(old(self).source@, old(self).current - 1),
            r matches Ok(t) && t.token_type == TokenType::Number
                && t.lex@ == old(self).source@.subrange(old(self).start as int, final(self).current as int)
                && t.line == old(self).line
                && literal_matches(t.literal, TokenType::Number, old(self).source@, old(self).start as int, final(self).current as int),
    {
        self.consume_number();
        let n = self.peek_next();
        if self.peek() == 46 && n.is_some() && is_digit_byte(n.unwrap()) {
            self.advance();
            self.consume_number();
        }
        let lex = &self.source[self.start..self.current];
        let literal = Literal::Number(vstd::slice::slice_to_vec(lex));
        Ok(Token::new(TokenType::Number, lex, self.line, Some(literal)))
    }

    /// Scans the rest of an identifier or keyword whose first byte was just
    /// consumed.
    fn identifier(&mut self) -> (r: Result<Token, Error>)
        requires
            old(self).wf(),
            old(self).start < old(self).current,
        ensures
            final(self).wf(),
            final(self).source == old(self).source,
            final(self).start == old(self).start,
            final(self).line == old(self).line,
            final(self).current == alpha_end(old(self).source@, old(self).current as int),
            r matches Ok(t)
                && t.token_type == keyword_type(old(self).source@.subrange(old(self).start as int, final(self).current as int))
                && t.lex@ == old(self).source@.subrange(old(self).start as int, final(self).current as int)
                && t.line == old(self).line
                && t.literal is None,
    {
        while is_alpha(self.peek())
            invariant
                self.wf(),
                old(self).current <= self.current,
                alpha_end(self.source@, self.current as int) == alpha_end(old(self).source@, old(self).current as int),
                self.source == old(self).source,
                self.start == old(self).start,
                self.line == old(self).line,
            decreases self.source@.len() - self.current,
        {
            self.advance();
        }
        let lex = &self.source[self.start..self.current];
        let token_type = identifier_type(lex);
        Ok(Token::new(token_type, lex, self.line, None))
    }

    /// Scans the rest of a string literal whose opening quote was just
    /// consumed.
    fn string(&mut self) -> (r: Result<Token, Error>)
        requires
            old(self).wf(),
            old(self).start < old(self).current,
        ensures
            final(self).wf(),
            final(self).source == old(self).source,
            final(self).start == old(self).start,
            ({
                let src = old(self).source@;
                let q = quote_end(src, old(self).current as int);
                let l = old(self).line + newlines(src, old(self).current as int, q);
                if q >= src.len() {
                    &&& r matches Err(Error::Scan(e)) && e.line == l && e.message@ == "Unterminated string"@
                    &&& final(self).current == q
                    &&& final(self).line == l
                } else {
                    &&& r matches Ok(t) && t.token_type == TokenType::String
                        && t.lex@ == src.subrange(old(self).start as int, q + 1)
                        && t.line == l
                        && literal_matches(t.literal, TokenType::String, src, old(self).start as int, q + 1)
                    &&& final(self).current == q + 1
                    &&& final(self).line == l
                }
            }),
    {
        let ghost src = self.source@;
        let ghost p1 = self.current as int;
        while self.peek() != 34 && !self.at_end()
            invariant
                self.wf(),
                self.source@ == src,
                src == old(self).source@,
                p1 == old(self).current,
                p1 <= self.current,
                quote_end(src, self.current as int) == quote_end(src, p1),
                self.line == old(self).line + newlines(src, p1, self.current as int),
                self.source == old(self).source,
                self.start == old(self).start,
            decreases self.source@.len() - self.current,
        {
            if self.source[self.current] == 10 {
                self.line = self.line + 1;
            }
            self.advance();
        }
        if self.at_end() {
            return Err(Error::Scan(ScanError::new("Unterminated string".to_string(), self.line as usize)));
        }
        self.advance();
        let lex = &self.source[self.start..self.current];
        let text = &self.source[self.start + 1..self.current - 1];
        let literal = Literal::String(vstd::slice::slice_to_vec(text));
        Ok(Token::new(TokenType::String, lex, self.line, Some(literal)))
    }

    /// Scans the next token, skipping blanks and comments before it; the
    /// token's text includes what was skipped.
    pub fn scan_token(&mut self) -> (r: Result<Token, Error>)
        requires
            old(self).wf(),
        ensures
            final(self).wf(),
            final(self).source == old(self).source,
            match scan_spec(old(self).source@, old(self).current as int, old(self).line as int) {
                Scanned::Token { kind, start, end, line } => {
                    &&& r matches Ok(t) && t.token_type == kind
                        && t.lex@ == old(self).source@.subrange(start, end)
                        && t.line == line
                        && literal_matches(t.literal, kind, old(self).source@, start, end)
                    &&& final(self).start == start
                    &&& final(self).current == end
                    &&& final(self).line == line
                },
                Scanned::Unexpected { end, line } => {
                    &&& r matches Err(Error::Scan(e)) && e.line == line && e.message@ == "Unexpected character"@
                    &&& final(self).current == end
                    &&& final(self).line == line
                },
                Scanned::Unterminated { end, line } => {
                    &&& r matches Err(Error::Scan(e)) && e.line == line && e.message@ == "Unterminated string"@
                    &&& final(self).current == end
                    &&& final(self).line == line
                },
            },
    {
        let start = self.current;
        proof { lemma_skip_blank(self.source@, start as int, self.line as int, false); }
        self.skip_whitespace();
        if self.at_end() {
            self.start = self.current;
            let lex = &self.source[self.current..self.current];
            return Ok(Token::new(TokenType::EOF, lex, self.line, None));
        }
        self.start = start;
        let c = self.advance();
        if is_digit_byte(c) {
            return self.number();
        }
        if is_alpha(c) {
            return self.identifier();
        }
        if c == 34 {
            return self.string();
        }
        let token_type = if c == 40 {
            TokenType::LeftParen
        } else if c == 41 {
            TokenType::RightParen
        } else if c == 123 {
            TokenType::LeftBrace
        } else if c == 125 {
            TokenType::RightBrace
        } else if c == 44 {
            TokenType::Comma
        } else if c == 46 {
            TokenType::Dot
        } else if c == 45 {
            TokenType::Minus
        } else if c == 43 {
            TokenType::Plus
        } else if c == 59 {
            TokenType::Semicolon
        } else if c == 42 {
            TokenType::Star
        } else if c == 47 {
            TokenType::Slash
        } else if c == 33 {
            if self.match_byte(61) { TokenType::BangEqual } else { TokenType::Bang }
        } else if c == 61 {
            if self.match_byte(61) { TokenType::EqualEqual } else { TokenType::Equal }
        } else if c == 60 {
            if self.match_byte(61) { TokenType::LessEqual } else { TokenType::Less }
        } else if c == 62 {
            if self.match_byte(61) { TokenType::GreaterEqual } else { TokenType::Greater }
        } else {
            return Err(Error::Scan(ScanError::new("Unexpected character".to_string(), self.line as usize)));
        };
        let lex = &self.source[self.start..self.current];
        Ok(Token::new(token_type, lex, self.line, None))
    }
}

pub fn is_digit_byte(c: u8) -> (r: bool)
    ensures
        r == is_digit(c),
{
    48 <= c && c <= 57
}

/// Whether a byte may start or continue an identifier.
pub fn is_alpha(c: u8) -> (r: bool)
    ensures
        r == spec_is_alpha(c),
{
    (97 <= c && c <= 122) || (65 <= c && c <= 90) || c == 95 || c >= 128
}

fn is_word(s: &[u8], w: &[u8]) -> (r: bool)
    ensures
        r == (s@ =~= w@),
{
    if s.len() != w.len() {
        return false;
    }
    let mut i: usize = 0;
    while i < s.len()
        invariant
            s@.len() == w@.len(),
            i <= s@.len(),
            forall|j: int| 0 <= j < i ==> s@[j] == w@[j],
        decreases s@.len() - i,
    {
        if s[i] != w[i] {
            return false;
        }
        i = i + 1;
    }
    true
}

/// The token type of an identifier-shaped lexeme.
pub fn identifier_type(s: &[u8]) -> (t: TokenType)
    ensures
        t == keyword_type(s@),
{
    if is_word(s, &[97u8, 110, 100]) { TokenType::And }
    else if is_word(s, &[99u8, 108, 97, 115, 115]) { TokenType::Class }
    else if is_word(s, &[101u8, 108, 115, 101]) { TokenType::Else }
    else if is_word(s, &[102u8, 97, 108, 115, 101]) { TokenType::False }
    else if is_word(s, &[102u8, 111, 114]) { TokenType::For }
    else if is_word(s, &[102u8, 117, 110]) { TokenType::Fun }
    else if is_word(s, &[105u8, 102]) { TokenType::If }
    else if is_word(s, &[110u8, 105, 108]) { TokenType::Nil }
    else if is_word(s, &[111u8, 114]) { TokenType::Or }
    else if is_word(s, &[112u8, 114, 105, 110, 116]) { TokenType::Print }
    else if is_word(s, &[114u8, 101, 116, 117, 114, 110]) { TokenType::Return }
    else if is_word(s, &[115u8, 117, 112, 101, 114]) { TokenType::Super }
    else if is_word(s, &[116u8, 104, 105, 115]) { TokenType::This }
    else if is_word(s, &[116u8, 114, 117, 101]) { TokenType::True }
    else if is_word(s, &[118u8, 97, 114]) { TokenType::Var }
    else if is_word(s, &[119u8, 104, 105, 108, 101]) { TokenType::While }
    else { TokenType::Identifier }
}

} // verus!
