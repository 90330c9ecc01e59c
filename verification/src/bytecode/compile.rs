use vstd::prelude::*;
use vstd::string::StringSliceAdditionalSpecFns;

use crate::bytecode::chunk::{Chunk, add_line, decodes, instr_len, lemma_decodes_append, lemma_decodes_grow, lemma_decodes_one, valid_instr};
use crate::bytecode::common::{OpCode, OPCODE_COUNT, opcode_byte};
use crate::bytecode::error::{Error, ParserError};
use crate::bytecode::local::Local;
use crate::bytecode::scanner::{Scanned, Scanner, lemma_scan_progress, literal_matches, scan_spec, skip_blank};
use crate::bytecode::token::{Literal, Token, TokenType, spec_infix_rule, spec_precedence, spec_prefix_rule};
use crate::bytecode::codegen::{
    ChunkModel, CompModel, Cursor, Instr, LocalModel, adv, adv_ok, adv_to, binary_instrs, local_conflict, s_advance,
    s_block, s_byte, s_consume, s_declaration, s_declaration_body, s_declare, s_define, s_expression, s_identifier_constant,
    s_parse_variable, s_program, s_statement, start_model, start_token, s_synchronize, s_terminated, s_var_declaration, c_apply, lemma_binary_instrs, literal_byte, unary_instrs, c_infix, c_prec, c_rule, cmeasure, emit, emit_all,
    lemma_adv_measure, lemma_emit_all_append, lemma_emit_all_one, lemma_emit_all_two, lemma_rule_any_before, tok_model,
    emitted_as, local_slot, s_named_variable,
};
use crate::bytecode::value::{Obj, StringInterner, Value, ValueModel, literal_value};
use crate::bytecode::vm::values_model;

verus! {

/// Most locals a function can have: their slots are addressed by one byte.
pub const MAX_LOCALS: usize = 256;

/// Binding strength of operators, from loosest to tightest.
#[derive(Debug, Clone, Copy, PartialEq, Eq, Structural, PartialOrd, Ord)]
pub enum Precedence {
    Lowest,
    Assignment,
    Or,
    And,
    Equality,
    Comparison,
    Term,
    Factor,
    Unary,
    Call,
    Primary,
}

/// The place of a precedence level in the order of declaration.
pub open spec fn precedence_rank(p: Precedence) -> nat {
    match p {
        Precedence::Lowest => 0,
        Precedence::Assignment => 1,
        Precedence::Or => 2,
        Precedence::And => 3,
        Precedence::Equality => 4,
        Precedence::Comparison => 5,
        Precedence::Term => 6,
        Precedence::Factor => 7,
        Precedence::Unary => 8,
        Precedence::Call => 9,
        Precedence::Primary => 10,
    }
}

/// The level one step tighter; `Primary` is the tightest.
pub open spec fn next_level(p: Precedence) -> Precedence {
    match p {
        Precedence::Lowest => Precedence::Assignment,
        Precedence::Assignment => Precedence::Or,
        Precedence::Or => Precedence::And,
        Precedence::And => Precedence::Equality,
        Precedence::Equality => Precedence::Comparison,
        Precedence::Comparison => Precedence::Term,
        Precedence::Term => Precedence::Factor,
        Precedence::Factor => Precedence::Unary,
        Precedence::Unary => Precedence::Call,
        Precedence::Call => Precedence::Primary,
        Precedence::Primary => Precedence::Primary,
    }
}

impl Precedence {
    /// The level one step tighter; `Primary` is the tightest.
    pub fn next(&self) -> (n: Precedence)
        ensures
            n == next_level(*self),
            precedence_rank(n) == if precedence_rank(*self) < 10 { precedence_rank(*self) + 1 } else { 10 },
    {
        match self {
            Precedence::Lowest => Precedence::Assignment,
            Precedence::Assignment => Precedence::Or,
            Precedence::Or => Precedence::And,
            Precedence::And => Precedence::Equality,
            Precedence::Equality => Precedence::Comparison,
            Precedence::Comparison => Precedence::Term,
            Precedence::Term => Precedence::Factor,
            Precedence::Factor => Precedence::Unary,
            Precedence::Unary => Precedence::Call,
            Precedence::Call => Precedence::Primary,
            Precedence::Primary => Precedence::Primary,
        }
    }

    /// The rank of this level, for comparing two levels.
    pub fn rank(&self) -> (r: u8)
        ensures
            r == precedence_rank(*self),
    {
        match self {
            Precedence::Lowest => 0,
            Precedence::Assignment => 1,
            Precedence::Or => 2,
            Precedence::And => 3,
            Precedence::Equality => 4,
            Precedence::Comparison => 5,
            Precedence::Term => 6,
            Precedence::Factor => 7,
            Precedence::Unary => 8,
            Precedence::Call => 9,
            Precedence::Primary => 10,
        }
    }
}

/// The ways the compiler continues at a token: the parse functions of the
/// Pratt table.
#[derive(Debug, Clone, Copy, PartialEq, Eq, Structural)]
pub enum ParseFn {
    Grouping,
    Unary,
    Number,
    String,
    Literal,
    Variable,
    Binary,
}

/// A row of the Pratt table.
pub struct ParseRule {
    pub prefix: Option<ParseFn>,
    pub infix: Option<ParseFn>,
    pub precedence: Precedence,
}


/// The instructions a binary operator compiles to.
pub open spec fn binary_code(t: TokenType) -> Seq<u8> {
    match t {
        TokenType::BangEqual => seq![opcode_byte(OpCode::Equal), opcode_byte(OpCode::Not)],
        TokenType::EqualEqual => seq![opcode_byte(OpCode::Equal)],
        TokenType::Greater => seq![opcode_byte(OpCode::Greater)],
        TokenType::GreaterEqual => seq![opcode_byte(OpCode::Less), opcode_byte(OpCode::Not)],
        TokenType::Less => seq![opcode_byte(OpCode::Less)],
        TokenType::LessEqual => seq![opcode_byte(OpCode::Greater), opcode_byte(OpCode::Not)],
        TokenType::Plus => seq![opcode_byte(OpCode::Add)],
        TokenType::Minus => seq![opcode_byte(OpCode::Subtract)],
        TokenType::Star => seq![opcode_byte(OpCode::Multiply)],
        TokenType::Slash => seq![opcode_byte(OpCode::Divide)],
        _ => Seq::empty(),
    }
}

/// The two tokens the compiler looks at.
pub struct Parser {
    pub current: Token,
    pub previous: Token,
}

impl Parser {
    pub fn new() -> (p: Self)
        ensures
            p.current.token_type == TokenType::EOF,
            p.previous.token_type == TokenType::EOF,
            p.current.line == 0,
            p.previous.line == 0,
            tok_model(p.current) == start_token(),
            tok_model(p.previous) == start_token(),
    {
        let empty: Vec<u8> = Vec::new();
        let current = Token::new(TokenType::EOF, empty.as_slice(), 0, None);
        let previous = Token::new(TokenType::EOF, empty.as_slice(), 0, None);
        Self { current, previous }
    }
}

/// A single-pass compiler from source text to a chunk of bytecode.
pub struct Compiler<'a> {
    pub parser: Parser,
    pub scanner: Scanner<'a>,
    pub chunk: Chunk,
    pub strings: StringInterner<()>,
    pub locals: Vec<Local>,
    pub scope_depth: i32,
}

/// Whether a token is the one the scanner yields at `pos` on `line`, and
/// the scanner state after it.
pub open spec fn scanned_token(t: Token, src: Seq<u8>, pos: int, line: int, next_pos: int, next_line: int) -> bool {
    match scan_spec(src, pos, line) {
        Scanned::Token { kind, start, end, line: l } => {
            &&& t.token_type == kind
            &&& t.lex@ == src.subrange(start, end)
            &&& t.line == l
            &&& literal_matches(t.literal, kind, src, start, end)
            &&& next_pos == end
            &&& next_line == l
        },
        _ => false,
    }
}

impl<'a> Compiler<'a> {
    /// Bytes still to scan, and one more while the current token is not the
    /// end of input: every successful or failed step past a real token
    /// lowers it.
    pub open spec fn measure(&self) -> int {
        (self.scanner.source@.len() - self.scanner.current) + if self.parser.current.token_type == TokenType::EOF { 0int } else { 1int }
    }

    pub open spec fn nconst(&self) -> int {
        self.chunk.constants.values@.len() as int
    }

    /// The compiler's invariant once the first token has been read.
    pub open spec fn ready(&self) -> bool {
        &&& self.scanner.wf()
        &&& self.chunk.wf()
        &&& self.strings.wf()
        &&& self.locals@.len() <= MAX_LOCALS
        &&& self.parser.current.line >= 1
        &&& (self.parser.current.token_type == TokenType::EOF ==> self.scanner.current == self.scanner.source@.len())
        &&& self.scope_depth - self.measure() >= -(i32::MAX as int)
    }

    /// What every step of the compiler keeps: the invariant, the source,
    /// code and constants already emitted, whole instructions, and the
    /// interned strings.
    pub open spec fn evolves(self, next: Self) -> bool {
        &&& self.grows(next)
        &&& next.strings == self.strings
    }

    /// What every step of the compiler keeps but the interned strings,
    /// which only compiling a string literal adds to.
    pub open spec fn grows(self, next: Self) -> bool {
        &&& next.ready()
        &&& next.scanner.source == self.scanner.source
        &&& next.measure() <= self.measure()
        &&& next.scope_depth - next.measure() >= self.scope_depth - self.measure()
        &&& self.chunk.code@.len() <= next.chunk.code@.len()
        &&& next.chunk.code@.subrange(0, self.chunk.code@.len() as int) =~= self.chunk.code@
        &&& self.nconst() <= next.nconst()
        &&& (self.parser.previous.line >= 1 ==> next.parser.previous.line >= 1)
        &&& (decodes(self.chunk.code@, self.nconst()) ==> decodes(next.chunk.code@, next.nconst()))
    }

    /// Where the compiler stands, as its model reads it.
    pub open spec fn cursor(&self) -> Cursor {
        Cursor {
            prev: tok_model(self.parser.previous),
            cur: tok_model(self.parser.current),
            pos: self.scanner.current as int,
            line: self.scanner.line as int,
        }
    }

    /// The locals as the model reads them.
    pub open spec fn locals_model(&self) -> Seq<LocalModel> {
        self.locals@.map_values(|l: Local| LocalModel { name: l.name@, depth: l.depth as int })
    }

    /// The whole state the model of the compiler works on.
    pub open spec fn model(&self) -> CompModel {
        CompModel { cursor: self.cursor(), chunk: self.chunk_model(), locals: self.locals_model(), depth: self.scope_depth as int }
    }

    /// The chunk compiled so far.
    pub open spec fn chunk_model(&self) -> ChunkModel {
        ChunkModel {
            code: self.chunk.code@,
            lines: self.chunk.lines@,
            consts: values_model(self.chunk.constants.values@),
        }
    }

    pub fn new(source: &'a str, strings: StringInterner<()>) -> (c: Self)
        requires
            source.spec_bytes().len() < i32::MAX - 1,
            strings.wf(),
        ensures
            c.scanner.wf(),
            c.scanner.source@ == source.spec_bytes(),
            c.scanner.current == 0,
            c.scanner.line == 1,
            c.chunk.wf(),
            c.chunk.code@.len() == 0,
            c.chunk.constants.values@.len() == 0,
            c.strings == strings,
            c.locals@.len() == 0,
            c.scope_depth == 0,
            c.parser.current.token_type == TokenType::EOF,
            c.model() == start_model(),
    {
        let parser = Parser::new();
        let bytes = source.as_bytes();
        let scanner = Scanner::new(bytes);
        let chunk = Chunk::new();
        let locals = Vec::new();
        let scope_depth: i32 = 0;
        let c = Self { parser, scanner, chunk, strings, locals, scope_depth };
        assert(c.locals_model() =~= Seq::<LocalModel>::empty());
        assert(c.chunk_model().consts =~= Seq::<ValueModel>::empty());
        assert(c.chunk_model().code =~= Seq::<u8>::empty());
        assert(c.chunk_model().lines =~= Seq::<usize>::empty());
        c
    }

    /// The parts of the invariant that hold from construction on.
    pub open spec fn basic(&self) -> bool {
        &&& self.scanner.wf()
        &&& self.chunk.wf()
        &&& self.strings.wf()
        &&& self.locals@.len() <= MAX_LOCALS
    }

    /// Moves to the next token: the current one becomes the previous one.
    fn advance(&mut self) -> (r: Result<(), Error>)
        requires
            old(self).basic(),
        ensures
            final(self).basic(),
            final(self).scanner.source == old(self).scanner.source,
            final(self).chunk == old(self).chunk,
            final(self).strings == old(self).strings,
            final(self).locals == old(self).locals,
            final(self).scope_depth == old(self).scope_depth,
            r is Ok ==> {
                &&& final(self).parser.previous == old(self).parser.current
                &&& scanned_token(final(self).parser.current, old(self).scanner.source@, old(self).scanner.current as int,
                    old(self).scanner.line as int, final(self).scanner.current as int, final(self).scanner.line as int)
            },
            r is Err ==> final(self).parser == old(self).parser && !(scan_spec(old(self).scanner.source@,
                old(self).scanner.current as int, old(self).scanner.line as int) is Token),
            old(self).ready() ==> old(self).evolves(*final(self)),
            old(self).ready() && old(self).parser.current.token_type != TokenType::EOF ==> final(self).measure() < old(self).measure(),
            old(self).scope_depth == 0 && old(self).scanner.source@.len() < i32::MAX - 1 && r is Ok ==> final(self).ready(),
            (r is Ok) == adv_ok(old(self).scanner.source@, old(self).cursor()),
            final(self).cursor() == adv_to(old(self).scanner.source@, old(self).cursor()),
            final(self).model() == s_advance(old(self).scanner.source@, old(self).model()).0,
    {
        proof {
            lemma_scan_progress(self.scanner.source@, self.scanner.current as int, self.scanner.line as int);
        }
        let mut t = self.scanner.scan_token()?;
        std::mem::swap(&mut self.parser.current, &mut t);
        self.parser.previous = t;
        Ok(())
    }

    fn check(&self, t: TokenType) -> (r: bool)
        ensures
            r == (self.parser.current.token_type == t),
    {
        self.parser.current.token_type == t
    }

    /// Consumes the current token if it has type `t`.
    fn match_type(&mut self, t: TokenType) -> (r: Result<bool, Error>)
        requires
            old(self).ready(),
        ensures
            old(self).evolves(*final(self)),
            final(self).chunk == old(self).chunk,
            final(self).locals == old(self).locals,
            final(self).scope_depth == old(self).scope_depth,
            final(self).strings == old(self).strings,
            old(self).parser.current.token_type != t ==> r == Ok::<bool, Error>(false) && *final(self) == *old(self),
            r == Ok::<bool, Error>(false) ==> old(self).parser.current.token_type != t && *final(self) == *old(self),
            old(self).parser.current.token_type == t && (scan_spec(old(self).scanner.source@, old(self).scanner.current as int,
                old(self).scanner.line as int) is Token) ==> r is Ok,
            old(self).parser.current.token_type == t && t != TokenType::EOF ==> final(self).measure() < old(self).measure(),
            r == Ok::<bool, Error>(true) ==> old(self).parser.current.token_type == t
                && final(self).parser.previous == old(self).parser.current
                && final(self).parser.previous.line >= 1,
            old(self).parser.current.token_type == t ==> final(self).cursor() == adv_to(old(self).scanner.source@, old(self).cursor())
                && (r is Ok) == adv_ok(old(self).scanner.source@, old(self).cursor())
                && (r is Ok ==> r == Ok::<bool, Error>(true)),
            old(self).parser.current.token_type == t ==> final(self).model() == s_advance(old(self).scanner.source@, old(self).model()).0,
    {
        if !self.check(t) {
            return Ok(false);
        }
        self.advance()?;
        Ok(true)
    }

    /// Consumes the current token, which must have type `token_type`.
    fn consume(&mut self, token_type: TokenType, message: &str) -> (r: Result<(), Error>)
        requires
            old(self).ready(),
        ensures
            old(self).evolves(*final(self)),
            final(self).chunk == old(self).chunk,
            final(self).locals == old(self).locals,
            final(self).scope_depth == old(self).scope_depth,
            final(self).strings == old(self).strings,
            old(self).parser.current.token_type != token_type ==> *final(self) == *old(self) && (r matches Err(Error::Parser(e))
                && e.message@ == message@ && e.token_type == old(self).parser.current.token_type
                && e.lexeme@ == old(self).parser.current.lex@),
            old(self).parser.current.token_type == token_type && token_type != TokenType::EOF ==> final(self).measure() < old(self).measure(),
            r is Ok ==> old(self).parser.current.token_type == token_type
                && final(self).parser.previous == old(self).parser.current
                && final(self).parser.previous.line >= 1,
            (r is Ok) == (old(self).parser.current.token_type == token_type && adv_ok(old(self).scanner.source@, old(self).cursor())),
            final(self).cursor() == if old(self).parser.current.token_type == token_type {
                adv_to(old(self).scanner.source@, old(self).cursor())
            } else {
                old(self).cursor()
            },
            final(self).model() == s_consume(old(self).scanner.source@, old(self).model(), token_type).0,
            (r is Ok) == s_consume(old(self).scanner.source@, old(self).model(), token_type).1,
    {
        if self.parser.current.token_type == token_type {
            self.advance()?;
            return Ok(());
        }
        Err(Error::Parser(ParserError::new(&self.parser.current, message)))
    }

    /// Appends a byte, on the line of the previous token.
    fn emit_byte(&mut self, byte: u8)
        requires
            old(self).ready(),
            old(self).parser.previous.line >= 1,
        ensures
            final(self).ready(),
            final(self).chunk.code@ == old(self).chunk.code@.push(byte),
            final(self).chunk.lines@ == add_line(old(self).chunk.lines@, old(self).parser.previous.line as int),
            final(self).chunk.constants == old(self).chunk.constants,
            final(self).parser == old(self).parser,
            final(self).scanner == old(self).scanner,
            final(self).strings == old(self).strings,
            final(self).locals == old(self).locals,
            final(self).scope_depth == old(self).scope_depth,
            decodes(old(self).chunk.code@, old(self).nconst()) && byte < OPCODE_COUNT && instr_len(byte) == 1
                ==> decodes(final(self).chunk.code@, final(self).nconst()),
            final(self).chunk_model() == emit(old(self).chunk_model(), Instr::Byte(byte, old(self).parser.previous.line as int)),
            final(self).model() == s_byte(old(self).model(), byte),
    {
        proof {
            if byte < OPCODE_COUNT && instr_len(byte) == 1 {
                lemma_decodes_one(seq![byte], self.nconst());
                if decodes(self.chunk.code@, self.nconst()) {
                    lemma_decodes_append(self.chunk.code@, seq![byte], self.nconst());
                    assert(self.chunk.code@ + seq![byte] =~= self.chunk.code@.push(byte));
                }
            }
        }
        self.chunk.write_chunk(byte, self.parser.previous.line as usize);
    }

    /// Appends two bytes: a two-byte instruction, or two one-byte ones.
    fn emit_bytes(&mut self, byte1: u8, byte2: u8)
        requires
            old(self).ready(),
            old(self).parser.previous.line >= 1,
        ensures
            final(self).ready(),
            final(self).chunk.code@ == old(self).chunk.code@ + seq![byte1, byte2],
            final(self).chunk.constants == old(self).chunk.constants,
            final(self).parser == old(self).parser,
            final(self).scanner == old(self).scanner,
            final(self).strings == old(self).strings,
            final(self).locals == old(self).locals,
            final(self).scope_depth == old(self).scope_depth,
            decodes(old(self).chunk.code@, old(self).nconst()) && (
                (valid_instr(seq![byte1, byte2], old(self).nconst()) && instr_len(byte1) == 2)
                || (byte1 < OPCODE_COUNT && instr_len(byte1) == 1 && byte2 < OPCODE_COUNT && instr_len(byte2) == 1))
                ==> decodes(final(self).chunk.code@, final(self).nconst()),
            final(self).chunk_model() == emit(emit(old(self).chunk_model(), Instr::Byte(byte1, old(self).parser.previous.line as int)),
                Instr::Byte(byte2, old(self).parser.previous.line as int)),
    {
        let ghost code0 = self.chunk.code@;
        let ghost n = self.nconst();
        proof {
            if decodes(code0, n) && valid_instr(seq![byte1, byte2], n) && instr_len(byte1) == 2 {
                lemma_decodes_one(seq![byte1, byte2], n);
                lemma_decodes_append(code0, seq![byte1, byte2], n);
            }
        }
        self.emit_byte(byte1);
        self.emit_byte(byte2);
        assert(self.chunk.code@ =~= code0 + seq![byte1, byte2]);
    }

    fn emit_return(&mut self)
        requires
            old(self).ready(),
            old(self).parser.previous.line >= 1,
        ensures
            final(self).ready(),
            final(self).chunk.code@ == old(self).chunk.code@.push(opcode_byte(OpCode::Return)),
            final(self).chunk.constants == old(self).chunk.constants,
            final(self).parser == old(self).parser,
            final(self).scanner == old(self).scanner,
            final(self).strings == old(self).strings,
            final(self).locals == old(self).locals,
            final(self).scope_depth == old(self).scope_depth,
            decodes(old(self).chunk.code@, old(self).nconst()) ==> decodes(final(self).chunk.code@, final(self).nconst()),
            final(self).model() == s_byte(old(self).model(), opcode_byte(OpCode::Return)),
    {
        self.emit_byte(OpCode::Return.as_byte());
    }

    /// Adds a constant and the instruction that loads it.
    fn emit_constant(&mut self, value: Value)
        requires
            old(self).ready(),
            old(self).parser.previous.line >= 1,
        ensures
            old(self).evolves(*final(self)),
            final(self).chunk.constants.values@ == old(self).chunk.constants.values@.push(value),
            final(self).parser == old(self).parser,
            final(self).scanner == old(self).scanner,
            final(self).strings == old(self).strings,
            final(self).locals == old(self).locals,
            final(self).scope_depth == old(self).scope_depth,
            ({
                let index = old(self).chunk.constants.values@.len();
                if index < 256 {
                    final(self).chunk.code@ == old(self).chunk.code@ + seq![opcode_byte(OpCode::Constant), index as u8]
                } else {
                    final(self).chunk.code@ == old(self).chunk.code@ + seq![
                        opcode_byte(OpCode::ConstantLong),
                        ((index / 65536) % 256) as u8,
                        ((index / 256) % 256) as u8,
                        (index % 256) as u8,
                    ]
                }
            }),
            final(self).chunk_model() == emit(old(self).chunk_model(), Instr::Const(value@, old(self).parser.previous.line as int)),
    {
        let ghost code0 = self.chunk.code@;
        let ghost n = self.nconst();
        self.chunk.write_constant(value, self.parser.previous.line as usize);
        assert(values_model(self.chunk.constants.values@) =~= values_model(old(self).chunk.constants.values@).push(value@));
        proof {
            let index = n;
            let tail = self.chunk.code@.subrange(code0.len() as int, self.chunk.code@.len() as int);
            assert(self.chunk.code@ =~= code0 + tail);
            if index >= 256 {
                crate::bytecode::chunk::lemma_long_index(index);
            }
            lemma_decodes_one(tail, n + 1);
            if decodes(code0, n) {
                lemma_decodes_grow(code0, n, n + 1);
                lemma_decodes_append(code0, tail, n + 1);
            }
            assert(self.chunk.code@.subrange(0, code0.len() as int) =~= code0);
        }
    }

    /// Steps compose.
    pub proof fn lemma_evolves_trans(a: Self, b: Self, c: Self)
        requires
            a.evolves(b),
            b.evolves(c),
        ensures
            a.evolves(c),
    {
        assert(c.chunk.code@.subrange(0, a.chunk.code@.len() as int)
            =~= c.chunk.code@.subrange(0, b.chunk.code@.len() as int).subrange(0, a.chunk.code@.len() as int));
    }

    pub proof fn lemma_grows_trans(a: Self, b: Self, c: Self)
        requires
            a.grows(b),
            b.grows(c),
        ensures
            a.grows(c),
    {
        assert(c.chunk.code@.subrange(0, a.chunk.code@.len() as int)
            =~= c.chunk.code@.subrange(0, b.chunk.code@.len() as int).subrange(0, a.chunk.code@.len() as int));
    }

    /// A step that changes nothing.
    pub proof fn lemma_evolves_refl(a: Self)
        requires
            a.ready(),
        ensures
            a.evolves(a),
    {
        assert(a.chunk.code@.subrange(0, a.chunk.code@.len() as int) =~= a.chunk.code@);
    }

    /// Where the local named `name` is, searching below `k` from the most
    /// recent: its index, or -1.
    pub open spec fn find_local(locals: Seq<Local>, name: Seq<u8>, k: int) -> int
        decreases k,
    {
        if k <= 0 {
            -1
        } else if locals[k - 1].name@ == name {
            k - 1
        } else {
            Self::find_local(locals, name, k - 1)
        }
    }

    pub proof fn lemma_find_local(locals: Seq<Local>, name: Seq<u8>, k: int)
        requires
            0 <= k <= locals.len(),
        ensures
            -1 <= Self::find_local(locals, name, k) < k,
            Self::find_local(locals, name, k) >= 0 ==> locals[Self::find_local(locals, name, k)].name@ == name,
        decreases k,
    {
        if k > 0 {
            Self::lemma_find_local(locals, name, k - 1);
        }
    }

    /// The slot found among the locals is the one the model finds.
    proof fn lemma_find_local_slot(locals: Seq<Local>, name: Seq<u8>, k: int)
        requires
            0 <= k <= locals.len(),
        ensures
            Self::find_local(locals, name, k)
                == local_slot(locals.map_values(|l: Local| LocalModel { name: l.name@, depth: l.depth as int }), name, k),
        decreases k,
    {
        if k > 0 {
            Self::lemma_find_local_slot(locals, name, k - 1);
        }
    }

    /// The slot of the innermost local named like `token`, or -1; reading a
    /// local inside its own initializer is an error.
    fn resolve_local(&self, token: &Token) -> (r: Result<i32, Error>)
        requires
            self.locals@.len() <= MAX_LOCALS,
        ensures
            ({
                let i = Self::find_local(self.locals@, token.lex@, self.locals@.len() as int);
                if i >= 0 && self.locals@[i].depth == -1 {
                    r matches Err(Error::Parser(e)) && e.message@ == "Can't read local variable in its own initializer."@
                        && e.lexeme@ == token.lex@
                } else {
                    r == Ok::<i32, Error>(i as i32)
                }
            }),
    {
        let mut i: usize = self.locals.len();
        while i > 0
            invariant
                i <= self.locals@.len() <= MAX_LOCALS,
                Self::find_local(self.locals@, token.lex@, self.locals@.len() as int)
                    == Self::find_local(self.locals@, token.lex@, i as int),
            decreases i,
        {
            i = i - 1;
            if crate::bytecode::table::slice_eq(self.locals[i].name.as_slice(), token.lex.as_slice()) {
                if self.locals[i].depth == -1 {
                    return Err(Error::Parser(ParserError::new(token, "Can't read local variable in its own initializer.")));
                }
                return Ok(i as i32);
            }
        }
        Ok(-1)
    }

    /// Adds the previous token's lexeme to the constant pool as a string,
    /// for naming a global; its index must fit in one byte.
    fn identifier_constant(&mut self) -> (r: Result<u8, Error>)
        requires
            old(self).ready(),
        ensures
            old(self).evolves(*final(self)),
            final(self).chunk.code == old(self).chunk.code,
            final(self).chunk.lines == old(self).chunk.lines,
            final(self).chunk.constants.values@.len() == old(self).chunk.constants.values@.len() + 1,
            final(self).chunk.constants.values@.last()@ == ValueModel::Str(old(self).parser.previous.lex@),
            forall|i: int| 0 <= i < old(self).nconst() ==> #[trigger] final(self).chunk.constants.values@[i]
                == old(self).chunk.constants.values@[i],
            final(self).parser == old(self).parser,
            final(self).scanner == old(self).scanner,
            final(self).strings == old(self).strings,
            final(self).locals == old(self).locals,
            final(self).scope_depth == old(self).scope_depth,
            old(self).nconst() < 256 ==> r == Ok::<u8, Error>(old(self).nconst() as u8),
            old(self).nconst() >= 256 ==> (r matches Err(Error::Parser(e)) && e.message@ == "Too many constants."@),
            final(self).model() == s_identifier_constant(old(self).model()).0,
    {
        let name = vstd::slice::slice_to_vec(self.parser.previous.lex.as_slice());
        let value = Value::Obj(Obj::String(name));
        let index = self.chunk.add_constant(value);
        assert(values_model(self.chunk.constants.values@)
            =~= values_model(old(self).chunk.constants.values@).push(ValueModel::Str(old(self).parser.previous.lex@)));
        proof {
            Self::lemma_evolves_refl(*old(self));
            assert(self.chunk.code@.subrange(0, old(self).chunk.code@.len() as int) =~= old(self).chunk.code@);
            if decodes(old(self).chunk.code@, old(self).nconst()) {
                lemma_decodes_grow(old(self).chunk.code@, old(self).nconst(), self.nconst());
            }
        }
        if index < 256 {
            Ok(index as u8)
        } else {
            Err(Error::Parser(ParserError::new(&self.parser.previous, "Too many constants.")))
        }
    }

    /// Emits the instruction for a `false`, `nil` or `true` literal.
    pub fn literal(&mut self, can_assign: bool) -> (r: Result<(), Error>)
        requires
            old(self).ready(),
            old(self).parser.previous.line >= 1,
            old(self).parser.previous.token_type == TokenType::False
                || old(self).parser.previous.token_type == TokenType::Nil
                || old(self).parser.previous.token_type == TokenType::True,
        ensures
            final(self).scope_depth == old(self).scope_depth,
            final(self).locals == old(self).locals,
            old(self).evolves(*final(self)),
            r is Ok,
            final(self).chunk.code@ == old(self).chunk.code@.push(
                match old(self).parser.previous.token_type {
                    TokenType::False => opcode_byte(OpCode::False),
                    TokenType::Nil => opcode_byte(OpCode::Nil),
                    _ => opcode_byte(OpCode::True),
                }),
            final(self).chunk.constants == old(self).chunk.constants,
            final(self).parser == old(self).parser,
            emitted_as(r is Ok, c_apply(old(self).scanner.source@, old(self).cursor(), ParseFn::Literal),
                old(self).chunk_model(), final(self).chunk_model(), final(self).cursor()),
    {
        match self.parser.previous.token_type {
            TokenType::False => self.emit_byte(OpCode::False.as_byte()),
            TokenType::Nil => self.emit_byte(OpCode::Nil.as_byte()),
            _ => self.emit_byte(OpCode::True.as_byte()),
        }
        proof {
            assert(self.chunk.code@.subrange(0, old(self).chunk.code@.len() as int) =~= old(self).chunk.code@);
            let c1 = old(self).cursor();
            lemma_emit_all_one(old(self).chunk_model(), Instr::Byte(literal_byte(c1.prev.kind), c1.prev.line));
        }
        Ok(())
    }

    /// Emits the constant for the number literal just read.
    pub fn number(&mut self, can_assign: bool) -> (r: Result<(), Error>)
        requires
            old(self).ready(),
            old(self).parser.previous.line >= 1,
        ensures
            final(self).scope_depth == old(self).scope_depth,
            final(self).locals == old(self).locals,
            old(self).evolves(*final(self)),
            r is Ok,
            final(self).parser == old(self).parser,
            match old(self).parser.previous.literal {
                Some(l) => final(self).chunk.constants.values@.len() == old(self).nconst() + 1
                    && final(self).chunk.constants.values@.last()@ == literal_value(l),
                None => final(self).chunk == old(self).chunk,
            },
            emitted_as(r is Ok, c_apply(old(self).scanner.source@, old(self).cursor(), ParseFn::Number),
                old(self).chunk_model(), final(self).chunk_model(), final(self).cursor()),
    {
        let value = match &self.parser.previous.literal {
            Some(l) => Some(Value::from_literal(l)),
            None => None,
        };
        if let Some(v) = value {
            self.emit_constant(v);
            proof {
                let c1 = old(self).cursor();
                lemma_emit_all_one(old(self).chunk_model(), Instr::Const(c1.prev.value->0, c1.prev.line));
            }
        } else {
            proof {
                Self::lemma_evolves_refl(*self);
                assert(emit_all(self.chunk_model(), Seq::<Instr>::empty()) == self.chunk_model());
            }
        }
        Ok(())
    }

    /// Interns the string literal just read and emits it as a constant.
    pub fn string(&mut self, can_assign: bool) -> (r: Result<(), Error>)
        requires
            old(self).ready(),
            old(self).parser.previous.line >= 1,
        ensures
            final(self).scope_depth == old(self).scope_depth,
            final(self).locals == old(self).locals,
            old(self).grows(*final(self)),
            final(self).parser == old(self).parser,
            match old(self).parser.previous.literal {
                Some(Literal::String(s)) => {
                    &&& r is Ok
                    &&& final(self).chunk.constants.values@.len() == old(self).nconst() + 1
                    &&& final(self).chunk.constants.values@.last()@ == ValueModel::Str(s@)
                    &&& final(self).strings@ == if old(self).strings@.contains_key(s@) { old(self).strings@ } else { old(self).strings@.insert(s@, ()) }
                },
                _ => *final(self) == *old(self) && (r matches Err(Error::Parser(e)) && e.message@ == "Expect string literal"@),
            },
    {
        let interned = match &self.parser.previous.literal {
            Some(Literal::String(s)) => Some(self.strings.intern(s.as_slice(), ())),
            _ => None,
        };
        match interned {
            Some(v) => {
                proof {
                    assert(self.chunk.code@.subrange(0, old(self).chunk.code@.len() as int) =~= old(self).chunk.code@);
                }
                let ghost mid = *self;
                self.emit_constant(Value::Obj(Obj::String(v)));
                proof { Self::lemma_grows_trans(*old(self), mid, *self); }
                Ok(())
            },
            None => Err(Error::Parser(ParserError::new(&self.parser.previous, "Expect string literal"))),
        }
    }

    /// Calls the parse function `rule` of the Pratt table.
    fn apply_rule(&mut self, rule: ParseFn, can_assign: bool) -> (r: Result<(), Error>)
        requires
            old(self).ready(),
            old(self).parser.previous.line >= 1,
            rule != ParseFn::String && rule != ParseFn::Variable,
            rule == ParseFn::Literal ==> (old(self).parser.previous.token_type == TokenType::False
                || old(self).parser.previous.token_type == TokenType::Nil
                || old(self).parser.previous.token_type == TokenType::True),
        ensures
            final(self).scope_depth == old(self).scope_depth,
            final(self).locals == old(self).locals,
            old(self).evolves(*final(self)),
            final(self).parser.previous.line >= 1,
            emitted_as(r is Ok, c_apply(old(self).scanner.source@, old(self).cursor(), rule),
                old(self).chunk_model(), final(self).chunk_model(), final(self).cursor()),
        decreases old(self).measure(), 4nat,
    {
        match rule {
            ParseFn::Grouping => self.grouping(can_assign),
            ParseFn::Unary => self.unary(can_assign),
            ParseFn::Number => self.number(can_assign),
            ParseFn::String => self.string(can_assign),
            ParseFn::Literal => self.literal(can_assign),
            ParseFn::Variable => self.variable(can_assign),
            ParseFn::Binary => self.binary(can_assign),
        }
    }

    /// Compiles an expression whose operators bind at least as tightly as
    /// `precedence`.
    #[verifier::rlimit(60)]
    fn parse_precedence(&mut self, precedence: Precedence) -> (r: Result<(), Error>)
        requires
            old(self).ready(),
            precedence_rank(precedence) >= 1,
        ensures
            final(self).scope_depth == old(self).scope_depth,
            final(self).locals == old(self).locals,
            old(self).evolves(*final(self)),
            old(self).parser.current.token_type != TokenType::EOF ==> final(self).measure() < old(self).measure(),
            r is Ok ==> final(self).parser.previous.line >= 1
                && precedence_rank(spec_precedence(final(self).parser.current.token_type)) < precedence_rank(precedence),
            r is Ok ==> spec_prefix_rule(old(self).parser.current.token_type) is Some,
            emitted_as(r is Ok, c_prec(old(self).scanner.source@, old(self).cursor(), precedence),
                old(self).chunk_model(), final(self).chunk_model(), final(self).cursor()),
        decreases old(self).measure(), 0nat,
    {
        let ghost src = self.scanner.source@;
        let ghost c0 = self.cursor();
        let ghost ch0 = self.chunk_model();
        proof { lemma_adv_measure(src, c0); }
        self.advance()?;
        let ghost s1 = *self;
        let ghost c1 = self.cursor();
        let rule = match self.parser.previous.token_type.prefix_rule() {
            Some(rule) => rule,
            None => {
                return Err(Error::Parser(ParserError::new(&self.parser.previous, "Expect expression.")));
            },
        };
        let can_assign = precedence.rank() <= Precedence::Assignment.rank();
        proof {
            lemma_scan_progress(src, c1.pos, c1.line);
            lemma_rule_any_before(src, c0, c1, rule);
        }
        self.apply_rule(rule, can_assign)?;
        proof { Self::lemma_evolves_trans(*old(self), s1, *self); }
        let ghost mut is_acc = c_apply(src, c1, rule).0;
        assert(c_prec(src, c0, precedence) == c_infix(src, is_acc, self.cursor(), precedence));
        while precedence.rank() <= self.parser.current.token_type.precedence().rank()
            invariant
                self.ready(),
                old(self).evolves(*self),
                self.measure() < old(self).measure(),
                self.parser.previous.line >= 1,
                precedence_rank(precedence) >= 1,
                self.scope_depth == old(self).scope_depth,
                self.locals == old(self).locals,
                spec_prefix_rule(old(self).parser.current.token_type) is Some,
                src == self.scanner.source@,
                src == old(self).scanner.source@,
                c0 == old(self).cursor(),
                ch0 == old(self).chunk_model(),
                can_assign == (precedence_rank(precedence) <= 1),
                c_prec(src, c0, precedence) == c_infix(src, is_acc, self.cursor(), precedence),
                self.chunk_model() == emit_all(ch0, is_acc),
            decreases self.measure(),
        {
            let ghost s2 = *self;
            let ghost c = self.cursor();
            proof { lemma_adv_measure(src, c); }
            self.advance()?;
            proof { Self::lemma_evolves_trans(*old(self), s2, *self); }
            let ghost s3 = *self;
            let ghost c3 = self.cursor();
            let ghost mut is2 = Seq::<Instr>::empty();
            if let Some(rule) = self.parser.previous.token_type.infix_rule() {
                proof {
                    lemma_scan_progress(src, c3.pos, c3.line);
                    lemma_rule_any_before(src, c, c3, rule);
                }
                let applied = self.apply_rule(rule, can_assign);
                proof {
                    Self::lemma_evolves_trans(*old(self), s3, *self);
                    is2 = c_apply(src, c3, rule).0;
                    lemma_emit_all_append(ch0, is_acc, is2);
                }
                applied?;
            } else {
                proof { assert(emit_all(self.chunk_model(), is2) == self.chunk_model()); }
            }
            proof { lemma_emit_all_append(ch0, is_acc, is2); }
            if can_assign {
                let ghost s4 = *self;
                if self.match_type(TokenType::Equal)? {
                    return Err(Error::Parser(ParserError::new(&self.parser.current, "Invalid assignment target.")));
                }
                proof { Self::lemma_evolves_trans(*old(self), s4, *self); }
            }
            proof { is_acc = is_acc + is2; }
        }
        Ok(())
    }

    fn expression(&mut self) -> (r: Result<(), Error>)
        requires
            old(self).ready(),
        ensures
            final(self).scope_depth == old(self).scope_depth,
            final(self).locals == old(self).locals,
            old(self).evolves(*final(self)),
            old(self).parser.current.token_type != TokenType::EOF ==> final(self).measure() < old(self).measure(),
            r is Ok ==> final(self).parser.previous.line >= 1
                && precedence_rank(spec_precedence(final(self).parser.current.token_type)) < 1,
            emitted_as(r is Ok, c_prec(old(self).scanner.source@, old(self).cursor(), Precedence::Assignment),
                old(self).chunk_model(), final(self).chunk_model(), final(self).cursor()),
            final(self).model() == s_expression(old(self).scanner.source@, old(self).model()).0,
            (r is Ok) == s_expression(old(self).scanner.source@, old(self).model()).1,
        decreases old(self).measure(), 1nat,
    {
        self.parse_precedence(Precedence::Assignment)?;
        Ok(())
    }

    /// Compiles the inside of a parenthesized expression.
    pub fn grouping(&mut self, can_assign: bool) -> (r: Result<(), Error>)
        requires
            old(self).ready(),
            old(self).parser.previous.line >= 1,
        ensures
            final(self).scope_depth == old(self).scope_depth,
            final(self).locals == old(self).locals,
            old(self).evolves(*final(self)),
            final(self).parser.previous.line >= 1,
            r is Ok ==> final(self).parser.previous.token_type == TokenType::RightParen,
            emitted_as(r is Ok, c_apply(old(self).scanner.source@, old(self).cursor(), ParseFn::Grouping),
                old(self).chunk_model(), final(self).chunk_model(), final(self).cursor()),
        decreases old(self).measure(), 2nat,
    {
        self.expression()?;
        let ghost s1 = *self;
        self.consume(TokenType::RightParen, "Expect ')' after expression")?;
        proof { Self::lemma_evolves_trans(*old(self), s1, *self); }
        Ok(())
    }

    /// Compiles the operand of a prefix operator, then the operator.
    pub fn unary(&mut self, can_assign: bool) -> (r: Result<(), Error>)
        requires
            old(self).ready(),
            old(self).parser.previous.line >= 1,
        ensures
            final(self).scope_depth == old(self).scope_depth,
            final(self).locals == old(self).locals,
            old(self).evolves(*final(self)),
            final(self).parser.previous.line >= 1,
            r is Ok && old(self).parser.previous.token_type == TokenType::Minus
                ==> final(self).chunk.code@.last() == opcode_byte(OpCode::Negate),
            r is Ok && old(self).parser.previous.token_type == TokenType::Bang
                ==> final(self).chunk.code@.last() == opcode_byte(OpCode::Not),
            emitted_as(r is Ok, c_apply(old(self).scanner.source@, old(self).cursor(), ParseFn::Unary),
                old(self).chunk_model(), final(self).chunk_model(), final(self).cursor()),
        decreases old(self).measure(), 2nat,
    {
        let operator_type = self.parser.previous.token_type;
        self.parse_precedence(Precedence::Unary)?;
        let ghost s1 = *self;
        match operator_type {
            TokenType::Minus => {
                self.emit_byte(OpCode::Negate.as_byte());
            },
            TokenType::Bang => {
                self.emit_byte(OpCode::Not.as_byte());
            },
            _ => {},
        }
        proof {
            assert(self.chunk.code@.subrange(0, s1.chunk.code@.len() as int) =~= s1.chunk.code@);
            Self::lemma_evolves_trans(*old(self), s1, *self);
            let ch0 = old(self).chunk_model();
            let is = c_prec(old(self).scanner.source@, old(self).cursor(), Precedence::Unary).0;
            let tail = unary_instrs(operator_type, s1.cursor().prev.line);
            lemma_emit_all_append(ch0, is, tail);
            if operator_type == TokenType::Minus || operator_type == TokenType::Bang {
                lemma_emit_all_one(s1.chunk_model(), tail[0]);
                assert(tail =~= seq![tail[0]]);
            } else {
                assert(emit_all(s1.chunk_model(), tail) == s1.chunk_model());
            }
        }
        Ok(())
    }

    /// Compiles the right operand of a binary operator, then the operator.
    #[verifier::rlimit(40)]
    pub fn binary(&mut self, can_assign: bool) -> (r: Result<(), Error>)
        requires
            old(self).ready(),
            old(self).parser.previous.line >= 1,
        ensures
            final(self).scope_depth == old(self).scope_depth,
            final(self).locals == old(self).locals,
            old(self).evolves(*final(self)),
            final(self).parser.previous.line >= 1,
            r is Ok ==> final(self).chunk.code@.len() >= old(self).chunk.code@.len() + binary_code(old(self).parser.previous.token_type).len()
                && final(self).chunk.code@.subrange(
                    final(self).chunk.code@.len() - binary_code(old(self).parser.previous.token_type).len(),
                    final(self).chunk.code@.len() as int) == binary_code(old(self).parser.previous.token_type),
            emitted_as(r is Ok, c_apply(old(self).scanner.source@, old(self).cursor(), ParseFn::Binary),
                old(self).chunk_model(), final(self).chunk_model(), final(self).cursor()),
        decreases old(self).measure(), 2nat,
    {
        let op_type = self.parser.previous.token_type;
        let precedence = op_type.precedence();
        let next = precedence.next();
        self.parse_precedence(next)?;
        let ghost s1 = *self;
        match op_type {
            TokenType::BangEqual => self.emit_bytes(OpCode::Equal.as_byte(), OpCode::Not.as_byte()),
            TokenType::EqualEqual => self.emit_byte(OpCode::Equal.as_byte()),
            TokenType::Greater => self.emit_byte(OpCode::Greater.as_byte()),
            TokenType::GreaterEqual => self.emit_bytes(OpCode::Less.as_byte(), OpCode::Not.as_byte()),
            TokenType::Less => self.emit_byte(OpCode::Less.as_byte()),
            TokenType::LessEqual => self.emit_bytes(OpCode::Greater.as_byte(), OpCode::Not.as_byte()),
            TokenType::Plus => self.emit_byte(OpCode::Add.as_byte()),
            TokenType::Minus => self.emit_byte(OpCode::Subtract.as_byte()),
            TokenType::Star => self.emit_byte(OpCode::Multiply.as_byte()),
            TokenType::Slash => self.emit_byte(OpCode::Divide.as_byte()),
            _ => {},
        }
        proof {
            assert(self.chunk.code@.subrange(0, s1.chunk.code@.len() as int) =~= s1.chunk.code@);
            assert(self.chunk.code@.subrange(s1.chunk.code@.len() as int, self.chunk.code@.len() as int) =~= binary_code(op_type));
            Self::lemma_evolves_trans(*old(self), s1, *self);
            let line = s1.cursor().prev.line;
            lemma_binary_instrs(s1.chunk_model(), op_type, line);
            let is = c_prec(old(self).scanner.source@, old(self).cursor(), next).0;
            lemma_emit_all_append(old(self).chunk_model(), is, binary_instrs(op_type, line));
        }
        Ok(())
    }

    pub fn variable(&mut self, can_assign: bool) -> (r: Result<(), Error>)
        requires
            old(self).ready(),
            old(self).parser.previous.line >= 1,
        ensures
            final(self).scope_depth == old(self).scope_depth,
            final(self).locals == old(self).locals,
            old(self).evolves(*final(self)),
            final(self).parser.previous.line >= 1,
            final(self).model() == s_named_variable(old(self).scanner.source@, old(self).model(), can_assign).0,
            (r is Ok) == s_named_variable(old(self).scanner.source@, old(self).model(), can_assign).1,
        decreases old(self).measure(), 3nat,
    {
        self.named_variable(can_assign)
    }

    /// Compiles a read of the variable just named, or an assignment to it
    /// when `=` follows and assignment is allowed here.
    #[verifier::rlimit(40)]
    fn named_variable(&mut self, can_assign: bool) -> (r: Result<(), Error>)
        requires
            old(self).ready(),
            old(self).parser.previous.line >= 1,
        ensures
            final(self).scope_depth == old(self).scope_depth,
            final(self).locals == old(self).locals,
            old(self).evolves(*final(self)),
            final(self).parser.previous.line >= 1,
            final(self).model() == s_named_variable(old(self).scanner.source@, old(self).model(), can_assign).0,
            (r is Ok) == s_named_variable(old(self).scanner.source@, old(self).model(), can_assign).1,
        decreases old(self).measure(), 2nat,
    {
        proof {
            Self::lemma_find_local(self.locals@, self.parser.previous.lex@, self.locals@.len() as int);
            Self::lemma_find_local_slot(self.locals@, self.parser.previous.lex@, self.locals@.len() as int);
        }
        let mut arg = self.resolve_local(&self.parser.previous)?;
        proof {
            Self::lemma_evolves_refl(*self);
        }
        let ghost s1 = *self;
        let is_local = arg != -1;
        let (get_op, set_op) = if is_local {
            (OpCode::GetLocal, OpCode::SetLocal)
        } else {
            arg = self.identifier_constant()? as i32;
            (OpCode::GetGlobal, OpCode::SetGlobal)
        };
        proof { Self::lemma_evolves_trans(*old(self), s1, *self); }
        let ghost s2 = *self;
        let ghost n2 = self.nconst();
        let matched = self.match_type(TokenType::Equal)?;
        proof { Self::lemma_evolves_trans(*old(self), s2, *self); }
        if matched && can_assign {
            let ghost s3 = *self;
            self.expression()?;
            proof { Self::lemma_evolves_trans(*old(self), s3, *self); }
            let ghost s4 = *self;
            let ghost c4 = self.chunk.code@;
            self.emit_bytes(set_op.as_byte(), arg as u8);
            proof {
                assert(is_local || (arg as u8) < n2);
                assert(self.chunk.code@.subrange(0, c4.len() as int) =~= c4);
                Self::lemma_evolves_trans(*old(self), s4, *self);
            }
        } else {
            let ghost s4 = *self;
            let ghost c4 = self.chunk.code@;
            self.emit_bytes(get_op.as_byte(), arg as u8);
            proof {
                assert(self.chunk.code@.subrange(0, c4.len() as int) =~= c4);
                Self::lemma_evolves_trans(*old(self), s4, *self);
            }
        }
        Ok(())
    }

    /// Whether declaring `name` in a scope of depth `depth` clashes with one
    /// of the locals below `k` of that scope, searching from the most recent
    /// and stopping at the first initialized local of an outer scope. As the
    /// code stands, a clash is any local of the scope with a different name.
    pub open spec fn declare_conflict(locals: Seq<Local>, name: Seq<u8>, depth: int, k: int) -> bool
        decreases k,
    {
        if k <= 0 {
            false
        } else if locals[k - 1].depth != -1 && locals[k - 1].depth < depth {
            false
        } else if locals[k - 1].name@ != name {
            true
        } else {
            Self::declare_conflict(locals, name, depth, k - 1)
        }
    }

    /// The clash check reads the same on the locals and on their models.
    pub proof fn lemma_conflict_model(locals: Seq<Local>, name: Seq<u8>, depth: int, k: int)
        requires
            0 <= k <= locals.len(),
        ensures
            Self::declare_conflict(locals, name, depth, k)
                == local_conflict(locals.map_values(|l: Local| LocalModel { name: l.name@, depth: l.depth as int }), name, depth, k),
        decreases k,
    {
        if k > 0 {
            Self::lemma_conflict_model(locals, name, depth, k - 1);
        }
    }

    /// Records a new local, not yet initialized.
    fn add_local(&mut self, token: &Token) -> (r: Result<(), Error>)
        requires
            old(self).ready(),
        ensures
            final(self).ready(),
            final(self).chunk == old(self).chunk,
            final(self).parser == old(self).parser,
            final(self).scanner == old(self).scanner,
            final(self).strings == old(self).strings,
            final(self).scope_depth == old(self).scope_depth,
            old(self).locals@.len() == MAX_LOCALS ==> final(self).locals == old(self).locals
                && (r matches Err(Error::Parser(e)) && e.message@ == "Too many locals"@),
            old(self).locals@.len() < MAX_LOCALS ==> r is Ok
                && final(self).locals@.len() == old(self).locals@.len() + 1
                && final(self).locals@.last().name@ == token.lex@
                && final(self).locals@.last().depth == -1
                && final(self).locals@.drop_last() == old(self).locals@,
    {
        let local = Local::new(vstd::slice::slice_to_vec(token.lex.as_slice()), -1);
        if self.locals.len() == MAX_LOCALS {
            return Err(Error::Parser(ParserError::new(token, "Too many locals")));
        }
        self.locals.push(local);
        assert(self.locals@.drop_last() =~= old(self).locals@);
        Ok(())
    }

    /// Marks the most recent local as initialized in the current scope.
    fn make_init(&mut self)
        requires
            old(self).ready(),
        ensures
            final(self).ready(),
            final(self).chunk == old(self).chunk,
            final(self).parser == old(self).parser,
            final(self).scanner == old(self).scanner,
            final(self).strings == old(self).strings,
            final(self).scope_depth == old(self).scope_depth,
            final(self).locals@.len() == old(self).locals@.len(),
            old(self).locals@.len() > 0 ==> final(self).locals@.drop_last() == old(self).locals@.drop_last()
                && final(self).locals@.last().name == old(self).locals@.last().name
                && final(self).locals@.last().depth == old(self).scope_depth,
    {
        let n = self.locals.len();
        if n > 0 {
            let depth = self.scope_depth;
            let l = &mut self.locals[n - 1];
            l.depth = depth;
            assert(self.locals@.drop_last() =~= old(self).locals@.drop_last());
        }
    }

    /// Declares the variable just named as a local, when inside a scope.
    fn declare_variable(&mut self) -> (r: Result<(), Error>)
        requires
            old(self).ready(),
        ensures
            final(self).ready(),
            final(self).chunk == old(self).chunk,
            final(self).parser == old(self).parser,
            final(self).scanner == old(self).scanner,
            final(self).strings == old(self).strings,
            final(self).scope_depth == old(self).scope_depth,
            old(self).scope_depth == 0 ==> r is Ok && final(self).locals == old(self).locals,
            old(self).scope_depth != 0 && Self::declare_conflict(old(self).locals@, old(self).parser.previous.lex@,
                old(self).scope_depth as int, old(self).locals@.len() as int) ==> final(self).locals == old(self).locals
                && (r matches Err(Error::Parser(e)) && e.message@ == "Already a variable with this name in this scope"@),
            old(self).scope_depth != 0 && !Self::declare_conflict(old(self).locals@, old(self).parser.previous.lex@,
                old(self).scope_depth as int, old(self).locals@.len() as int) && old(self).locals@.len() < MAX_LOCALS
                ==> r is Ok && final(self).locals@.len() == old(self).locals@.len() + 1
                && final(self).locals@.last().name@ == old(self).parser.previous.lex@
                && final(self).locals@.last().depth == -1,
            final(self).model() == s_declare(old(self).model()).0,
            (r is Ok) == s_declare(old(self).model()).1,
    {
        if self.scope_depth == 0 {
            return Ok(());
        }
        proof {
            Self::lemma_conflict_model(self.locals@, self.parser.previous.lex@, self.scope_depth as int, self.locals@.len() as int);
        }
        let mut i: usize = self.locals.len();
        let mut stop = false;
        while i > 0 && !stop
            invariant
                i <= self.locals@.len(),
                self.ready(),
                self.scope_depth != 0,
                self.locals == old(self).locals,
                self.parser == old(self).parser,
                self.scope_depth == old(self).scope_depth,
                self.chunk == old(self).chunk,
                self.scanner == old(self).scanner,
                self.strings == old(self).strings,
                !stop ==> Self::declare_conflict(self.locals@, self.parser.previous.lex@, self.scope_depth as int, self.locals@.len() as int)
                    == Self::declare_conflict(self.locals@, self.parser.previous.lex@, self.scope_depth as int, i as int),
                stop ==> !Self::declare_conflict(self.locals@, self.parser.previous.lex@, self.scope_depth as int, self.locals@.len() as int),
                Self::declare_conflict(old(self).locals@, old(self).parser.previous.lex@, old(self).scope_depth as int, old(self).locals@.len() as int)
                    == local_conflict(old(self).locals_model(), old(self).parser.previous.lex@, old(self).scope_depth as int,
                    old(self).locals@.len() as int),
            decreases i + if stop { 0int } else { 1int },
        {
            let local = &self.locals[i - 1];
            if local.depth != -1 && local.depth < self.scope_depth {
                stop = true;
            } else {
                if !crate::bytecode::table::slice_eq(local.name.as_slice(), self.parser.previous.lex.as_slice()) {
                    return Err(Error::Parser(ParserError::new(&self.parser.previous, "Already a variable with this name in this scope")));
                }
                i = i - 1;
            }
        }
        let name = vstd::slice::slice_to_vec(self.parser.previous.lex.as_slice());
        let local = Local::new(name, -1);
        if self.locals.len() == MAX_LOCALS {
            return Err(Error::Parser(ParserError::new(&self.parser.previous, "Too many locals")));
        }
        self.locals.push(local);
        assert(self.locals_model() =~= old(self).locals_model().push(LocalModel { name: old(self).parser.previous.lex@, depth: -1 }));
        Ok(())
    }

    /// Reads a variable's name; for a global, returns the index of its name
    /// in the constant pool (0 inside a scope).
    fn parse_variable(&mut self, err_msg: &str) -> (r: Result<u8, Error>)
        requires
            old(self).ready(),
        ensures
            old(self).evolves(*final(self)),
            final(self).scope_depth == old(self).scope_depth,
            old(self).parser.current.token_type == TokenType::Identifier ==> final(self).measure() < old(self).measure(),
            old(self).parser.current.token_type != TokenType::Identifier ==> *final(self) == *old(self)
                && (r matches Err(Error::Parser(e)) && e.message@ == err_msg@),
            r matches Ok(g) ==> final(self).parser.previous.line >= 1
                && final(self).parser.previous.token_type == TokenType::Identifier
                && (final(self).scope_depth > 0 || g < final(self).nconst()),
            final(self).model() == s_parse_variable(old(self).scanner.source@, old(self).model()).0,
            (r is Ok) == s_parse_variable(old(self).scanner.source@, old(self).model()).2,
            r matches Ok(g) ==> g == s_parse_variable(old(self).scanner.source@, old(self).model()).1,
    {
        self.consume(TokenType::Identifier, err_msg)?;
        let ghost s1 = *self;
        self.declare_variable()?;
        proof {
            assert(self.chunk.code@.subrange(0, s1.chunk.code@.len() as int) =~= s1.chunk.code@);
            Self::lemma_evolves_trans(*old(self), s1, *self);
        }
        if self.scope_depth > 0 {
            return Ok(0);
        }
        let ghost s2 = *self;
        let g = self.identifier_constant()?;
        proof { Self::lemma_evolves_trans(*old(self), s2, *self); }
        Ok(g)
    }

    /// Finishes a variable declaration: a global gets its definition, a
    /// local is marked initialized.
    fn define_variable(&mut self, global: u8)
        requires
            old(self).ready(),
            old(self).parser.previous.line >= 1,
            old(self).scope_depth > 0 || global < old(self).nconst(),
        ensures
            old(self).evolves(*final(self)),
            final(self).parser == old(self).parser,
            final(self).scope_depth == old(self).scope_depth,
            old(self).scope_depth > 0 ==> final(self).chunk == old(self).chunk,
            old(self).scope_depth <= 0 ==> final(self).chunk.code@ == old(self).chunk.code@
                + seq![opcode_byte(OpCode::DefineGlobal), global],
            final(self).model() == s_define(old(self).model(), global as int),
    {
        if self.scope_depth > 0 {
            self.make_init();
            proof {
                assert(self.chunk.code@.subrange(0, old(self).chunk.code@.len() as int) =~= old(self).chunk.code@);
                let lm = old(self).locals_model();
                if lm.len() > 0 {
                    assert forall|i: int| 0 <= i < lm.len() - 1 implies self.locals@[i] == old(self).locals@[i] by {
                        assert(self.locals@.drop_last()[i] == old(self).locals@.drop_last()[i]);
                    }
                    assert(self.locals_model() =~= lm.update(lm.len() - 1, LocalModel { depth: old(self).scope_depth as int, ..lm.last() }));
                } else {
                    assert(self.locals_model() =~= lm);
                }
            }
            return;
        }
        self.emit_bytes(OpCode::DefineGlobal.as_byte(), global);
        proof {
            assert(self.chunk.code@.subrange(0, old(self).chunk.code@.len() as int) =~= old(self).chunk.code@);
        }
    }

    /// Compiles `var name (= expression)? ;` after the `var`.
    #[verifier::rlimit(40)]
    fn var_declaration(&mut self) -> (r: Result<(), Error>)
        requires
            old(self).ready(),
        ensures
            old(self).evolves(*final(self)),
            final(self).model() == s_var_declaration(old(self).scanner.source@, old(self).model()).0,
            (r is Ok) == s_var_declaration(old(self).scanner.source@, old(self).model()).1,
    {
        let global = self.parse_variable("Expect variable name.")?;
        let ghost s1 = *self;
        let ghost n1 = self.nconst();
        let has_init = self.match_type(TokenType::Equal)?;
        proof { Self::lemma_evolves_trans(*old(self), s1, *self); }
        let ghost s2 = *self;
        if has_init {
            self.expression()?;
        } else {
            let ghost c = self.chunk.code@;
            self.emit_byte(OpCode::Nil.as_byte());
            assert(self.chunk.code@.subrange(0, c.len() as int) =~= c);
        }
        proof { Self::lemma_evolves_trans(*old(self), s2, *self); }
        let ghost s3 = *self;
        self.consume(TokenType::Semicolon, "Expect ';' after value.")?;
        proof { Self::lemma_evolves_trans(*old(self), s3, *self); }
        let ghost s4 = *self;
        self.define_variable(global);
        proof { Self::lemma_evolves_trans(*old(self), s4, *self); }
        Ok(())
    }

    /// Compiles `expression ;`, discarding the value.
    fn expression_statement(&mut self) -> (r: Result<(), Error>)
        requires
            old(self).ready(),
        ensures
            old(self).evolves(*final(self)),
            old(self).parser.current.token_type != TokenType::EOF ==> final(self).measure() < old(self).measure(),
            r is Ok ==> final(self).chunk.code@.last() == opcode_byte(OpCode::Pop),
            final(self).model() == s_terminated(old(self).scanner.source@, old(self).model(), opcode_byte(OpCode::Pop)).0,
            (r is Ok) == s_terminated(old(self).scanner.source@, old(self).model(), opcode_byte(OpCode::Pop)).1,
    {
        self.expression()?;
        let ghost s1 = *self;
        self.consume(TokenType::Semicolon, "Expect ';' after value.")?;
        proof { Self::lemma_evolves_trans(*old(self), s1, *self); }
        let ghost s2 = *self;
        let ghost c = self.chunk.code@;
        self.emit_byte(OpCode::Pop.as_byte());
        proof {
            assert(self.chunk.code@.subrange(0, c.len() as int) =~= c);
            Self::lemma_evolves_trans(*old(self), s2, *self);
        }
        Ok(())
    }

    /// Compiles the rest of `print expression ;`.
    fn print_statement(&mut self) -> (r: Result<(), Error>)
        requires
            old(self).ready(),
        ensures
            old(self).evolves(*final(self)),
            r is Ok ==> final(self).chunk.code@.last() == opcode_byte(OpCode::Print),
            final(self).model() == s_terminated(old(self).scanner.source@, old(self).model(), opcode_byte(OpCode::Print)).0,
            (r is Ok) == s_terminated(old(self).scanner.source@, old(self).model(), opcode_byte(OpCode::Print)).1,
    {
        self.expression()?;
        let ghost s1 = *self;
        self.consume(TokenType::Semicolon, "Expect ';' after value.")?;
        proof { Self::lemma_evolves_trans(*old(self), s1, *self); }
        let ghost s2 = *self;
        let ghost c = self.chunk.code@;
        self.emit_byte(OpCode::Print.as_byte());
        proof {
            assert(self.chunk.code@.subrange(0, c.len() as int) =~= c);
            Self::lemma_evolves_trans(*old(self), s2, *self);
        }
        Ok(())
    }

    fn begin_scpoe(&mut self)
        requires
            old(self).scope_depth < i32::MAX,
        ensures
            final(self).scope_depth == old(self).scope_depth + 1,
            final(self).chunk == old(self).chunk,
            final(self).parser == old(self).parser,
            final(self).scanner == old(self).scanner,
            final(self).strings == old(self).strings,
            final(self).locals == old(self).locals,
    {
        self.scope_depth = self.scope_depth + 1;
    }

    fn end_scope(&mut self)
        requires
            old(self).scope_depth > i32::MIN,
        ensures
            final(self).scope_depth == old(self).scope_depth - 1,
            final(self).chunk == old(self).chunk,
            final(self).parser == old(self).parser,
            final(self).scanner == old(self).scanner,
            final(self).strings == old(self).strings,
            final(self).locals == old(self).locals,
    {
        self.scope_depth = self.scope_depth - 1;
    }

    /// After an error, skips tokens up to a likely statement boundary: just
    /// after a `;`, or before a keyword that starts a statement.
    fn synchronize(&mut self)
        requires
            old(self).ready(),
        ensures
            old(self).evolves(*final(self)),
            final(self).chunk == old(self).chunk,
            final(self).model() == s_synchronize(old(self).scanner.source@, old(self).model()),
    {
        proof { Self::lemma_evolves_refl(*self); }
        while self.parser.current.token_type != TokenType::EOF
            invariant
                self.ready(),
                old(self).evolves(*self),
                self.chunk == old(self).chunk,
                self.scanner.source == old(self).scanner.source,
                s_synchronize(old(self).scanner.source@, old(self).model()) == s_synchronize(self.scanner.source@, self.model()),
            decreases self.measure(),
        {
            if self.parser.previous.token_type == TokenType::Semicolon {
                return;
            }
            match self.parser.current.token_type {
                TokenType::Class | TokenType::Fun | TokenType::Var | TokenType::For | TokenType::If
                | TokenType::While | TokenType::Print | TokenType::Return => {
                    return;
                },
                _ => {},
            }
            let ghost s1 = *self;
            proof { lemma_adv_measure(self.scanner.source@, self.cursor()); }
            let _ = self.advance();
            proof { Self::lemma_evolves_trans(*old(self), s1, *self); }
        }
    }

    /// Compiles one statement: `print`, a block, or an expression statement.
    fn statement(&mut self) -> (r: Result<(), Error>)
        requires
            old(self).ready(),
        ensures
            old(self).evolves(*final(self)),
            old(self).parser.current.token_type != TokenType::EOF ==> final(self).measure() < old(self).measure(),
            final(self).model() == s_statement(old(self).scanner.source@, old(self).model()).0,
            (r is Ok) == s_statement(old(self).scanner.source@, old(self).model()).1,
        decreases old(self).measure(), 0nat,
    {
        match self.parser.current.token_type {
            TokenType::Print => {
                self.advance()?;
                let ghost s1 = *self;
                self.print_statement()?;
                proof { Self::lemma_evolves_trans(*old(self), s1, *self); }
                Ok(())
            },
            TokenType::LeftBrace => {
                self.advance()?;
                let ghost s1 = *self;
                self.block()?;
                proof { Self::lemma_evolves_trans(*old(self), s1, *self); }
                let ghost s2 = *self;
                self.end_scope();
                proof {
                    assert(self.chunk.code@.subrange(0, old(self).chunk.code@.len() as int)
                        =~= s2.chunk.code@.subrange(0, old(self).chunk.code@.len() as int));
                }
                Ok(())
            },
            _ => self.expression_statement(),
        }
    }

    /// Compiles declarations up to the closing `}` of a block.
    fn block(&mut self) -> (r: Result<(), Error>)
        requires
            old(self).ready(),
        ensures
            old(self).evolves(*final(self)),
            final(self).model() == s_block(old(self).scanner.source@, old(self).model()).0,
            (r is Ok) == s_block(old(self).scanner.source@, old(self).model()).1,
        decreases old(self).measure(), 3nat,
    {
        proof { Self::lemma_evolves_refl(*self); }
        while !self.check(TokenType::RightBrace) && !self.check(TokenType::EOF)
            invariant
                self.ready(),
                old(self).evolves(*self),
                self.measure() <= old(self).measure(),
                self.scanner.source == old(self).scanner.source,
                s_block(old(self).scanner.source@, old(self).model()) == s_block(self.scanner.source@, self.model()),
            decreases self.measure(),
        {
            let ghost s1 = *self;
            self.declaration()?;
            proof { Self::lemma_evolves_trans(*old(self), s1, *self); }
        }
        let ghost s2 = *self;
        self.consume(TokenType::RightBrace, "Expect '}' after block.")?;
        proof { Self::lemma_evolves_trans(*old(self), s2, *self); }
        Ok(())
    }

    /// A declaration proper: `var ...` or a statement.
    fn declaration_body(&mut self) -> (r: Result<(), Error>)
        requires
            old(self).ready(),
        ensures
            old(self).evolves(*final(self)),
            old(self).parser.current.token_type != TokenType::EOF ==> final(self).measure() < old(self).measure(),
            final(self).model() == s_declaration_body(old(self).scanner.source@, old(self).model()).0,
            (r is Ok) == s_declaration_body(old(self).scanner.source@, old(self).model()).1,
        decreases old(self).measure(), 1nat,
    {
        let is_var = self.match_type(TokenType::Var)?;
        let ghost s1 = *self;
        if is_var {
            self.var_declaration()?;
        } else {
            self.statement()?;
        }
        proof { Self::lemma_evolves_trans(*old(self), s1, *self); }
        Ok(())
    }

    /// Compiles a declaration; an error in it is dropped after skipping to
    /// the next statement boundary.
    fn declaration(&mut self) -> (r: Result<(), Error>)
        requires
            old(self).ready(),
        ensures
            r is Ok,
            old(self).evolves(*final(self)),
            old(self).parser.current.token_type != TokenType::EOF ==> final(self).measure() < old(self).measure(),
            final(self).model() == s_declaration(old(self).scanner.source@, old(self).model()),
        decreases old(self).measure(), 2nat,
    {
        let result = self.declaration_body();
        if result.is_err() {
            let ghost s1 = *self;
            self.synchronize();
            proof { Self::lemma_evolves_trans(*old(self), s1, *self); }
        }
        Ok(())
    }

    /// Ends compilation with a `Return`.
    pub fn end_compiler(&mut self)
        requires
            old(self).ready(),
            old(self).parser.previous.line >= 1,
        ensures
            old(self).evolves(*final(self)),
            final(self).chunk.code@ == old(self).chunk.code@.push(opcode_byte(OpCode::Return)),
            final(self).chunk.constants == old(self).chunk.constants,
            final(self).parser == old(self).parser,
            final(self).model() == s_byte(old(self).model(), opcode_byte(OpCode::Return)),
    {
        self.emit_return();
        proof {
            assert(self.chunk.code@.subrange(0, old(self).chunk.code@.len() as int) =~= old(self).chunk.code@);
        }
    }

    /// `match_type(TokenType::EOF)`, which cannot fail: at the end of input
    /// the scanner only yields more ends of input.
    fn match_type_at_end(&mut self) -> (r: Result<bool, Error>)
        requires
            old(self).ready(),
        ensures
            r is Ok,
            old(self).evolves(*final(self)),
            r == Ok::<bool, Error>(false) ==> old(self).parser.current.token_type != TokenType::EOF && *final(self) == *old(self),
            r == Ok::<bool, Error>(true) ==> final(self).parser.current.token_type == TokenType::EOF
                && final(self).parser.previous.line >= 1,
            r == Ok::<bool, Error>(true) ==> final(self).model() == s_advance(old(self).scanner.source@, old(self).model()).0,
            r == Ok::<bool, Error>(true) <==> old(self).parser.current.token_type == TokenType::EOF,
    {
        let ghost src = self.scanner.source@;
        let ghost pos = self.scanner.current as int;
        let ghost line = self.scanner.line as int;
        if self.parser.current.token_type == TokenType::EOF {
            assert(skip_blank(src, pos, line, false) == (pos, line));
            assert(scan_spec(src, pos, line) is Token);
        }
        self.match_type(TokenType::EOF)
    }

    /// Compiles the whole source into `self.chunk`. Errors inside a
    /// declaration are skipped over; only a fault in the very first token
    /// stops compilation.
    pub fn compile(&mut self) -> (r: Result<(), Error>)
        requires
            old(self).basic(),
            old(self).scope_depth == 0,
            old(self).scanner.source@.len() < i32::MAX - 1,
            old(self).chunk.code@.len() == 0,
        ensures
            final(self).scanner.source == old(self).scanner.source,
            final(self).strings.wf(),
            final(self).strings@ == old(self).strings@,
            r is Err <==> !(scan_spec(old(self).scanner.source@, old(self).scanner.current as int,
                old(self).scanner.line as int) is Token),
            r is Ok ==> {
                &&& final(self).chunk.wf()
                &&& decodes(final(self).chunk.code@, final(self).nconst())
                &&& final(self).chunk.code@.len() > 0
                &&& final(self).chunk.code@.last() == opcode_byte(OpCode::Return)
                &&& final(self).parser.current.token_type == TokenType::EOF
                &&& final(self).scanner.current == final(self).scanner.source@.len()
                &&& final(self).model() == s_program(old(self).scanner.source@, s_advance(old(self).scanner.source@, old(self).model()).0)
            },
    {
        self.advance()?;
        assert(decodes(self.chunk.code@, self.nconst()));
        let ghost s0 = *self;
        let ghost src = self.scanner.source@;
        proof { Self::lemma_evolves_refl(*self); }
        loop
            invariant_except_break
                s_program(src, s0.model()) == s_program(src, self.model()),
            invariant
                self.ready(),
                s0.evolves(*self),
                decodes(s0.chunk.code@, s0.nconst()),
                self.scanner.source == old(self).scanner.source,
                src == self.scanner.source@,
            ensures
                self.ready(),
                s0.evolves(*self),
                decodes(s0.chunk.code@, s0.nconst()),
                self.scanner.source == old(self).scanner.source,
                self.parser.previous.line >= 1,
                self.parser.current.token_type == TokenType::EOF,
                s_program(src, s0.model()) == s_byte(self.model(), opcode_byte(OpCode::Return)),
            decreases self.measure(),
        {
            let ghost before = self.model();
            let at_end = self.match_type_at_end()?;
            if at_end {
                break;
            }
            let ghost s1 = *self;
            self.declaration()?;
            proof { Self::lemma_evolves_trans(s0, s1, *self); }
        }
        self.end_compiler();
        Ok(())
    }
}

} // verus!

