use vstd::prelude::*;

use crate::bytecode::chunk::add_line;
use crate::bytecode::common::{OpCode, opcode_byte};
use crate::bytecode::compile::{ParseFn, Precedence, binary_code, next_level, precedence_rank};
use crate::bytecode::scanner::{Scanned, lemma_scan_progress, scan_spec};
use crate::bytecode::token::{Token, TokenType, spec_infix_rule, spec_precedence, spec_prefix_rule};
use crate::bytecode::value::{NumberModel, ValueModel, literal_value};

verus! {

/// A token as the compiler sees it: its type, its bytes, its line and the
/// value of its literal.
pub struct TokModel {
    pub kind: TokenType,
    pub lex: Seq<u8>,
    pub line: int,
    pub value: Option<ValueModel>,
}

pub open spec fn tok_model(t: Token) -> TokModel {
    TokModel {
        kind: t.token_type,
        lex: t.lex@,
        line: t.line as int,
        value: match t.literal {
            Some(l) => Some(literal_value(l)),
            None => None,
        },
    }
}

/// The token the scanner reads from `src[start..end]`.
pub open spec fn scanned_model(src: Seq<u8>, kind: TokenType, start: int, end: int, line: int) -> TokModel {
    TokModel {
        kind,
        lex: src.subrange(start, end),
        line,
        value: match kind {
            TokenType::Number => Some(ValueModel::Number(NumberModel::Numeral(src.subrange(start, end)))),
            TokenType::String => Some(ValueModel::Str(src.subrange(start + 1, end - 1))),
            _ => None,
        },
    }
}

/// Where the compiler stands in the source: the previous and the current
/// token, and the scanner's position and line after the current one.
pub struct Cursor {
    pub prev: TokModel,
    pub cur: TokModel,
    pub pos: int,
    pub line: int,
}

/// The cursor after reading one more token; `None` on a scan error.
pub open spec fn adv(src: Seq<u8>, c: Cursor) -> Option<Cursor> {
    match scan_spec(src, c.pos, c.line) {
        Scanned::Token { kind, start, end, line } => Some(
            Cursor { prev: c.cur, cur: scanned_model(src, kind, start, end, line), pos: end, line },
        ),
        _ => None,
    }
}

/// Whether reading the next token succeeds.
pub open spec fn adv_ok(src: Seq<u8>, c: Cursor) -> bool {
    adv(src, c) is Some
}

/// Where the compiler stands after trying to read the next token: after a
/// scan error the tokens are kept and the scanner has moved past the bad
/// input.
pub open spec fn adv_to(src: Seq<u8>, c: Cursor) -> Cursor {
    match scan_spec(src, c.pos, c.line) {
        Scanned::Token { kind, start, end, line } => Cursor { prev: c.cur, cur: scanned_model(src, kind, start, end, line), pos: end, line },
        Scanned::Unexpected { end, line } => Cursor { pos: end, line, ..c },
        Scanned::Unterminated { end, line } => Cursor { pos: end, line, ..c },
    }
}

/// Bytes left to scan, and one more while the current token is not the end
/// of input.
pub open spec fn cmeasure(src: Seq<u8>, c: Cursor) -> int {
    (src.len() - c.pos) + if c.cur.kind == TokenType::EOF { 0int } else { 1int }
}

/// Reading a token never raises the measure, and lowers it past any token
/// but the end of input.
pub proof fn lemma_adv_measure(src: Seq<u8>, c: Cursor)
    requires
        0 <= c.pos <= src.len(),
        c.cur.kind == TokenType::EOF ==> c.pos <= src.len(),
    ensures
        adv(src, c) matches Some(c1) ==> {
            &&& 0 <= c1.pos <= src.len()
            &&& c.line <= c1.line
            &&& cmeasure(src, c1) <= cmeasure(src, c)
            &&& c.cur.kind != TokenType::EOF ==> cmeasure(src, c1) < cmeasure(src, c)
        },
        adv(src, c) matches Some(c1) ==> c1 == adv_to(src, c),
        0 <= adv_to(src, c).pos <= src.len(),
        c.line <= adv_to(src, c).line,
        cmeasure(src, adv_to(src, c)) <= cmeasure(src, c),
        c.cur.kind != TokenType::EOF ==> cmeasure(src, adv_to(src, c)) < cmeasure(src, c),
{
    lemma_scan_progress(src, c.pos, c.line);
}

/// One step of code: a byte on a line, or a constant loaded on a line.
pub enum Instr {
    Byte(u8, int),
    Const(ValueModel, int),
}

/// The contents of a chunk: code, line table and constants.
pub struct ChunkModel {
    pub code: Seq<u8>,
    pub lines: Seq<usize>,
    pub consts: Seq<ValueModel>,
}

/// The chunk after one more step, as `write_chunk` and `write_constant`
/// lay it out.
pub open spec fn emit(ch: ChunkModel, i: Instr) -> ChunkModel {
    match i {
        Instr::Byte(b, l) => ChunkModel { code: ch.code.push(b), lines: add_line(ch.lines, l), ..ch },
        Instr::Const(v, l) => {
            let index = ch.consts.len();
            if index < 256 {
                ChunkModel {
                    code: ch.code + seq![opcode_byte(OpCode::Constant), index as u8],
                    lines: add_line(add_line(ch.lines, l), l),
                    consts: ch.consts.push(v),
                }
            } else {
                ChunkModel {
                    code: ch.code + seq![
                        opcode_byte(OpCode::ConstantLong),
                        ((index / 65536) % 256) as u8,
                        ((index / 256) % 256) as u8,
                        (index % 256) as u8,
                    ],
                    lines: add_line(add_line(add_line(add_line(ch.lines, l), l), l), l),
                    consts: ch.consts.push(v),
                }
            }
        },
    }
}

pub open spec fn emit_all(ch: ChunkModel, is: Seq<Instr>) -> ChunkModel
    decreases is.len(),
{
    if is.len() == 0 {
        ch
    } else {
        emit(emit_all(ch, is.drop_last()), is.last())
    }
}

/// Emitting two runs of steps is emitting their concatenation.
pub proof fn lemma_emit_all_append(ch: ChunkModel, a: Seq<Instr>, b: Seq<Instr>)
    ensures
        emit_all(ch, a + b) == emit_all(emit_all(ch, a), b),
    decreases b.len(),
{
    if b.len() == 0 {
        assert(a + b =~= a);
    } else {
        assert((a + b).drop_last() =~= a + b.drop_last());
        lemma_emit_all_append(ch, a, b.drop_last());
    }
}

pub proof fn lemma_emit_all_one(ch: ChunkModel, i: Instr)
    ensures
        emit_all(ch, seq![i]) == emit(ch, i),
{
    assert(seq![i].drop_last() =~= Seq::<Instr>::empty());
    assert(emit_all(ch, Seq::<Instr>::empty()) == ch);
}

pub proof fn lemma_emit_all_two(ch: ChunkModel, a: Instr, b: Instr)
    ensures
        emit_all(ch, seq![a, b]) == emit(emit(ch, a), b),
{
    lemma_emit_all_one(ch, a);
    assert(seq![a, b].drop_last() =~= seq![a]);
}

/// Whether a compiling step did what the model says: it succeeded exactly
/// when the model does, emitted its code, and stopped at its cursor, also
/// when it failed part way.
pub open spec fn emitted_as(ok: bool, out: (Seq<Instr>, Cursor, bool), before: ChunkModel, after: ChunkModel, at: Cursor) -> bool {
    &&& ok == out.2
    &&& at == out.1
    &&& after == emit_all(before, out.0)
}

/// The bytes of a binary operator's instructions, all on `line`.
pub open spec fn binary_instrs(t: TokenType, line: int) -> Seq<Instr> {
    binary_code(t).map_values(|b: u8| Instr::Byte(b, line))
}

/// Emitting a binary operator's instructions emits its bytes one by one.
pub proof fn lemma_binary_instrs(ch: ChunkModel, op: TokenType, line: int)
    ensures
        binary_code(op).len() <= 2,
        emit_all(ch, binary_instrs(op, line)) == if binary_code(op).len() == 0 {
            ch
        } else if binary_code(op).len() == 1 {
            emit(ch, Instr::Byte(binary_code(op)[0], line))
        } else {
            emit(emit(ch, Instr::Byte(binary_code(op)[0], line)), Instr::Byte(binary_code(op)[1], line))
        },
{
    let is = binary_instrs(op, line);
    if binary_code(op).len() == 0 {
        assert(is =~= Seq::<Instr>::empty());
    } else if binary_code(op).len() == 1 {
        assert(is =~= seq![Instr::Byte(binary_code(op)[0], line)]);
        lemma_emit_all_one(ch, is[0]);
    } else {
        assert(is =~= seq![Instr::Byte(binary_code(op)[0], line), Instr::Byte(binary_code(op)[1], line)]);
        lemma_emit_all_two(ch, is[0], is[1]);
    }
}

/// The instruction a `false`, `nil` or `true` literal compiles to.
pub open spec fn literal_byte(t: TokenType) -> u8 {
    match t {
        TokenType::False => opcode_byte(OpCode::False),
        TokenType::Nil => opcode_byte(OpCode::Nil),
        _ => opcode_byte(OpCode::True),
    }
}

/// The code for a prefix operator after its operand.
pub open spec fn unary_instrs(t: TokenType, line: int) -> Seq<Instr> {
    if t == TokenType::Minus {
        seq![Instr::Byte(opcode_byte(OpCode::Negate), line)]
    } else if t == TokenType::Bang {
        seq![Instr::Byte(opcode_byte(OpCode::Not), line)]
    } else {
        Seq::empty()
    }
}

/// An expression whose operators bind at least as tightly as `prec`,
/// compiled from cursor `c`: the code emitted, the cursor after it, and
/// whether it compiled; after a failure, the code emitted before it and
/// the cursor where it happened.
pub open spec fn c_prec(src: Seq<u8>, c: Cursor, prec: Precedence) -> (Seq<Instr>, Cursor, bool)
    decreases cmeasure(src, c), 3int,
{
    let (is, c2, ok) = c_prefix(src, c, precedence_rank(prec) <= 1);
    if !ok {
        (is, c2, false)
    } else if 0 <= cmeasure(src, c2) <= cmeasure(src, c) {
        c_infix(src, is, c2, prec)
    } else {
        (is, c2, false)
    }
}

/// The token after `c` read, and the prefix rule of its type applied.
pub open spec fn c_prefix(src: Seq<u8>, c: Cursor, can_assign: bool) -> (Seq<Instr>, Cursor, bool)
    decreases cmeasure(src, c), 2int,
{
    let c1 = adv_to(src, c);
    if !adv_ok(src, c) {
        (Seq::empty(), c1, false)
    } else {
        match spec_prefix_rule(c1.prev.kind) {
            Some(rule) => c_rule(src, c, c1, rule),
            None => (Seq::empty(), c1, false),
        }
    }
}

/// A parse function of the Pratt table applied at `c1`, the cursor just
/// after its token was read from `c`.
pub open spec fn c_rule(src: Seq<u8>, c: Cursor, c1: Cursor, rule: ParseFn) -> (Seq<Instr>, Cursor, bool)
    decreases cmeasure(src, c), 0int,
{
    if !(0 <= cmeasure(src, c1) < cmeasure(src, c)) {
        (Seq::empty(), c1, false)
    } else {
        match rule {
            ParseFn::Grouping => {
                let (is, c2, ok) = c_prec(src, c1, Precedence::Assignment);
                if !ok || c2.cur.kind != TokenType::RightParen {
                    (is, c2, false)
                } else {
                    (is, adv_to(src, c2), adv_ok(src, c2))
                }
            },
            ParseFn::Unary => {
                let (is, c2, ok) = c_prec(src, c1, Precedence::Unary);
                if !ok { (is, c2, false) } else { (is + unary_instrs(c1.prev.kind, c2.prev.line), c2, true) }
            },
            ParseFn::Number => (
                match c1.prev.value {
                    Some(v) => seq![Instr::Const(v, c1.prev.line)],
                    None => Seq::empty(),
                },
                c1,
                true,
            ),
            ParseFn::Literal => (seq![Instr::Byte(literal_byte(c1.prev.kind), c1.prev.line)], c1, true),
            ParseFn::Binary => {
                let (is, c2, ok) = c_prec(src, c1, next_level(spec_precedence(c1.prev.kind)));
                if !ok { (is, c2, false) } else { (is + binary_instrs(c1.prev.kind, c2.prev.line), c2, true) }
            },
            _ => (Seq::empty(), c1, false),
        }
    }
}

/// A parse function applied at `c1`, just after its token was read. How the
/// token was reached does not matter: see `lemma_rule_any_before`.
pub open spec fn c_apply(src: Seq<u8>, c1: Cursor, rule: ParseFn) -> (Seq<Instr>, Cursor, bool) {
    c_rule(src, Cursor { pos: c1.pos - 2, ..c1 }, c1, rule)
}

pub proof fn lemma_rule_any_before(src: Seq<u8>, c: Cursor, c1: Cursor, rule: ParseFn)
    requires
        0 <= cmeasure(src, c1) < cmeasure(src, c),
    ensures
        c_rule(src, c, c1, rule) == c_apply(src, c1, rule),
{
}

/// The rest of an expression after its first operand, `is` already
/// compiled: operators binding at least as tightly as `prec`, each with its
/// right operand, grouped to the left. Where assignment is allowed, an `=`
/// after an operand is an error.
pub open spec fn c_infix(src: Seq<u8>, is: Seq<Instr>, c: Cursor, prec: Precedence) -> (Seq<Instr>, Cursor, bool)
    decreases cmeasure(src, c), 1int,
{
    if precedence_rank(prec) <= precedence_rank(spec_precedence(c.cur.kind)) {
        let c3 = adv_to(src, c);
        if !adv_ok(src, c) {
            (is, c3, false)
        } else {
            let (is2, c4, ok) = match spec_infix_rule(c3.prev.kind) {
                Some(rule) => c_rule(src, c, c3, rule),
                None => (Seq::empty(), c3, true),
            };
            if !ok {
                (is + is2, c4, false)
            } else if precedence_rank(prec) <= 1 && c4.cur.kind == TokenType::Equal {
                (is + is2, adv_to(src, c4), false)
            } else if 0 <= cmeasure(src, c4) < cmeasure(src, c) {
                c_infix(src, is + is2, c4, prec)
            } else {
                (is + is2, c4, false)
            }
        }
    } else {
        (is, c, true)
    }
}

/// A local variable as the compiler records it: its name and the depth of
/// its scope (-1 while it is declared but not yet initialized).
pub struct LocalModel {
    pub name: Seq<u8>,
    pub depth: int,
}

/// The whole state the compiler works on: where it stands, the chunk so
/// far, its locals and its scope depth.
pub struct CompModel {
    pub cursor: Cursor,
    pub chunk: ChunkModel,
    pub locals: Seq<LocalModel>,
    pub depth: int,
}

/// Whether declaring `name` clashes with one of the first `k` locals: the
/// scan stops at a local of an enclosing scope, and a local of this scope
/// whose name differs from `name` counts as a clash.
pub open spec fn local_conflict(locals: Seq<LocalModel>, name: Seq<u8>, depth: int, k: int) -> bool
    decreases k,
{
    if k <= 0 {
        false
    } else if locals[k - 1].depth != -1 && locals[k - 1].depth < depth {
        false
    } else if locals[k - 1].name != name {
        true
    } else {
        local_conflict(locals, name, depth, k - 1)
    }
}

/// The state after trying to read the next token, and whether it worked.
pub open spec fn s_advance(src: Seq<u8>, m: CompModel) -> (CompModel, bool) {
    (CompModel { cursor: adv_to(src, m.cursor), ..m }, adv_ok(src, m.cursor))
}

/// The current token, which must have type `kind`, consumed.
pub open spec fn s_consume(src: Seq<u8>, m: CompModel, kind: TokenType) -> (CompModel, bool) {
    if m.cursor.cur.kind == kind { s_advance(src, m) } else { (m, false) }
}

/// One byte emitted, on the line of the previous token.
pub open spec fn s_byte(m: CompModel, b: u8) -> CompModel {
    CompModel { chunk: emit(m.chunk, Instr::Byte(b, m.cursor.prev.line)), ..m }
}

/// An expression compiled.
pub open spec fn s_expression(src: Seq<u8>, m: CompModel) -> (CompModel, bool) {
    let (is, c, ok) = c_prec(src, m.cursor, Precedence::Assignment);
    (CompModel { cursor: c, chunk: emit_all(m.chunk, is), ..m }, ok)
}

/// `expression ;` followed by the byte `b`: an expression statement
/// (`Pop`) or the rest of a print statement (`Print`).
pub open spec fn s_terminated(src: Seq<u8>, m: CompModel, b: u8) -> (CompModel, bool) {
    let (m1, ok1) = s_expression(src, m);
    if !ok1 {
        (m1, false)
    } else {
        let (m2, ok2) = s_consume(src, m1, TokenType::Semicolon);
        if !ok2 { (m2, false) } else { (s_byte(m2, b), true) }
    }
}

/// The name just read declared as a local: a no-op at depth 0, an error on
/// a clash or when the locals are full.
pub open spec fn s_declare(m: CompModel) -> (CompModel, bool) {
    if m.depth == 0 {
        (m, true)
    } else if local_conflict(m.locals, m.cursor.prev.lex, m.depth, m.locals.len() as int) {
        (m, false)
    } else if m.locals.len() >= 256 {
        (m, false)
    } else {
        (CompModel { locals: m.locals.push(LocalModel { name: m.cursor.prev.lex, depth: -1 }), ..m }, true)
    }
}

/// The name just read added as a constant: its index, which must fit in a
/// byte.
pub open spec fn s_identifier_constant(m: CompModel) -> (CompModel, int, bool) {
    let index = m.chunk.consts.len() as int;
    (
        CompModel { chunk: ChunkModel { consts: m.chunk.consts.push(ValueModel::Str(m.cursor.prev.lex)), ..m.chunk }, ..m },
        index,
        index < 256,
    )
}

/// The slot of the innermost of the first `k` locals named `name`, or -1.
pub open spec fn local_slot(locals: Seq<LocalModel>, name: Seq<u8>, k: int) -> int
    decreases k,
{
    if k <= 0 {
        -1
    } else if locals[k - 1].name == name {
        k - 1
    } else {
        local_slot(locals, name, k - 1)
    }
}

/// The variable just named read, or assigned when `=` follows and
/// assignment is allowed: a local by its slot, a global by the constant
/// that holds its name. A local read inside its own initializer is an
/// error.
pub open spec fn s_named_variable(src: Seq<u8>, m: CompModel, can_assign: bool) -> (CompModel, bool) {
    let slot = local_slot(m.locals, m.cursor.prev.lex, m.locals.len() as int);
    if slot >= 0 && m.locals[slot].depth == -1 {
        (m, false)
    } else {
        let (m1, arg, ok1) = if slot >= 0 { (m, slot, true) } else { s_identifier_constant(m) };
        let get_op = if slot >= 0 { OpCode::GetLocal } else { OpCode::GetGlobal };
        let set_op = if slot >= 0 { OpCode::SetLocal } else { OpCode::SetGlobal };
        if !ok1 {
            (m1, false)
        } else if m1.cursor.cur.kind == TokenType::Equal {
            let (m2, ok2) = s_advance(src, m1);
            if !ok2 {
                (m2, false)
            } else if can_assign {
                let (m3, ok3) = s_expression(src, m2);
                if !ok3 {
                    (m3, false)
                } else {
                    (s_byte(s_byte(m3, opcode_byte(set_op)), arg as u8), true)
                }
            } else {
                (s_byte(s_byte(m2, opcode_byte(get_op)), arg as u8), true)
            }
        } else {
            (s_byte(s_byte(m1, opcode_byte(get_op)), arg as u8), true)
        }
    }
}

/// A variable name read and declared: the constant index of a global.
pub open spec fn s_parse_variable(src: Seq<u8>, m: CompModel) -> (CompModel, int, bool) {
    let (m1, ok1) = s_consume(src, m, TokenType::Identifier);
    if !ok1 {
        (m1, 0, false)
    } else {
        let (m2, ok2) = s_declare(m1);
        if !ok2 {
            (m2, 0, false)
        } else if m2.depth > 0 {
            (m2, 0, true)
        } else {
            s_identifier_constant(m2)
        }
    }
}

/// The variable just compiled made available: a local marked initialized,
/// or a global defined.
pub open spec fn s_define(m: CompModel, global: int) -> CompModel {
    if m.depth > 0 {
        if m.locals.len() > 0 {
            CompModel {
                locals: m.locals.update(m.locals.len() - 1, LocalModel { depth: m.depth, ..m.locals.last() }),
                ..m
            }
        } else {
            m
        }
    } else {
        s_byte(s_byte(m, opcode_byte(OpCode::DefineGlobal)), global as u8)
    }
}

/// `varDecl := IDENTIFIER ( "=" expression )? ";"`, after the `var`; a
/// missing initializer is `nil`.
pub open spec fn s_var_declaration(src: Seq<u8>, m: CompModel) -> (CompModel, bool) {
    let (m1, global, ok1) = s_parse_variable(src, m);
    if !ok1 {
        (m1, false)
    } else {
        let (m2, ok2) = if m1.cursor.cur.kind == TokenType::Equal {
            let (ma, oka) = s_advance(src, m1);
            if !oka { (ma, false) } else { s_expression(src, ma) }
        } else {
            (s_byte(m1, opcode_byte(OpCode::Nil)), true)
        };
        if !ok2 {
            (m2, false)
        } else {
            let (m3, ok3) = s_consume(src, m2, TokenType::Semicolon);
            if !ok3 { (m3, false) } else { (s_define(m3, global), true) }
        }
    }
}

/// After an error: tokens skipped up to just after a `;`, or up to a
/// keyword that starts a statement, or the end of input.
pub open spec fn s_synchronize(src: Seq<u8>, m: CompModel) -> CompModel
    decreases cmeasure(src, m.cursor),
{
    if m.cursor.cur.kind == TokenType::EOF || m.cursor.prev.kind == TokenType::Semicolon {
        m
    } else {
        match m.cursor.cur.kind {
            TokenType::Class | TokenType::Fun | TokenType::Var | TokenType::For | TokenType::If
            | TokenType::While | TokenType::Print | TokenType::Return => m,
            _ => {
                let m1 = s_advance(src, m).0;
                if 0 <= cmeasure(src, m1.cursor) < cmeasure(src, m.cursor) { s_synchronize(src, m1) } else { m }
            },
        }
    }
}

/// `statement := "print" expression ";" | "{" block | expression ";"`
pub open spec fn s_statement(src: Seq<u8>, m: CompModel) -> (CompModel, bool)
    decreases cmeasure(src, m.cursor), 1int,
{
    if m.cursor.cur.kind == TokenType::Print {
        let (m1, ok1) = s_advance(src, m);
        if !ok1 { (m1, false) } else { s_terminated(src, m1, opcode_byte(OpCode::Print)) }
    } else if m.cursor.cur.kind == TokenType::LeftBrace {
        let (m1, ok1) = s_advance(src, m);
        if !ok1 {
            (m1, false)
        } else if !(0 <= cmeasure(src, m1.cursor) < cmeasure(src, m.cursor)) {
            (m1, false)
        } else {
            let (m2, ok2) = s_block(src, m1);
            if !ok2 { (m2, false) } else { (CompModel { depth: m2.depth - 1, ..m2 }, true) }
        }
    } else {
        s_terminated(src, m, opcode_byte(OpCode::Pop))
    }
}

/// `block := declaration* "}"`, after the `{`.
pub open spec fn s_block(src: Seq<u8>, m: CompModel) -> (CompModel, bool)
    decreases cmeasure(src, m.cursor), 4int,
{
    if m.cursor.cur.kind == TokenType::RightBrace || m.cursor.cur.kind == TokenType::EOF {
        s_consume(src, m, TokenType::RightBrace)
    } else {
        let m1 = s_declaration(src, m);
        if 0 <= cmeasure(src, m1.cursor) < cmeasure(src, m.cursor) { s_block(src, m1) } else { (m1, false) }
    }
}

/// A declaration: `var` or a statement. An error in it is dropped after
/// skipping to the next statement boundary.
pub open spec fn s_declaration(src: Seq<u8>, m: CompModel) -> CompModel
    decreases cmeasure(src, m.cursor), 3int,
{
    let (m1, ok) = s_declaration_body(src, m);
    if ok { m1 } else { s_synchronize(src, m1) }
}

/// A declaration proper: `var` and a variable declaration, or a statement.
pub open spec fn s_declaration_body(src: Seq<u8>, m: CompModel) -> (CompModel, bool)
    decreases cmeasure(src, m.cursor), 2int,
{
    if m.cursor.cur.kind == TokenType::Var {
        let (ma, oka) = s_advance(src, m);
        if !oka { (ma, false) } else { s_var_declaration(src, ma) }
    } else {
        s_statement(src, m)
    }
}

/// Declarations up to the end of input, which is then read; `Return` ends
/// the chunk.
pub open spec fn s_program(src: Seq<u8>, m: CompModel) -> CompModel
    decreases cmeasure(src, m.cursor),
{
    if m.cursor.cur.kind == TokenType::EOF {
        s_byte(s_advance(src, m).0, opcode_byte(OpCode::Return))
    } else {
        let m1 = s_declaration(src, m);
        if 0 <= cmeasure(src, m1.cursor) < cmeasure(src, m.cursor) { s_program(src, m1) } else { m1 }
    }
}

/// The token the compiler holds before it reads any: an end of input on
/// line 0.
pub open spec fn start_token() -> TokModel {
    TokModel { kind: TokenType::EOF, lex: Seq::empty(), line: 0, value: None }
}

/// The compiler's state before it reads any token.
pub open spec fn start_model() -> CompModel {
    CompModel {
        cursor: Cursor { prev: start_token(), cur: start_token(), pos: 0, line: 1 },
        chunk: ChunkModel { code: Seq::empty(), lines: Seq::empty(), consts: Seq::empty() },
        locals: Seq::empty(),
        depth: 0,
    }
}

/// The chunk a whole source compiles to.
pub open spec fn compiled_chunk(src: Seq<u8>) -> ChunkModel {
    s_program(src, s_advance(src, start_model()).0).chunk
}
} // verus!
