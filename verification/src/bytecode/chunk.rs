use vstd::prelude::*;

use crate::bytecode::common::{OpCode, opcode_byte};
use crate::bytecode::value::{Value, ValueArray};

verus! {

/// Sum of the first `k` entries.
pub open spec fn prefix(lines: Seq<usize>, k: int) -> int
    decreases k,
{
    if k <= 0 || lines.len() == 0 { 0 } else if k > lines.len() { prefix(lines, lines.len() as int) } else { prefix(lines, k - 1) + lines[k - 1] }
}

/// Total of all entries.
pub open spec fn total(lines: Seq<usize>) -> int {
    prefix(lines, lines.len() as int)
}

/// The line table after one more byte on `line`: the count of that line
/// goes up by one, the table growing with zeros if the line is new.
pub open spec fn add_line(lines: Seq<usize>, line: int) -> Seq<usize> {
    if line - 1 < lines.len() {
        lines.update(line - 1, (lines[line - 1] + 1) as usize)
    } else {
        lines + Seq::new((line - 1 - lines.len()) as nat, |i: int| 0usize) + seq![1usize]
    }
}

/// The line a byte offset belongs to: `line` such that the lines before it
/// hold at most `offset` bytes and the lines up to it hold more.
pub open spec fn is_line_of(lines: Seq<usize>, offset: int, line: int) -> bool {
    1 <= line <= lines.len() && prefix(lines, line - 1) <= offset < prefix(lines, line)
}

pub proof fn lemma_prefix_mono(lines: Seq<usize>, j: int, k: int)
    requires
        0 <= j <= k <= lines.len(),
    ensures
        prefix(lines, j) <= prefix(lines, k),
    decreases k - j,
{
    if j < k {
        lemma_prefix_mono(lines, j, k - 1);
    }
}

pub proof fn lemma_prefix_update(lines: Seq<usize>, i: int, v: usize, k: int)
    requires
        0 <= i < lines.len(),
        0 <= k <= lines.len(),
    ensures
        prefix(lines.update(i, v), k) == prefix(lines, k) + if i < k { v - lines[i] } else { 0int },
    decreases k,
{
    if k > 0 {
        lemma_prefix_update(lines, i, v, k - 1);
    }
}

pub proof fn lemma_prefix_append(a: Seq<usize>, b: Seq<usize>, k: int)
    requires
        0 <= k <= a.len(),
    ensures
        prefix(a + b, k) == prefix(a, k),
        prefix(a + b, (a.len() + b.len()) as int) == prefix(a, a.len() as int) + prefix(b, b.len() as int),
    decreases k + b.len(),
{
    if k > 0 {
        lemma_prefix_append(a, b, k - 1);
    }
    if b.len() > 0 {
        let b1 = b.drop_last();
        assert(a + b1 == (a + b).drop_last());
        lemma_prefix_append(a, b1, k);
        assert((a + b)[a.len() + b.len() - 1] == b[b.len() - 1]);
        assert(prefix(a + b, (a.len() + b.len()) as int) == prefix((a + b).drop_last(), a.len() + b.len() - 1) + b[b.len() - 1]) by {
            lemma_prefix_drop_last(a + b);
        }
        lemma_prefix_drop_last(b);
    } else {
        assert(a + b =~= a);
    }
}

pub proof fn lemma_prefix_drop_last(s: Seq<usize>)
    requires
        s.len() > 0,
    ensures
        prefix(s, s.len() as int) == prefix(s.drop_last(), s.len() - 1) + s[s.len() - 1],
{
    lemma_prefix_same(s, s.drop_last(), s.len() - 1);
}

pub proof fn lemma_prefix_same(s: Seq<usize>, t: Seq<usize>, k: int)
    requires
        0 <= k <= s.len(),
        k <= t.len(),
        forall|i: int| 0 <= i < k ==> s[i] == t[i],
    ensures
        prefix(s, k) == prefix(t, k),
    decreases k,
{
    if k > 0 {
        lemma_prefix_same(s, t, k - 1);
    }
}

pub proof fn lemma_prefix_zeros(n: nat)
    ensures
        prefix(Seq::new(n, |i: int| 0usize), n as int) == 0,
    decreases n,
{
    if n > 0 {
        let z = Seq::new(n, |i: int| 0usize);
        lemma_prefix_drop_last(z);
        assert(z.drop_last() =~= Seq::new((n - 1) as nat, |i: int| 0usize));
        lemma_prefix_zeros((n - 1) as nat);
    }
}

/// Adding a byte on a line adds one to the total of the table.
pub proof fn lemma_add_line_total(lines: Seq<usize>, line: int)
    requires
        line >= 1,
        line - 1 < lines.len() ==> lines[line - 1] < usize::MAX,
    ensures
        total(add_line(lines, line)) == total(lines) + 1,
{
    if line - 1 < lines.len() {
        lemma_prefix_update(lines, line - 1, (lines[line - 1] + 1) as usize, lines.len() as int);
    } else {
        let z = Seq::new((line - 1 - lines.len()) as nat, |i: int| 0usize);
        lemma_prefix_append(lines + z, seq![1usize], 0);
        lemma_prefix_append(lines, z, 0);
        lemma_prefix_zeros((line - 1 - lines.len()) as nat);
        assert(prefix(seq![1usize], 1) == 1) by {
            lemma_prefix_drop_last(seq![1usize]);
        }
    }
}

/// Each entry is at most the total.
pub proof fn lemma_entry_le_total(lines: Seq<usize>, i: int)
    requires
        0 <= i < lines.len(),
    ensures
        lines[i] <= total(lines),
{
    lemma_prefix_mono(lines, i + 1, lines.len() as int);
    lemma_prefix_mono(lines, 0, i);
}

/// Lines are recorded in order: a byte written on a line no earlier than
/// any line written so far is found on that line, and every byte written
/// before it keeps its line.
pub proof fn law_line_of_written_byte(lines: Seq<usize>, line: int, offset: int, l: int)
    requires
        line >= 1,
        line >= lines.len(),
        line - 1 < lines.len() ==> lines[line - 1] < usize::MAX,
    ensures
        is_line_of(add_line(lines, line), total(lines), line),
        is_line_of(lines, offset, l) ==> is_line_of(add_line(lines, line), offset, l),
{
    let new = add_line(lines, line);
    lemma_add_line_total(lines, line);
    if line - 1 < lines.len() {
        let v = (lines[line - 1] + 1) as usize;
        lemma_prefix_update(lines, line - 1, v, line - 1);
        lemma_prefix_update(lines, line - 1, v, line);
        lemma_prefix_mono(lines, line - 1, lines.len() as int);
        if is_line_of(lines, offset, l) {
            lemma_prefix_update(lines, line - 1, v, l - 1);
            lemma_prefix_update(lines, line - 1, v, l);
        }
    } else {
        let z = Seq::new((line - 1 - lines.len()) as nat, |i: int| 0usize);
        assert(new == (lines + z) + seq![1usize]);
        lemma_prefix_append(lines + z, seq![1usize], line - 1);
        lemma_prefix_append(lines, z, lines.len() as int);
        lemma_prefix_zeros((line - 1 - lines.len()) as nat);
        if is_line_of(lines, offset, l) {
            lemma_prefix_append(lines + z, seq![1usize], l - 1);
            lemma_prefix_append(lines + z, seq![1usize], l);
            lemma_prefix_append(lines, z, l - 1);
            lemma_prefix_append(lines, z, l);
        }
    }
}

/// A byte offset belongs to one line only.
pub proof fn lemma_line_unique(lines: Seq<usize>, offset: int, a: int, b: int)
    requires
        is_line_of(lines, offset, a),
        is_line_of(lines, offset, b),
    ensures
        a == b,
{
    if a < b {
        lemma_prefix_mono(lines, a, b - 1);
    } else if b < a {
        lemma_prefix_mono(lines, b, a - 1);
    }
}

/// Length in bytes of the instruction that starts with opcode byte `op`.
pub open spec fn instr_len(op: u8) -> int {
    if op == opcode_byte(OpCode::ConstantLong) {
        4
    } else if op == opcode_byte(OpCode::Constant) || op == opcode_byte(OpCode::GetLocal)
        || op == opcode_byte(OpCode::SetLocal) || op == opcode_byte(OpCode::GetGlobal)
        || op == opcode_byte(OpCode::DefineGlobal) || op == opcode_byte(OpCode::SetGlobal) {
        2
    } else if op == opcode_byte(OpCode::Jump) || op == opcode_byte(OpCode::JumpIfFalse)
        || op == opcode_byte(OpCode::Loop) {
        3
    } else {
        1
    }
}

/// The constant index that a `ConstantLong` operand encodes.
pub open spec fn long_index(b1: u8, b2: u8, b3: u8) -> int {
    b1 * 65536 + b2 * 256 + b3
}

/// The three bytes `write_constant` writes for a long index decode to that
/// index when it is below 2^24, and never to more than it.
pub proof fn lemma_long_index(index: int)
    requires
        index >= 0,
    ensures
        long_index(((index / 65536) % 256) as u8, ((index / 256) % 256) as u8, (index % 256) as u8) <= index,
        index < 16777216 ==> long_index(((index / 65536) % 256) as u8, ((index / 256) % 256) as u8, (index % 256) as u8) == index,
{
    let q1 = index / 65536;
    let r1 = index % 65536;
    let q2 = r1 / 256;
    let r2 = r1 % 256;
    assert(index == 65536 * q1 + r1 && 0 <= r1 < 65536) by (nonlinear_arith)
        requires index >= 0, q1 == index / 65536, r1 == index % 65536;
    assert(r1 == 256 * q2 + r2 && 0 <= r2 < 256 && 0 <= q2 < 256) by (nonlinear_arith)
        requires 0 <= r1 < 65536, q2 == r1 / 256, r2 == r1 % 256;
    assert(index / 256 == 256 * q1 + q2) by (nonlinear_arith)
        requires index == 65536 * q1 + r1, r1 == 256 * q2 + r2, 0 <= r2 < 256, 0 <= q2 < 256, q1 >= 0;
    assert((index / 256) % 256 == q2) by (nonlinear_arith)
        requires index / 256 == 256 * q1 + q2, 0 <= q2 < 256, q1 >= 0;
    assert(index % 256 == r2) by (nonlinear_arith)
        requires index == 65536 * q1 + 256 * q2 + r2, 0 <= r2 < 256, q1 >= 0, q2 >= 0;
    assert(q1 % 256 <= q1) by (nonlinear_arith)
        requires q1 >= 0;
    assert((q1 % 256) * 65536 <= q1 * 65536) by (nonlinear_arith)
        requires q1 % 256 <= q1, q1 >= 0;
    if index < 16777216 {
        assert(q1 < 256) by (nonlinear_arith)
            requires index == 65536 * q1 + r1, r1 >= 0, index < 16777216;
        assert(q1 % 256 == q1) by (nonlinear_arith)
            requires 0 <= q1 < 256;
    }
}

/// Whether `code` starts with one whole instruction whose constant operand,
/// if it has one, indexes a pool of `nconst` constants.
pub open spec fn valid_instr(code: Seq<u8>, nconst: int) -> bool {
    &&& code.len() > 0
    &&& code[0] < crate::bytecode::common::OPCODE_COUNT
    &&& instr_len(code[0]) <= code.len()
    &&& (code[0] == opcode_byte(OpCode::Constant) || code[0] == opcode_byte(OpCode::GetGlobal)
        || code[0] == opcode_byte(OpCode::DefineGlobal) || code[0] == opcode_byte(OpCode::SetGlobal))
        ==> code[1] < nconst
    &&& code[0] == opcode_byte(OpCode::ConstantLong) ==> long_index(code[1], code[2], code[3]) < nconst
}

/// Whether `code` is a sequence of whole instructions, each valid for a
/// pool of `nconst` constants.
pub open spec fn decodes(code: Seq<u8>, nconst: int) -> bool
    decreases code.len(),
{
    if code.len() == 0 {
        true
    } else {
        valid_instr(code, nconst) && decodes(code.skip(instr_len(code[0])), nconst)
    }
}

pub proof fn lemma_valid_instr_prefix(a: Seq<u8>, b: Seq<u8>, n: int)
    requires
        valid_instr(a, n),
    ensures
        valid_instr(a + b, n),
{
    assert((a + b)[0] == a[0]);
    if a.len() > 1 { assert((a + b)[1] == a[1]); }
    if a.len() > 3 { assert((a + b)[2] == a[2]); assert((a + b)[3] == a[3]); }
}

/// Appending whole instructions to whole instructions gives whole
/// instructions.
pub proof fn lemma_decodes_append(a: Seq<u8>, b: Seq<u8>, n: int)
    requires
        decodes(a, n),
        decodes(b, n),
    ensures
        decodes(a + b, n),
    decreases a.len(),
{
    if a.len() == 0 {
        assert(a + b =~= b);
    } else {
        let k = instr_len(a[0]);
        lemma_valid_instr_prefix(a, b, n);
        assert((a + b).skip(k) =~= a.skip(k) + b);
        lemma_decodes_append(a.skip(k), b, n);
    }
}

/// A larger pool keeps instructions valid.
pub proof fn lemma_decodes_grow(a: Seq<u8>, n: int, m: int)
    requires
        decodes(a, n),
        n <= m,
    ensures
        decodes(a, m),
    decreases a.len(),
{
    if a.len() > 0 {
        lemma_decodes_grow(a.skip(instr_len(a[0])), n, m);
    }
}

/// A single whole instruction decodes.
pub proof fn lemma_decodes_one(a: Seq<u8>, n: int)
    requires
        valid_instr(a, n),
        a.len() == instr_len(a[0]),
    ensures
        decodes(a, n),
{
    assert(a.skip(instr_len(a[0])) =~= Seq::<u8>::empty());
    assert(decodes(a.skip(instr_len(a[0])), n));
}

/// What the disassembler shows of one instruction: its offset, its source
/// line (`None` when it is the line of the byte before, shown as `|`), its
/// opcode, the constant it loads if it loads one, and where the next
/// instruction starts.
pub struct Disassembly {
    pub offset: usize,
    pub line: Option<usize>,
    pub op: OpCode,
    pub constant: Option<usize>,
    pub next: usize,
}

/// The constant index an instruction loads, for `Constant` and
/// `ConstantLong`.
pub open spec fn loaded_constant(code: Seq<u8>, offset: int) -> Option<usize> {
    if code[offset] == opcode_byte(OpCode::Constant) {
        Some(code[offset + 1] as usize)
    } else if code[offset] == opcode_byte(OpCode::ConstantLong) {
        Some(long_index(code[offset + 1], code[offset + 2], code[offset + 3]) as usize)
    } else {
        None
    }
}

/// Whether `d` shows the instruction at `offset` of a chunk.
pub open spec fn disassembles(code: Seq<u8>, lines: Seq<usize>, offset: int, d: Disassembly) -> bool {
    &&& d.offset == offset
    &&& d.op == crate::bytecode::common::opcode_of(code[offset])
    &&& d.constant == loaded_constant(code, offset)
    &&& d.next == offset + instr_len(code[offset])
    &&& match d.line {
        Some(l) => is_line_of(lines, offset, l as int) && !(offset > 0 && is_line_of(lines, offset - 1, l as int)),
        None => offset > 0 && exists|l: int| is_line_of(lines, offset, l) && is_line_of(lines, offset - 1, l),
    }
}

/// Length of the instruction that starts with opcode byte `op`.
pub fn instruction_len(op: u8) -> (n: usize)
    ensures
        n == instr_len(op),
{
    if op == OpCode::ConstantLong.as_byte() {
        4
    } else if op == OpCode::Constant.as_byte() || op == OpCode::GetLocal.as_byte() || op == OpCode::SetLocal.as_byte()
        || op == OpCode::GetGlobal.as_byte() || op == OpCode::DefineGlobal.as_byte() || op == OpCode::SetGlobal.as_byte() {
        2
    } else if op == OpCode::Jump.as_byte() || op == OpCode::JumpIfFalse.as_byte() || op == OpCode::Loop.as_byte() {
        3
    } else {
        1
    }
}

/// Bytecode with its constant pool and, per source line, the number of
/// bytes that came from it.
pub struct Chunk {
    pub code: Vec<u8>,
    pub constants: ValueArray,
    pub lines: Vec<usize>,
}

impl Chunk {
    /// The line table accounts for every byte of code.
    pub open spec fn wf(&self) -> bool {
        total(self.lines@) == self.code@.len()
    }

    pub fn new() -> (c: Self)
        ensures
            c.wf(),
            c.code@.len() == 0,
            c.constants.values@.len() == 0,
            c.lines@.len() == 0,
    {
        Self { code: Vec::new(), constants: ValueArray::new(), lines: Vec::new() }
    }

    /// Appends a byte that came from `line` (counted from 1).
    pub fn write_chunk(&mut self, byte: u8, line: usize)
        requires
            old(self).wf(),
            line >= 1,
        ensures
            final(self).wf(),
            final(self).code@ == old(self).code@.push(byte),
            final(self).lines@ == add_line(old(self).lines@, line as int),
            final(self).constants == old(self).constants,
    {
        let ghost old_lines = self.lines@;
        let ghost old_code = self.code@;
        self.code.push(byte);
        let _n = self.code.len();
        proof {
            if line - 1 < self.lines@.len() {
                lemma_entry_le_total(self.lines@, line - 1);
            }
            lemma_add_line_total(self.lines@, line as int);
        }
        if line - 1 < self.lines.len() {
            let n = self.lines[line - 1];
            self.lines.set(line - 1, n + 1);
        } else {
            while self.lines.len() < line - 1
                invariant
                    old_lines.len() <= self.lines@.len() <= line - 1,
                    self.code@ == old_code.push(byte),
                    self.constants == old(self).constants,
                    self.lines@ =~= old_lines + Seq::new((self.lines@.len() - old_lines.len()) as nat, |i: int| 0usize),
                decreases line - 1 - self.lines@.len(),
            {
                self.lines.push(0);
            }
            self.lines.push(1);
        }
        assert(self.lines@ =~= add_line(old_lines, line as int));
    }

    /// The line that the byte at `offset` came from.
    pub fn get_line(&self, offset: usize) -> (line: usize)
        requires
            self.wf(),
            offset < self.code@.len(),
        ensures
            is_line_of(self.lines@, offset as int, line as int),
    {
        let mut o: usize = 0;
        let mut i: usize = 0;
        let _n = self.code.len();
        while i < self.lines.len()
            invariant
                self.wf(),
                self.code@.len() <= usize::MAX,
                offset < self.code@.len(),
                i <= self.lines@.len(),
                o == prefix(self.lines@, i as int),
                o <= offset,
            decreases self.lines@.len() - i,
        {
            proof {
                lemma_prefix_mono(self.lines@, i + 1, self.lines@.len() as int);
                assert(prefix(self.lines@, i + 1) == o + self.lines@[i as int]);
            }
            o = o + self.lines[i];
            if offset < o {
                return i + 1;
            }
            i = i + 1;
        }
        proof {
            assert(false);
        }
        0
    }

    /// Appends a constant to the pool and returns its index.
    pub fn add_constant(&mut self, value: Value) -> (index: usize)
        ensures
            final(self).constants.values@ == old(self).constants.values@.push(value),
            index == old(self).constants.values@.len(),
            final(self).code == old(self).code,
            final(self).lines == old(self).lines,
    {
        self.constants.values.push(value);
        self.constants.values.len() - 1
    }

    /// Adds a constant and the instruction that loads it: `Constant` with a
    /// one-byte index below 256, else `ConstantLong` with three big-endian
    /// bytes.
    pub fn write_constant(&mut self, value: Value, line: usize)
        requires
            old(self).wf(),
            line >= 1,
        ensures
            final(self).wf(),
            final(self).constants.values@ == old(self).constants.values@.push(value),
            ({
                let index = old(self).constants.values@.len();
                if index < 256 {
                    &&& final(self).code@ == old(self).code@ + seq![opcode_byte(OpCode::Constant), index as u8]
                    &&& final(self).lines@ == add_line(add_line(old(self).lines@, line as int), line as int)
                } else {
                    &&& final(self).code@ == old(self).code@ + seq![
                        opcode_byte(OpCode::ConstantLong),
                        ((index / 65536) % 256) as u8,
                        ((index / 256) % 256) as u8,
                        (index % 256) as u8,
                    ]
                    &&& final(self).lines@ == add_line(add_line(add_line(add_line(old(self).lines@, line as int), line as int), line as int), line as int)
                }
            }),
    {
        let index = self.add_constant(value);
        if index < 256 {
            self.write_chunk(OpCode::Constant.as_byte(), line);
            self.write_chunk(index as u8, line);
        } else {
            self.write_chunk(OpCode::ConstantLong.as_byte(), line);
            self.write_chunk(((index / 65536) % 256) as u8, line);
            self.write_chunk(((index / 256) % 256) as u8, line);
            self.write_chunk((index % 256) as u8, line);
        }
    }

    /// Decodes the instruction at `offset` for display.
    pub fn disassemble_instruction(&self, offset: usize) -> (d: Disassembly)
        requires
            self.wf(),
            offset < self.code@.len(),
            valid_instr(self.code@.skip(offset as int), self.constants.values@.len() as int),
        ensures
            disassembles(self.code@, self.lines@, offset as int, d),
    {
        let _n = self.code.len();
        proof {
            assert(self.code@.skip(offset as int)[0] == self.code@[offset as int]);
            assert(self.code@.skip(offset as int).len() == self.code@.len() - offset);
        }
        let line = self.get_line(offset);
        let shown = if offset > 0 {
            let prev = self.get_line(offset - 1);
            if prev == line {
                None
            } else {
                proof {
                    if is_line_of(self.lines@, offset - 1, line as int) {
                        lemma_line_unique(self.lines@, offset - 1, line as int, prev as int);
                    }
                }
                Some(line)
            }
        } else {
            Some(line)
        };
        let byte = self.code[offset];
        let op = OpCode::from_byte(byte);
        let constant = if byte == OpCode::Constant.as_byte() {
            proof { assert(self.code@.skip(offset as int)[1] == self.code@[offset + 1]); }
            Some(self.code[offset + 1] as usize)
        } else if byte == OpCode::ConstantLong.as_byte() {
            proof {
                assert(self.code@.skip(offset as int)[1] == self.code@[offset + 1]);
                assert(self.code@.skip(offset as int)[2] == self.code@[offset + 2]);
                assert(self.code@.skip(offset as int)[3] == self.code@[offset + 3]);
            }
            let b1 = self.code[offset + 1] as usize;
            let b2 = self.code[offset + 2] as usize;
            let b3 = self.code[offset + 3] as usize;
            Some(b1 * 65536 + b2 * 256 + b3)
        } else {
            None
        };
        Disassembly { offset, line: shown, op, constant, next: offset + instruction_len(byte) }
    }

    /// Decodes every instruction of a chunk whose code is whole
    /// instructions, in order.
    pub fn disassemble_chunk(&self) -> (ds: Vec<Disassembly>)
        requires
            self.wf(),
            decodes(self.code@, self.constants.values@.len() as int),
        ensures
            ds@.len() > 0 ==> ds@[0].offset == 0 && ds@.last().next == self.code@.len(),
            ds@.len() == 0 <==> self.code@.len() == 0,
            forall|i: int| 0 <= i < ds@.len() ==> disassembles(self.code@, self.lines@, ds@[i].offset as int, #[trigger] ds@[i]),
            forall|i: int| 0 <= i < ds@.len() - 1 ==> #[trigger] ds@[i + 1].offset == ds@[i].next,
    {
        let mut ds: Vec<Disassembly> = Vec::new();
        let mut offset: usize = 0;
        let n = self.code.len();
        assert(self.code@.skip(0) =~= self.code@);
        while offset < n
            invariant
                self.wf(),
                n == self.code@.len(),
                offset <= n,
                decodes(self.code@.skip(offset as int), self.constants.values@.len() as int),
                ds@.len() > 0 ==> ds@[0].offset == 0 && ds@.last().next == offset,
                ds@.len() == 0 <==> offset == 0,
                forall|i: int| 0 <= i < ds@.len() ==> disassembles(self.code@, self.lines@, ds@[i].offset as int, #[trigger] ds@[i]),
                forall|i: int| 0 <= i < ds@.len() - 1 ==> #[trigger] ds@[i + 1].offset == ds@[i].next,
            decreases n - offset,
        {
            let ghost rest = self.code@.skip(offset as int);
            assert(rest[0] == self.code@[offset as int]);
            let d = self.disassemble_instruction(offset);
            let next = d.next;
            proof {
                assert(rest.skip(instr_len(rest[0])) =~= self.code@.skip(next as int));
            }
            ds.push(d);
            offset = next;
        }
        ds
    }
}

} // verus!
