use vstd::prelude::*;
use vstd::string::StringSliceAdditionalSpecFns;

use crate::bytecode::chunk::{Chunk, instr_len, lemma_long_index, long_index};
use crate::bytecode::common::{AsOpCode, OpCode, OPCODE_COUNT, law_opcode_roundtrip, opcode_byte, opcode_of};
use crate::bytecode::compile::{Compiler, binary_code};
use crate::bytecode::token::TokenType;
use crate::bytecode::error::{Error, RuntimeError};
use crate::bytecode::table::Table;
use crate::bytecode::codegen::{adv_ok, compiled_chunk, start_model};
use crate::bytecode::value::{Number, NumberModel, Obj, StringInterner, Value, ValueModel, spec_equal, spec_is_falsey};

verus! {

/// What a step of the machine asks of whoever runs it.
pub enum Step {
    /// Nothing: run the next instruction.
    Continue,
    /// Print the value, then run the next instruction.
    Print(Value),
    /// Apply the numeric operator (`Add`, `Subtract`, `Multiply`, `Divide`,
    /// `Greater`, `Less` or `Equal`) to the two numbers, left operand first;
    /// push the result, a number or for a comparison a boolean, then run the
    /// next instruction.
    Arithmetic(OpCode, Number, Number),
    /// Push the negation of the number, then run the next instruction.
    Negate(Number),
    /// The program has returned.
    Return,
}

/// The content of a step.
pub enum Event {
    Continue,
    Print(ValueModel),
    Arithmetic(OpCode, NumberModel, NumberModel),
    Negate(NumberModel),
    Return,
}

impl View for Step {
    type V = Event;

    open spec fn view(&self) -> Event {
        match self {
            Step::Continue => Event::Continue,
            Step::Print(v) => Event::Print(v@),
            Step::Arithmetic(op, a, b) => Event::Arithmetic(*op, a@, b@),
            Step::Negate(n) => Event::Negate(n@),
            Step::Return => Event::Return,
        }
    }
}

/// What a step comes to: an event, or a runtime fault at an offset with a
/// message.
pub enum Outcome {
    Event(Event),
    Fault(int, Seq<u8>),
}

/// The machine as mathematics: code, constants, instruction pointer,
/// stack, globals and interned strings.
pub struct VmModel {
    pub code: Seq<u8>,
    pub constants: Seq<ValueModel>,
    pub ip: int,
    pub stack: Seq<ValueModel>,
    pub globals: Map<Seq<u8>, ValueModel>,
    pub strings: Map<Seq<u8>, ()>,
}

pub open spec fn values_model(s: Seq<Value>) -> Seq<ValueModel> {
    s.map_values(|v: Value| v@)
}

pub open spec fn globals_model(g: Map<Seq<u8>, Value>) -> Map<Seq<u8>, ValueModel> {
    g.map_values(|v: Value| v@)
}

pub open spec fn msg_undefined(name: Seq<u8>) -> Seq<u8> {
    "Undefined variable '".spec_bytes() + name + "'".spec_bytes()
}

pub open spec fn msg_global_name() -> Seq<u8> {
    "Global name must be a string.".spec_bytes()
}

pub open spec fn msg_add_operands() -> Seq<u8> {
    "Operands must be two numbers or two strings.".spec_bytes()
}

pub open spec fn msg_number_operands() -> Seq<u8> {
    "Operands must be numbers.".spec_bytes()
}

pub open spec fn msg_number_operand() -> Seq<u8> {
    "Operand must be a number.".spec_bytes()
}

pub open spec fn is_number(v: ValueModel) -> bool {
    v is Number
}

pub open spec fn number_of(v: ValueModel) -> NumberModel {
    match v {
        ValueModel::Number(n) => n,
        _ => NumberModel::Bits(0),
    }
}

pub open spec fn byte(m: VmModel, k: int) -> u8 {
    m.code[m.ip + k]
}

/// The big-endian 16-bit operand after the opcode.
pub open spec fn operand16(m: VmModel) -> int {
    byte(m, 1) * 256 + byte(m, 2)
}

/// Whether the instruction at `ip` can run: it decodes, its operands are in
/// the code, its constants in the pool, its stack slots on the stack and
/// its jump target in range. Running an instruction where this fails would
/// read outside the code, the constants or the stack.
pub open spec fn ready_to_step(m: VmModel) -> bool {
    &&& 0 <= m.ip < m.code.len()
    &&& m.code[m.ip] < OPCODE_COUNT
    &&& m.ip + instr_len(m.code[m.ip]) <= m.code.len()
    &&& match opcode_of(m.code[m.ip]) {
        OpCode::Constant | OpCode::GetGlobal => byte(m, 1) < m.constants.len(),
        OpCode::ConstantLong => long_index(byte(m, 1), byte(m, 2), byte(m, 3)) < m.constants.len(),
        OpCode::Pop | OpCode::Not | OpCode::Print => m.stack.len() > 0,
        OpCode::DefineGlobal => byte(m, 1) < m.constants.len() && m.stack.len() > 0,
        OpCode::SetGlobal => byte(m, 1) < m.constants.len()
            && (m.constants[byte(m, 1) as int] matches ValueModel::Str(n) && m.globals.contains_key(n) ==> m.stack.len() > 0),
        OpCode::GetLocal | OpCode::SetLocal => byte(m, 1) < m.stack.len(),
        OpCode::Equal | OpCode::Add | OpCode::Subtract | OpCode::Multiply | OpCode::Divide
        | OpCode::Greater | OpCode::Less => m.stack.len() >= 2,
        OpCode::Jump | OpCode::JumpIfFalse => m.ip + 3 + operand16(m) <= usize::MAX,
        OpCode::Loop => operand16(m) <= m.ip + 3,
        _ => true,
    }
}

/// One step of the machine: the state after the instruction at `ip`, and
/// what it asks for or the fault it raises.
pub open spec fn next(m: VmModel) -> (VmModel, Outcome) {
    let op = opcode_of(m.code[m.ip]);
    let m1 = VmModel { ip: m.ip + instr_len(m.code[m.ip]), ..m };
    let n = m.stack.len();
    let top = m.stack[n - 1];
    let m2 = VmModel { stack: m.stack.subrange(0, n - 2), ..m1 };
    let a = m.stack[n - 2];
    match op {
        OpCode::Constant => (VmModel { stack: m.stack.push(m.constants[byte(m, 1) as int]), ..m1 }, Outcome::Event(Event::Continue)),
        OpCode::ConstantLong => (VmModel { stack: m.stack.push(m.constants[long_index(byte(m, 1), byte(m, 2), byte(m, 3))]), ..m1 }, Outcome::Event(Event::Continue)),
        OpCode::Nil => (VmModel { stack: m.stack.push(ValueModel::Nil), ..m1 }, Outcome::Event(Event::Continue)),
        OpCode::True => (VmModel { stack: m.stack.push(ValueModel::Bool(true)), ..m1 }, Outcome::Event(Event::Continue)),
        OpCode::False => (VmModel { stack: m.stack.push(ValueModel::Bool(false)), ..m1 }, Outcome::Event(Event::Continue)),
        OpCode::Pop => (VmModel { stack: m.stack.drop_last(), ..m1 }, Outcome::Event(Event::Continue)),
        OpCode::GetLocal => (VmModel { stack: m.stack.push(m.stack[byte(m, 1) as int]), ..m1 }, Outcome::Event(Event::Continue)),
        OpCode::SetLocal => (VmModel { stack: m.stack.update(byte(m, 1) as int, top), ..m1 }, Outcome::Event(Event::Continue)),
        OpCode::GetGlobal => match m.constants[byte(m, 1) as int] {
            ValueModel::Str(name) => if m.globals.contains_key(name) {
                (VmModel { stack: m.stack.push(m.globals[name]), ..m1 }, Outcome::Event(Event::Continue))
            } else {
                (m1, Outcome::Fault(m1.ip, msg_undefined(name)))
            },
            _ => (m1, Outcome::Event(Event::Continue)),
        },
        OpCode::DefineGlobal => {
            let m3 = VmModel { stack: m.stack.drop_last(), ..m1 };
            match m.constants[byte(m, 1) as int] {
                ValueModel::Str(name) => (VmModel { globals: m.globals.insert(name, top), ..m3 }, Outcome::Event(Event::Continue)),
                _ => (m3, Outcome::Fault(m3.ip, msg_global_name())),
            }
        },
        OpCode::SetGlobal => match m.constants[byte(m, 1) as int] {
            ValueModel::Str(name) => if !m.globals.contains_key(name) {
                (m1, Outcome::Fault(m1.ip, msg_undefined(name)))
            } else {
                (VmModel { globals: m.globals.insert(name, top), ..m1 }, Outcome::Event(Event::Continue))
            },
            _ => (m1, Outcome::Event(Event::Continue)),
        },
        OpCode::Equal => match spec_equal(a, top) {
            Some(e) => (VmModel { stack: m2.stack.push(ValueModel::Bool(e)), ..m2 }, Outcome::Event(Event::Continue)),
            None => (m2, Outcome::Event(Event::Arithmetic(OpCode::Equal, number_of(a), number_of(top)))),
        },
        OpCode::Add => match (a, top) {
            (ValueModel::Number(x), ValueModel::Number(y)) => (m2, Outcome::Event(Event::Arithmetic(OpCode::Add, x, y))),
            (ValueModel::Str(x), ValueModel::Str(y)) => (VmModel {
                stack: m2.stack.push(ValueModel::Str(x + y)),
                strings: if m.strings.contains_key(x + y) { m.strings } else { m.strings.insert(x + y, ()) },
                ..m2
            }, Outcome::Event(Event::Continue)),
            _ => (m1, Outcome::Fault(m1.ip, msg_add_operands())),
        },
        OpCode::Subtract | OpCode::Multiply | OpCode::Divide | OpCode::Greater | OpCode::Less =>
            if is_number(a) && is_number(top) {
                (m2, Outcome::Event(Event::Arithmetic(op, number_of(a), number_of(top))))
            } else {
                (m1, Outcome::Fault(m1.ip, msg_number_operands()))
            },
        OpCode::Not => (VmModel { stack: m.stack.drop_last().push(ValueModel::Bool(spec_is_falsey(top))), ..m1 }, Outcome::Event(Event::Continue)),
        OpCode::Negate => if n > 0 && is_number(top) {
            (VmModel { stack: m.stack.drop_last(), ..m1 }, Outcome::Event(Event::Negate(number_of(top))))
        } else {
            (m1, Outcome::Fault(m1.ip, msg_number_operand()))
        },
        OpCode::Print => (VmModel { stack: m.stack.drop_last(), ..m1 }, Outcome::Event(Event::Print(top))),
        OpCode::Jump => (VmModel { ip: m1.ip + operand16(m), ..m1 }, Outcome::Event(Event::Continue)),
        OpCode::JumpIfFalse => (VmModel { ip: if n > 0 && spec_is_falsey(top) { m1.ip + operand16(m) } else { m1.ip }, ..m1 }, Outcome::Event(Event::Continue)),
        OpCode::Loop => (VmModel { ip: m1.ip - operand16(m), ..m1 }, Outcome::Event(Event::Continue)),
        OpCode::Return => (m1, Outcome::Event(Event::Return)),
    }
}

/// The instruction `write_constant` writes for a constant loads that
/// constant: run, it pushes it and moves past its operand.
pub proof fn law_constant_roundtrip(m: VmModel, index: int)
    requires
        0 <= index < m.constants.len(),
        index < 16777216,
        0 <= m.ip,
        index < 256 ==> m.ip + 2 <= m.code.len()
            && m.code.subrange(m.ip, m.ip + 2) == seq![opcode_byte(OpCode::Constant), index as u8],
        index >= 256 ==> m.ip + 4 <= m.code.len()
            && m.code.subrange(m.ip, m.ip + 4) == seq![
                opcode_byte(OpCode::ConstantLong),
                ((index / 65536) % 256) as u8,
                ((index / 256) % 256) as u8,
                (index % 256) as u8,
            ],
    ensures
        ready_to_step(m),
        next(m).0.stack == m.stack.push(m.constants[index]),
        next(m).0.ip == m.ip + if index < 256 { 2int } else { 4int },
        next(m).1 == Outcome::Event(Event::Continue),
{
    law_opcode_roundtrip(OpCode::Constant);
    law_opcode_roundtrip(OpCode::ConstantLong);
    if index < 256 {
        assert(m.code[m.ip] == m.code.subrange(m.ip, m.ip + 2)[0]);
        assert(m.code[m.ip + 1] == m.code.subrange(m.ip, m.ip + 2)[1]);
    } else {
        lemma_long_index(index);
        assert(m.code[m.ip] == m.code.subrange(m.ip, m.ip + 4)[0]);
        assert(m.code[m.ip + 1] == m.code.subrange(m.ip, m.ip + 4)[1]);
        assert(m.code[m.ip + 2] == m.code.subrange(m.ip, m.ip + 4)[2]);
        assert(m.code[m.ip + 3] == m.code.subrange(m.ip, m.ip + 4)[3]);
    }
}

/// A global read right after the global is defined gives back the value it
/// was defined with.
pub proof fn law_get_global_after_define(m: VmModel)
    requires
        ready_to_step(m),
        opcode_of(m.code[m.ip]) == OpCode::DefineGlobal,
        m.constants[byte(m, 1) as int] is Str,
        ready_to_step(next(m).0),
        opcode_of(next(m).0.code[next(m).0.ip]) == OpCode::GetGlobal,
        next(m).0.constants[byte(next(m).0, 1) as int] == m.constants[byte(m, 1) as int],
    ensures
        next(m).1 == Outcome::Event(Event::Continue),
        next(next(m).0).1 == Outcome::Event(Event::Continue),
        next(next(m).0).0.stack == m.stack.drop_last().push(m.stack.last()),
{
}

/// Appends bytes to a byte string.
fn append_bytes(v: &mut Vec<u8>, s: &[u8])
    ensures
        final(v)@ == old(v)@ + s@,
{
    let mut i: usize = 0;
    while i < s.len()
        invariant
            i <= s@.len(),
            v@ == old(v)@ + s@.subrange(0, i as int),
        decreases s@.len() - i,
    {
        v.push(s[i]);
        i = i + 1;
        assert(v@ =~= old(v)@ + s@.subrange(0, i as int));
    }
    assert(s@.subrange(0, s@.len() as int) =~= s@);
}

fn undefined_variable(ip: usize, name: &[u8]) -> (e: Error)
    ensures
        e matches Error::Runtime(r) && r.ip == ip && r.message@ == msg_undefined(name@),
{
    let mut m = vstd::slice::slice_to_vec("Undefined variable '".as_bytes());
    append_bytes(&mut m, name);
    append_bytes(&mut m, "'".as_bytes());
    Error::Runtime(RuntimeError::new(ip, m.as_slice()))
}

/// A stack-based virtual machine for chunks of bytecode.
pub struct VM {
    pub chunk: Chunk,
    pub ip: usize,
    pub strings: StringInterner<()>,
    pub globals: Table<Value>,
    pub stack: Vec<Value>,
}

impl View for VM {
    type V = VmModel;

    open spec fn view(&self) -> VmModel {
        VmModel {
            code: self.chunk.code@,
            constants: values_model(self.chunk.constants.values@),
            ip: self.ip as int,
            stack: values_model(self.stack@),
            globals: globals_model(self.globals.view()),
            strings: self.strings@,
        }
    }
}

impl VM {
    pub open spec fn wf(&self) -> bool {
        &&& self.strings.wf()
        &&& self.globals.wf()
    }

    pub fn new() -> (vm: Self)
        ensures
            vm.wf(),
            vm.chunk.wf(),
            vm@.code.len() == 0,
            vm.chunk.lines@.len() == 0,
            vm@.constants.len() == 0,
            vm.ip == 0,
            vm@.stack.len() == 0,
            vm@.globals == Map::<Seq<u8>, ValueModel>::empty(),
            vm@.strings == Map::<Seq<u8>, ()>::empty(),
    {
        let vm = Self {
            chunk: Chunk::new(),
            ip: 0,
            strings: StringInterner::new(),
            globals: Table::new(),
            stack: Vec::new(),
        };
        assert(vm@.stack =~= Seq::<ValueModel>::empty());
        assert(vm@.constants =~= Seq::<ValueModel>::empty());
        assert(vm@.globals =~= Map::<Seq<u8>, ValueModel>::empty());
        vm
    }

    /// Compiles `source` into the machine's chunk and resets the
    /// instruction pointer and the stack; the globals and interned strings
    /// are kept. The program then runs by repeated `step`s.
    pub fn interpret(&mut self, source: &str) -> (r: Result<(), Error>)
        requires
            old(self).wf(),
            source.spec_bytes().len() < i32::MAX - 1,
        ensures
            final(self).wf(),
            final(self).globals == old(self).globals,
            final(self)@.strings == old(self)@.strings,
            r is Ok ==> {
                &&& final(self).chunk.wf()
                &&& final(self).ip == 0
                &&& final(self)@.stack.len() == 0
                &&& crate::bytecode::chunk::decodes(final(self)@.code, final(self)@.constants.len() as int)
                &&& final(self)@.code.len() > 0
                &&& final(self)@.code.last() == crate::bytecode::common::opcode_byte(OpCode::Return)
                &&& final(self)@.code == compiled_chunk(source.spec_bytes()).code
                &&& final(self).chunk.lines@ == compiled_chunk(source.spec_bytes()).lines
                &&& final(self)@.constants == compiled_chunk(source.spec_bytes()).consts
            },
            r is Err <==> !adv_ok(source.spec_bytes(), start_model().cursor),
    {
        let mut strings = StringInterner::new();
        std::mem::swap(&mut strings, &mut self.strings);
        let mut compiler = Compiler::new(source, strings);
        let result = compiler.compile();
        std::mem::swap(&mut compiler.strings, &mut self.strings);
        result?;
        self.chunk = compiler.chunk;
        self.ip = 0;
        self.stack.clear();
        assert(self@.stack =~= Seq::<ValueModel>::empty());
        Ok(())
    }

    pub fn push(&mut self, value: Value)
        ensures
            final(self)@ == (VmModel { stack: old(self)@.stack.push(value@), ..old(self)@ }),
            final(self).stack@ == old(self).stack@.push(value),
            final(self).ip == old(self).ip,
            final(self).chunk == old(self).chunk,
            final(self).strings == old(self).strings,
            final(self).globals == old(self).globals,
    {
        self.stack.push(value);
        assert(self@.stack =~= old(self)@.stack.push(value@));
    }

    pub fn pop(&mut self) -> (v: Value)
        requires
            old(self).stack@.len() > 0,
        ensures
            v@ == old(self)@.stack.last(),
            v == old(self).stack@.last(),
            final(self).stack@ == old(self).stack@.drop_last(),
            final(self).ip == old(self).ip,
            final(self)@ == (VmModel { stack: old(self)@.stack.drop_last(), ..old(self)@ }),
            final(self).chunk == old(self).chunk,
            final(self).strings == old(self).strings,
            final(self).globals == old(self).globals,
    {
        let v = self.stack.pop().unwrap();
        assert(self@.stack =~= old(self)@.stack.drop_last());
        v
    }

    fn read_byte(&mut self) -> (b: u8)
        requires
            old(self).ip < old(self).chunk.code@.len(),
        ensures
            b == old(self).chunk.code@[old(self).ip as int],
            final(self).ip == old(self).ip + 1,
            final(self).chunk == old(self).chunk,
            final(self).stack == old(self).stack,
            final(self).strings == old(self).strings,
            final(self).globals == old(self).globals,
    {
        let _n = self.chunk.code.len();
        self.ip = self.ip + 1;
        self.chunk.code[self.ip - 1]
    }

    fn read_u16(&mut self) -> (v: u16)
        requires
            old(self).ip + 2 <= old(self).chunk.code@.len(),
        ensures
            v == old(self).chunk.code@[old(self).ip as int] * 256 + old(self).chunk.code@[old(self).ip + 1],
            final(self).ip == old(self).ip + 2,
            final(self).chunk == old(self).chunk,
            final(self).stack == old(self).stack,
            final(self).strings == old(self).strings,
            final(self).globals == old(self).globals,
    {
        let _n = self.chunk.code.len();
        self.ip = self.ip + 2;
        let hi = self.chunk.code[self.ip - 2] as u16;
        let lo = self.chunk.code[self.ip - 1] as u16;
        hi * 256 + lo
    }

    fn read_constant(&mut self) -> (v: Value)
        requires
            old(self).ip < old(self).chunk.code@.len(),
            old(self).chunk.code@[old(self).ip as int] < old(self).chunk.constants.values@.len(),
        ensures
            v@ == old(self)@.constants[old(self).chunk.code@[old(self).ip as int] as int],
            final(self).ip == old(self).ip + 1,
            final(self).chunk == old(self).chunk,
            final(self).stack == old(self).stack,
            final(self).strings == old(self).strings,
            final(self).globals == old(self).globals,
    {
        let index = self.read_byte() as usize;
        self.chunk.constants.values[index].duplicate()
    }

    fn read_constant_long(&mut self) -> (v: Value)
        requires
            old(self).ip + 3 <= old(self).chunk.code@.len(),
            long_index(old(self).chunk.code@[old(self).ip as int], old(self).chunk.code@[old(self).ip + 1],
                old(self).chunk.code@[old(self).ip + 2]) < old(self).chunk.constants.values@.len(),
        ensures
            v@ == old(self)@.constants[long_index(old(self).chunk.code@[old(self).ip as int],
                old(self).chunk.code@[old(self).ip + 1], old(self).chunk.code@[old(self).ip + 2])],
            final(self).ip == old(self).ip + 3,
            final(self).chunk == old(self).chunk,
            final(self).stack == old(self).stack,
            final(self).strings == old(self).strings,
            final(self).globals == old(self).globals,
    {
        let byte1 = self.read_byte() as usize;
        let byte2 = self.read_byte() as usize;
        let byte3 = self.read_byte() as usize;
        let constant = byte1 * 65536 + byte2 * 256 + byte3;
        self.chunk.constants.values[constant].duplicate()
    }

    /// Whether the next instruction can run (see `ready_to_step`).
    pub fn can_step(&self) -> (b: bool)
        requires
            self.wf(),
        ensures
            b == ready_to_step(self@),
    {
        let code = &self.chunk.code;
        let n = code.len();
        let ip = self.ip;
        if ip >= n || code[ip] >= OPCODE_COUNT {
            return false;
        }
        let op = OpCode::from_byte(code[ip]);
        let len: usize = match op {
            OpCode::ConstantLong => 4,
            OpCode::Constant | OpCode::GetLocal | OpCode::SetLocal | OpCode::GetGlobal
            | OpCode::DefineGlobal | OpCode::SetGlobal => 2,
            OpCode::Jump | OpCode::JumpIfFalse | OpCode::Loop => 3,
            _ => 1,
        };
        if len > n - ip {
            return false;
        }
        let nconst = self.chunk.constants.values.len();
        let depth = self.stack.len();
        match op {
            OpCode::Constant | OpCode::GetGlobal => (code[ip + 1] as usize) < nconst,
            OpCode::ConstantLong => (code[ip + 1] as usize) * 65536 + (code[ip + 2] as usize) * 256 + (code[ip + 3] as usize) < nconst,
            OpCode::Pop | OpCode::Not | OpCode::Print => depth > 0,
            OpCode::DefineGlobal => (code[ip + 1] as usize) < nconst && depth > 0,
            OpCode::SetGlobal => {
                let index = code[ip + 1] as usize;
                if index >= nconst {
                    return false;
                }
                match &self.chunk.constants.values[index] {
                    Value::Obj(Obj::String(name)) => self.globals.get(name.as_slice()).is_none() || depth > 0,
                    _ => true,
                }
            },
            OpCode::GetLocal | OpCode::SetLocal => (code[ip + 1] as usize) < depth,
            OpCode::Equal | OpCode::Add | OpCode::Subtract | OpCode::Multiply | OpCode::Divide
            | OpCode::Greater | OpCode::Less => depth >= 2,
            OpCode::Jump | OpCode::JumpIfFalse => {
                let offset = (code[ip + 1] as usize) * 256 + (code[ip + 2] as usize);
                offset <= usize::MAX - 3 - ip
            },
            OpCode::Loop => {
                let offset = (code[ip + 1] as usize) * 256 + (code[ip + 2] as usize);
                offset <= ip + 3
            },
            _ => true,
        }
    }

    /// Pops the two operands of a binary operator: two strings are joined
    /// and interned here; two numbers are handed out for the arithmetic.
    fn binary_op(&mut self, op: OpCode) -> (r: Result<Step, Error>)
        requires
            old(self).wf(),
            old(self).stack@.len() >= 2,
            op == OpCode::Add || op == OpCode::Subtract || op == OpCode::Multiply
                || op == OpCode::Divide || op == OpCode::Greater || op == OpCode::Less,
            ({
                let a = old(self)@.stack[old(self)@.stack.len() - 2];
                let b = old(self)@.stack.last();
                (is_number(a) && is_number(b)) || (op == OpCode::Add && a is Str && b is Str)
            }),
        ensures
            final(self).wf(),
            final(self).chunk == old(self).chunk,
            final(self).ip == old(self).ip,
            final(self).globals == old(self).globals,
            ({
                let m = old(self)@;
                let n = m.stack.len();
                let a = m.stack[n - 2];
                let b = m.stack[n - 1];
                let rest = m.stack.subrange(0, n - 2);
                match (a, b) {
                    (ValueModel::Str(x), ValueModel::Str(y)) => {
                        &&& r matches Ok(s) && s@ == Event::Continue
                        &&& final(self)@.stack == rest.push(ValueModel::Str(x + y))
                        &&& final(self)@.strings == if m.strings.contains_key(x + y) { m.strings } else { m.strings.insert(x + y, ()) }
                    },
                    _ => {
                        &&& r matches Ok(s) && s@ == Event::Arithmetic(op, number_of(a), number_of(b))
                        &&& final(self)@.stack == rest
                        &&& final(self)@.strings == m.strings
                    },
                }
            }),
    {
        let b = self.pop();
        let a = self.pop();
        proof {
            assert(old(self)@.stack.drop_last().drop_last() =~= old(self)@.stack.subrange(0, old(self)@.stack.len() - 2));
        }
        match (a, b) {
            (Value::Obj(Obj::String(x)), Value::Obj(Obj::String(y))) => {
                let mut value = vstd::slice::slice_to_vec(x.as_slice());
                append_bytes(&mut value, y.as_slice());
                let s = self.strings.intern(value.as_slice(), ());
                self.push(Value::Obj(Obj::String(s)));
                Ok(Step::Continue)
            },
            (Value::Number(x), Value::Number(y)) => Ok(Step::Arithmetic(op, x, y)),
            _ => {
                proof { assert(false); }
                Ok(Step::Continue)
            },
        }
    }

    /// Runs the instruction at `ip`: the machine moves to the state `next`
    /// gives, and the step says what `next` asks for, or the fault it raises.
    pub fn step(&mut self) -> (r: Result<Step, Error>)
        requires
            old(self).wf(),
            ready_to_step(old(self)@),
        ensures
            final(self).wf(),
            final(self).chunk == old(self).chunk,
            ({
                let (m, o) = next(old(self)@);
                &&& final(self)@ == m
                &&& match o {
                    Outcome::Event(e) => r matches Ok(s) && s@ == e,
                    Outcome::Fault(ip, msg) => r matches Err(Error::Runtime(err)) && err.ip == ip && err.message@ == msg,
                }
            }),
    {
        let ghost m = self@;
        let ghost len = instr_len(self.chunk.code@[self.ip as int]);
        let byte0 = self.read_byte();
        let instruction = byte0.as_opcode();
        let ghost m1 = VmModel { ip: m.ip + len, ..m };
        match instruction {
            OpCode::Constant => {
                let constant = self.read_constant();
                self.push(constant);
                Ok(Step::Continue)
            },
            OpCode::ConstantLong => {
                let constant = self.read_constant_long();
                self.push(constant);
                Ok(Step::Continue)
            },
            OpCode::Nil => {
                self.push(Value::Nil);
                Ok(Step::Continue)
            },
            OpCode::True => {
                self.push(Value::Bool(true));
                Ok(Step::Continue)
            },
            OpCode::False => {
                self.push(Value::Bool(false));
                Ok(Step::Continue)
            },
            OpCode::Pop => {
                self.pop();
                Ok(Step::Continue)
            },
            OpCode::GetLocal => {
                let slot = self.read_byte() as usize;
                let v = self.stack[slot].duplicate();
                self.push(v);
                Ok(Step::Continue)
            },
            OpCode::SetLocal => {
                let slot = self.read_byte() as usize;
                let n = self.stack.len();
                let v = self.stack[n - 1].duplicate();
                self.stack.set(slot, v);
                assert(self@.stack =~= m.stack.update(slot as int, m.stack[m.stack.len() - 1]));
                Ok(Step::Continue)
            },
            OpCode::GetGlobal => {
                let name = self.read_constant();
                if let Value::Obj(Obj::String(name)) = name {
                    match self.globals.get(name.as_slice()) {
                        Some(value) => {
                            let v = value.duplicate();
                            self.push(v);
                        },
                        None => {
                            return Err(undefined_variable(self.ip, name.as_slice()));
                        },
                    }
                }
                Ok(Step::Continue)
            },
            OpCode::DefineGlobal => {
                let name = self.read_constant();
                let value = self.pop();
                if let Value::Obj(Obj::String(name)) = name {
                    let ghost g = self.globals.view();
                    self.globals.insert(name.as_slice(), value);
                    assert(self@.globals =~= m.globals.insert(name@, m.stack.last()));
                    Ok(Step::Continue)
                } else {
                    Err(Error::Runtime(RuntimeError::new(self.ip, "Global name must be a string.".as_bytes())))
                }
            },
            OpCode::SetGlobal => {
                let name = self.read_constant();
                if let Value::Obj(Obj::String(name)) = name {
                    if self.globals.get(name.as_slice()).is_none() {
                        return Err(undefined_variable(self.ip, name.as_slice()));
                    } else {
                        let n = self.stack.len();
                        let v = self.stack[n - 1].duplicate();
                        self.globals.insert(name.as_slice(), v);
                        assert(self@.globals =~= m.globals.insert(name@, m.stack.last()));
                    }
                }
                Ok(Step::Continue)
            },
            OpCode::Equal => {
                let b = self.pop();
                let a = self.pop();
                proof {
                    assert(m.stack.drop_last().drop_last() =~= m.stack.subrange(0, m.stack.len() - 2));
                }
                match a.eq(&b) {
                    Some(e) => {
                        self.push(Value::Bool(e));
                        Ok(Step::Continue)
                    },
                    None => {
                        match (a, b) {
                            (Value::Number(x), Value::Number(y)) => Ok(Step::Arithmetic(OpCode::Equal, x, y)),
                            _ => {
                                proof { assert(false); }
                                Ok(Step::Continue)
                            },
                        }
                    },
                }
            },
            OpCode::Add => {
                let n = self.stack.len();
                let ok = match (&self.stack[n - 1], &self.stack[n - 2]) {
                    (Value::Number(_), Value::Number(_)) | (Value::Obj(_), Value::Obj(_)) => true,
                    _ => false,
                };
                if !ok {
                    return Err(Error::Runtime(RuntimeError::new(self.ip, "Operands must be two numbers or two strings.".as_bytes())));
                }
                self.binary_op(instruction)
            },
            OpCode::Subtract | OpCode::Multiply | OpCode::Divide | OpCode::Greater | OpCode::Less => {
                let n = self.stack.len();
                let ok = match (&self.stack[n - 1], &self.stack[n - 2]) {
                    (Value::Number(_), Value::Number(_)) => true,
                    _ => false,
                };
                if !ok {
                    return Err(Error::Runtime(RuntimeError::new(self.ip, "Operands must be numbers.".as_bytes())));
                }
                self.binary_op(instruction)
            },
            OpCode::Not => {
                let value = self.pop();
                self.push(value.not());
                Ok(Step::Continue)
            },
            OpCode::Negate => {
                let n = self.stack.len();
                let is_num = n > 0 && match &self.stack[n - 1] {
                    Value::Number(_) => true,
                    _ => false,
                };
                if is_num {
                    let value = self.pop();
                    match value {
                        Value::Number(x) => Ok(Step::Negate(x)),
                        _ => {
                            proof { assert(false); }
                            Ok(Step::Continue)
                        },
                    }
                } else {
                    Err(Error::Runtime(RuntimeError::new(self.ip, "Operand must be a number.".as_bytes())))
                }
            },
            OpCode::Print => {
                let v = self.pop();
                Ok(Step::Print(v))
            },
            OpCode::Jump => {
                let offset = self.read_u16() as usize;
                self.ip = self.ip + offset;
                Ok(Step::Continue)
            },
            OpCode::JumpIfFalse => {
                let offset = self.read_u16() as usize;
                let n = self.stack.len();
                if n > 0 && self.stack[n - 1].is_falsey() {
                    self.ip = self.ip + offset;
                }
                Ok(Step::Continue)
            },
            OpCode::Loop => {
                let offset = self.read_u16() as usize;
                self.ip = self.ip - offset;
                Ok(Step::Continue)
            },
            OpCode::Return => Ok(Step::Return),
        }
    }
}

/// A binary instruction on two numbers takes its operands in stack order:
/// the left operand is the value below the top (pushed first) and the
/// right operand the top. It removes both and asks the caller to apply the
/// operator to them, left first; so `Subtract` on `[.., a, b]` asks for
/// `a - b`.
pub proof fn law_binary_operands_in_stack_order(m: VmModel, op: OpCode, x: NumberModel, y: NumberModel)
    requires
        0 <= m.ip < m.code.len(),
        m.code[m.ip] == opcode_byte(op),
        op == OpCode::Add || op == OpCode::Subtract || op == OpCode::Multiply || op == OpCode::Divide
            || op == OpCode::Greater || op == OpCode::Less || op == OpCode::Equal,
        m.stack.len() >= 2,
        m.stack[m.stack.len() - 2] == ValueModel::Number(x),
        m.stack.last() == ValueModel::Number(y),
    ensures
        next(m) == (
            VmModel { stack: m.stack.subrange(0, m.stack.len() - 2), ip: m.ip + 1, ..m },
            Outcome::Event(Event::Arithmetic(op, x, y)),
        ),
{
    law_opcode_roundtrip(op);
}

/// `Not` replaces a boolean on top of the stack by its negation.
pub proof fn law_not_negates(m: VmModel, b: bool)
    requires
        0 <= m.ip < m.code.len(),
        m.code[m.ip] == opcode_byte(OpCode::Not),
        m.stack.len() >= 1,
        m.stack.last() == ValueModel::Bool(b),
    ensures
        next(m) == (
            VmModel { stack: m.stack.drop_last().push(ValueModel::Bool(!b)), ip: m.ip + 1, ..m },
            Outcome::Event(Event::Continue),
        ),
{
    law_opcode_roundtrip(OpCode::Not);
}

/// The code of `<=`, `>=` and `!=` computes the negation of the opposite
/// comparison: run on two numbers `x` and `y`, it first asks the caller for
/// `x > y`, `x < y` or `x == y` respectively, and once the caller has
/// pushed that answer `g`, leaves `!g`. So `x <= y` is true exactly when
/// `x > y` is false.
pub proof fn law_negated_comparison_runs(m: VmModel, t: TokenType, x: NumberModel, y: NumberModel, g: bool)
    requires
        t == TokenType::LessEqual || t == TokenType::GreaterEqual || t == TokenType::BangEqual,
        0 <= m.ip,
        m.ip + 2 <= m.code.len(),
        m.code.subrange(m.ip, m.ip + 2) == binary_code(t),
        m.stack.len() >= 2,
        m.stack[m.stack.len() - 2] == ValueModel::Number(x),
        m.stack.last() == ValueModel::Number(y),
    ensures
        ({
            let asked = if t == TokenType::LessEqual {
                OpCode::Greater
            } else if t == TokenType::GreaterEqual {
                OpCode::Less
            } else {
                OpCode::Equal
            };
            let (m1, o1) = next(m);
            let answered = VmModel { stack: m1.stack.push(ValueModel::Bool(g)), ..m1 };
            &&& o1 == Outcome::Event(Event::Arithmetic(asked, x, y))
            &&& m1.ip == m.ip + 1
            &&& next(answered) == (
                VmModel { stack: m1.stack.push(ValueModel::Bool(!g)), ip: m.ip + 2, ..m1 },
                Outcome::Event(Event::Continue),
            )
        }),
{
    let code = m.code.subrange(m.ip, m.ip + 2);
    assert(m.code[m.ip] == code[0]);
    assert(m.code[m.ip + 1] == code[1]);
    let asked = if t == TokenType::LessEqual {
        OpCode::Greater
    } else if t == TokenType::GreaterEqual {
        OpCode::Less
    } else {
        OpCode::Equal
    };
    law_binary_operands_in_stack_order(m, asked, x, y);
    let m1 = next(m).0;
    let answered = VmModel { stack: m1.stack.push(ValueModel::Bool(g)), ..m1 };
    law_not_negates(answered, g);
    assert(answered.stack.drop_last() =~= m1.stack);
}

} // verus!
