use vstd::prelude::*;

verus! {

/// The instructions of the virtual machine, one byte each.
#[derive(Clone, Copy, PartialEq, Eq, Structural, Debug)]
pub enum OpCode {
    Constant,
    ConstantLong,
    Nil,
    True,
    False,
    Add,
    Equal,
    Pop,
    GetLocal,
    SetLocal,
    GetGlobal,
    DefineGlobal,
    SetGlobal,
    Greater,
    Less,
    Subtract,
    Multiply,
    Divide,
    Not,
    Negate,
    Print,
    Jump,
    JumpIfFalse,
    Loop,
    Return,
}

/// Number of distinct opcodes; every byte below it names one.
pub const OPCODE_COUNT: u8 = 25;

/// The byte that encodes an opcode.
pub open spec fn opcode_byte(op: OpCode) -> u8 {
    match op {
        OpCode::Constant => 0,
        OpCode::ConstantLong => 1,
        OpCode::Nil => 2,
        OpCode::True => 3,
        OpCode::False => 4,
        OpCode::Add => 5,
        OpCode::Equal => 6,
        OpCode::Pop => 7,
        OpCode::GetLocal => 8,
        OpCode::SetLocal => 9,
        OpCode::GetGlobal => 10,
        OpCode::DefineGlobal => 11,
        OpCode::SetGlobal => 12,
        OpCode::Greater => 13,
        OpCode::Less => 14,
        OpCode::Subtract => 15,
        OpCode::Multiply => 16,
        OpCode::Divide => 17,
        OpCode::Not => 18,
        OpCode::Negate => 19,
        OpCode::Print => 20,
        OpCode::Jump => 21,
        OpCode::JumpIfFalse => 22,
        OpCode::Loop => 23,
        OpCode::Return => 24,
    }
}

/// The opcode a byte encodes; meaningful for bytes below `OPCODE_COUNT`.
pub open spec fn opcode_of(b: u8) -> OpCode {
    if b == 0 { OpCode::Constant }
    else if b == 1 { OpCode::ConstantLong }
    else if b == 2 { OpCode::Nil }
    else if b == 3 { OpCode::True }
    else if b == 4 { OpCode::False }
    else if b == 5 { OpCode::Add }
    else if b == 6 { OpCode::Equal }
    else if b == 7 { OpCode::Pop }
    else if b == 8 { OpCode::GetLocal }
    else if b == 9 { OpCode::SetLocal }
    else if b == 10 { OpCode::GetGlobal }
    else if b == 11 { OpCode::DefineGlobal }
    else if b == 12 { OpCode::SetGlobal }
    else if b == 13 { OpCode::Greater }
    else if b == 14 { OpCode::Less }
    else if b == 15 { OpCode::Subtract }
    else if b == 16 { OpCode::Multiply }
    else if b == 17 { OpCode::Divide }
    else if b == 18 { OpCode::Not }
    else if b == 19 { OpCode::Negate }
    else if b == 20 { OpCode::Print }
    else if b == 21 { OpCode::Jump }
    else if b == 22 { OpCode::JumpIfFalse }
    else if b == 23 { OpCode::Loop }
    else { OpCode::Return }
}

impl OpCode {
    /// The byte that encodes this opcode.
    pub fn as_byte(self) -> (b: u8)
        ensures
            b == opcode_byte(self),
            b < OPCODE_COUNT,
    {
        match self {
            OpCode::Constant => 0,
            OpCode::ConstantLong => 1,
            OpCode::Nil => 2,
            OpCode::True => 3,
            OpCode::False => 4,
            OpCode::Add => 5,
            OpCode::Equal => 6,
            OpCode::Pop => 7,
            OpCode::GetLocal => 8,
            OpCode::SetLocal => 9,
            OpCode::GetGlobal => 10,
            OpCode::DefineGlobal => 11,
            OpCode::SetGlobal => 12,
            OpCode::Greater => 13,
            OpCode::Less => 14,
            OpCode::Subtract => 15,
            OpCode::Multiply => 16,
            OpCode::Divide => 17,
            OpCode::Not => 18,
            OpCode::Negate => 19,
            OpCode::Print => 20,
            OpCode::Jump => 21,
            OpCode::JumpIfFalse => 22,
            OpCode::Loop => 23,
            OpCode::Return => 24,
        }
    }

    /// Decodes a byte; bytes from `OPCODE_COUNT` on name no opcode.
    pub fn from_byte(value: u8) -> (op: OpCode)
        requires
            value < OPCODE_COUNT,
        ensures
            op == opcode_of(value),
            opcode_byte(op) == value,
    {
        match value {
            0 => OpCode::Constant,
            1 => OpCode::ConstantLong,
            2 => OpCode::Nil,
            3 => OpCode::True,
            4 => OpCode::False,
            5 => OpCode::Add,
            6 => OpCode::Equal,
            7 => OpCode::Pop,
            8 => OpCode::GetLocal,
            9 => OpCode::SetLocal,
            10 => OpCode::GetGlobal,
            11 => OpCode::DefineGlobal,
            12 => OpCode::SetGlobal,
            13 => OpCode::Greater,
            14 => OpCode::Less,
            15 => OpCode::Subtract,
            16 => OpCode::Multiply,
            17 => OpCode::Divide,
            18 => OpCode::Not,
            19 => OpCode::Negate,
            20 => OpCode::Print,
            21 => OpCode::Jump,
            22 => OpCode::JumpIfFalse,
            23 => OpCode::Loop,
            _ => OpCode::Return,
        }
    }
}

/// Encoding an opcode and decoding the byte gives the opcode back.
pub proof fn law_opcode_roundtrip(op: OpCode)
    ensures
        opcode_byte(op) < OPCODE_COUNT,
        opcode_of(opcode_byte(op)) == op,
{
}

/// Decoding a valid byte and encoding the opcode gives the byte back.
pub proof fn law_byte_roundtrip(b: u8)
    requires
        b < OPCODE_COUNT,
    ensures
        opcode_byte(opcode_of(b)) == b,
{
}

/// Reading a byte as an instruction.
pub trait AsOpCode {
    spec fn spec_code(&self) -> u8;

    fn as_opcode(&self) -> (op: OpCode)
        requires
            self.spec_code() < OPCODE_COUNT,
        ensures
            op == opcode_of(self.spec_code()),
    ;
}

impl AsOpCode for u8 {
    open spec fn spec_code(&self) -> u8 {
        *self
    }

    fn as_opcode(&self) -> (op: OpCode) {
        OpCode::from_byte(*self)
    }
}

} // verus!
