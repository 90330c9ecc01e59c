use vstd::prelude::*;

use crate::bytecode::table::Table;
use crate::bytecode::token::Literal;

verus! {

/// A Lox number, a double-precision float. This library does no
/// floating-point arithmetic, so a number is carried either as the numeral
/// the source spelled or as the IEEE-754 bits of a computed result, and its
/// meaning is computed outside the library.
#[derive(Debug, Clone)]
pub enum Number {
    Numeral(Vec<u8>),
    Bits(u64),
}

#[derive(Debug, Clone)]
pub enum Obj {
    String(Vec<u8>),
}

#[derive(Debug, Clone)]
pub enum Value {
    Number(Number),
    Bool(bool),
    Nil,
    Obj(Obj),
}

/// The mathematical content of a number.
pub enum NumberModel {
    Numeral(Seq<u8>),
    Bits(u64),
}

/// The mathematical content of a value.
pub enum ValueModel {
    Number(NumberModel),
    Bool(bool),
    Nil,
    Str(Seq<u8>),
}

impl View for Number {
    type V = NumberModel;

    open spec fn view(&self) -> NumberModel {
        match self {
            Number::Numeral(s) => NumberModel::Numeral(s@),
            Number::Bits(b) => NumberModel::Bits(*b),
        }
    }
}

impl View for Value {
    type V = ValueModel;

    open spec fn view(&self) -> ValueModel {
        match self {
            Value::Number(n) => ValueModel::Number(n@),
            Value::Bool(b) => ValueModel::Bool(*b),
            Value::Nil => ValueModel::Nil,
            Value::Obj(Obj::String(s)) => ValueModel::Str(s@),
        }
    }
}

/// Only `false` and `nil` are false.
pub open spec fn spec_is_falsey(v: ValueModel) -> bool {
    match v {
        ValueModel::Bool(b) => !b,
        ValueModel::Nil => true,
        _ => false,
    }
}

/// Equality of two values, where it does not depend on the meaning of a
/// number: `None` when both are numbers.
pub open spec fn spec_equal(a: ValueModel, b: ValueModel) -> Option<bool> {
    match (a, b) {
        (ValueModel::Number(_), ValueModel::Number(_)) => None,
        (ValueModel::Bool(x), ValueModel::Bool(y)) => Some(x == y),
        (ValueModel::Nil, ValueModel::Nil) => Some(true),
        (ValueModel::Str(x), ValueModel::Str(y)) => Some(x == y),
        _ => Some(false),
    }
}

/// Only `nil` and `false` are false.
pub proof fn law_falsey(v: ValueModel)
    ensures
        spec_is_falsey(v) <==> (v == ValueModel::Nil || v == ValueModel::Bool(false)),
{
}

/// Equality does not depend on the order of its operands.
pub proof fn law_equal_symmetric(a: ValueModel, b: ValueModel)
    ensures
        spec_equal(a, b) == spec_equal(b, a),
{
}

/// A value equals itself, unless it is a number.
pub proof fn law_equal_reflexive(a: ValueModel)
    ensures
        !(a is Number) ==> spec_equal(a, a) == Some(true),
{
}

/// The strings of an interner after `s` is interned with `value`: a string
/// already there keeps its value.
pub open spec fn interned<T>(strings: Map<Seq<u8>, T>, s: Seq<u8>, value: T) -> Map<Seq<u8>, T> {
    if strings.contains_key(s) { strings } else { strings.insert(s, value) }
}

/// Interning is idempotent: a string interned once is there, with the value
/// of its first interning, and interning it again changes nothing.
pub proof fn law_intern_idempotent<T>(strings: Map<Seq<u8>, T>, s: Seq<u8>, first: T, second: T)
    ensures
        interned(strings, s, first).contains_key(s),
        interned(interned(strings, s, first), s, second) == interned(strings, s, first),
        !strings.contains_key(s) ==> interned(strings, s, first)[s] == first,
{
}

/// The value a literal token stands for.
pub open spec fn literal_value(l: Literal) -> ValueModel {
    match l {
        Literal::Number(s) => ValueModel::Number(NumberModel::Numeral(s@)),
        Literal::String(s) => ValueModel::Str(s@),
        Literal::Bool(b) => ValueModel::Bool(b),
        Literal::Nil => ValueModel::Nil,
    }
}

impl Number {
    pub fn duplicate(&self) -> (r: Number)
        ensures
            r@ == self@,
    {
        match self {
            Number::Numeral(s) => Number::Numeral(vstd::slice::slice_to_vec(s.as_slice())),
            Number::Bits(b) => Number::Bits(*b),
        }
    }
}

impl Value {
    /// A copy of this value.
    pub fn duplicate(&self) -> (r: Value)
        ensures
            r@ == self@,
    {
        match self {
            Value::Number(n) => Value::Number(n.duplicate()),
            Value::Bool(b) => Value::Bool(*b),
            Value::Nil => Value::Nil,
            Value::Obj(Obj::String(s)) => Value::Obj(Obj::String(vstd::slice::slice_to_vec(s.as_slice()))),
        }
    }

    pub fn is_falsey(&self) -> (r: bool)
        ensures
            r == spec_is_falsey(self@),
    {
        match self {
            Value::Bool(v) => !*v,
            Value::Nil => true,
            _ => false,
        }
    }

    /// Logical negation: `true` exactly for the false values.
    pub fn not(self) -> (r: Value)
        ensures
            r@ == ValueModel::Bool(spec_is_falsey(self@)),
    {
        let value = self.is_falsey();
        Value::Bool(value)
    }

    /// Equality as `==` in Lox, except between two numbers, whose
    /// comparison is floating-point and left to the caller (`None`).
    pub fn eq(&self, other: &Value) -> (r: Option<bool>)
        ensures
            r == spec_equal(self@, other@),
    {
        match (self, other) {
            (Value::Number(_), Value::Number(_)) => None,
            (Value::Bool(a), Value::Bool(b)) => Some(*a == *b),
            (Value::Nil, Value::Nil) => Some(true),
            (Value::Obj(Obj::String(a)), Value::Obj(Obj::String(b))) => Some(crate::bytecode::table::slice_eq(a.as_slice(), b.as_slice())),
            _ => Some(false),
        }
    }

    /// The value of a literal token.
    pub fn from_literal(value: &Literal) -> (r: Value)
        ensures
            r@ == literal_value(*value),
    {
        match value {
            Literal::Number(s) => Value::Number(Number::Numeral(vstd::slice::slice_to_vec(s.as_slice()))),
            Literal::String(s) => Value::Obj(Obj::String(vstd::slice::slice_to_vec(s.as_slice()))),
            Literal::Bool(b) => Value::Bool(*b),
            Literal::Nil => Value::Nil,
        }
    }
}

/// The constant pool of a chunk.
pub struct ValueArray {
    pub values: Vec<Value>,
}

impl ValueArray {
    pub fn new() -> (a: Self)
        ensures
            a.values@.len() == 0,
    {
        Self { values: Vec::new() }
    }
}

/// A set of strings, each stored once with a value attached.
pub struct StringInterner<T> {
    strings: Table<T>,
}

impl<T> StringInterner<T> {
    pub closed spec fn wf(&self) -> bool {
        self.strings.wf()
    }

    /// The interned strings, with their values.
    pub closed spec fn view(&self) -> Map<Seq<u8>, T> {
        self.strings.view()
    }

    pub fn new() -> (s: Self)
        ensures
            s.wf(),
            s@ == Map::<Seq<u8>, T>::empty(),
    {
        Self { strings: Table::new() }
    }

    pub fn get(&self, s: &[u8]) -> (r: Option<&T>)
        requires
            self.wf(),
        ensures
            match r {
                Some(v) => self@.contains_key(s@) && *v == self@[s@],
                None => !self@.contains_key(s@),
            },
    {
        self.strings.get(s)
    }

    pub fn get_mut(&mut self, s: &[u8]) -> (r: Option<&mut T>)
        requires
            old(self).wf(),
        ensures
            final(self).wf(),
            match r {
                Some(v) => {
                    &&& old(self)@.contains_key(s@)
                    &&& *v == old(self)@[s@]
                    &&& final(self)@ == old(self)@.insert(s@, *final(v))
                },
                None => !old(self)@.contains_key(s@) && final(self)@ == old(self)@,
            },
    {
        self.strings.get_mut(s)
    }

    /// The stored copy of `s`, storing it with `value` if it is new; a
    /// string already stored keeps its value.
    pub fn intern(&mut self, s: &[u8], value: T) -> (r: Vec<u8>)
        requires
            old(self).wf(),
        ensures
            final(self).wf(),
            r@ == s@,
            final(self)@ == interned(old(self)@, s@, value),
    {
        if self.strings.get(s).is_some() {
            return vstd::slice::slice_to_vec(s);
        }
        self.strings.insert(s, value);
        vstd::slice::slice_to_vec(s)
    }
}

} // verus!
