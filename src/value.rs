use vstd::prelude::*;

verus! {

/// The sign bit of an IEEE-754 double.
pub const SIGN_BIT: u64 = 0x8000_0000_0000_0000;

/// A runtime value. The one variant is a double-precision number, held as its
/// IEEE-754 bit pattern.
#[derive(Clone, Copy, Debug, PartialEq, Eq, Structural)]
pub enum Value {
    Number(u64),
}

/// The arithmetic negation of a number: the same pattern with the sign bit
/// flipped, as IEEE-754 defines `negate`.
pub open spec fn negated(v: Value) -> Value {
    match v {
        Value::Number(bits) => Value::Number(bits ^ SIGN_BIT),
    }
}

impl Value {
    /// Negates the number.
    pub fn negate(self) -> (r: Value)
        ensures
            r == negated(self),
    {
        match self {
            Value::Number(bits) => Value::Number(bits ^ SIGN_BIT),
        }
    }

    /// The IEEE-754 bit pattern of the number.
    pub fn bits(self) -> (r: u64)
        ensures
            self == Value::Number(r),
    {
        match self {
            Value::Number(bits) => bits,
        }
    }
}

/// An append-only sequence of values: the constant pool of a chunk.
pub struct ValueArray {
    pub values: Vec<Value>,
}

impl ValueArray {
    pub fn new() -> (r: ValueArray)
        ensures
            r.values@ == Seq::<Value>::empty(),
    {
        ValueArray { values: Vec::new() }
    }

    /// Appends `value` at the end.
    pub fn write_value_array(&mut self, value: Value)
        ensures
            final(self).values@ == old(self).values@.push(value),
    {
        self.values.push(value);
    }
}

} // verus!
