use vstd::prelude::*;
use vstd::std_specs::cmp::PartialEqSpecImpl;
use vstd::string::*;

use crate::text::str_eq;

use super::opcodes::OpCode;

verus! {

/// A value of the machine. A number is held as the 64 bits of its IEEE 754
/// double-precision encoding: the machine moves, compares and negates
/// numbers by their bits and leaves their arithmetic to its host.
#[derive(Clone, Copy, Debug)]
pub enum Value {
    Number(u64),
    Literal(&'static str),
    Empty,
}

/// The bit that holds the sign of a number.
pub const SIGN_BIT: u64 = 0x8000_0000_0000_0000;

/// The bits that hold the exponent of a number.
pub const EXPONENT_BITS: u64 = 0x7ff0_0000_0000_0000;

/// The bits that hold the fraction of a number.
pub const FRACTION_BITS: u64 = 0x000f_ffff_ffff_ffff;

/// Whether the bits encode no number: all exponent bits are set and the
/// fraction is not zero.
pub open spec fn is_nan(bits: u64) -> bool {
    bits & EXPONENT_BITS == EXPONENT_BITS && bits & FRACTION_BITS != 0
}

/// Whether the bits encode zero, of either sign.
pub open spec fn is_zero(bits: u64) -> bool {
    bits & !SIGN_BIT == 0
}

/// Whether two encodings are the same number: what encodes no number is
/// equal to whatever else encodes none, the two zeros are equal, and any
/// other number is equal to itself alone.
pub open spec fn same_number(a: u64, b: u64) -> bool {
    if is_nan(a) {
        is_nan(b)
    } else {
        a == b || (is_zero(a) && is_zero(b))
    }
}

/// The encoding of the negated number: the sign bit is flipped.
pub open spec fn negated(bits: u64) -> u64 {
    bits ^ SIGN_BIT
}

/// Whether two values are equal: two numbers that are the same number, two
/// literals of the same text, or two empty values.
pub open spec fn same_value(a: Value, b: Value) -> bool {
    match (a, b) {
        (Value::Number(x), Value::Number(y)) => same_number(x, y),
        (Value::Literal(x), Value::Literal(y)) => x@ == y@,
        (Value::Empty, Value::Empty) => true,
        _ => false,
    }
}

fn is_nan_bits(bits: u64) -> (r: bool)
    ensures
        r == is_nan(bits),
{
    bits & EXPONENT_BITS == EXPONENT_BITS && bits & FRACTION_BITS != 0
}

fn is_zero_bits(bits: u64) -> (r: bool)
    ensures
        r == is_zero(bits),
{
    bits & !SIGN_BIT == 0
}

impl PartialEq for Value {
    fn eq(&self, other: &Self) -> (r: bool) {
        match (self, other) {
            (Value::Number(x), Value::Number(y)) => {
                if is_nan_bits(*x) {
                    is_nan_bits(*y)
                } else {
                    *x == *y || (is_zero_bits(*x) && is_zero_bits(*y))
                }
            },
            (Value::Literal(x), Value::Literal(y)) => str_eq(x, y),
            (Value::Empty, Value::Empty) => true,
            _ => false,
        }
    }
}

impl PartialEqSpecImpl for Value {
    open spec fn obeys_eq_spec() -> bool {
        true
    }

    open spec fn eq_spec(&self, other: &Self) -> bool {
        same_value(*self, *other)
    }
}

impl Eq for Value {

}

impl Default for Value {
    fn default() -> (r: Self)
        ensures
            r == Value::Empty,
    {
        Value::Empty
    }
}

/// Why an operation on two values failed.
#[derive(Clone, Copy, Debug)]
pub enum ValueError {
    /// The operands are not two numbers.
    InvalidOperands { lhs: Value, rhs: Value },
    /// The divisor is zero.
    DivisionByZero,
}

impl ValueError {
    /// The message that reports the error.
    pub open spec fn text(self) -> Seq<char> {
        match self {
            ValueError::InvalidOperands { lhs, rhs } => "'"@ + lhs.kind_name() + "' + '"@
                + rhs.kind_name() + "' is not a valid operation"@,
            ValueError::DivisionByZero => "right hand side of the division is 0"@,
        }
    }

    /// The message that reports the error.
    pub fn to_string(&self) -> (r: String)
        ensures
            r@ == self.text(),
    {
        match self {
            ValueError::InvalidOperands { lhs, rhs } => {
                let mut s = String::from_str("'");
                s.append(lhs.value_type());
                s.append("' + '");
                s.append(rhs.value_type());
                s.append("' is not a valid operation");
                s
            },
            ValueError::DivisionByZero => String::from_str("right hand side of the division is 0"),
        }
    }
}

/// An arithmetic operation on two numbers, by their encodings. The machine
/// hands it to its host, which computes it in floating point.
#[derive(Clone, Copy, Debug, PartialEq, Eq, Structural)]
pub struct Operation {
    /// one of `Add`, `Subtract`, `Multiply` and `Divide`
    pub op: OpCode,
    pub lhs: u64,
    pub rhs: u64,
}

/// What a binary instruction makes of two operands: the operation that is
/// left to compute where both are numbers and, for a division, the divisor
/// is not zero; the error otherwise.
pub open spec fn operation_on(op: OpCode, lhs: Value, rhs: Value) -> Result<
    Operation,
    ValueError,
> {
    match (lhs, rhs) {
        (Value::Number(l), Value::Number(r)) => if op == OpCode::Divide && is_zero(r) {
            Err(ValueError::DivisionByZero)
        } else {
            Ok(Operation { op, lhs: l, rhs: r })
        },
        _ => Err(ValueError::InvalidOperands { lhs, rhs }),
    }
}

impl Value {
    /// The name of the kind of the value.
    pub open spec fn kind_name(self) -> Seq<char> {
        match self {
            Value::Number(_) => "number"@,
            Value::Literal(_) => "string literal"@,
            Value::Empty => "nil"@,
        }
    }

    /// The name of the kind of the value.
    pub fn value_type(&self) -> (r: &'static str)
        ensures
            r@ == self.kind_name(),
    {
        match self {
            Value::Number(_) => "number",
            Value::Literal(_) => "string literal",
            Value::Empty => "nil",
        }
    }

    /// The sum of two numbers, as the operation that is left to compute.
    pub fn add(self, rhs: Self) -> (r: Result<Operation, ValueError>)
        ensures
            r == operation_on(OpCode::Add, self, rhs),
    {
        match (self, rhs) {
            (Value::Number(l), Value::Number(r)) => Ok(
                Operation { op: OpCode::Add, lhs: l, rhs: r },
            ),
            _ => Err(ValueError::InvalidOperands { lhs: self, rhs }),
        }
    }

    /// The difference of two numbers, as the operation that is left to
    /// compute.
    pub fn sub(self, rhs: Self) -> (r: Result<Operation, ValueError>)
        ensures
            r == operation_on(OpCode::Subtract, self, rhs),
    {
        match (self, rhs) {
            (Value::Number(l), Value::Number(r)) => Ok(
                Operation { op: OpCode::Subtract, lhs: l, rhs: r },
            ),
            _ => Err(ValueError::InvalidOperands { lhs: self, rhs }),
        }
    }

    /// The product of two numbers, as the operation that is left to
    /// compute.
    pub fn mult(self, rhs: Self) -> (r: Result<Operation, ValueError>)
        ensures
            r == operation_on(OpCode::Multiply, self, rhs),
    {
        match (self, rhs) {
            (Value::Number(l), Value::Number(r)) => Ok(
                Operation { op: OpCode::Multiply, lhs: l, rhs: r },
            ),
            _ => Err(ValueError::InvalidOperands { lhs: self, rhs }),
        }
    }

    /// The quotient of two numbers, as the operation that is left to
    /// compute; an error where the divisor is zero.
    pub fn div(self, rhs: Self) -> (r: Result<Operation, ValueError>)
        ensures
            r == operation_on(OpCode::Divide, self, rhs),
    {
        match (self, rhs) {
            (Value::Number(l), Value::Number(r)) => {
                if is_zero_bits(r) {
                    return Err(ValueError::DivisionByZero);
                }
                Ok(Operation { op: OpCode::Divide, lhs: l, rhs: r })
            },
            _ => Err(ValueError::InvalidOperands { lhs: self, rhs }),
        }
    }

    /// The negated number; nothing where the value is no number.
    pub fn negate(self) -> (r: Option<Value>)
        ensures
            r == match self {
                Value::Number(n) => Some(Value::Number(negated(n))),
                _ => None,
            },
    {
        match self {
            Value::Number(n) => Some(Value::Number(n ^ SIGN_BIT)),
            _ => None,
        }
    }

    /// The text of the value, where the machine can give it: that of a
    /// literal, and `NONE` for the empty value. The text of a number is its
    /// host's to give.
    pub fn text(&self) -> (r: Option<String>)
        ensures
            match self {
                Value::Number(_) => r is None,
                Value::Literal(s) => r matches Some(t) && t@ == s@,
                Value::Empty => r matches Some(t) && t@ == "NONE"@,
            },
    {
        match self {
            Value::Number(_) => None,
            Value::Literal(s) => Some(String::from_str(s)),
            Value::Empty => Some(String::from_str("NONE")),
        }
    }
}

/// Negating twice gives the number back.
pub proof fn lemma_negated_twice(bits: u64)
    ensures
        negated(negated(bits)) == bits,
{
    assert((bits ^ 0x8000_0000_0000_0000u64) ^ 0x8000_0000_0000_0000u64 == bits) by (bit_vector);
}

} // verus!
