//! Tagged runtime values.
//!
//! A `Value` is either a 64-bit float (`Double`), a boolean, or `Nil`; the
//! `Unknown` sentinel marks uninitialized operand-stack slots and is never
//! observable by a well-typed program.
//!
//! Doubles are carried as their IEEE-754 binary64 bit patterns. Equality,
//! ordering and negation of doubles are decidable on the bit patterns alone
//! and are implemented here against bit-level specifications: a pattern is a
//! NaN when its magnitude bits exceed those of infinity, the two zeroes are
//! equal, NaN compares unequal to everything (itself included), and negation
//! flips the sign bit.

use vstd::prelude::*;

verus! {

/// Mask of the IEEE-754 binary64 sign bit.
pub const SIGN_MASK: u64 = 0x8000_0000_0000_0000;

/// Mask of the exponent and mantissa bits (everything but the sign).
pub const MAGNITUDE_MASK: u64 = 0x7fff_ffff_ffff_ffff;

/// Magnitude bits of positive infinity: all exponent bits set, mantissa zero.
/// A magnitude strictly above this is a NaN.
pub const INFINITY_MAGNITUDE: u64 = 0x7ff0_0000_0000_0000;

/// A runtime value. `Double` holds an IEEE-754 binary64 bit pattern.
#[derive(Debug, Clone, Copy, PartialEq, Eq, Structural)]
pub enum Value {
    Unknown,
    Double(u64),
    Bool(bool),
    Nil,
}

/// A double bit pattern denotes a NaN when its exponent bits are all ones
/// and its mantissa is non-zero.
pub open spec fn spec_is_nan(bits: u64) -> bool {
    bits & MAGNITUDE_MASK > INFINITY_MAGNITUDE
}

/// A double bit pattern denotes a zero (of either sign) when all bits but
/// the sign are clear.
pub open spec fn spec_is_zero_bits(bits: u64) -> bool {
    bits & MAGNITUDE_MASK == 0
}

/// IEEE-754 equality of two double bit patterns: false when either operand
/// is a NaN, true for any two zeroes, and bit equality otherwise.
pub open spec fn spec_double_eq(a: u64, b: u64) -> bool {
    &&& !spec_is_nan(a)
    &&& !spec_is_nan(b)
    &&& (a == b || (spec_is_zero_bits(a) && spec_is_zero_bits(b)))
}

/// IEEE-754 `<` on two double bit patterns: false when either operand is a
/// NaN or both are zeroes; otherwise sign-magnitude order. Two negatives
/// compare by reversed magnitude, a negative is below a positive, and two
/// positives compare by magnitude.
pub open spec fn spec_double_lt(a: u64, b: u64) -> bool {
    &&& !spec_is_nan(a)
    &&& !spec_is_nan(b)
    &&& !(spec_is_zero_bits(a) && spec_is_zero_bits(b))
    &&& {
        let negative_a = a & SIGN_MASK != 0;
        let negative_b = b & SIGN_MASK != 0;
        if negative_a && negative_b {
            b & MAGNITUDE_MASK < a & MAGNITUDE_MASK
        } else if !negative_a && !negative_b {
            a & MAGNITUDE_MASK < b & MAGNITUDE_MASK
        } else {
            negative_a
        }
    }
}

/// IEEE-754 `>` is `<` with the operands exchanged.
pub open spec fn spec_double_gt(a: u64, b: u64) -> bool {
    spec_double_lt(b, a)
}

/// IEEE-754 negation of a double bit pattern: the sign bit flips and
/// nothing else changes.
pub open spec fn spec_negated_bits(bits: u64) -> u64 {
    bits ^ SIGN_MASK
}

/// The only falsey values are `Nil` and `Bool(false)`; every other value,
/// a zero double included, is truthy.
pub open spec fn spec_falsey(v: Value) -> bool {
    match v {
        Value::Nil => true,
        Value::Bool(b) => !b,
        _ => false,
    }
}

/// Equality across all value variants: doubles by IEEE-754 equality,
/// booleans elementwise, `Nil` equal to itself, every mixed pair unequal.
pub open spec fn spec_value_eq(a: Value, b: Value) -> bool {
    match a {
        Value::Double(x) => match b {
            Value::Double(y) => spec_double_eq(x, y),
            _ => false,
        },
        Value::Bool(x) => match b {
            Value::Bool(y) => x == y,
            _ => false,
        },
        Value::Nil => match b {
            Value::Nil => true,
            _ => false,
        },
        Value::Unknown => false,
    }
}

/// A value is a zero double exactly when it is a `Double` whose magnitude
/// bits are clear.
pub open spec fn spec_is_zero_value(v: Value) -> bool {
    match v {
        Value::Double(bits) => spec_is_zero_bits(bits),
        _ => false,
    }
}

/// Whether a double bit pattern is a NaN.
pub fn is_nan_bits(bits: u64) -> (r: bool)
    ensures
        r == spec_is_nan(bits),
{
    bits & MAGNITUDE_MASK > INFINITY_MAGNITUDE
}

/// Whether a double bit pattern is a zero of either sign.
pub fn is_zero_bits(bits: u64) -> (r: bool)
    ensures
        r == spec_is_zero_bits(bits),
{
    bits & MAGNITUDE_MASK == 0
}

/// IEEE-754 equality on double bit patterns.
pub fn double_eq(a: u64, b: u64) -> (r: bool)
    ensures
        r == spec_double_eq(a, b),
{
    if is_nan_bits(a) || is_nan_bits(b) {
        false
    } else {
        a == b || (is_zero_bits(a) && is_zero_bits(b))
    }
}

/// IEEE-754 `<` on double bit patterns.
pub fn double_lt(a: u64, b: u64) -> (r: bool)
    ensures
        r == spec_double_lt(a, b),
{
    if is_nan_bits(a) || is_nan_bits(b) {
        false
    } else if is_zero_bits(a) && is_zero_bits(b) {
        false
    } else {
        let negative_a = a & SIGN_MASK != 0;
        let negative_b = b & SIGN_MASK != 0;
        if negative_a && negative_b {
            b & MAGNITUDE_MASK < a & MAGNITUDE_MASK
        } else if !negative_a && !negative_b {
            a & MAGNITUDE_MASK < b & MAGNITUDE_MASK
        } else {
            negative_a
        }
    }
}

/// IEEE-754 `>` on double bit patterns.
pub fn double_gt(a: u64, b: u64) -> (r: bool)
    ensures
        r == spec_double_gt(a, b),
{
    double_lt(b, a)
}

/// IEEE-754 negation of a double bit pattern.
pub fn negated_bits(bits: u64) -> (r: u64)
    ensures
        r == spec_negated_bits(bits),
{
    bits ^ SIGN_MASK
}

impl Value {
    /// `Nil` and `Bool(false)` are falsey; everything else is truthy.
    pub fn is_falsey(&self) -> (r: bool)
        ensures
            r == spec_falsey(*self),
    {
        match self {
            Value::Nil => true,
            Value::Bool(b) => !*b,
            _ => false,
        }
    }

    /// Equality across all variants, doubles compared by IEEE-754 equality.
    pub fn equal(&self, other: &Value) -> (r: bool)
        ensures
            r == spec_value_eq(*self, *other),
    {
        match (self, other) {
            (Value::Bool(a), Value::Bool(b)) => a == b,
            (Value::Nil, Value::Nil) => true,
            (Value::Double(a), Value::Double(b)) => double_eq(*a, *b),
            _ => false,
        }
    }

    /// Whether the value is a double equal to zero (of either sign).
    pub fn is_zero(&self) -> (r: bool)
        ensures
            r == spec_is_zero_value(*self),
    {
        match self {
            Value::Double(bits) => is_zero_bits(*bits),
            _ => false,
        }
    }
}

/// Negating a double twice restores the original bit pattern, so a doubly
/// negated number prints exactly as the number itself.
pub proof fn lemma_negate_involution(bits: u64)
    ensures
        spec_negated_bits(spec_negated_bits(bits)) == bits,
{
    assert((bits ^ SIGN_MASK) ^ SIGN_MASK == bits) by (bit_vector);
}

/// Value equality is symmetric: `a == b` holds exactly when `b == a` does.
pub proof fn lemma_value_eq_symmetric(a: Value, b: Value)
    ensures
        spec_value_eq(a, b) == spec_value_eq(b, a),
{
}

/// Applying the `Not` operation twice to any value yields the boolean that
/// says whether the value is truthy.
pub proof fn lemma_double_not(v: Value)
    ensures
        spec_falsey(Value::Bool(spec_falsey(v))) == !spec_falsey(v),
{
}

} // verus!
