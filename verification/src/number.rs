//! Double-precision numbers as bit patterns.
//!
//! A number is the 64 bits of an IEEE 754 binary64 value: one sign bit, then
//! eleven exponent bits and fifty-two fraction bits, which together are its
//! magnitude. Among values that are not NaN a larger magnitude is further
//! from zero, so order, negation and the test for zero are plain integer
//! arithmetic on the bits. Sums, differences, products and quotients need
//! rounding and are asked of the caller.
use vstd::prelude::*;

verus! {

/// The sign bit.
pub const SIGN: u64 = 0x8000_0000_0000_0000;

/// Positive infinity, the largest magnitude that is not a NaN.
pub const INFINITY: u64 = 0x7ff0_0000_0000_0000;

/// The number `0.0`.
pub const ZERO: u64 = 0;

/// The number `1.0`.
pub const ONE: u64 = 0x3ff0_0000_0000_0000;

/// The four operations that round.
#[derive(Clone, Copy, Debug, PartialEq, Eq)]
pub enum ArithOp {
    Add,
    Sub,
    Mul,
    Div,
}

/// The bits below the sign bit.
pub open spec fn magnitude(bits: u64) -> int {
    if bits >= SIGN {
        bits - SIGN
    } else {
        bits as int
    }
}

/// Whether `bits` is not a number.
pub open spec fn is_nan(bits: u64) -> bool {
    magnitude(bits) > INFINITY
}

/// Whether `bits` equals `0.0`, which both zeros do.
pub open spec fn is_zero_spec(bits: u64) -> bool {
    magnitude(bits) == 0
}

/// A whole number that grows as the value of `bits` grows, both zeros at 0.
pub open spec fn rank(bits: u64) -> int {
    if bits >= SIGN {
        -magnitude(bits)
    } else {
        magnitude(bits)
    }
}

/// The numeric `a > b`: false when either is a NaN.
pub open spec fn greater(a: u64, b: u64) -> bool {
    !is_nan(a) && !is_nan(b) && rank(a) > rank(b)
}

/// `bits` with the sign bit flipped.
pub open spec fn negated(bits: u64) -> u64 {
    if bits >= SIGN {
        (bits - SIGN) as u64
    } else {
        (bits + SIGN) as u64
    }
}

/// Whether the number equals `0.0`.
pub fn is_zero(bits: u64) -> (r: bool)
    ensures
        r == is_zero_spec(bits),
{
    bits == ZERO || bits == SIGN
}

/// The number with the opposite sign.
pub fn negate(bits: u64) -> (r: u64)
    ensures
        r == negated(bits),
{
    if bits >= SIGN {
        bits - SIGN
    } else {
        bits + SIGN
    }
}

/// Whether `a > b` as numbers.
pub fn greater_than(a: u64, b: u64) -> (r: bool)
    ensures
        r == greater(a, b),
{
    let a_negative = a >= SIGN;
    let b_negative = b >= SIGN;
    let a_magnitude: u64 = if a_negative {
        a - SIGN
    } else {
        a
    };
    let b_magnitude: u64 = if b_negative {
        b - SIGN
    } else {
        b
    };
    if a_magnitude > INFINITY || b_magnitude > INFINITY {
        false
    } else if a_negative {
        b_negative && a_magnitude < b_magnitude
    } else if b_negative {
        a_magnitude > 0 || b_magnitude > 0
    } else {
        a_magnitude > b_magnitude
    }
}

/// `arith` computes the function `m`: whatever it returns for an operation
/// and two numbers is `m` of them.
pub open spec fn computes<A: Fn(ArithOp, u64, u64) -> u64>(
    arith: &A,
    m: spec_fn(ArithOp, u64, u64) -> u64,
) -> bool {
    forall|op: ArithOp, a: u64, b: u64, r: u64| #[trigger]
        call_ensures(arith, (op, a, b), r) ==> r == m(op, a, b)
}

/// `arith` can be called on every operation and every two numbers, but for
/// a division by zero: that is never asked of it.
pub open spec fn accepts<A: Fn(ArithOp, u64, u64) -> u64>(arith: &A) -> bool {
    forall|op: ArithOp, a: u64, b: u64|
        (op == ArithOp::Div ==> !is_zero_spec(b)) ==> #[trigger] call_requires(arith, (op, a, b))
}

} // verus!
