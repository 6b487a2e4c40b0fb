//! The scalar domain of the evaluator.
//!
//! Every node value is a 64-bit pattern (`u64`) standing for one IEEE-754
//! double-precision number. The pieces of the semantics that are pure bit
//! logic — the zero test, magnitude (absolute value), and the distinguished
//! patterns for 0.0, 1.0, the comparison tolerance and the quiet NaN — are
//! defined and verified here. The remaining primitives (addition,
//! subtraction, multiplication, division, exponentiation and ordering) are
//! the methods of the [`Arith`] trait: each carries a contract tying it to
//! its own spec function, so the evaluator and all its laws are proved once,
//! for every implementation. [`IntArith`], a modular integer interpretation,
//! is implemented and verified in this crate; a driver that wants IEEE-754
//! semantics implements the trait over `f64` outside of it.

use vstd::prelude::*;

verus! {

/// Bit pattern of `+0.0`.
pub const F64_ZERO: u64 = 0;

/// Bit pattern of `1.0`.
pub const F64_ONE: u64 = 0x3FF0_0000_0000_0000;

/// Bit pattern of the quiet NaN produced for a division by zero.
pub const F64_NAN: u64 = 0x7FF8_0000_0000_0000;

/// Bit pattern of the `f64` machine epsilon (2^-52), the tolerance of the
/// equality comparison.
pub const F64_EPSILON: u64 = 0x3CB0_0000_0000_0000;

/// Mask of the magnitude bits: everything but the sign.
pub const MAGNITUDE_MASK: u64 = 0x7FFF_FFFF_FFFF_FFFF;

/// True on exactly the two zero patterns, `+0.0` and `-0.0`: the doubles
/// that compare equal to zero.
pub open spec fn spec_is_zero(bits: u64) -> bool {
    bits & MAGNITUDE_MASK == 0
}

/// Whether `bits` is one of the two IEEE-754 zeros.
pub fn is_zero(bits: u64) -> (r: bool)
    ensures
        r == spec_is_zero(bits),
{
    bits & MAGNITUDE_MASK == 0
}

/// The magnitude of a double: its bit pattern with the sign cleared.
/// Clearing the sign bit is exactly IEEE-754 `abs`.
pub open spec fn spec_abs(bits: u64) -> u64 {
    bits & MAGNITUDE_MASK
}

/// Absolute value, as the bit operation IEEE-754 defines it to be.
pub fn abs_bits(bits: u64) -> (r: u64)
    ensures
        r == spec_abs(bits),
{
    bits & MAGNITUDE_MASK
}

/// The scalar primitives of the evaluator, over 64-bit value patterns.
///
/// Each executable method is pinned to a spec function of the same
/// implementation, so two calls on equal arguments return equal results and
/// every contract downstream can speak of the result by name. The evaluator
/// never divides by a zero pattern (it tests first and yields NaN), so `div`
/// may be partial on zero divisors in spirit but must still be total as a
/// function.
pub trait Arith: Sized {
    /// The value of `add(a, b)`.
    spec fn add_spec(&self, a: u64, b: u64) -> u64;

    /// The value of `sub(a, b)`.
    spec fn sub_spec(&self, a: u64, b: u64) -> u64;

    /// The value of `mul(a, b)`.
    spec fn mul_spec(&self, a: u64, b: u64) -> u64;

    /// The value of `div(a, b)`.
    spec fn div_spec(&self, a: u64, b: u64) -> u64;

    /// The value of `pow(a, b)`.
    spec fn pow_spec(&self, a: u64, b: u64) -> u64;

    /// The value of `lt(a, b)`.
    spec fn lt_spec(&self, a: u64, b: u64) -> bool;

    /// The value of `gt(a, b)`.
    spec fn gt_spec(&self, a: u64, b: u64) -> bool;

    /// Addition.
    fn add(&self, a: u64, b: u64) -> (r: u64)
        ensures
            r == self.add_spec(a, b),
    ;

    /// Subtraction.
    fn sub(&self, a: u64, b: u64) -> (r: u64)
        ensures
            r == self.sub_spec(a, b),
    ;

    /// Multiplication.
    fn mul(&self, a: u64, b: u64) -> (r: u64)
        ensures
            r == self.mul_spec(a, b),
    ;

    /// Division.
    fn div(&self, a: u64, b: u64) -> (r: u64)
        ensures
            r == self.div_spec(a, b),
    ;

    /// Exponentiation: `a` raised to `b`.
    fn pow(&self, a: u64, b: u64) -> (r: u64)
        ensures
            r == self.pow_spec(a, b),
    ;

    /// Strict less-than.
    fn lt(&self, a: u64, b: u64) -> (r: bool)
        ensures
            r == self.lt_spec(a, b),
    ;

    /// Strict greater-than.
    fn gt(&self, a: u64, b: u64) -> (r: bool)
        ensures
            r == self.gt_spec(a, b),
    ;
}

/// Iterated modular product: `base` multiplied into 1, `exp` times.
pub open spec fn int_pow_spec(base: u64, exp: u64) -> u64
    decreases exp,
{
    if exp == 0 {
        1u64
    } else {
        int_pow_spec(base, (exp - 1) as u64).wrapping_mul(base)
    }
}

/// A modular 64-bit integer interpretation of the scalar primitives.
///
/// Every operation is untrusted, executable and verified; streams evaluated
/// under it are reproducible in full inside this crate, which makes it the
/// reference interpretation for the laws and the tests.
pub struct IntArith;

impl Arith for IntArith {
    open spec fn add_spec(&self, a: u64, b: u64) -> u64 {
        a.wrapping_add(b)
    }

    open spec fn sub_spec(&self, a: u64, b: u64) -> u64 {
        a.wrapping_sub(b)
    }

    open spec fn mul_spec(&self, a: u64, b: u64) -> u64 {
        a.wrapping_mul(b)
    }

    open spec fn div_spec(&self, a: u64, b: u64) -> u64 {
        if b == 0 {
            0u64
        } else {
            a / b
        }
    }

    open spec fn pow_spec(&self, a: u64, b: u64) -> u64 {
        int_pow_spec(a, b)
    }

    open spec fn lt_spec(&self, a: u64, b: u64) -> bool {
        a < b
    }

    open spec fn gt_spec(&self, a: u64, b: u64) -> bool {
        a > b
    }

    fn add(&self, a: u64, b: u64) -> u64 {
        a.wrapping_add(b)
    }

    fn sub(&self, a: u64, b: u64) -> u64 {
        a.wrapping_sub(b)
    }

    fn mul(&self, a: u64, b: u64) -> u64 {
        a.wrapping_mul(b)
    }

    fn div(&self, a: u64, b: u64) -> u64 {
        if b == 0 {
            0
        } else {
            a / b
        }
    }

    fn pow(&self, a: u64, b: u64) -> (r: u64) {
        let mut acc: u64 = 1;
        let mut i: u64 = 0;
        while i < b
            invariant
                i <= b,
                acc == int_pow_spec(a, i),
            decreases b - i,
        {
            acc = acc.wrapping_mul(a);
            i = i + 1;
        }
        acc
    }

    fn lt(&self, a: u64, b: u64) -> bool {
        a < b
    }

    fn gt(&self, a: u64, b: u64) -> bool {
        a > b
    }
}

} // verus!
