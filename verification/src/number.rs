//! What the interpreter itself decides about a number.
//!
//! A number is an IEEE 754 double held by its 64 bits: the sign in the top
//! bit, then eleven bits of exponent and fifty-two of fraction. Sign, zero,
//! equality and order can be read off the bits; everything else about a number
//! is the host's.

use vstd::prelude::*;

verus! {

/// The sign bit.
pub const SIGN: u64 = 0x8000_0000_0000_0000;

/// All bits but the sign: the magnitude.
pub const MAGNITUDE: u64 = 0x7fff_ffff_ffff_ffff;

/// The magnitude of infinity; every greater magnitude is no number at all.
pub const INFINITY: u64 = 0x7ff0_0000_0000_0000;

/// Whether `bits` is not a number.
pub open spec fn spec_is_nan(bits: u64) -> bool {
    (bits & MAGNITUDE) > INFINITY
}

/// Whether `bits` is zero, of either sign.
pub open spec fn spec_is_zero(bits: u64) -> bool {
    (bits & MAGNITUDE) == 0
}

/// `bits` with the other sign.
pub open spec fn spec_negate(bits: u64) -> u64 {
    bits ^ SIGN
}

/// Where `bits` stands among the numbers: its magnitude, below zero where the
/// sign is set. Both zeros stand at 0.
pub open spec fn rank(bits: u64) -> int {
    if bits & SIGN != 0 {
        -((bits & MAGNITUDE) as int)
    } else {
        (bits & MAGNITUDE) as int
    }
}

/// Whether `a == b` as numbers: nothing equals what is not a number, and the
/// two zeros are equal.
pub open spec fn spec_equal(a: u64, b: u64) -> bool {
    !spec_is_nan(a) && !spec_is_nan(b) && rank(a) == rank(b)
}

/// Whether `a < b` as numbers: nothing is less than, or has less than it,
/// what is not a number.
pub open spec fn spec_less(a: u64, b: u64) -> bool {
    !spec_is_nan(a) && !spec_is_nan(b) && rank(a) < rank(b)
}

pub fn is_nan(bits: u64) -> (r: bool)
    ensures
        r == spec_is_nan(bits),
{
    (bits & MAGNITUDE) > INFINITY
}

pub fn is_zero(bits: u64) -> (r: bool)
    ensures
        r == spec_is_zero(bits),
{
    (bits & MAGNITUDE) == 0
}

pub fn negate(bits: u64) -> (r: u64)
    ensures
        r == spec_negate(bits),
{
    bits ^ SIGN
}

pub fn equal(a: u64, b: u64) -> (r: bool)
    ensures
        r == spec_equal(a, b),
{
    if is_nan(a) || is_nan(b) {
        return false;
    }
    let ma = a & MAGNITUDE;
    let mb = b & MAGNITUDE;
    if ma == 0 && mb == 0 {
        true
    } else {
        ma == mb && ((a & SIGN) != 0) == ((b & SIGN) != 0)
    }
}

pub fn less(a: u64, b: u64) -> (r: bool)
    ensures
        r == spec_less(a, b),
{
    if is_nan(a) || is_nan(b) {
        return false;
    }
    let ma = a & MAGNITUDE;
    let mb = b & MAGNITUDE;
    let a_negative = (a & SIGN) != 0;
    let b_negative = (b & SIGN) != 0;
    if a_negative && b_negative {
        ma > mb
    } else if a_negative {
        ma != 0 || mb != 0
    } else if b_negative {
        false
    } else {
        ma < mb
    }
}

} // verus!
