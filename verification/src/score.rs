//! Jev's probabilities and the thresholds they are held against are IEEE 754
//! doubles. The library holds each as its bit pattern (`f64::to_bits`) and compares
//! them as the floating-point operators do.
use vstd::prelude::*;

verus! {

pub open spec fn sign_bit() -> u64 {
    0x8000_0000_0000_0000u64
}

/// Not a number: all exponent bits set and a non-zero fraction.
pub open spec fn is_nan(b: u64) -> bool {
    (b & 0x7ff0_0000_0000_0000u64) == 0x7ff0_0000_0000_0000u64 && (b & 0x000f_ffff_ffff_ffffu64)
        != 0
}

/// Positive or negative zero.
pub open spec fn is_zero(b: u64) -> bool {
    (b & 0x7fff_ffff_ffff_ffffu64) == 0
}

/// The position of a double in the total order of `f64::total_cmp`, as an unsigned
/// integer: negative values (sign bit set) with all bits flipped, the others with the
/// sign bit set, so that larger doubles get larger keys.
pub open spec fn order_key(b: u64) -> u64 {
    if b & sign_bit() != 0 {
        !b
    } else {
        b | sign_bit()
    }
}

/// `a >= b` on doubles: false when either is not a number, true for two zeros of
/// any sign, otherwise the order of their keys.
pub open spec fn float_ge(a: u64, b: u64) -> bool {
    !is_nan(a) && !is_nan(b) && ((is_zero(a) && is_zero(b)) || order_key(a) >= order_key(b))
}

pub fn total_key(b: u64) -> (r: u64)
    ensures
        r == order_key(b),
{
    if b & 0x8000_0000_0000_0000u64 != 0 {
        !b
    } else {
        b | 0x8000_0000_0000_0000u64
    }
}

pub fn ge(a: u64, b: u64) -> (r: bool)
    ensures
        r == float_ge(a, b),
{
    let a_nan = (a & 0x7ff0_0000_0000_0000u64) == 0x7ff0_0000_0000_0000u64 && (a
        & 0x000f_ffff_ffff_ffffu64) != 0;
    let b_nan = (b & 0x7ff0_0000_0000_0000u64) == 0x7ff0_0000_0000_0000u64 && (b
        & 0x000f_ffff_ffff_ffffu64) != 0;
    let zeros = (a & 0x7fff_ffff_ffff_ffffu64) == 0 && (b & 0x7fff_ffff_ffff_ffffu64) == 0;
    !a_nan && !b_nan && (zeros || total_key(a) >= total_key(b))
}

} // verus!
