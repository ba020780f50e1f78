//! Floating-point values held as their IEEE 754 bit patterns, and the two
//! equality relations that reflection offers on them.
use vstd::prelude::*;

verus! {

/// Exponent mask of an IEEE 754 single-precision value.
pub const F32_EXP_MASK: u32 = 0x7f80_0000;
/// Fraction mask of an IEEE 754 single-precision value.
pub const F32_FRAC_MASK: u32 = 0x007f_ffff;
/// Everything but the sign bit of a single-precision value.
pub const F32_ABS_MASK: u32 = 0x7fff_ffff;
/// Exponent mask of an IEEE 754 double-precision value.
pub const F64_EXP_MASK: u64 = 0x7ff0_0000_0000_0000;
/// Fraction mask of an IEEE 754 double-precision value.
pub const F64_FRAC_MASK: u64 = 0x000f_ffff_ffff_ffff;
/// Everything but the sign bit of a double-precision value.
pub const F64_ABS_MASK: u64 = 0x7fff_ffff_ffff_ffff;

/// A single-precision pattern is a NaN: all exponent bits set, fraction not zero.
pub open spec fn f32_is_nan_spec(bits: u32) -> bool {
    bits & F32_EXP_MASK == F32_EXP_MASK && bits & F32_FRAC_MASK != 0
}

/// A double-precision pattern is a NaN: all exponent bits set, fraction not zero.
pub open spec fn f64_is_nan_spec(bits: u64) -> bool {
    bits & F64_EXP_MASK == F64_EXP_MASK && bits & F64_FRAC_MASK != 0
}

/// IEEE 754 equality of two single-precision patterns: a NaN equals nothing,
/// the two zeros are equal, anything else is equal only to itself.
/// With `nan_equal`, a NaN equals any NaN.
pub open spec fn f32_eq_spec(a: u32, b: u32, nan_equal: bool) -> bool {
    if f32_is_nan_spec(a) || f32_is_nan_spec(b) {
        nan_equal && f32_is_nan_spec(a) && f32_is_nan_spec(b)
    } else {
        a == b || (a & F32_ABS_MASK == 0 && b & F32_ABS_MASK == 0)
    }
}

/// IEEE 754 equality of two double-precision patterns, as `f32_eq_spec`.
pub open spec fn f64_eq_spec(a: u64, b: u64, nan_equal: bool) -> bool {
    if f64_is_nan_spec(a) || f64_is_nan_spec(b) {
        nan_equal && f64_is_nan_spec(a) && f64_is_nan_spec(b)
    } else {
        a == b || (a & F64_ABS_MASK == 0 && b & F64_ABS_MASK == 0)
    }
}

/// Whether a single-precision pattern is a NaN.
pub fn f32_is_nan(bits: u32) -> (r: bool)
    ensures
        r == f32_is_nan_spec(bits),
{
    bits & F32_EXP_MASK == F32_EXP_MASK && bits & F32_FRAC_MASK != 0
}

/// Whether a double-precision pattern is a NaN.
pub fn f64_is_nan(bits: u64) -> (r: bool)
    ensures
        r == f64_is_nan_spec(bits),
{
    bits & F64_EXP_MASK == F64_EXP_MASK && bits & F64_FRAC_MASK != 0
}

/// Compares two single-precision patterns; see `f32_eq_spec`.
pub fn f32_eq(a: u32, b: u32, nan_equal: bool) -> (r: bool)
    ensures
        r == f32_eq_spec(a, b, nan_equal),
{
    let an = f32_is_nan(a);
    let bn = f32_is_nan(b);
    if an || bn {
        nan_equal && an && bn
    } else {
        a == b || (a & F32_ABS_MASK == 0 && b & F32_ABS_MASK == 0)
    }
}

/// Compares two double-precision patterns; see `f64_eq_spec`.
pub fn f64_eq(a: u64, b: u64, nan_equal: bool) -> (r: bool)
    ensures
        r == f64_eq_spec(a, b, nan_equal),
{
    let an = f64_is_nan(a);
    let bn = f64_is_nan(b);
    if an || bn {
        nan_equal && an && bn
    } else {
        a == b || (a & F64_ABS_MASK == 0 && b & F64_ABS_MASK == 0)
    }
}

} // verus!
