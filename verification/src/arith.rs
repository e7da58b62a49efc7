//! `i64` arithmetic that saturates where plain `i64` arithmetic would
//! overflow; on every value that fits it is the plain arithmetic.
use vstd::prelude::*;

verus! {

/// `x` clamped to the range of `i64`.
pub open spec fn clamp64(x: int) -> int {
    if x > i64::MAX {
        i64::MAX as int
    } else if x < i64::MIN {
        i64::MIN as int
    } else {
        x
    }
}

fn clamp_i128(x: i128) -> (r: i64)
    ensures
        r == clamp64(x as int),
{
    if x > i64::MAX as i128 {
        i64::MAX
    } else if x < i64::MIN as i128 {
        i64::MIN
    } else {
        x as i64
    }
}

/// `a + b`, saturating.
pub fn sadd(a: i64, b: i64) -> (r: i64)
    ensures
        r == clamp64(a + b),
{
    clamp_i128(a as i128 + b as i128)
}

/// `a - b`, saturating.
pub fn ssub(a: i64, b: i64) -> (r: i64)
    ensures
        r == clamp64(a - b),
{
    clamp_i128(a as i128 - b as i128)
}

/// `a * b`, saturating.
pub fn smul(a: i64, b: i64) -> (r: i64)
    ensures
        r == clamp64(a * b),
{
    proof {
        assert(-0x8000_0000_0000_0000 * 0x8000_0000_0000_0000 <= a * b <= 0x8000_0000_0000_0000
            * 0x8000_0000_0000_0000) by (nonlinear_arith)
            requires
                -0x8000_0000_0000_0000 <= a <= 0x7fff_ffff_ffff_ffff,
                -0x8000_0000_0000_0000 <= b <= 0x7fff_ffff_ffff_ffff,
        ;
    }
    clamp_i128(a as i128 * b as i128)
}

} // verus!
