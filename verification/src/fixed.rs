//! Saturating fixed-point arithmetic on `i64` raw values.
//!
//! A raw value `x` stands for the real number `x / scale`, where `scale` is a
//! power of two chosen by the caller (the geometry types use `2^32`, the
//! signal-processing types use `2^48`). Every operation is total: raw values
//! are kept within `[-CAP, CAP]` by saturation, and the rounding of every
//! multiplication, division and square root is stated exactly over `int`.

use vstd::prelude::*;

verus! {

/// Largest raw magnitude a fixed-point value may carry (`2^62`).
pub const CAP: i64 = 4611686018427387904;

/// Largest scale any fixed-point type of this crate uses (`2^48`).
pub const MAX_SCALE: i64 = 281474976710656;

/// A raw value that is within the representable band.
pub open spec fn fits(x: int) -> bool {
    -CAP <= x <= CAP
}

/// Saturation to the representable band.
pub open spec fn clamp(x: int) -> int {
    if x > CAP as int {
        CAP as int
    } else if x < -(CAP as int) {
        -(CAP as int)
    } else {
        x
    }
}

/// Integer absolute value.
pub open spec fn iabs(x: int) -> int {
    if x < 0 {
        -x
    } else {
        x
    }
}

/// Division truncated toward zero, the rounding used by every scaled
/// operation below (unspecified when `b == 0`).
pub open spec fn tdiv(a: int, b: int) -> int {
    if (a < 0) == (b < 0) {
        iabs(a) / iabs(b)
    } else {
        -(iabs(a) / iabs(b))
    }
}

/// The magnitude of a product is the product of the magnitudes.
pub proof fn lemma_iabs_mul(a: int, b: int)
    ensures
        iabs(a * b) == iabs(a) * iabs(b),
{
    if a >= 0 && b >= 0 {
        assert(a * b >= 0) by (nonlinear_arith)
            requires
                a >= 0,
                b >= 0,
        ;
    } else if a >= 0 && b < 0 {
        assert(a * b <= 0 && a * (-b) == -(a * b)) by (nonlinear_arith)
            requires
                a >= 0,
                b < 0,
        ;
    } else if a < 0 && b >= 0 {
        assert(a * b <= 0 && (-a) * b == -(a * b)) by (nonlinear_arith)
            requires
                a < 0,
                b >= 0,
        ;
    } else {
        assert(a * b >= 0 && (-a) * (-b) == a * b) by (nonlinear_arith)
            requires
                a < 0,
                b < 0,
        ;
    }
}

/// Sign of a product from the signs of its factors.
pub proof fn lemma_mul_sign(a: int, b: int)
    by (nonlinear_arith)
    ensures
        a >= 0 && b >= 0 ==> a * b >= 0,
        a <= 0 && b <= 0 ==> a * b >= 0,
        a >= 0 && b <= 0 ==> a * b <= 0,
        a <= 0 && b >= 0 ==> a * b <= 0,
        a > 0 && b > 0 ==> a * b > 0,
        a < 0 && b < 0 ==> a * b > 0,
        a > 0 && b < 0 ==> a * b < 0,
        a < 0 && b > 0 ==> a * b < 0,
        a == 0 || b == 0 ==> a * b == 0,
{
}

/// Saturating addition of raw values.
pub fn sat_add(a: i64, b: i64) -> (r: i64)
    requires
        fits(a as int),
        fits(b as int),
    ensures
        r == clamp(a + b),
{
    let s: i128 = a as i128 + b as i128;
    if s > CAP as i128 {
        CAP
    } else if s < -(CAP as i128) {
        -CAP
    } else {
        s as i64
    }
}

/// Saturating subtraction of raw values.
pub fn sat_sub(a: i64, b: i64) -> (r: i64)
    requires
        fits(a as int),
        fits(b as int),
    ensures
        r == clamp(a - b),
{
    let s: i128 = a as i128 - b as i128;
    if s > CAP as i128 {
        CAP
    } else if s < -(CAP as i128) {
        -CAP
    } else {
        s as i64
    }
}

/// Saturating fixed-point multiplication: the raw result of multiplying two
/// values at the given scale, truncated toward zero.
pub fn sat_mul(a: i64, b: i64, scale: i64) -> (r: i64)
    requires
        fits(a as int),
        fits(b as int),
        1 <= scale,
    ensures
        r == clamp(tdiv(a * b, scale as int)),
{
    let neg = (a < 0) != (b < 0);
    let ma: i64 = if a < 0 {
        -a
    } else {
        a
    };
    let mb: i64 = if b < 0 {
        -b
    } else {
        b
    };
    proof {
        lemma_iabs_mul(a as int, b as int);
        lemma_mul_sign(a as int, b as int);
        assert((ma as u128) * (mb as u128) < 85070591730234615865843651857942052864u128) by (nonlinear_arith)
            requires
                0 <= ma <= CAP,
                0 <= mb <= CAP,
        ;
    }
    let m: u128 = ((ma as u128) * (mb as u128)) / (scale as u128);
    proof {
        assert(m == iabs((a as int) * (b as int)) / (scale as int));
    }
    let mc: i64 = if m > CAP as u128 {
        CAP
    } else {
        m as i64
    };
    if neg {
        -mc
    } else {
        mc
    }
}

/// Saturating fixed-point division: the raw result of dividing the first
/// value by the second at the given scale, truncated toward zero.
pub fn sat_div(a: i64, b: i64, scale: i64) -> (r: i64)
    requires
        fits(a as int),
        fits(b as int),
        b != 0,
        1 <= scale <= MAX_SCALE,
    ensures
        r == clamp(tdiv(a * scale, b as int)),
{
    let neg = (a < 0) != (b < 0);
    let ma: i64 = if a < 0 {
        -a
    } else {
        a
    };
    let mb: i64 = if b < 0 {
        -b
    } else {
        b
    };
    proof {
        lemma_iabs_mul(a as int, scale as int);
        lemma_mul_sign(a as int, scale as int);
        assert((ma as u128) * (scale as u128) < 85070591730234615865843651857942052864u128) by (nonlinear_arith)
            requires
                0 <= ma <= CAP,
                0 <= scale <= MAX_SCALE,
        ;
    }
    let m: u128 = ((ma as u128) * (scale as u128)) / (mb as u128);
    proof {
        assert(m == iabs((a as int) * (scale as int)) / (mb as int));
    }
    let mc: i64 = if m > CAP as u128 {
        CAP
    } else {
        m as i64
    };
    if neg {
        -mc
    } else {
        mc
    }
}

/// Floor of the square root of a 128-bit integer, by binary search.
pub fn isqrt_u128(x: u128) -> (r: u64)
    requires
        x < 20769187434139310514121985316880384,  // 2^114
    ensures
        (r as int) * (r as int) <= x < ((r as int) + 1) * ((r as int) + 1),
{
    let mut lo: u64 = 0;
    let mut hi: u64 = 144115188075855872;  // 2^57
    proof {
        assert((144115188075855872int + 1) * (144115188075855872int + 1)
            > 20769187434139310514121985316880384int) by (nonlinear_arith);
    }
    while lo < hi
        invariant
            lo <= hi <= 144115188075855872,
            (lo as int) * (lo as int) <= x,
            x < ((hi as int) + 1) * ((hi as int) + 1),
        decreases hi - lo,
    {
        let mid: u64 = lo + (hi - lo + 1) / 2;
        proof {
            assert((mid as u128) * (mid as u128) <= 20769187434139310514121985316880384u128) by (nonlinear_arith)
                requires
                    0 <= mid <= 144115188075855872u64,
            ;
        }
        let sq: u128 = (mid as u128) * (mid as u128);
        if sq <= x {
            lo = mid;
        } else {
            hi = mid - 1;
        }
    }
    lo
}

/// Saturating fixed-point square root: the floor of the square root of
/// `a * scale`, which is the raw value of the root of the value `a` carries.
pub fn sat_sqrt(a: i64, scale: i64) -> (r: i64)
    requires
        0 <= a,
        fits(a as int),
        1 <= scale <= MAX_SCALE,
    ensures
        0 <= r <= 36028797018963968,  // 2^55, so the result always fits
        (r as int) * (r as int) <= a * scale < ((r as int) + 1) * ((r as int) + 1),
{
    proof {
        assert((a as u128) * (scale as u128) <= 1298074214633706907132624082305024u128) by (nonlinear_arith)
            requires
                0 <= a <= CAP,
                0 <= scale <= MAX_SCALE,
        ;
    }
    let x: u128 = (a as u128) * (scale as u128);
    let r64: u64 = isqrt_u128(x);
    proof {
        assert(r64 <= 36028797018963968u64) by (nonlinear_arith)
            requires
                (r64 as int) * (r64 as int) <= 1298074214633706907132624082305024int,  // 2^110
        ;
    }
    r64 as i64
}

} // verus!
