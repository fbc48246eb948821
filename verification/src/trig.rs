//! Fixed-point sine and cosine at scale `2^48`, by octant reduction and a
//! truncated Taylor polynomial evaluated in Horner form.
//!
//! The contracts pin each result to a spec mirror of the same polynomial,
//! so callers reason about one exact, deterministic approximation of the
//! trigonometric functions.

use vstd::prelude::*;

use crate::fixed::{clamp, fits, sat_mul, sat_sub, tdiv};

verus! {

/// The raw value that stands for `1` at the signal scale (`2^48`).
pub const DSCALE: i64 = 281474976710656;

/// `pi` at scale `2^48`, rounded to the nearest raw step.
pub const PI_D: i64 = 884279719003555;

/// `2 * pi` at scale `2^48`.
pub const TWO_PI_D: i64 = 1768559438007110;

/// `pi / 2` at scale `2^48`, truncated.
pub const HALF_PI_D: i64 = 442139859501777;

/// `pi / 4` at scale `2^48`, rounded.
pub const PI4_D: i64 = 221069929750889;

/// `2^48 / (2k)!` for the cosine series.
pub const C2: i64 = 140737488355328;

pub const C4: i64 = 11728124029611;

pub const C6: i64 = 390937467654;

pub const C8: i64 = 6981026208;

pub const C10: i64 = 77566958;

pub const C12: i64 = 587628;

pub const C14: i64 = 3229;

pub const C16: i64 = 13;

/// `2^48 / (2k+1)!` for the sine series.
pub const S3: i64 = 46912496118443;

pub const S5: i64 = 2345624805922;

pub const S7: i64 = 55848209665;

pub const S9: i64 = 775669579;

pub const S11: i64 = 7051542;

pub const S13: i64 = 45202;

pub const S15: i64 = 215;

/// Raw product of two values at the signal scale.
pub open spec fn dmul(a: int, b: int) -> int {
    clamp(tdiv(a * b, DSCALE as int))
}

/// Raw difference at the signal scale.
pub open spec fn dsub(a: int, b: int) -> int {
    clamp(a - b)
}

/// The cosine polynomial `1 - s/2! + s^2/4! - ... + s^8/16!` in Horner
/// form, where `s = x^2`; accurate near `[0, pi/4]`.
pub open spec fn spec_cos_octant(x: int) -> int {
    let s = dmul(x, x);
    let t7 = dsub(C14 as int, dmul(s, C16 as int));
    let t6 = dsub(C12 as int, dmul(s, t7));
    let t5 = dsub(C10 as int, dmul(s, t6));
    let t4 = dsub(C8 as int, dmul(s, t5));
    let t3 = dsub(C6 as int, dmul(s, t4));
    let t2 = dsub(C4 as int, dmul(s, t3));
    let t1 = dsub(C2 as int, dmul(s, t2));
    dsub(DSCALE as int, dmul(s, t1))
}

/// The sine polynomial `x * (1 - s/3! + s^2/5! - ... + s^7/15!)` in Horner
/// form, where `s = x^2`; accurate near `[0, pi/4]`.
pub open spec fn spec_sin_octant(x: int) -> int {
    let s = dmul(x, x);
    let u6 = dsub(S13 as int, dmul(s, S15 as int));
    let u5 = dsub(S11 as int, dmul(s, u6));
    let u4 = dsub(S9 as int, dmul(s, u5));
    let u3 = dsub(S7 as int, dmul(s, u4));
    let u2 = dsub(S5 as int, dmul(s, u3));
    let u1 = dsub(S3 as int, dmul(s, u2));
    dmul(x, dsub(DSCALE as int, dmul(s, u1)))
}

/// Cosine on the first quarter turn, split at the octant so the polynomial
/// argument stays small.
pub open spec fn spec_cos_quarter(y: int) -> int {
    if y <= PI4_D {
        spec_cos_octant(y)
    } else {
        spec_sin_octant(HALF_PI_D - y)
    }
}

/// Sine on the first quarter turn.
pub open spec fn spec_sin_quarter(y: int) -> int {
    if y <= PI4_D {
        spec_sin_octant(y)
    } else {
        spec_cos_octant(HALF_PI_D - y)
    }
}

/// Cosine on a full turn, by quadrant symmetry.
pub open spec fn spec_cos_rad(x: int) -> int {
    if x <= HALF_PI_D {
        spec_cos_quarter(x)
    } else if x <= PI_D {
        -spec_cos_quarter(PI_D - x)
    } else if x <= PI_D + HALF_PI_D {
        -spec_cos_quarter(x - PI_D)
    } else {
        spec_cos_quarter(TWO_PI_D - x)
    }
}

/// Sine on a full turn, by quadrant symmetry.
pub open spec fn spec_sin_rad(x: int) -> int {
    if x <= HALF_PI_D {
        spec_sin_quarter(x)
    } else if x <= PI_D {
        spec_sin_quarter(PI_D - x)
    } else if x <= PI_D + HALF_PI_D {
        -spec_sin_quarter(x - PI_D)
    } else {
        -spec_sin_quarter(TWO_PI_D - x)
    }
}

/// Cosine polynomial on the octant.
fn cos_octant(x: i64) -> (r: i64)
    requires
        -2 <= x <= PI4_D + 2,
    ensures
        r as int == spec_cos_octant(x as int),
        fits(r as int),
{
    let s = sat_mul(x, x, DSCALE);
    let t7 = sat_sub(C14, sat_mul(s, C16, DSCALE));
    let t6 = sat_sub(C12, sat_mul(s, t7, DSCALE));
    let t5 = sat_sub(C10, sat_mul(s, t6, DSCALE));
    let t4 = sat_sub(C8, sat_mul(s, t5, DSCALE));
    let t3 = sat_sub(C6, sat_mul(s, t4, DSCALE));
    let t2 = sat_sub(C4, sat_mul(s, t3, DSCALE));
    let t1 = sat_sub(C2, sat_mul(s, t2, DSCALE));
    sat_sub(DSCALE, sat_mul(s, t1, DSCALE))
}

/// Sine polynomial on the octant.
fn sin_octant(x: i64) -> (r: i64)
    requires
        -2 <= x <= PI4_D + 2,
    ensures
        r as int == spec_sin_octant(x as int),
        fits(r as int),
{
    let s = sat_mul(x, x, DSCALE);
    let u6 = sat_sub(S13, sat_mul(s, S15, DSCALE));
    let u5 = sat_sub(S11, sat_mul(s, u6, DSCALE));
    let u4 = sat_sub(S9, sat_mul(s, u5, DSCALE));
    let u3 = sat_sub(S7, sat_mul(s, u4, DSCALE));
    let u2 = sat_sub(S5, sat_mul(s, u3, DSCALE));
    let u1 = sat_sub(S3, sat_mul(s, u2, DSCALE));
    sat_mul(x, sat_sub(DSCALE, sat_mul(s, u1, DSCALE)), DSCALE)
}

fn cos_quarter(y: i64) -> (r: i64)
    requires
        0 <= y <= HALF_PI_D + 1,
    ensures
        r as int == spec_cos_quarter(y as int),
        fits(r as int),
{
    if y <= PI4_D {
        cos_octant(y)
    } else {
        sin_octant(HALF_PI_D - y)
    }
}

fn sin_quarter(y: i64) -> (r: i64)
    requires
        0 <= y <= HALF_PI_D + 1,
    ensures
        r as int == spec_sin_quarter(y as int),
        fits(r as int),
{
    if y <= PI4_D {
        sin_octant(y)
    } else {
        cos_octant(HALF_PI_D - y)
    }
}

/// Cosine of an angle in `[0, 2 pi)` at scale `2^48`.
pub fn cos_rad(x: i64) -> (r: i64)
    requires
        0 <= x < TWO_PI_D,
    ensures
        r as int == spec_cos_rad(x as int),
        fits(r as int),
{
    if x <= HALF_PI_D {
        cos_quarter(x)
    } else if x <= PI_D {
        -cos_quarter(PI_D - x)
    } else if x <= PI_D + HALF_PI_D {
        -cos_quarter(x - PI_D)
    } else {
        cos_quarter(TWO_PI_D - x)
    }
}

/// Sine of an angle in `[0, 2 pi)` at scale `2^48`.
pub fn sin_rad(x: i64) -> (r: i64)
    requires
        0 <= x < TWO_PI_D,
    ensures
        r as int == spec_sin_rad(x as int),
        fits(r as int),
{
    if x <= HALF_PI_D {
        sin_quarter(x)
    } else if x <= PI_D {
        sin_quarter(PI_D - x)
    } else if x <= PI_D + HALF_PI_D {
        -sin_quarter(x - PI_D)
    } else {
        -sin_quarter(TWO_PI_D - x)
    }
}

/// A raw value carried from the coordinate scale (`2^32`) up to the signal
/// scale (`2^48`), exactly.
pub fn widen_raw(x: i64) -> (r: i64)
    requires
        -70368744177664 <= x <= 70368744177664,  // 2^46
    ensures
        r as int == x * 65536,
        fits(r as int),
{
    x * 65536
}

/// A raw value carried from the signal scale down to the coordinate scale,
/// truncated toward zero.
pub fn narrow_raw(x: i64) -> (r: i64)
    requires
        fits(x as int),
    ensures
        r as int == tdiv(x as int, 65536),
        fits(r as int),
{
    if x < 0 {
        let m: u64 = ((-x) as u64) / 65536;
        -(m as i64)
    } else {
        (x as u64 / 65536) as i64
    }
}

} // verus!
