//! Fixed-point scalars.
//!
//! Every coordinate, speed and distance of the game is an `i64` that counts
//! millionths: the raw value `ONE` stands for 1.0. Sums and differences
//! saturate at the ends of `i64`, and quotients round toward zero, so every
//! operation is total and is described exactly by a function on `int`.

use vstd::prelude::*;

verus! {

/// The raw value of 1.0.
pub const ONE: i64 = 1_000_000;

/// The raw value of 1.0, squared.
pub const ONE_SQUARED: i64 = 1_000_000_000_000;

/// The number nearest to `v` that an `i64` holds.
pub open spec fn clamp(v: int) -> i64 {
    if v > i64::MAX {
        i64::MAX
    } else if v < i64::MIN {
        i64::MIN
    } else {
        v as i64
    }
}

/// The quotient of `a` by a positive `b`, rounded toward zero.
pub open spec fn div_toward_zero(a: int, b: int) -> int
    recommends
        b > 0,
{
    if a >= 0 {
        a / b
    } else {
        -((-a) / b)
    }
}

/// The distance of `v` from zero.
pub open spec fn magnitude(v: int) -> int {
    if v >= 0 {
        v
    } else {
        -v
    }
}

/// `a + b`, held to the range of `i64`.
pub fn sat_add(a: i64, b: i64) -> (r: i64)
    ensures
        r == clamp(a + b),
{
    match a.checked_add(b) {
        Some(v) => v,
        None => if b > 0 {
            i64::MAX
        } else {
            i64::MIN
        },
    }
}

/// `a - b`, held to the range of `i64`.
pub fn sat_sub(a: i64, b: i64) -> (r: i64)
    ensures
        r == clamp(a - b),
{
    match a.checked_sub(b) {
        Some(v) => v,
        None => if b < 0 {
            i64::MAX
        } else {
            i64::MIN
        },
    }
}

/// `-a`, held to the range of `i64`: only the least `i64` has no negation.
pub fn sat_neg(a: i64) -> (r: i64)
    ensures
        r == clamp(-a),
{
    if a == i64::MIN {
        i64::MAX
    } else {
        -a
    }
}

/// The magnitude of `v`, which always fits in a `u128`.
pub fn abs_wide(v: i64) -> (m: u128)
    ensures
        m == magnitude(v as int),
        m <= 0x8000_0000_0000_0000,
{
    if v >= 0 {
        v as u128
    } else {
        let wide: i128 = v as i128;
        (-wide) as u128
    }
}

/// A wide value brought back into an `i64`, saturating.
pub fn narrow(v: i128) -> (r: i64)
    ensures
        r == clamp(v as int),
{
    if v > i64::MAX as i128 {
        i64::MAX
    } else if v < i64::MIN as i128 {
        i64::MIN
    } else {
        v as i64
    }
}

/// The larger of two scalars.
pub open spec fn spec_max(a: i64, b: i64) -> i64 {
    if a > b {
        a
    } else {
        b
    }
}

/// The smaller of two scalars.
pub open spec fn spec_min(a: i64, b: i64) -> i64 {
    if a < b {
        a
    } else {
        b
    }
}

/// The larger of two scalars.
pub fn max(a: i64, b: i64) -> (r: i64)
    ensures
        r == spec_max(a, b),
{
    if a > b {
        a
    } else {
        b
    }
}

/// The smaller of two scalars.
pub fn min(a: i64, b: i64) -> (r: i64)
    ensures
        r == spec_min(a, b),
{
    if a < b {
        a
    } else {
        b
    }
}

/// Whether `x` lies strictly between `start` and `end`.
pub fn between(start: i64, end: i64, x: i64) -> (r: bool)
    ensures
        r == (start < x && x < end),
{
    x > start && x < end
}

} // verus!
