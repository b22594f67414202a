//! Arithmetic on lengths. A length is an `i64` that counts thousandths of a
//! layout unit; sums, differences and products are taken in `i128`, where
//! they are exact, and a result that is stored is brought back into `i64`.

use vstd::prelude::*;

verus! {

/// Distance between two positions.
pub open spec fn dist(a: i64, b: i64) -> int {
    if a >= b {
        a - b
    } else {
        b - a
    }
}

/// The value of `i64` nearest to `v`.
pub open spec fn clamp(v: int) -> i64 {
    if v < i64::MIN {
        i64::MIN
    } else if v > i64::MAX {
        i64::MAX
    } else {
        v as i64
    }
}

/// `v` rounded to the nearest multiple of `step`, halves upwards.
pub open spec fn round_to(v: int, step: int) -> int
    recommends
        step > 0,
{
    ((v + step / 2) / step) * step
}

/// Distance between two positions.
pub fn distance(a: i64, b: i64) -> (d: i128)
    ensures
        d == dist(a, b),
        0 <= d <= u64::MAX,
{
    if a >= b {
        a as i128 - b as i128
    } else {
        b as i128 - a as i128
    }
}

/// The value of `i64` nearest to `v`.
pub fn clamp_to_i64(v: i128) -> (r: i64)
    ensures
        r == clamp(v as int),
{
    if v < i64::MIN as i128 {
        i64::MIN
    } else if v > i64::MAX as i128 {
        i64::MAX
    } else {
        v as i64
    }
}

/// `v` rounded to the nearest hundredth of a unit.
pub fn round_to_hundredth(v: i128) -> (r: i64)
    requires
        -0x4_0000_0000_0000_0000 <= v <= 0x4_0000_0000_0000_0000,
    ensures
        r == clamp(round_to(v as int, 10)),
{
    let n: i128 = v + 5;
    let q: i128 = if n >= 0 {
        n / 10
    } else {
        -((-n + 9) / 10)
    };
    clamp_to_i64(q * 10)
}

} // verus!
