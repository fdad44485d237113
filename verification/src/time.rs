use vstd::prelude::*;

verus! {

// Times are held in whole milliseconds. Arithmetic on them saturates at the
// ends of the `i64` range, where floating-point seconds would overflow to an
// infinity.

/// Length of the snapping grid: a tenth of a second.
pub const GRID_MS: i64 = 100;

/// `x` held within the range of `i64`.
pub open spec fn sat(x: int) -> int {
    if x > i64::MAX {
        i64::MAX as int
    } else if x < i64::MIN {
        i64::MIN as int
    } else {
        x
    }
}

/// `t` rounded to the nearest tenth of a second, halves away from zero.
pub open spec fn round_tenth(t: int) -> int {
    if t >= 0 {
        ((t + 50) / 100) * 100
    } else {
        -(((-t + 50) / 100) * 100)
    }
}

pub open spec fn max_i(a: int, b: int) -> int {
    if a >= b { a } else { b }
}

pub open spec fn min_i(a: int, b: int) -> int {
    if a <= b { a } else { b }
}

/// Saturating sum of two times.
pub fn add_ms(a: i64, b: i64) -> (r: i64)
    ensures
        r == sat(a + b),
{
    let s: i128 = a as i128 + b as i128;
    if s > i64::MAX as i128 {
        i64::MAX
    } else if s < i64::MIN as i128 {
        i64::MIN
    } else {
        s as i64
    }
}

/// Saturating difference of two times.
pub fn sub_ms(a: i64, b: i64) -> (r: i64)
    ensures
        r == sat(a - b),
{
    let s: i128 = a as i128 - b as i128;
    if s > i64::MAX as i128 {
        i64::MAX
    } else if s < i64::MIN as i128 {
        i64::MIN
    } else {
        s as i64
    }
}

/// `t` rounded to the snapping grid.
pub fn snap_tenth(t: i64) -> (r: i64)
    ensures
        r == sat(round_tenth(t as int)),
{
    let w: i128 = t as i128;
    let r: i128 = if w >= 0 {
        ((w + 50) / 100) * 100
    } else {
        -(((-w + 50) / 100) * 100)
    };
    if r > i64::MAX as i128 {
        i64::MAX
    } else if r < i64::MIN as i128 {
        i64::MIN
    } else {
        r as i64
    }
}

pub fn max_ms(a: i64, b: i64) -> (r: i64)
    ensures
        r == max_i(a as int, b as int),
{
    if a >= b { a } else { b }
}

pub fn min_ms(a: i64, b: i64) -> (r: i64)
    ensures
        r == min_i(a as int, b as int),
{
    if a <= b { a } else { b }
}

} // verus!
