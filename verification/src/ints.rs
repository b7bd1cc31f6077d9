//! Integer operations at the edges of their ranges.

use vstd::prelude::*;

verus! {

/// Casts a 64-bit count to a signed one, wrapping at the sign bit.
pub open spec fn wrapped_to_i64(n: u64) -> int {
    if n <= i64::MAX {
        n as int
    } else {
        n - 0x1_0000_0000_0000_0000
    }
}

/// `n as i64`.
pub fn wrap_to_i64(n: u64) -> (r: i64)
    ensures
        r == wrapped_to_i64(n),
{
    assert(n <= 0x7fff_ffff_ffff_ffff ==> n as i64 == n) by (bit_vector);
    assert(n > 0x7fff_ffff_ffff_ffff ==> n as i64 == n - 0x1_0000_0000_0000_0000) by (bit_vector);
    n as i64
}

/// The difference of two integers, clamped to the range of `i64`.
pub open spec fn clamped_difference(a: i64, b: i64) -> int {
    if a - b > i64::MAX {
        i64::MAX as int
    } else if a - b < i64::MIN {
        i64::MIN as int
    } else {
        a - b
    }
}

/// `a.saturating_sub(b)`.
pub fn saturating_difference(a: i64, b: i64) -> (r: i64)
    ensures
        r == clamped_difference(a, b),
{
    match a.checked_sub(b) {
        Some(d) => d,
        None => {
            if b < 0 {
                i64::MAX
            } else {
                i64::MIN
            }
        },
    }
}

/// How far apart two integers are.
pub open spec fn gap(a: i64, b: i64) -> int {
    if a < b {
        b - a
    } else {
        a - b
    }
}

/// How far apart two integers are.
pub fn distance(a: i64, b: i64) -> (r: u64)
    ensures
        r == gap(a, b),
{
    if a < b {
        (b as i128 - a as i128) as u64
    } else {
        (a as i128 - b as i128) as u64
    }
}

} // verus!
