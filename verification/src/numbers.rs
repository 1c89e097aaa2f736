//! Conversions between integer widths that stop at the nearest value.
use vstd::prelude::*;

verus! {

/// `n`, brought between `lo` and `hi`.
pub open spec fn within(n: int, lo: int, hi: int) -> int {
    if n < lo {
        lo
    } else if n > hi {
        hi
    } else {
        n
    }
}

/// `n`, or the largest `i64` where `n` exceeds it.
pub open spec fn clamped_i64(n: int) -> i64 {
    if n <= i64::MAX {
        n as i64
    } else {
        i64::MAX
    }
}

/// The nearest `i64`.
pub fn u64_to_i64(n: u64) -> (r: i64)
    ensures
        r == clamped_i64(n as int),
        r == within(n as int, i64::MIN as int, i64::MAX as int),
{
    if n > i64::MAX as u64 {
        i64::MAX
    } else {
        n as i64
    }
}

/// The nearest `u64`.
pub fn i64_to_u64(n: i64) -> (r: u64)
    ensures
        r == within(n as int, 0, u64::MAX as int),
{
    if n < 0 {
        0
    } else {
        n as u64
    }
}

/// The nearest `u32`.
pub fn i64_to_u32(n: i64) -> (r: u32)
    ensures
        r == within(n as int, 0, u32::MAX as int),
{
    if n < 0 {
        0
    } else if n > u32::MAX as i64 {
        u32::MAX
    } else {
        n as u32
    }
}

/// The nearest `u32`.
pub fn u64_to_u32(n: u64) -> (r: u32)
    ensures
        r == within(n as int, 0, u32::MAX as int),
{
    if n > u32::MAX as u64 {
        u32::MAX
    } else {
        n as u32
    }
}

/// The number that has the same 64 bits.
pub open spec fn unsigned(n: i64) -> u64 {
    if n < 0 {
        (n + 0x1_0000_0000_0000_0000) as u64
    } else {
        n as u64
    }
}

/// The number that has the same 64 bits.
pub open spec fn signed(n: u64) -> i64 {
    if n > i64::MAX {
        (n - 0x1_0000_0000_0000_0000) as i64
    } else {
        n as i64
    }
}

/// `unsigned`, computed.
pub fn same_bits_unsigned(n: i64) -> (r: u64)
    ensures
        r == unsigned(n),
{
    if n < 0 {
        u64::MAX - ((-(n + 1)) as u64)
    } else {
        n as u64
    }
}

/// `signed`, computed.
pub fn same_bits_signed(n: u64) -> (r: i64)
    ensures
        r == signed(n),
{
    if n > i64::MAX as u64 {
        -((u64::MAX - n) as i64) - 1
    } else {
        n as i64
    }
}

/// The lowest 32 bits.
pub fn low_bits(n: i64) -> (r: u32)
    ensures
        r == n as int % 0x1_0000_0000,
{
    let m: i128 = n as i128;
    let shifted: i128 = m + 0x1_0000_0000_0000_0000;
    assert((n as int + 0x1_0000_0000_0000_0000) % 0x1_0000_0000 == n as int % 0x1_0000_0000);
    (shifted % 0x1_0000_0000) as u32
}

/// Numbers that come back after they were stored with the same bits.
pub proof fn lemma_signed_round_trip(n: u64)
    ensures
        unsigned(signed(n)) == n,
{
}

/// A number within the bounds stays as it is, and any other becomes the nearest bound.
pub proof fn law_nearest_number_is_taken(n: int, lo: int, hi: int)
    requires
        lo <= hi,
    ensures
        lo <= within(n, lo, hi) <= hi,
        lo <= n <= hi ==> within(n, lo, hi) == n,
        n < lo ==> within(n, lo, hi) == lo,
        n > hi ==> within(n, lo, hi) == hi,
{
}

/// A number that both kinds hold keeps its value, and no two numbers share their bits.
pub proof fn law_same_bits_same_number(a: i64, b: i64, n: u64)
    ensures
        a >= 0 ==> unsigned(a) == a,
        n <= i64::MAX ==> signed(n) == n,
        unsigned(a) == unsigned(b) ==> a == b,
        signed(unsigned(a)) == a,
        0 <= n <= i64::MAX ==> clamped_i64(n as int) == n,
{
}

} // verus!
