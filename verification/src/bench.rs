//! Figures of a throughput run of the store.

use vstd::prelude::*;

verus! {

/// Kilobytes moved by `cnt` requests of `len4k` pages of 4 KiB each.
pub fn total_kb(len4k: u32, cnt: u32) -> (kb: u64)
    requires
        len4k * 4 <= u32::MAX,
        len4k * 4 * cnt <= u32::MAX,
    ensures
        kb == len4k * 4 * cnt,
{
    ((len4k * 4) * cnt) as u64
}

/// Kilobytes per second for `total_kb` moved in `elapsed_us` microseconds,
/// with one microsecond added so a zero time does not divide by zero.
pub fn rate_kb_per_sec(total_kb: u64, elapsed_us: u128) -> (r: u128)
    requires
        total_kb * 1_000_000 <= u64::MAX,
        elapsed_us < u128::MAX,
    ensures
        r == (total_kb * 1_000_000) as int / (elapsed_us + 1) as int,
{
    ((total_kb * 1_000_000) as u128) / (elapsed_us + 1)
}

} // verus!
