//! Idle time from the machine's tick counts.

use vstd::prelude::*;

verus! {

/// Whole seconds in a span of milliseconds (rounded down).
pub fn tick_delta_to_sec(delta_ms: u64) -> (r: u64)
    ensures
        r == delta_ms / 1000,
{
    delta_ms / 1000
}

/// Milliseconds from the last input to now, from the 64-bit tick count of
/// now and the 32-bit tick count of the last input (which wraps about every
/// 49.7 days): the difference of their low 32 bits, modulo 2^32.
pub fn idle_delta_ms(tick: u64, last_input: u32) -> (r: u64)
    ensures
        r == (if tick % 0x1_0000_0000 >= last_input {
            tick % 0x1_0000_0000 - last_input
        } else {
            tick % 0x1_0000_0000 + 0x1_0000_0000 - last_input
        }),
{
    let low: u64 = tick % 0x1_0000_0000;
    if low >= last_input as u64 {
        low - last_input as u64
    } else {
        low + 0x1_0000_0000 - last_input as u64
    }
}

} // verus!
