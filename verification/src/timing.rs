//! Delay arithmetic for a 72 MHz STM32F103.
use vstd::prelude::*;

verus! {

/// SysTick ticks per microsecond at a 72 MHz core clock.
pub const TICKS_PER_US: u32 = 72;

/// Largest reload value of the 24-bit SysTick counter.
pub const SYSTICK_MAX: u32 = 0x00FF_FFFF;

/// The SysTick reload value for a delay of `us` microseconds, or `None`
/// when no wait is made: for a zero delay, or one longer than the 24-bit
/// counter holds (about 233 ms).
pub fn systick_ticks(us: u32) -> (t: Option<u32>)
    ensures
        t == (if us == 0 || us * 72 > SYSTICK_MAX {
            None
        } else {
            Some((us * 72) as u32)
        }),
{
    if us == 0 {
        return None;
    }
    let ticks = us.checked_mul(TICKS_PER_US).unwrap_or(u32::MAX);
    if ticks == 0 || ticks > SYSTICK_MAX {
        return None;
    }
    Some(ticks)
}

/// The number of busy-wait cycles for `ms` milliseconds at a core clock of
/// `sysclk_hz`.
pub fn delay_cycles(sysclk_hz: u32, ms: u32) -> (c: u32)
    requires
        (sysclk_hz / 1000) * ms <= u32::MAX,
    ensures
        c == (sysclk_hz / 1000) * ms,
{
    sysclk_hz / 1000 * ms
}

} // verus!
