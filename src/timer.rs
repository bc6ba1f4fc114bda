//! Time: the machine timer counts at `CLOCK_FREQ`, and the kernel asks for an interrupt
//! `TICK_PER_SEC` times a second.
use vstd::prelude::*;

use crate::constant::{CLOCK_FREQ, TICK_PER_SEC};

verus! {

/// Converts a reading of the machine timer into milliseconds.
pub fn get_time(mtime: u64) -> (r: u64)
    ensures
        r == mtime / (CLOCK_FREQ / 1000),
{
    mtime / (CLOCK_FREQ / 1000)
}

/// Returns the timer value at which the next tick is due.
pub fn set_trigger(mtime: u64) -> (r: u64)
    requires
        mtime <= u64::MAX - CLOCK_FREQ / TICK_PER_SEC,
    ensures
        r == mtime + CLOCK_FREQ / TICK_PER_SEC,
{
    mtime + CLOCK_FREQ / TICK_PER_SEC
}

} // verus!
