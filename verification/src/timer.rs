//! Time as the kernel reports it, from the ticks of the `time` register.
use vstd::prelude::*;
use crate::config::CLOCK_FREQ;

verus! {

pub const TICKS_PER_SEC: usize = 100;

pub const USEC_PER_SEC: usize = 1000000;

/// Seconds and microseconds.
#[derive(Copy, Clone, Debug)]
pub struct TimeVal(usize, usize);

impl TimeVal {
    pub closed spec fn sec_value(self) -> usize {
        self.0
    }

    pub closed spec fn usec_value(self) -> usize {
        self.1
    }

    pub fn sec(&self) -> (r: usize)
        ensures
            r == self.sec_value(),
    {
        self.0
    }

    pub fn usec(&self) -> (r: usize)
        ensures
            r == self.usec_value(),
    {
        self.1
    }
}

/// The time that `clock` ticks stand for: whole seconds, then the rest in
/// units of `CLOCK_FREQ / USEC_PER_SEC` ticks (integer division on both).
pub fn time_val_from_clock(clock: usize) -> (r: TimeVal)
    ensures
        r.sec_value() == clock / CLOCK_FREQ,
        r.usec_value() == (clock % CLOCK_FREQ) / (CLOCK_FREQ / USEC_PER_SEC),
{
    let sec = clock / CLOCK_FREQ;
    let rest = clock % CLOCK_FREQ;
    let usec = rest / (CLOCK_FREQ / USEC_PER_SEC);
    TimeVal(sec, usec)
}

/// The deadline at which the next timer interrupt is set, `now` being the
/// current value of the `time` register: one tick period later.
pub fn set_next_trigger(now: usize) -> (r: usize)
    requires
        now + CLOCK_FREQ / TICKS_PER_SEC <= usize::MAX,
    ensures
        r == now + CLOCK_FREQ / TICKS_PER_SEC,
{
    now + CLOCK_FREQ / TICKS_PER_SEC
}

} // verus!
