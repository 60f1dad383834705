//! Readings of the system clocks. A reading knows the clock that it was taken from, and
//! comes from nowhere else.
use vstd::prelude::*;

verus! {

/// A clock that can be read.
#[derive(Debug, Clone, Copy, PartialEq, Eq)]
pub enum Clock {
    /// Stands still during suspend.
    Monotonic,
    /// Runs on during suspend.
    Boottime,
}

/// What a clock showed when it was read, and in which turn that was.
pub struct Reading {
    clock: Clock,
    seconds: i64,
    nanoseconds: i64,
    turn: Ghost<nat>,
}

impl Reading {
    /// The clock that was read.
    pub closed spec fn source(self) -> Clock {
        self.clock
    }

    /// The seconds and nanoseconds that it showed.
    pub closed spec fn shown(self) -> (i64, i64) {
        (self.seconds, self.nanoseconds)
    }

    /// How many readings were taken before it, one after another.
    pub closed spec fn turn(self) -> nat {
        self.turn@
    }

    /// The seconds and nanoseconds that the clock showed.
    pub fn time(&self) -> (r: (i64, i64))
        ensures
            r == self.shown(),
    {
        (self.seconds, self.nanoseconds)
    }
}

/// An optional reading.
pub open spec fn optional_reading(reading: Option<&Reading>) -> Option<Reading> {
    match reading {
        Some(reading) => Some(*reading),
        None => None,
    }
}

/// The turn of a reading that is taken after another, or first.
pub open spec fn next_turn(earlier: Option<Reading>) -> nat {
    match earlier {
        Some(reading) => reading.turn() + 1,
        None => 0,
    }
}

/// `rustix::time::clock_gettime` reads the clock that it is asked for, in seconds and
/// nanoseconds. The reading is taken after the earlier one, which is there when the call
/// is made. Nothing is claimed of the time, which rests on the machine.
#[verifier::external_body]
pub(crate) fn clock_gettime(clock: Clock, earlier: Option<&Reading>) -> (r: Reading)
    ensures
        r.source() == clock,
        r.turn() == next_turn(optional_reading(earlier)),
{
    let time = rustix::time::clock_gettime(match clock {
        Clock::Monotonic => rustix::time::ClockId::Monotonic,
        Clock::Boottime => rustix::time::ClockId::Boottime,
    });
    Reading {
        clock,
        seconds: time.tv_sec,
        nanoseconds: time.tv_nsec,
        turn: Ghost(next_turn(optional_reading(earlier))),
    }
}

} // verus!
