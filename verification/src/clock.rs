//! The frame clock: the time between two updates.
//!
//! Time is a count of nanoseconds since an origin that the caller picks;
//! the clock only ever looks at differences.

use vstd::prelude::*;

verus! {

/// The timestamp of the last update and the time that had passed since the
/// one before it, both in nanoseconds.
#[derive(Clone, Copy, Debug, PartialEq, Eq, Structural)]
pub struct FrameClock {
    pub last: u64,
    pub delta: u64,
}

impl FrameClock {
    /// The clock after an update at `now`: the delta is the time since the
    /// last update, or nothing if `now` lies before it.
    pub open spec fn ticked(self, now: u64) -> FrameClock {
        FrameClock {
            last: now,
            delta: if now >= self.last {
                (now - self.last) as u64
            } else {
                0
            },
        }
    }

    /// A clock that starts at `now` with no time passed.
    pub fn new(now: u64) -> (clock: FrameClock)
        ensures
            clock == (FrameClock { last: now, delta: 0 }),
    {
        FrameClock { last: now, delta: 0 }
    }

    /// Records an update at `now`: the raw, unsmoothed time since the last
    /// one becomes the delta and `now` the new last timestamp.
    pub fn tick(&mut self, now: u64)
        ensures
            *final(self) == old(self).ticked(now),
            final(self).delta >= 0,
            now >= old(self).last ==> final(self).delta == now - old(self).last,
    {
        self.delta = if now >= self.last {
            now - self.last
        } else {
            0
        };
        self.last = now;
    }
}

} // verus!
