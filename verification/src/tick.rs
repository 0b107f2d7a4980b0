//! Change ticks: the version counter that every comparison in this library is made with.
use vstd::prelude::*;

verus! {

/// The largest age that two ticks can still be told apart at. Anything older compares as equally
/// old.
pub const MAX_CHANGE_AGE: u32 = 3_258_167_296;

/// How many values a tick can take before it starts over.
pub const TICK_PERIOD: u64 = 0x1_0000_0000;

/// A point in a world's history. Ticks wrap around, so they are only ever compared by their age
/// relative to a third tick.
#[derive(Copy, Clone, PartialEq, Eq, Hash, Debug, Structural)]
pub struct Tick(pub u32);

impl Tick {
    /// How many ticks ago `self` was, seen from `now`.
    pub open spec fn age(self, now: Tick) -> int {
        (now.0 - self.0) % (TICK_PERIOD as int)
    }

    /// The age of `self` seen from `now`, with everything beyond [`MAX_CHANGE_AGE`] counted as
    /// equally old.
    pub open spec fn clamped_age(self, now: Tick) -> int {
        if self.age(now) < MAX_CHANGE_AGE {
            self.age(now)
        } else {
            MAX_CHANGE_AGE as int
        }
    }

    /// Whether `self` happened after `last_run`, seen from `this_run`.
    pub open spec fn newer_than(self, last_run: Tick, this_run: Tick) -> bool {
        self.clamped_age(this_run) < last_run.clamped_age(this_run)
    }

    /// The tick `steps` ticks after this one.
    pub open spec fn after(self, steps: int) -> Tick {
        Tick(((self.0 + steps) % (TICK_PERIOD as int)) as u32)
    }

    /// The tick that follows this one.
    pub open spec fn next(self) -> Tick {
        self.after(1)
    }

    /// The tick that follows this one, starting over at zero after the last.
    pub fn following(self) -> (tick: Tick)
        ensures
            tick == self.next(),
    {
        Tick(self.0.wrapping_add(1))
    }

    /// Computes how many ticks ago `self` was, seen from `now`, up to [`MAX_CHANGE_AGE`].
    fn ticks_since(self, now: Tick) -> (age: u32)
        ensures
            age == self.clamped_age(now),
    {
        let age: u32 = now.0.wrapping_sub(self.0);
        if age < MAX_CHANGE_AGE {
            age
        } else {
            MAX_CHANGE_AGE
        }
    }

    /// Returns whether this tick happened after `last_run`, as seen from `this_run`.
    pub fn is_newer_than(self, last_run: Tick, this_run: Tick) -> (newer: bool)
        ensures
            newer == self.newer_than(last_run, this_run),
    {
        last_run.ticks_since(this_run) > self.ticks_since(this_run)
    }
}

impl Default for Tick {
    fn default() -> (tick: Tick)
        ensures
            tick == Tick(0),
    {
        Tick(0)
    }
}

} // verus!
