//! The millisecond timebase: a countdown that the periodic timer interrupt
//! drains, one step per tick, and that a blocking delay waits on.

use vstd::prelude::*;

verus! {

/// Clock cycles that the hardware timer counts from one tick to the next.
pub const TICK_RELOAD: u32 = 8000;

/// What one timer tick makes of a countdown that stands at `remaining`:
/// one less, and never less than zero.
pub open spec fn tick_down(remaining: nat) -> nat {
    if remaining > 0 {
        (remaining - 1) as nat
    } else {
        0
    }
}

/// The countdown after `ticks` timer ticks, when nothing but the tick
/// handler writes it.
pub open spec fn remaining_after(remaining: nat, ticks: nat) -> nat
    decreases ticks,
{
    if ticks == 0 {
        remaining
    } else {
        tick_down(remaining_after(remaining, (ticks - 1) as nat))
    }
}

/// The free-running countdown behind the blocking delay. The tick handler
/// is the only one to drain it; the delay is the only one to load it.
#[derive(Clone, Copy, Debug)]
pub struct Timebase {
    remaining: u32,
}

impl View for Timebase {
    type V = nat;

    /// The number of ticks that are still to pass.
    closed spec fn view(&self) -> nat {
        self.remaining as nat
    }
}

impl Timebase {
    /// A timebase at rest: nothing to wait for.
    pub fn new() -> (timebase: Timebase)
        ensures
            timebase@ == 0,
    {
        Timebase { remaining: 0 }
    }

    /// The ticks that are still to pass before the countdown reads zero.
    pub fn remaining(&self) -> (ticks: u32)
        ensures
            ticks == self@,
    {
        self.remaining
    }

    /// Loads the countdown with `duration` ticks: the first half of a
    /// blocking delay.
    pub fn start(&mut self, duration: u32)
        ensures
            final(self)@ == duration,
        no_unwind
    {
        self.remaining = duration;
    }

    /// Whether the countdown has reached zero: the condition on which a
    /// blocking delay returns.
    pub fn expired(&self) -> (done: bool)
        ensures
            done == (self@ == 0),
    {
        self.remaining == 0
    }

    /// The tick handler's effect: one step towards zero, staying at zero
    /// once it is reached.
    pub fn tick(&mut self)
        ensures
            final(self)@ == tick_down(old(self)@),
        no_unwind
    {
        if self.remaining != 0 {
            self.remaining = self.remaining - 1;
        }
    }
}

/// Ticks only ever count down: after `ticks` of them a countdown of
/// `remaining` stands at `remaining - ticks`, or at zero if that many
/// have passed.
pub proof fn lemma_remaining_after(remaining: nat, ticks: nat)
    ensures
        remaining_after(remaining, ticks) == if ticks >= remaining {
            0
        } else {
            remaining - ticks
        },
    decreases ticks,
{
    if ticks > 0 {
        lemma_remaining_after(remaining, (ticks - 1) as nat);
    }
}

} // verus!
