//! The debounce state machine of one input, and the flag by which the timer
//! interrupt tells the main loop that the input's stable state has changed.

use vstd::prelude::*;

verus! {

/// Ticks after an accepted transition during which the input is not looked
/// at again.
pub const COOLDOWN_TICKS: u32 = 100;

/// The state of one input as the contracts see it.
pub struct ChannelState {
    /// Ticks of cooldown that are still to pass.
    pub debounce_ticks: nat,
    /// The debounced logical level.
    pub stable_state: bool,
    /// Set when `stable_state` flipped and the main loop has not yet taken
    /// note of it.
    pub changed: bool,
}

impl ChannelState {
    /// The state at boot: inactive, nothing to report, no cooldown.
    pub open spec fn rest() -> ChannelState {
        ChannelState { debounce_ticks: 0, stable_state: false, changed: false }
    }

    /// A cooldown never stands above its starting value.
    pub open spec fn wf(self) -> bool {
        self.debounce_ticks <= COOLDOWN_TICKS
    }

    /// Whether the input sits out a cooldown and so ignores its raw level.
    pub open spec fn in_cooldown(self) -> bool {
        self.debounce_ticks > 0
    }

    /// One timer tick, on which the raw level reads `sample`. In cooldown
    /// the tick only counts down. Otherwise a sample that differs from the
    /// stable state is taken over at once, flagged, and starts a cooldown;
    /// one that agrees changes nothing.
    pub open spec fn step(self, sample: bool) -> ChannelState {
        if self.in_cooldown() {
            ChannelState { debounce_ticks: (self.debounce_ticks - 1) as nat, ..self }
        } else if sample != self.stable_state {
            ChannelState {
                debounce_ticks: COOLDOWN_TICKS as nat,
                stable_state: sample,
                changed: true,
            }
        } else {
            self
        }
    }

    /// Whether a tick with this sample flips the stable state.
    pub open spec fn accepts(self, sample: bool) -> bool {
        !self.in_cooldown() && sample != self.stable_state
    }

    /// The main loop's acknowledgement: the flag is cleared, nothing else
    /// is touched.
    pub open spec fn acknowledged(self) -> ChannelState {
        ChannelState { changed: false, ..self }
    }

    /// The state after one tick for each element of `samples`, in order.
    pub open spec fn run(self, samples: Seq<bool>) -> ChannelState
        decreases samples.len(),
    {
        if samples.len() == 0 {
            self
        } else {
            self.run(samples.drop_last()).step(samples.last())
        }
    }

    /// Whether the tick numbered `t` of a run over `samples`, counting from
    /// zero, leaves the stable state other than it found it.
    pub open spec fn flips_at(self, samples: Seq<bool>, t: int) -> bool {
        self.run(samples.take(t + 1)).stable_state != self.run(samples.take(t)).stable_state
    }
}

/// One debounced input. Its fields are written by `tick` alone, but for the
/// flag, which `acknowledge` alone clears.
#[derive(Clone, Copy, Debug)]
pub struct InputChannel {
    debounce_ticks: u32,
    stable_state: bool,
    changed: bool,
}

impl View for InputChannel {
    type V = ChannelState;

    closed spec fn view(&self) -> ChannelState {
        ChannelState {
            debounce_ticks: self.debounce_ticks as nat,
            stable_state: self.stable_state,
            changed: self.changed,
        }
    }
}

impl InputChannel {
    #[verifier::type_invariant]
    spec fn cooldown_bounded(self) -> bool {
        self.debounce_ticks <= COOLDOWN_TICKS
    }

    /// An input at rest, as it is at boot.
    pub fn new() -> (channel: InputChannel)
        ensures
            channel@ == ChannelState::rest(),
    {
        InputChannel { debounce_ticks: 0, stable_state: false, changed: false }
    }

    /// The debounced logical level.
    pub fn stable_state(&self) -> (level: bool)
        ensures
            level == self@.stable_state,
    {
        self.stable_state
    }

    /// Whether a transition waits to be acknowledged. Reading does not
    /// clear the flag.
    pub fn changed(&self) -> (pending: bool)
        ensures
            pending == self@.changed,
    {
        self.changed
    }

    /// Ticks of cooldown that are still to pass.
    pub fn debounce_ticks(&self) -> (ticks: u32)
        ensures
            ticks == self@.debounce_ticks,
            self@.wf(),
    {
        proof {
            use_type_invariant(self);
        }
        self.debounce_ticks
    }

    /// The tick handler's work on this input, given the logical level that
    /// the raw level reads as on this tick.
    pub fn tick(&mut self, sample: bool)
        ensures
            final(self)@ == old(self)@.step(sample),
            final(self)@.wf(),
        no_unwind
    {
        proof {
            use_type_invariant(&*self);
        }
        if self.debounce_ticks > 0 {
            self.debounce_ticks = self.debounce_ticks - 1;
        } else if sample != self.stable_state {
            self.stable_state = sample;
            self.changed = true;
            self.debounce_ticks = COOLDOWN_TICKS;
        }
    }

    /// The main loop's side of the hand-off: clears the flag and, if it was
    /// set, returns the stable state to mirror to the output.
    pub fn acknowledge(&mut self) -> (update: Option<bool>)
        ensures
            final(self)@ == old(self)@.acknowledged(),
            update == if old(self)@.changed {
                Some(old(self)@.stable_state)
            } else {
                None
            },
        no_unwind
    {
        proof {
            use_type_invariant(&*self);
        }
        if self.changed {
            self.changed = false;
            Some(self.stable_state)
        } else {
            None
        }
    }
}

} // verus!
