//! The state that the timer interrupt and the main loop share: the timebase
//! and the bank of debounced inputs.

use crate::debounce::{ChannelState, InputChannel};
use crate::timebase::{tick_down, Timebase};
use crate::wiring::{Polarity, Wiring};
use vstd::prelude::*;

verus! {

/// Number of inputs, fixed at compile time.
pub const INPUT_COUNT: usize = 4;

/// Pin of the first pushbutton. The others sit on the pins that follow.
pub const FIRST_BUTTON_PIN: u32 = 12;

/// How the pushbuttons are wired: one after the other from
/// `FIRST_BUTTON_PIN` on, each shorting its pin to ground against a
/// pull-up.
pub open spec fn button_wiring_view() -> Seq<Wiring> {
    Seq::new(
        INPUT_COUNT as nat,
        |i: int| Wiring { pin: (FIRST_BUTTON_PIN + i) as u32, polarity: Polarity::ActiveLow },
    )
}

/// The wiring of the pushbuttons.
pub fn button_wiring() -> (wiring: [Wiring; INPUT_COUNT])
    ensures
        wiring@ == button_wiring_view(),
{
    let first = Wiring { pin: FIRST_BUTTON_PIN, polarity: Polarity::ActiveLow };
    let mut wiring: [Wiring; INPUT_COUNT] = [first; INPUT_COUNT];
    let mut pin: u32 = FIRST_BUTTON_PIN;
    let mut i: usize = 0;
    while i < INPUT_COUNT
        invariant
            i <= INPUT_COUNT,
            pin == FIRST_BUTTON_PIN + i,
            forall|j: int| 0 <= j < i ==> #[trigger] wiring[j] == button_wiring_view()[j],
        decreases INPUT_COUNT - i,
    {
        wiring[i] = Wiring { pin, polarity: Polarity::ActiveLow };
        pin += 1;
        i += 1;
    }
    proof {
        assert(wiring@ =~= button_wiring_view());
    }
    wiring
}

/// The shared state as the contracts see it.
pub struct SharedView {
    /// Ticks that the timebase has still to count down.
    pub timebase: nat,
    /// The inputs, in the order in which both contexts walk them.
    pub channels: Seq<ChannelState>,
    /// The wiring of each input.
    pub wiring: Seq<Wiring>,
}

impl SharedView {
    /// One well-formed channel and one wiring per input.
    pub open spec fn wf(self) -> bool {
        &&& self.channels.len() == INPUT_COUNT
        &&& self.wiring.len() == INPUT_COUNT
        &&& forall|i: int| 0 <= i < INPUT_COUNT ==> (#[trigger] self.channels[i]).wf()
    }

    /// The state at boot for inputs wired as `wiring` says: the timebase
    /// at zero and every input at rest.
    pub open spec fn boot(wiring: Seq<Wiring>) -> SharedView {
        SharedView {
            timebase: 0,
            channels: Seq::new(wiring.len(), |i: int| ChannelState::rest()),
            wiring,
        }
    }

    /// One timer tick on which the input port reads `port_bits`: the
    /// timebase steps towards zero and every input takes its debounce step
    /// on its own logical level.
    pub open spec fn tick(self, port_bits: u32) -> SharedView {
        SharedView {
            timebase: tick_down(self.timebase),
            channels: Seq::new(
                self.channels.len(),
                |i: int| self.channels[i].step(self.wiring[i].level(port_bits)),
            ),
            wiring: self.wiring,
        }
    }

    /// The state after one tick for each element of `port_reads`, in order,
    /// each tick reading the port as its element says.
    pub open spec fn run(self, port_reads: Seq<u32>) -> SharedView
        decreases port_reads.len(),
    {
        if port_reads.len() == 0 {
            self
        } else {
            self.run(port_reads.drop_last()).tick(port_reads.last())
        }
    }

    /// The logical levels that input `i` reads over a run of ticks.
    pub open spec fn samples(self, port_reads: Seq<u32>, i: int) -> Seq<bool> {
        Seq::new(port_reads.len(), |k: int| self.wiring[i].level(port_reads[k]))
    }

    /// Whether the tick numbered `t` of a run over `port_reads`, counting
    /// from zero, leaves the stable state of input `i` other than it found
    /// it.
    pub open spec fn flips_at(self, port_reads: Seq<u32>, i: int, t: int) -> bool {
        self.run(port_reads.take(t + 1)).channels[i].stable_state != self.run(
            port_reads.take(t),
        ).channels[i].stable_state
    }

    /// The state once a delay of `duration` ticks has been requested.
    pub open spec fn delay_started(self, duration: u32) -> SharedView {
        SharedView { timebase: duration as nat, ..self }
    }

    /// What the main loop has to write to the outputs: for each input with
    /// a pending change its stable state, for the others nothing.
    pub open spec fn pending_updates(self) -> Seq<Option<bool>> {
        Seq::new(
            self.channels.len(),
            |i: int|
                if self.channels[i].changed {
                    Some(self.channels[i].stable_state)
                } else {
                    None
                },
        )
    }

    /// The state once the main loop has acknowledged every pending change.
    pub open spec fn drained(self) -> SharedView {
        SharedView {
            channels: Seq::new(self.channels.len(), |i: int| self.channels[i].acknowledged()),
            ..self
        }
    }
}

/// The timebase and the inputs. The tick handler writes through `on_tick`;
/// the main loop loads the timebase and acknowledges changes.
#[derive(Debug)]
pub struct SharedState {
    timebase: Timebase,
    channels: [InputChannel; INPUT_COUNT],
    wiring: [Wiring; INPUT_COUNT],
}

impl View for SharedState {
    type V = SharedView;

    closed spec fn view(&self) -> SharedView {
        SharedView {
            timebase: self.timebase@,
            channels: Seq::new(INPUT_COUNT as nat, |i: int| self.channels[i]@),
            wiring: self.wiring@,
        }
    }
}

impl SharedState {
    #[verifier::type_invariant]
    spec fn channels_bounded(self) -> bool {
        forall|i: int| 0 <= i < INPUT_COUNT ==> (#[trigger] self.channels[i])@.wf()
    }

    /// The state at boot: the timebase at zero and every input at rest.
    pub fn new(wiring: [Wiring; INPUT_COUNT]) -> (shared: SharedState)
        ensures
            shared@ == SharedView::boot(wiring@),
            shared@.wf(),
    {
        let rest: InputChannel = InputChannel::new();
        let shared = SharedState {
            timebase: Timebase::new(),
            channels: [rest; INPUT_COUNT],
            wiring,
        };
        proof {
            assert(shared@.channels =~= SharedView::boot(wiring@).channels);
        }
        shared
    }

    /// The tick handler: the timebase steps towards zero, then each input
    /// in turn, from the first to the last, takes its debounce step on the
    /// level that `port_bits`, one read of the input port, gives it.
    pub fn on_tick(&mut self, port_bits: u32)
        ensures
            final(self)@ == old(self)@.tick(port_bits),
            final(self)@.wf(),
        no_unwind
    {
        proof {
            use_type_invariant(&*self);
        }
        self.timebase.tick();
        let mut i: usize = 0;
        while i < INPUT_COUNT
            invariant
                i <= INPUT_COUNT,
                self.timebase@ == tick_down(old(self).timebase@),
                self.wiring == old(self).wiring,
                forall|j: int|
                    0 <= j < i ==> (#[trigger] self.channels[j])@ == old(self).channels[j]@.step(
                        old(self).wiring[j].level(port_bits),
                    ),
                forall|j: int| i <= j < INPUT_COUNT ==> self.channels[j] == old(self).channels[j],
                forall|j: int| 0 <= j < INPUT_COUNT ==> (#[trigger] self.channels[j])@.wf(),
            decreases INPUT_COUNT - i,
        {
            let sample: bool = self.wiring[i].sample(port_bits);
            self.channels[i].tick(sample);
            i += 1;
        }
        proof {
            assert(self@.channels =~= old(self)@.tick(port_bits).channels);
        }
    }

    /// Ticks that the timebase has still to count down.
    pub fn remaining(&self) -> (ticks: u32)
        ensures
            ticks == self@.timebase,
    {
        self.timebase.remaining()
    }

    /// The inputs as they stand.
    pub fn channels(&self) -> (channels: [InputChannel; INPUT_COUNT])
        ensures
            forall|i: int| 0 <= i < INPUT_COUNT ==> (#[trigger] channels[i])@ == self@.channels[i],
            self@.wf(),
    {
        proof {
            use_type_invariant(self);
        }
        self.channels
    }

    /// The wiring that the inputs were given at boot.
    pub fn wiring(&self) -> (wiring: [Wiring; INPUT_COUNT])
        ensures
            wiring@ == self@.wiring,
    {
        self.wiring
    }

    /// Loads the timebase with `duration` ticks: the write with which a
    /// blocking delay begins.
    pub fn start_delay(&mut self, duration: u32)
        ensures
            final(self)@ == old(self)@.delay_started(duration),
            final(self)@.wf(),
    {
        proof {
            use_type_invariant(&*self);
        }
        self.timebase.start(duration);
        proof {
            assert(self@.channels =~= old(self)@.channels);
        }
    }

    /// Whether the timebase reads zero: the condition that a blocking
    /// delay spins on.
    pub fn delay_elapsed(&self) -> (elapsed: bool)
        ensures
            elapsed == (self@.timebase == 0),
    {
        self.timebase.expired()
    }

    /// The main loop's pass over the inputs, from the first to the last:
    /// each pending change is acknowledged, and the stable state that goes
    /// with it is handed out for the output of the same index.
    pub fn drain_changes(&mut self) -> (updates: [Option<bool>; INPUT_COUNT])
        ensures
            final(self)@ == old(self)@.drained(),
            final(self)@.wf(),
            updates@ == old(self)@.pending_updates(),
    {
        proof {
            use_type_invariant(&*self);
        }
        let nothing: Option<bool> = None;
        let mut updates: [Option<bool>; INPUT_COUNT] = [nothing; INPUT_COUNT];
        let mut i: usize = 0;
        while i < INPUT_COUNT
            invariant
                i <= INPUT_COUNT,
                self.timebase == old(self).timebase,
                self.wiring == old(self).wiring,
                forall|j: int|
                    0 <= j < i ==> (#[trigger] self.channels[j])@ == old(
                        self,
                    ).channels[j]@.acknowledged(),
                forall|j: int|
                    0 <= j < i ==> #[trigger] updates[j] == old(self)@.pending_updates()[j],
                forall|j: int| i <= j < INPUT_COUNT ==> self.channels[j] == old(self).channels[j],
                forall|j: int| 0 <= j < INPUT_COUNT ==> (#[trigger] self.channels[j])@.wf(),
            decreases INPUT_COUNT - i,
        {
            let update: Option<bool> = self.channels[i].acknowledge();
            updates[i] = update;
            i += 1;
        }
        proof {
            assert(self@.channels =~= old(self)@.drained().channels);
            assert(updates@ =~= old(self)@.pending_updates());
        }
        updates
    }
}

} // verus!
