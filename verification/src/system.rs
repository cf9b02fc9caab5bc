//! The two contexts together, as a state machine. An event is one
//! uninterrupted step of either context: a tick of the timer interrupt, or
//! one of the main loop's two writes. It does to the state what one call of
//! `SharedState::on_tick`, `SharedState::start_delay` or
//! `MainLoop::dispatch` does by that function's contract. A run is any order
//! in which such steps can follow one another.

use crate::debounce::{ChannelState, COOLDOWN_TICKS};
use crate::dispatch::{in_step, lemma_dispatch_mirrors, mirrored, outputs_at_rest};
use crate::shared::SharedView;
use crate::timebase::{lemma_remaining_after, remaining_after};
use crate::trace::{lemma_held_level_is_accepted, lemma_run_is_per_input};
use crate::wiring::Wiring;
use vstd::prelude::*;

verus! {

/// One uninterrupted step of one of the two contexts.
pub enum Event {
    /// The timer interrupt fires, and the input port reads `port_bits`.
    Tick { port_bits: u32 },
    /// The main loop loads the timebase to begin a delay.
    StartDelay { duration: u32 },
    /// The main loop makes its pass over the inputs.
    Dispatch,
}

/// The shared state together with what the main loop owns.
pub struct SystemView {
    /// What the interrupt and the main loop share.
    pub shared: SharedView,
    /// The level that each output shows.
    pub outputs: Seq<bool>,
}

/// The port reads of the ticks among `events`, in their order.
pub open spec fn ticks_in(events: Seq<Event>) -> Seq<u32>
    decreases events.len(),
{
    if events.len() == 0 {
        Seq::empty()
    } else {
        match events.last() {
            Event::Tick { port_bits } => ticks_in(events.drop_last()).push(port_bits),
            _ => ticks_in(events.drop_last()),
        }
    }
}

/// Whether no delay is begun among `events`.
pub open spec fn no_delay_started(events: Seq<Event>) -> bool {
    forall|k: int| 0 <= k < events.len() ==> !(#[trigger] events[k] is StartDelay)
}

impl SystemView {
    /// The system at boot, with `wiring.len()` inputs: the timebase at
    /// zero, every input at rest, every output at the rest level.
    pub open spec fn boot(wiring: Seq<Wiring>) -> SystemView {
        SystemView { shared: SharedView::boot(wiring), outputs: outputs_at_rest(wiring.len()) }
    }

    /// The state after one event.
    pub open spec fn next(self, event: Event) -> SystemView {
        match event {
            Event::Tick { port_bits } => SystemView {
                shared: self.shared.tick(port_bits),
                ..self
            },
            Event::StartDelay { duration } => SystemView {
                shared: self.shared.delay_started(duration),
                ..self
            },
            Event::Dispatch => SystemView {
                shared: self.shared.drained(),
                outputs: mirrored(self.outputs, self.shared.pending_updates()),
            },
        }
    }

    /// The state after `events`, in their order.
    pub open spec fn run(self, events: Seq<Event>) -> SystemView
        decreases events.len(),
    {
        if events.len() == 0 {
            self
        } else {
            self.run(events.drop_last()).next(events.last())
        }
    }

    /// What holds of every state that the system can reach: no cooldown
    /// stands above its starting value, there is one wiring and one output
    /// for each input, and an output whose input has no change pending
    /// shows that input's stable state.
    pub open spec fn inv(self) -> bool {
        &&& self.shared.wiring.len() == self.shared.channels.len()
        &&& forall|i: int|
            0 <= i < self.shared.channels.len() ==> (#[trigger] self.shared.channels[i]).wf()
        &&& in_step(self.shared, self.outputs)
    }
}

/// The invariant holds at boot.
pub proof fn lemma_boot_inv(wiring: Seq<Wiring>)
    ensures
        SystemView::boot(wiring).inv(),
{
}

/// Every event keeps the invariant.
pub proof fn lemma_next_keeps_inv(s: SystemView, event: Event)
    requires
        s.inv(),
    ensures
        s.next(event).inv(),
{
    let t = s.next(event);
    assert forall|i: int| 0 <= i < t.outputs.len() && !(#[trigger] t.shared.channels[i]).changed
        implies t.outputs[i] == t.shared.channels[i].stable_state by {
        if !s.shared.channels[i].changed {
            assert(s.outputs[i] == s.shared.channels[i].stable_state);
        }
    }
    assert forall|i: int| 0 <= i < t.shared.channels.len() implies (#[trigger] t.shared.channels[
        i
    ]).wf() by {
        assert(s.shared.channels[i].wf());
    }
}

/// Every run keeps the invariant, in whatever order ticks and the main
/// loop's steps follow one another.
pub proof fn lemma_run_keeps_inv(s: SystemView, events: Seq<Event>)
    requires
        s.inv(),
    ensures
        s.run(events).inv(),
    decreases events.len(),
{
    if events.len() > 0 {
        lemma_run_keeps_inv(s, events.drop_last());
        lemma_next_keeps_inv(s.run(events.drop_last()), events.last());
    }
}

/// The invariant holds in every state that the system can reach from
/// boot.
pub proof fn lemma_reachable_inv(wiring: Seq<Wiring>, events: Seq<Event>)
    ensures
        SystemView::boot(wiring).run(events).inv(),
{
    lemma_boot_inv(wiring);
    lemma_run_keeps_inv(SystemView::boot(wiring), events);
}

/// The latest state wins: right after a pass of the main loop, in any
/// reachable state, no change is pending and every output shows its
/// input's stable state as it stood when the pass was made.
pub proof fn lemma_dispatch_shows_latest(wiring: Seq<Wiring>, events: Seq<Event>, i: int)
    requires
        0 <= i < wiring.len(),
    ensures
        ({
            let before = SystemView::boot(wiring).run(events);
            let after = before.next(Event::Dispatch);
            &&& !after.shared.channels[i].changed
            &&& after.outputs[i] == before.shared.channels[i].stable_state
            &&& after.shared.channels[i].stable_state == before.shared.channels[i].stable_state
        }),
{
    lemma_reachable_inv(wiring, events);
    lemma_run_keeps_shape(SystemView::boot(wiring), events);
    let before = SystemView::boot(wiring).run(events);
    lemma_dispatch_mirrors(before.shared, before.outputs);
}

/// Each context writes only what is its own. A tick never clears a flag,
/// sets it on exactly the ticks on which it flips the stable state, and
/// leaves the outputs alone. The main loop's pass clears the flags and
/// writes the outputs, and leaves the stable states, the cooldowns and the
/// timebase alone. Its delay loads the timebase and leaves all else alone.
/// None of them touches the wiring.
pub proof fn lemma_single_writer(s: SystemView, event: Event, i: int)
    requires
        0 <= i < s.shared.channels.len(),
    ensures
        s.next(event).shared.wiring == s.shared.wiring,
        match event {
            Event::Tick { port_bits } => {
                let before = s.shared.channels[i];
                let after = s.next(event).shared.channels[i];
                &&& after.changed <==> before.changed || after.stable_state != before.stable_state
                &&& s.next(event).outputs == s.outputs
            },
            Event::StartDelay { duration } => {
                &&& s.next(event).shared.channels == s.shared.channels
                &&& s.next(event).outputs == s.outputs
            },
            Event::Dispatch => {
                &&& s.next(event).shared.channels[i] == (ChannelState {
                    changed: false,
                    ..s.shared.channels[i]
                })
                &&& s.next(event).shared.timebase == s.shared.timebase
            },
        },
{
}

/// No event adds or removes an input, an output or a wiring.
pub proof fn lemma_run_keeps_shape(s: SystemView, events: Seq<Event>)
    ensures
        s.run(events).shared.channels.len() == s.shared.channels.len(),
        s.run(events).shared.wiring == s.shared.wiring,
        s.run(events).outputs.len() == s.outputs.len(),
    decreases events.len(),
{
    if events.len() > 0 {
        lemma_run_keeps_shape(s, events.drop_last());
    }
}

/// The main loop does not disturb the debouncing: after any run, the stable
/// state and the cooldown of each input are what the ticks of the run alone
/// would have made them.
pub proof fn lemma_debounce_sees_only_ticks(s: SystemView, events: Seq<Event>, i: int)
    requires
        0 <= i < s.shared.channels.len(),
    ensures
        s.run(events).shared.channels[i].stable_state == s.shared.run(
            ticks_in(events),
        ).channels[i].stable_state,
        s.run(events).shared.channels[i].debounce_ticks == s.shared.run(
            ticks_in(events),
        ).channels[i].debounce_ticks,
    decreases events.len(),
{
    if events.len() > 0 {
        let earlier = events.drop_last();
        lemma_debounce_sees_only_ticks(s, earlier, i);
        lemma_run_keeps_shape(s, earlier);
        lemma_run_is_per_input(s.shared, ticks_in(earlier));
        match events.last() {
            Event::Tick { port_bits } => {
                assert(ticks_in(events).drop_last() =~= ticks_in(earlier));
            },
            _ => {},
        }
    }
}

/// A delay lasts as long as it was asked to, whatever else happens in
/// between: once `duration` is loaded, and as long as no other delay is
/// begun, the timebase reads zero if and only if at least `duration` ticks
/// have come.
pub proof fn lemma_delay_counts_only_ticks(s: SystemView, duration: u32, events: Seq<Event>)
    requires
        no_delay_started(events),
    ensures
        s.next(Event::StartDelay { duration }).run(events).shared.timebase == remaining_after(
            duration as nat,
            ticks_in(events).len(),
        ),
        s.next(Event::StartDelay { duration }).run(events).shared.timebase == 0 <==> ticks_in(
            events,
        ).len() >= duration,
    decreases events.len(),
{
    if events.len() > 0 {
        let earlier = events.drop_last();
        assert(!(events[events.len() - 1] is StartDelay));
        assert forall|k: int| 0 <= k < earlier.len() implies !(#[trigger] earlier[k]
            is StartDelay) by {
            assert(earlier[k] == events[k]);
        }
        lemma_delay_counts_only_ticks(s, duration, earlier);
    }
    lemma_remaining_after(duration as nat, ticks_in(events).len());
}

/// From input to output: a level that an input holds for more than
/// `COOLDOWN_TICKS` ticks shows at its output after the main loop's next
/// pass, whatever happened before and whatever the main loop does while the
/// level is held.
pub proof fn lemma_held_level_reaches_output(
    wiring: Seq<Wiring>,
    before: Seq<Event>,
    during: Seq<Event>,
    i: int,
    level: bool,
)
    requires
        0 <= i < wiring.len(),
        ticks_in(during).len() > COOLDOWN_TICKS,
        forall|k: int|
            0 <= k < ticks_in(during).len() ==> wiring[i].level(#[trigger] ticks_in(during)[k])
                == level,
    ensures
        SystemView::boot(wiring).run(before).run(during).next(Event::Dispatch).outputs[i]
            == level,
{
    let start = SystemView::boot(wiring).run(before);
    let held = start.run(during);
    lemma_reachable_inv(wiring, before);
    lemma_run_keeps_shape(SystemView::boot(wiring), before);
    lemma_run_keeps_inv(start, during);
    lemma_run_keeps_shape(start, during);
    lemma_debounce_sees_only_ticks(start, during, i);
    lemma_run_is_per_input(start.shared, ticks_in(during));
    assert(start.shared.channels[i].wf());
    lemma_held_level_is_accepted(
        start.shared.channels[i],
        start.shared.samples(ticks_in(during), i),
        level,
    );
    lemma_dispatch_mirrors(held.shared, held.outputs);
}

} // verus!
