//! The main loop's part: it acknowledges the changes that the tick handler
//! has flagged and mirrors each stable state to the output of its input.

use crate::shared::{SharedState, SharedView, INPUT_COUNT};
use vstd::prelude::*;

verus! {

/// Ticks that the main loop waits between two passes over the inputs, and
/// so between two toggles of the heartbeat.
pub const HEARTBEAT_TICKS: u32 = 100;

/// The outputs at boot: each of the `count` shows the rest level.
pub open spec fn outputs_at_rest(count: nat) -> Seq<bool> {
    Seq::new(count, |i: int| false)
}

/// The outputs once `updates` have been written to them: an output with an
/// update shows the update's level, the others show what they showed.
pub open spec fn mirrored(outputs: Seq<bool>, updates: Seq<Option<bool>>) -> Seq<bool> {
    Seq::new(
        outputs.len(),
        |i: int|
            match updates[i] {
                Some(level) => level,
                None => outputs[i],
            },
    )
}

/// The outputs are in step with the inputs: there is one for each input,
/// and each one whose input has no change pending shows that input's
/// stable state.
pub open spec fn in_step(shared: SharedView, outputs: Seq<bool>) -> bool {
    &&& outputs.len() == shared.channels.len()
    &&& forall|i: int|
        0 <= i < outputs.len() && !(#[trigger] shared.channels[i]).changed ==> outputs[i]
            == shared.channels[i].stable_state
}

/// What the main loop alone owns: the level that each output shows.
#[derive(Debug)]
pub struct MainLoop {
    outputs: [bool; INPUT_COUNT],
}

impl View for MainLoop {
    type V = Seq<bool>;

    /// The level of each output, by the index of its input.
    closed spec fn view(&self) -> Seq<bool> {
        self.outputs@
    }
}

impl MainLoop {
    /// The main loop at boot: every output shows the rest level.
    pub fn new() -> (main_loop: MainLoop)
        ensures
            main_loop@ == outputs_at_rest(INPUT_COUNT as nat),
    {
        let main_loop = MainLoop { outputs: [false; INPUT_COUNT] };
        proof {
            assert(main_loop@ =~= outputs_at_rest(INPUT_COUNT as nat));
        }
        main_loop
    }

    /// The level that each output shows.
    pub fn outputs(&self) -> (outputs: [bool; INPUT_COUNT])
        ensures
            outputs@ == self@,
    {
        self.outputs
    }

    /// One pass over the inputs, from the first to the last. Each pending
    /// change is acknowledged and its stable state mirrored to the output
    /// of the same index. Returns the levels to write to the outputs; an
    /// output without an update is left as it is.
    pub fn dispatch(&mut self, shared: &mut SharedState) -> (updates: [Option<bool>; INPUT_COUNT])
        ensures
            updates@ == old(shared)@.pending_updates(),
            final(shared)@ == old(shared)@.drained(),
            final(shared)@.wf(),
            final(self)@ == mirrored(old(self)@, updates@),
    {
        let updates: [Option<bool>; INPUT_COUNT] = shared.drain_changes();
        let mut i: usize = 0;
        while i < INPUT_COUNT
            invariant
                i <= INPUT_COUNT,
                forall|j: int|
                    0 <= j < i ==> #[trigger] self.outputs[j] == mirrored(
                        old(self)@,
                        updates@,
                    )[j],
                forall|j: int| i <= j < INPUT_COUNT ==> self.outputs[j] == old(self).outputs[j],
            decreases INPUT_COUNT - i,
        {
            match updates[i] {
                Some(level) => {
                    self.outputs[i] = level;
                },
                None => {},
            }
            i += 1;
        }
        proof {
            assert(self@ =~= mirrored(old(self)@, updates@));
        }
        updates
    }
}

/// After a pass of the main loop over inputs that the outputs were in step
/// with, every output shows its input's stable state and no change is
/// pending.
pub proof fn lemma_dispatch_mirrors(shared: SharedView, outputs: Seq<bool>)
    requires
        in_step(shared, outputs),
    ensures
        in_step(shared.drained(), mirrored(outputs, shared.pending_updates())),
        forall|i: int|
            0 <= i < outputs.len() ==> {
                &&& !(#[trigger] shared.drained().channels[i]).changed
                &&& mirrored(outputs, shared.pending_updates())[i]
                    == shared.drained().channels[i].stable_state
            },
{
    assert forall|i: int| 0 <= i < outputs.len() implies {
        &&& !(#[trigger] shared.drained().channels[i]).changed
        &&& mirrored(outputs, shared.pending_updates())[i]
            == shared.drained().channels[i].stable_state
    } by {
        if !shared.channels[i].changed {
            assert(outputs[i] == shared.channels[i].stable_state);
        }
    }
}

} // verus!
