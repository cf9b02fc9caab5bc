//! What holds over any run of ticks: transitions of an input keep their
//! distance, none is reported late or lost, a level that is held is taken
//! over, and a delay lasts as long as it was asked to.

use crate::debounce::{ChannelState, COOLDOWN_TICKS};
use crate::shared::SharedView;
use crate::timebase::{lemma_remaining_after, remaining_after};
use vstd::prelude::*;

verus! {

/// A run that is one tick longer ends in the step of that tick.
pub proof fn lemma_run_unfolds(s: ChannelState, samples: Seq<bool>, t: int)
    requires
        0 <= t < samples.len(),
    ensures
        s.run(samples.take(t + 1)) == s.run(samples.take(t)).step(samples[t]),
{
    assert(samples.take(t + 1).drop_last() =~= samples.take(t));
}

/// The stable state flips on a tick exactly when the input is out of
/// cooldown and its sample disagrees with the stable state; the new stable
/// state is then the sample, the flag is set, and a full cooldown begins.
pub proof fn lemma_flip_is_accepted_sample(s: ChannelState, samples: Seq<bool>, t: int)
    requires
        0 <= t < samples.len(),
    ensures
        s.flips_at(samples, t) <==> s.run(samples.take(t)).accepts(samples[t]),
        s.flips_at(samples, t) ==> s.run(samples.take(t + 1)) == (ChannelState {
            debounce_ticks: COOLDOWN_TICKS as nat,
            stable_state: samples[t],
            changed: true,
        }),
{
    lemma_run_unfolds(s, samples, t);
}

/// While a cooldown lasts, ticks do nothing but count it down: `k` ticks
/// into a cooldown of at least `k` the stable state and the flag stand as
/// they stood.
pub proof fn lemma_cooldown_holds(s: ChannelState, samples: Seq<bool>, t: int, k: nat)
    requires
        0 <= t,
        t + k <= samples.len(),
        s.run(samples.take(t)).debounce_ticks >= k,
    ensures
        s.run(samples.take(t + k)) == (ChannelState {
            debounce_ticks: (s.run(samples.take(t)).debounce_ticks - k) as nat,
            ..s.run(samples.take(t))
        }),
    decreases k,
{
    if k > 0 {
        lemma_cooldown_holds(s, samples, t, (k - 1) as nat);
        lemma_run_unfolds(s, samples, t + k - 1);
    }
}

/// No transition follows another faster than the cooldown allows: between
/// two ticks on which the stable state flips lie more than
/// `COOLDOWN_TICKS` ticks, whatever the samples are.
pub proof fn lemma_transitions_keep_distance(
    s: ChannelState,
    samples: Seq<bool>,
    first: int,
    second: int,
)
    requires
        0 <= first < second < samples.len(),
        s.flips_at(samples, first),
        s.flips_at(samples, second),
    ensures
        second - first > COOLDOWN_TICKS,
{
    if second - first <= COOLDOWN_TICKS {
        lemma_flip_is_accepted_sample(s, samples, first);
        lemma_cooldown_holds(s, samples, first + 1, (second - first - 1) as nat);
        lemma_flip_is_accepted_sample(s, samples, second);
    }
}

/// The flag is sticky and exact: after any run it is set if and only if it
/// was set before or the stable state flipped on some tick of the run.
pub proof fn lemma_flag_reports_every_flip(s: ChannelState, samples: Seq<bool>)
    ensures
        s.run(samples).changed <==> s.changed || exists|t: int|
            0 <= t < samples.len() && s.flips_at(samples, t),
    decreases samples.len(),
{
    if samples.len() > 0 {
        let shorter = samples.drop_last();
        let last = samples.len() - 1;
        lemma_flag_reports_every_flip(s, shorter);
        assert(samples.take(last) =~= shorter);
        assert(samples.take(last + 1) =~= samples);
        assert forall|t: int| 0 <= t < last implies s.flips_at(shorter, t) == s.flips_at(
            samples,
            t,
        ) by {
            assert(shorter.take(t + 1) =~= samples.take(t + 1));
            assert(shorter.take(t) =~= samples.take(t));
        }
        if s.run(samples).changed {
            if !s.run(shorter).changed {
                assert(s.flips_at(samples, last));
            } else if !s.changed {
                let t = choose|t: int| 0 <= t < shorter.len() && s.flips_at(shorter, t);
                assert(s.flips_at(samples, t));
            }
        } else {
            assert forall|t: int| 0 <= t < samples.len() implies !s.flips_at(samples, t) by {
                if t < last {
                    assert(!s.flips_at(shorter, t));
                }
            }
        }
    }
}

/// Once the main loop has acknowledged a change, the flag reads false
/// until the stable state flips again, and true from then on.
pub proof fn lemma_flag_after_acknowledge(s: ChannelState, samples: Seq<bool>)
    ensures
        s.acknowledged().run(samples).changed <==> exists|t: int|
            0 <= t < samples.len() && s.acknowledged().flips_at(samples, t),
{
    lemma_flag_reports_every_flip(s.acknowledged(), samples);
}

/// A run can be cut in two at any tick: the whole run is the run over the
/// ticks after the cut, begun where the run over the ticks before it ends.
pub proof fn lemma_run_splits(s: ChannelState, samples: Seq<bool>, t: int)
    requires
        0 <= t <= samples.len(),
    ensures
        s.run(samples) == s.run(samples.take(t)).run(samples.skip(t)),
    decreases samples.len(),
{
    if t == samples.len() {
        assert(samples.take(t) =~= samples);
    } else {
        let shorter = samples.drop_last();
        lemma_run_splits(s, shorter, t);
        assert(shorter.take(t) =~= samples.take(t));
        assert(shorter.skip(t) =~= samples.skip(t).drop_last());
    }
}

/// Samples that agree with the stable state never change it.
pub proof fn lemma_agreeing_samples_change_nothing(s: ChannelState, samples: Seq<bool>)
    requires
        forall|k: int| 0 <= k < samples.len() ==> samples[k] == s.stable_state,
    ensures
        s.run(samples).stable_state == s.stable_state,
        s.run(samples).changed == s.changed,
    decreases samples.len(),
{
    if samples.len() > 0 {
        lemma_agreeing_samples_change_nothing(s, samples.drop_last());
    }
}

/// A level that is held is taken over: after more than `COOLDOWN_TICKS`
/// ticks that all sample the same level, that level is the stable state,
/// whatever cooldown was running at the start.
pub proof fn lemma_held_level_is_accepted(s: ChannelState, samples: Seq<bool>, level: bool)
    requires
        s.wf(),
        samples.len() > COOLDOWN_TICKS,
        forall|k: int| 0 <= k < samples.len() ==> samples[k] == level,
    ensures
        s.run(samples).stable_state == level,
{
    let wait = s.debounce_ticks as int;
    assert(samples.take(0) =~= Seq::<bool>::empty());
    lemma_cooldown_holds(s, samples, 0, wait as nat);
    lemma_run_unfolds(s, samples, wait);
    lemma_run_splits(s, samples, wait + 1);
    lemma_agreeing_samples_change_nothing(s.run(samples.take(wait + 1)), samples.skip(wait + 1));
}

/// A run of the shared state is a run of each of its parts: the timebase
/// counts the ticks down, each input runs on the levels that its own wiring
/// reads, and the wiring stays as it is.
pub proof fn lemma_run_is_per_input(v: SharedView, port_reads: Seq<u32>)
    ensures
        v.run(port_reads).timebase == remaining_after(v.timebase, port_reads.len()),
        v.run(port_reads).wiring == v.wiring,
        v.run(port_reads).channels.len() == v.channels.len(),
        forall|i: int|
            0 <= i < v.channels.len() ==> #[trigger] v.run(port_reads).channels[i]
                == v.channels[i].run(v.samples(port_reads, i)),
    decreases port_reads.len(),
{
    if port_reads.len() > 0 {
        let shorter = port_reads.drop_last();
        lemma_run_is_per_input(v, shorter);
        assert forall|i: int| 0 <= i < v.channels.len() implies #[trigger] v.run(
            port_reads,
        ).channels[i] == v.channels[i].run(v.samples(port_reads, i)) by {
            assert(v.samples(port_reads, i).drop_last() =~= v.samples(shorter, i));
        }
    }
}

/// An input's stable state flips on a tick of the shared state exactly
/// when it flips on that tick of the input's own run.
pub proof fn lemma_flips_at_is_per_input(v: SharedView, port_reads: Seq<u32>, i: int, t: int)
    requires
        0 <= i < v.channels.len(),
        0 <= t < port_reads.len(),
    ensures
        v.flips_at(port_reads, i, t) == v.channels[i].flips_at(v.samples(port_reads, i), t),
{
    lemma_run_is_per_input(v, port_reads.take(t));
    lemma_run_is_per_input(v, port_reads.take(t + 1));
    assert(v.samples(port_reads.take(t), i) =~= v.samples(port_reads, i).take(t));
    assert(v.samples(port_reads.take(t + 1), i) =~= v.samples(port_reads, i).take(t + 1));
}

/// Of every input and every run of ticks: no transition follows another
/// faster than the cooldown allows. Between two ticks on which the stable
/// state of an input flips lie more than `COOLDOWN_TICKS` ticks.
pub proof fn lemma_input_transitions_keep_distance(
    v: SharedView,
    port_reads: Seq<u32>,
    i: int,
    first: int,
    second: int,
)
    requires
        0 <= i < v.channels.len(),
        0 <= first < second < port_reads.len(),
        v.flips_at(port_reads, i, first),
        v.flips_at(port_reads, i, second),
    ensures
        second - first > COOLDOWN_TICKS,
{
    let samples = v.samples(port_reads, i);
    lemma_flips_at_is_per_input(v, port_reads, i, first);
    lemma_flips_at_is_per_input(v, port_reads, i, second);
    lemma_transitions_keep_distance(v.channels[i], samples, first, second);
}

/// Of every input and every run of ticks: its flag is set afterwards if
/// and only if it was set before or the input's stable state flipped on
/// some tick of the run. No transition is lost, and none is made up.
pub proof fn lemma_input_flag_reports_every_flip(v: SharedView, port_reads: Seq<u32>, i: int)
    requires
        0 <= i < v.channels.len(),
    ensures
        v.run(port_reads).channels[i].changed <==> v.channels[i].changed || exists|t: int|
            0 <= t < port_reads.len() && v.flips_at(port_reads, i, t),
{
    let samples = v.samples(port_reads, i);
    lemma_run_is_per_input(v, port_reads);
    lemma_flag_reports_every_flip(v.channels[i], samples);
    assert forall|t: int| 0 <= t < port_reads.len() implies v.flips_at(port_reads, i, t)
        == v.channels[i].flips_at(samples, t) by {
        lemma_flips_at_is_per_input(v, port_reads, i, t);
    }
    if exists|t: int| 0 <= t < samples.len() && v.channels[i].flips_at(samples, t) {
        let t = choose|t: int| 0 <= t < samples.len() && v.channels[i].flips_at(samples, t);
        assert(v.flips_at(port_reads, i, t));
    }
}

/// A delay lasts as long as it was asked to: once `duration` is loaded, the
/// timebase reads zero after a run of ticks if and only if the run has at
/// least `duration` ticks. Before that it reads the ticks still to come,
/// and it never passes below zero.
pub proof fn lemma_delay_lasts(v: SharedView, duration: u32, port_reads: Seq<u32>)
    ensures
        v.delay_started(duration).run(port_reads).timebase == 0 <==> port_reads.len() >= duration,
        port_reads.len() <= duration ==> v.delay_started(duration).run(port_reads).timebase
            == duration - port_reads.len(),
{
    lemma_run_is_per_input(v.delay_started(duration), port_reads);
    lemma_remaining_after(duration as nat, port_reads.len());
}

} // verus!
