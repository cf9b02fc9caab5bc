//! The blocking delay, run against a clock that the caller supplies.

use crate::shared::SharedState;
use vstd::prelude::*;

verus! {

/// A blocking delay of `ms` ticks under a virtual clock. The timebase is
/// loaded with `ms`; then ticks are delivered, the k-th reading the input
/// port as `port_reads[k]`, until the timebase reads zero or no tick is
/// left. Returns the number of ticks that passed. The delay has elapsed if
/// and only if that number is `ms`; with fewer ticks to run on it is still
/// pending, as it stays for ever where no tick comes.
pub fn delay_ms(shared: &mut SharedState, ms: u32, port_reads: &[u32]) -> (ticks: usize)
    ensures
        ticks == if ms <= port_reads@.len() {
            ms as int
        } else {
            port_reads@.len() as int
        },
        final(shared)@ == old(shared)@.delay_started(ms).run(port_reads@.take(ticks as int)),
        final(shared)@.timebase == ms - ticks,
        final(shared)@.wf(),
{
    shared.start_delay(ms);
    let mut ticks: usize = 0;
    while ticks < port_reads.len() && !shared.delay_elapsed()
        invariant
            ticks <= port_reads@.len(),
            ticks <= ms,
            shared@ == old(shared)@.delay_started(ms).run(port_reads@.take(ticks as int)),
            shared@.timebase == ms - ticks,
            shared@.wf(),
        decreases port_reads@.len() - ticks,
    {
        proof {
            assert(port_reads@.take(ticks + 1).drop_last() =~= port_reads@.take(ticks as int));
        }
        shared.on_tick(port_reads[ticks]);
        ticks += 1;
    }
    ticks
}

} // verus!
