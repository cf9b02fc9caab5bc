//! Timing and input core of a small oscilloscope front panel: a millisecond
//! timebase, debounced pushbuttons, and the hand-off of their state changes
//! from the timer interrupt to the main loop.
//!
//! Two contexts run on the device. The timer interrupt fires once per tick
//! and calls [`shared::SharedState::on_tick`] with one read of the input
//! port. The main loop waits on the timebase and then calls
//! [`dispatch::MainLoop::dispatch`], which acknowledges the changes that the
//! interrupt has flagged and says what to write to the outputs. Either call
//! takes the shared state by exclusive reference, so neither can cut into
//! the other.
//!
//! - [`timebase`]: the countdown behind the blocking delay.
//! - [`wiring`]: from a port word to the logical level of an input.
//! - [`debounce`]: the state machine of one input and its change flag.
//! - [`shared`]: what the interrupt and the main loop share.
//! - [`dispatch`]: the main loop's pass and the outputs that it owns.
//! - [`delay`]: the blocking delay, against a clock that the caller supplies.
//! - [`trace`]: what holds of inputs and timebase over any run of ticks.
//! - [`system`]: both contexts as one state machine, and what holds of every
//!   state that it can reach.

pub mod debounce;
pub mod delay;
pub mod dispatch;
pub mod shared;
pub mod system;
pub mod timebase;
pub mod trace;
pub mod wiring;
