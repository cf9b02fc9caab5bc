//! How an input is wired to its port: which pin it sits on, and which raw
//! electrical level counts as active.

use vstd::arithmetic::div_mod::lemma_basic_div;
use vstd::arithmetic::power2::{lemma2_to64, lemma_pow2_strictly_increases, pow2};
use vstd::bits::lemma_u32_shr_is_div;
use vstd::prelude::*;

verus! {

/// Width of the word that a read of the input port yields.
pub const PORT_BITS: u32 = 32;

/// Which raw level of a pin means that the input is active.
#[derive(Clone, Copy, Debug, PartialEq, Eq, Structural)]
pub enum Polarity {
    /// The input shorts the pin to ground against a pull-up: a low raw
    /// level is active.
    ActiveLow,
    /// The input drives the pin high against a pull-down: a high raw level
    /// is active.
    ActiveHigh,
}

/// Whether the pin numbered `pin` reads high in the port word `port_bits`:
/// the binary digit of weight `2^pin` is one. A pin beyond the port word
/// never reads high.
pub open spec fn pin_is_high(port_bits: u32, pin: nat) -> bool {
    (port_bits as nat / pow2(pin)) % 2 == 1
}

/// The wiring of one input.
#[derive(Clone, Copy, Debug, PartialEq, Eq, Structural)]
pub struct Wiring {
    /// Number of the pin within the port word.
    pub pin: u32,
    /// The raw level that counts as active.
    pub polarity: Polarity,
}

impl Wiring {
    /// The logical level of the input when the port reads `port_bits`.
    pub open spec fn level(self, port_bits: u32) -> bool {
        match self.polarity {
            Polarity::ActiveHigh => pin_is_high(port_bits, self.pin as nat),
            Polarity::ActiveLow => !pin_is_high(port_bits, self.pin as nat),
        }
    }

    /// Turns one read of the port into the logical level of this
    /// input.
    pub fn sample(&self, port_bits: u32) -> (active: bool)
        ensures
            active == self.level(port_bits),
        no_unwind
    {
        let high: bool = read_pin(port_bits, self.pin);
        match self.polarity {
            Polarity::ActiveHigh => high,
            Polarity::ActiveLow => !high,
        }
    }
}

/// Reads the raw level of one pin out of a port word.
pub fn read_pin(port_bits: u32, pin: u32) -> (high: bool)
    ensures
        high == pin_is_high(port_bits, pin as nat),
    no_unwind
{
    if pin < PORT_BITS {
        let masked: u32 = port_bits & (1u32 << pin);
        proof {
            let shifted: u32 = port_bits >> pin;
            assert((port_bits & (1u32 << pin) != 0) == (shifted % 2 == 1)) by (bit_vector)
                requires
                    pin < 32,
                    shifted == port_bits >> pin,
            ;
            lemma_u32_shr_is_div(port_bits, pin);
        }
        masked != 0
    } else {
        proof {
            lemma2_to64();
            if pin > 32 {
                lemma_pow2_strictly_increases(32, pin as nat);
            }
            lemma_basic_div(port_bits as int, pow2(pin as nat) as int);
        }
        false
    }
}

} // verus!
