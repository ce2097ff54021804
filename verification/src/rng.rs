//! The simulation's only entropy source: a seeded SplitMix64 generator.
//!
//! The generator is a pure function of its 64-bit state, so two generators built from the
//! same seed produce the same draws on every machine.

use vstd::prelude::*;
use vstd::wrapping::u64_specs::{wrapping_add, wrapping_mul};

verus! {

/// State increment of every draw.
pub const GOLDEN_GAMMA: u64 = 0x9E37_79B9_7F4A_7C15;

/// First output-mixing multiplier.
pub const MIX_FIRST: u64 = 0xBF58_476D_1CE4_E5B9;

/// Second output-mixing multiplier.
pub const MIX_SECOND: u64 = 0x94D0_49BB_1331_11EB;

/// The state after one draw.
pub open spec fn spec_advance(state: u64) -> u64 {
    wrapping_add(state, GOLDEN_GAMMA)
}

/// The output derived from an advanced state.
pub open spec fn spec_mix(z: u64) -> u64 {
    let first = wrapping_mul(z ^ (z >> 30u64), MIX_FIRST);
    let second = wrapping_mul(first ^ (first >> 27u64), MIX_SECOND);
    second ^ (second >> 31u64)
}

/// The raw 64-bit draw made from `state`.
pub open spec fn spec_draw(state: u64) -> u64 {
    spec_mix(spec_advance(state))
}

/// A raw draw mapped into `0..bound` by multiply-and-shift of its high half; `0` for an
/// empty range.
pub open spec fn spec_bounded_value(raw: u64, bound: u32) -> u32 {
    ((raw / 0x1_0000_0000) * bound / 0x1_0000_0000) as u32
}

/// Seeded deterministic generator.
#[derive(Debug, Clone, Copy, PartialEq, Eq)]
pub struct Rng {
    state: u64,
}

impl View for Rng {
    type V = u64;

    closed spec fn view(&self) -> u64 {
        self.state
    }
}

impl Rng {
    /// A generator whose next draw continues from `state`.
    pub fn from_state(state: u64) -> (rng: Rng)
        ensures
            rng@ == state,
    {
        Rng { state }
    }

    /// The current state, which fully determines every later draw.
    pub fn state(&self) -> (state: u64)
        ensures
            state == self@,
    {
        self.state
    }

    /// Advances the state once and returns the mixed 64-bit output.
    pub fn next_u64(&mut self) -> (raw: u64)
        ensures
            final(self)@ == spec_advance(old(self)@),
            raw == spec_draw(old(self)@),
    {
        self.state = self.state.wrapping_add(GOLDEN_GAMMA);
        let z = self.state;
        let first = (z ^ (z >> 30u64)).wrapping_mul(MIX_FIRST);
        let second = (first ^ (first >> 27u64)).wrapping_mul(MIX_SECOND);
        second ^ (second >> 31u64)
    }

    /// Draws a value in `0..bound` (always one draw; `0` when `bound` is zero).
    pub fn bounded(&mut self, bound: u32) -> (value: u32)
        ensures
            final(self)@ == spec_advance(old(self)@),
            value == spec_bounded_value(spec_draw(old(self)@), bound),
            bound > 0 ==> value < bound,
            bound == 0 ==> value == 0,
    {
        let raw = self.next_u64();
        let high: u64 = raw >> 32u64;
        assert(high == raw / 0x1_0000_0000 && high < 0x1_0000_0000) by (bit_vector)
            requires
                high == raw >> 32u64,
        ;
        assert(high * bound <= 0xFFFF_FFFF * 0xFFFF_FFFF) by (nonlinear_arith)
            requires
                high < 0x1_0000_0000,
                bound < 0x1_0000_0000,
        ;
        let product: u64 = high * bound as u64;
        let scaled: u64 = product >> 32u64;
        assert(scaled == product / 0x1_0000_0000) by (bit_vector)
            requires
                scaled == product >> 32u64,
        ;
        proof {
            let h: int = high as int;
            let b: int = bound as int;
            assert(h * b / 0x1_0000_0000 <= b) by (nonlinear_arith)
                requires
                    0 <= h < 0x1_0000_0000,
                    0 <= b,
            ;
            assert(b > 0 ==> h * b / 0x1_0000_0000 < b) by (nonlinear_arith)
                requires
                    0 <= h < 0x1_0000_0000,
                    0 <= b,
            ;
        }
        scaled as u32
    }
}

} // verus!
