//! The per-bit transition accumulator and strobe quantisation.
use vstd::prelude::*;
use vstd::wrapping::u64_specs::{wrapping_add, wrapping_mul};

verus! {

/// Multiplier applied to the running fingerprint before the strobe index.
pub const HASH_MUL_A: u64 = 80267270009;

/// Multiplier applied after the strobe index, before the new state.
pub const HASH_MUL_B: u64 = 257;

/// Multiplier that separates two traces fed one after the other.
pub const TRACE_SEPARATOR: u64 = 100003;

/// One committed transition folded into a fingerprint:
/// `((h * A) + index) * B + (state + 1)`, every step modulo 2^64.
pub open spec fn hash_step(h: u64, index: u64, state: u8) -> u64 {
    wrapping_add(
        wrapping_mul(wrapping_add(wrapping_mul(h, HASH_MUL_A), index), HASH_MUL_B),
        (state as u64 + 1) as u64,
    )
}

/// The strobe period that a timestamp falls in; index 0 is the interval
/// up to and including `start`. Like all fingerprint arithmetic the final
/// increment wraps modulo 2^64 (only a timestamp of `u64::MAX` with start 0
/// and period 1 reaches it).
pub open spec fn strobe_index_spec(t: u64, start: u64, period: u64) -> u64
    recommends
        period > 0,
{
    if t <= start {
        0
    } else {
        wrapping_add(((t - start) as int / period as int) as u64, 1)
    }
}

/// Computes the strobe index of timestamp `t`.
pub fn strobe_index(t: u64, start: u64, period: u64) -> (r: u64)
    requires
        period > 0,
    ensures
        r == strobe_index_spec(t, start, period),
{
    if t <= start {
        0
    } else {
        let q = (t - start) / period;
        assert(q as int <= (t - start) as int) by (nonlinear_arith)
            requires q as int == (t - start) as int / period as int, period > 0;
        q.wrapping_add(1)
    }
}

/// The state machine of one bit during an ingestion.
#[derive(Debug, Copy, Clone)]
pub struct BitState {
    /// The strobe index of the last switch that was seen.
    pub last_index: u64,
    /// The state before that switch.
    pub last_state: u8,
    /// The latest state seen, a candidate for commit.
    pub cur_state: u8,
}

impl BitState {
    /// The state every bit starts an ingestion in.
    pub open spec fn initial() -> BitState {
        BitState { last_index: 0, last_state: 0, cur_state: 0 }
    }

    /// The fingerprint after the pending transition of `self` is committed:
    /// nothing happens before the first strobe or without a change of state.
    pub open spec fn committed(self, h: u64) -> u64 {
        if self.last_index != 0 && self.last_state != self.cur_state {
            hash_step(h, self.last_index, self.cur_state)
        } else {
            h
        }
    }

    /// The state after a value change to `bit` during strobe period `t`.
    pub open spec fn after_change(self, t: u64, bit: u8) -> BitState {
        if self.last_index == t {
            BitState { cur_state: bit, ..self }
        } else {
            BitState { last_index: t, last_state: self.cur_state, cur_state: bit }
        }
    }

    /// The fingerprint after a value change during strobe period `t`.
    pub open spec fn hash_after_change(self, h: u64, t: u64) -> u64 {
        if self.last_index == t {
            h
        } else {
            self.committed(h)
        }
    }

    /// Creates the state every bit starts an ingestion in.
    pub fn new() -> (r: BitState)
        ensures
            r == BitState::initial(),
    {
        BitState { last_index: 0, last_state: 0, cur_state: 0 }
    }

    /// Folds the pending transition, if it is a real one, into `h`.
    pub fn update_hash(&self, h: &mut u64)
        ensures
            *final(h) == self.committed(*old(h)),
    {
        if self.last_index != 0 && self.last_state != self.cur_state {
            *h = h.wrapping_mul(HASH_MUL_A).wrapping_add(self.last_index).wrapping_mul(
                HASH_MUL_B,
            ).wrapping_add(self.cur_state as u64 + 1);
        }
    }

    /// Handles a value change to `bit` during strobe period `t`: changes
    /// within one period collapse into the last one, and a change in a new
    /// period commits the transition pending from the earlier one.
    pub fn change(&mut self, h: &mut u64, t: u64, bit: u8)
        ensures
            *final(self) == old(self).after_change(t, bit),
            *final(h) == old(self).hash_after_change(*old(h), t),
    {
        if self.last_index == t {
            self.cur_state = bit;
        } else {
            self.update_hash(h);
            self.last_index = t;
            self.last_state = self.cur_state;
            self.cur_state = bit;
        }
    }
}

} // verus!
