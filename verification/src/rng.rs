//! Seeded randomness source shared across all pipeline stages.
//!
//! One `RandomnessProvider` is threaded through the whole run; the same seed
//! reproduces the identical draw sequence, which is what makes a map
//! regenerable from its stored seed. The generator is a splitmix-style
//! stream: the state advances by a fixed odd constant and each output is a
//! bijective mix of the advanced state. Every draw is pinned exactly to a
//! spec function of the prior state, so determinism is part of the contract.

use vstd::prelude::*;

verus! {

/// State increment of the stream (the 64-bit golden-ratio constant).
pub const STREAM_STEP: u64 = 0x9E3779B97F4A7C15;

/// First multiplier of the output mix.
pub const MIX_A: u64 = 0xBF58476D1CE4E5B9;

/// Second multiplier of the output mix.
pub const MIX_B: u64 = 0x94D049BB133111EB;

/// The state after one draw.
pub open spec fn spec_next_state(s: u64) -> u64 {
    vstd::wrapping::u64_specs::wrapping_add(s, STREAM_STEP)
}

/// The output mix applied to an advanced state.
pub open spec fn spec_mix(z: u64) -> u64 {
    let a = vstd::wrapping::u64_specs::wrapping_mul(z ^ (z >> 30), MIX_A);
    let b = vstd::wrapping::u64_specs::wrapping_mul(a ^ (a >> 27), MIX_B);
    b ^ (b >> 31)
}

/// The value a draw returns when the state before the draw is `s`.
pub open spec fn spec_output(s: u64) -> u64 {
    spec_mix(spec_next_state(s))
}

/// One Fisher-Yates pass over `s`, swapping positions `i` down to 1, driven
/// by the draw stream starting in state `st`; returns the shuffled sequence
/// and the state after the pass.
pub open spec fn spec_shuffle_from(s: Seq<u8>, st: u64, i: int) -> (Seq<u8>, u64)
    decreases i,
{
    if i < 1 || i >= s.len() {
        (s, st)
    } else {
        let j = spec_output(st) % ((i + 1) as u64);
        let swapped = s.update(i, s[j as int]).update(j as int, s[i]);
        spec_shuffle_from(swapped, spec_next_state(st), i - 1)
    }
}

/// A shuffle pass keeps the sequence's length.
pub proof fn lemma_shuffle_len(s: Seq<u8>, st: u64, i: int)
    requires
        s.len() <= u64::MAX,
    ensures
        spec_shuffle_from(s, st, i).0.len() == s.len(),
    decreases i,
{
    if i < 1 || i >= s.len() {
    } else {
        let j = spec_output(st) % ((i + 1) as u64);
        let swapped = s.update(i, s[j as int]).update(j as int, s[i]);
        lemma_shuffle_len(swapped, spec_next_state(st), i - 1);
    }
}

/// Seeded pseudo-random generator; its view is the current stream state.
pub struct RandomnessProvider {
    state: u64,
}

impl View for RandomnessProvider {
    type V = u64;

    closed spec fn view(&self) -> u64 {
        self.state
    }
}

impl RandomnessProvider {
    /// A provider whose first draw is `spec_output(seed)`.
    pub fn new(seed: u64) -> (r: RandomnessProvider)
        ensures
            r@ == seed,
    {
        RandomnessProvider { state: seed }
    }

    /// Draws the next 64-bit value of the stream.
    pub fn next_u64(&mut self) -> (r: u64)
        ensures
            final(self)@ == spec_next_state(old(self)@),
            r == spec_output(old(self)@),
    {
        self.state = self.state.wrapping_add(STREAM_STEP);
        let z = self.state;
        let a = (z ^ (z >> 30)).wrapping_mul(MIX_A);
        let b = (a ^ (a >> 27)).wrapping_mul(MIX_B);
        b ^ (b >> 31)
    }

    /// Draws a value uniformly-styled in `[0, bound)`.
    pub fn next_int(&mut self, bound: u64) -> (r: u64)
        requires
            bound >= 1,
        ensures
            final(self)@ == spec_next_state(old(self)@),
            r == spec_output(old(self)@) % bound,
            r < bound,
    {
        let x = self.next_u64();
        x % bound
    }

    /// Draws a per-mille fraction: a value in `[0, 1000)` standing for a
    /// unit-interval sample.
    pub fn next_unit(&mut self) -> (r: u64)
        ensures
            final(self)@ == spec_next_state(old(self)@),
            r == spec_output(old(self)@) % 1000,
            r < 1000,
    {
        self.next_int(1000)
    }

    /// Fisher-Yates shuffle of `v`, pinned to `spec_shuffle_from`; the
    /// empty and singleton shuffles leave vector and state alone.
    pub fn shuffle(&mut self, v: &mut Vec<u8>)
        ensures
            (final(v)@, final(self)@) == spec_shuffle_from(
                old(v)@,
                old(self)@,
                old(v)@.len() - 1,
            ),
            final(v)@.len() == old(v)@.len(),
    {
        let len = v.len();
        if len == 0 {
            return ;
        }
        let ghost orig_v = v@;
        let ghost orig_st = self@;
        let mut i: usize = len - 1;
        while i >= 1
            invariant
                v@.len() == len,
                i < len,
                len == orig_v.len(),
                spec_shuffle_from(v@, self@, i as int) == spec_shuffle_from(
                    orig_v,
                    orig_st,
                    len - 1,
                ),
            decreases i,
        {
            let j = self.next_int((i + 1) as u64) as usize;
            let vi = v[i];
            let vj = v[j];
            v.set(i, vj);
            v.set(j, vi);
            i = i - 1;
        }
        proof {
            lemma_shuffle_len(orig_v, orig_st, len - 1);
        }
    }
}

} // verus!
