//! The phase accumulator: the playback position inside one waveform
//! period, advanced by a fixed increment per output frame and wrapped at
//! the period boundary.

use vstd::prelude::*;

verus! {

use crate::PHASE_PERIOD;

/// Phase reached after `n` advances from `start` with increment `inc`:
/// `(start + n * inc) mod PHASE_PERIOD`.
pub open spec fn phase_after(start: int, inc: int, n: nat) -> int {
    (start + n * inc) % (PHASE_PERIOD as int)
}

/// Mutable playback state: the current `phase` in fixed-point ticks and
/// the `increment` one output frame advances it by.
pub struct PhaseAccumulator {
    pub phase: u64,
    pub increment: u64,
}

impl PhaseAccumulator {
    /// The accumulator invariant: the phase lies inside the period and the
    /// increment moves strictly forward by less than a full period.
    pub open spec fn wf(&self) -> bool {
        self.phase < PHASE_PERIOD && 0 < self.increment < PHASE_PERIOD
    }

    /// A new accumulator at `start_phase`, advancing by `increment` ticks
    /// per output frame.
    pub fn new(start_phase: u64, increment: u64) -> (r: PhaseAccumulator)
        requires
            start_phase < PHASE_PERIOD,
            0 < increment < PHASE_PERIOD,
        ensures
            r.phase == start_phase,
            r.increment == increment,
            r.wf(),
    {
        PhaseAccumulator { phase: start_phase, increment }
    }

    /// A new accumulator starting at phase zero whose increment advances
    /// `pitch_hz / sample_rate` of a period per output frame, rounded down
    /// to the fixed-point grid.
    pub fn from_rate(pitch_hz: u64, sample_rate: u64) -> (r: PhaseAccumulator)
        requires
            0 < pitch_hz < sample_rate,
            sample_rate <= PHASE_PERIOD,
        ensures
            r.phase == 0,
            r.increment as int == pitch_hz * (PHASE_PERIOD as int) / (sample_rate as int),
            r.wf(),
    {
        proof {
            let p = PHASE_PERIOD as int;
            let num = pitch_hz as int * p;
            vstd::arithmetic::mul::lemma_mul_upper_bound(
                pitch_hz as int,
                (PHASE_PERIOD - 1) as int,
                p,
                p,
            );
            vstd::arithmetic::mul::lemma_mul_basics(p);
            vstd::arithmetic::mul::lemma_mul_inequality(1, pitch_hz as int, p);
            vstd::arithmetic::div_mod::lemma_div_is_ordered(sample_rate as int, num,
                sample_rate as int);
            vstd::arithmetic::div_mod::lemma_div_by_self(sample_rate as int);
            vstd::arithmetic::mul::lemma_mul_strict_inequality(
                pitch_hz as int,
                sample_rate as int,
                p,
            );
            vstd::arithmetic::div_mod::lemma_multiply_divide_lt(num, sample_rate as int, p);
        }
        let increment: u64 = (pitch_hz * PHASE_PERIOD) / sample_rate;
        PhaseAccumulator { phase: 0, increment }
    }

    /// Advances the phase by one output frame: adds the increment, wraps
    /// at the period boundary with a true (never negative) remainder, and
    /// returns the new phase.
    pub fn advance(&mut self) -> (p: u64)
        requires
            old(self).wf(),
        ensures
            final (self).wf(),
            final (self).increment == old(self).increment,
            final (self).phase as int == (old(self).phase + old(self).increment) % (
            PHASE_PERIOD as int),
            p == final (self).phase,
    {
        let sum = self.phase + self.increment;
        proof {
            let m = PHASE_PERIOD as int;
            if sum < PHASE_PERIOD {
                vstd::arithmetic::div_mod::lemma_small_mod(sum as nat, PHASE_PERIOD as nat);
            } else {
                vstd::arithmetic::div_mod::lemma_mod_sub_multiples_vanish(sum as int, m);
                vstd::arithmetic::div_mod::lemma_small_mod(
                    (sum - PHASE_PERIOD) as nat,
                    PHASE_PERIOD as nat,
                );
            }
        }
        if sum >= PHASE_PERIOD {
            self.phase = sum - PHASE_PERIOD;
        } else {
            self.phase = sum;
        }
        self.phase
    }
}

/// Advancing repeatedly from `start` with increment `inc` produces the
/// phase sequence `(start + inc) mod P, (start + 2 inc) mod P, ...` with
/// `P` one full period: step `n + 1` adds the increment to step `n` and
/// wraps, and every phase of the sequence stays inside `[0, P)`.
pub proof fn lemma_phase_sequence(start: int, inc: int, n: nat)
    requires
        0 <= start < PHASE_PERIOD,
        0 <= inc,
    ensures
        phase_after(start, inc, 0) == start,
        0 <= phase_after(start, inc, n) < PHASE_PERIOD,
        phase_after(start, inc, n + 1) == (phase_after(start, inc, n) + inc) % (
        PHASE_PERIOD as int),
{
    let p = PHASE_PERIOD as int;
    vstd::arithmetic::mul::lemma_mul_basics(inc);
    vstd::arithmetic::div_mod::lemma_small_mod(start as nat, PHASE_PERIOD as nat);
    vstd::arithmetic::mul::lemma_mul_nonnegative(n as int, inc);
    vstd::arithmetic::div_mod::lemma_mod_division_less_than_divisor(start + n * inc, p);
    assert((n + 1) * inc == n * inc + inc) by {
        vstd::arithmetic::mul::lemma_mul_is_distributive_add_other_way(inc, n as int, 1);
    }
    vstd::arithmetic::div_mod::lemma_add_mod_noop_right(inc, start + n * inc, p);
}

} // verus!
