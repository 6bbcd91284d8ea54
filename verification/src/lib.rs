//! A verified wavetable signal generator.
//!
//! One period of a waveform is held as a sorted table of anchor points
//! (`table::WaveTable`).  A phase position inside the period is looked up by
//! binary search and linear interpolation, with wraparound at the period
//! boundary.  A phase accumulator (`phase::PhaseAccumulator`) advances the
//! position by a fixed increment per output frame, and a buffer filler
//! (`filler::BufferFiller`) writes one interpolated amplitude per frame to
//! every channel of an interleaved output buffer.
//!
//! Phase and time are fixed-point: a value in `[0, PHASE_PERIOD)` stands for
//! the fraction of one period, `PHASE_PERIOD` ticks making up a full period.
//! Amplitudes are plain `i64` values in whatever scale the caller chooses;
//! interpolation never leaves the closed range spanned by the two
//! neighbouring anchor amplitudes.

use vstd::prelude::*;

pub mod filler;
pub mod phase;
pub mod table;

verus! {

/// Number of fixed-point ticks in one waveform period: a phase or anchor
/// time `t` stands for the real fraction `t / PHASE_PERIOD` of the period.
pub const PHASE_PERIOD: u64 = 1_000_000_000;

} // verus!
