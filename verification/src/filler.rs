//! The callback buffer filler: owns the wavetable and the playback state
//! for the lifetime of a stream and fills each requested batch of
//! interleaved output frames, one table lookup per frame.

use vstd::prelude::*;

verus! {

use crate::phase::{lemma_phase_sequence, phase_after, PhaseAccumulator};
use crate::table::{lookup_spec, WaveFrame, WaveTable};
use crate::PHASE_PERIOD;

/// What the filler tells the external audio driver after a callback:
/// keep invoking it, treat the stream as finished, or tear it down.
#[derive(Clone, Copy, PartialEq, Eq, Structural, Debug)]
pub enum StreamSignal {
    Continue,
    Complete,
    Abort,
}

/// The sample written for output frame `f` (counted from zero) of a run
/// that starts at phase `start`: the accumulator advances before the
/// lookup, so frame `f` carries the amplitude at the phase reached after
/// `f + 1` advances.
pub open spec fn sample_at(s: Seq<WaveFrame>, start: int, inc: int, f: int) -> int {
    lookup_spec(s, phase_after(start, inc, (f + 1) as nat))
}

/// Owns the wavetable and the playback state exclusively for the lifetime
/// of a stream, as the audio driver's per-buffer data source.
pub struct BufferFiller {
    /// The waveform period being played, immutable while streaming.
    pub table: WaveTable,
    /// The playback position, advanced once per output frame.
    pub accumulator: PhaseAccumulator,
    /// Output channels per frame; every channel carries the same signal.
    pub channels: usize,
}

impl BufferFiller {
    /// The filler invariant: a well-formed table and accumulator, and at
    /// least one output channel.
    pub open spec fn wf(&self) -> bool {
        self.table.wf() && self.accumulator.wf() && self.channels >= 1
    }

    /// Captures the table and the playback state, as the stream-open step
    /// hands them to the callback.
    pub fn new(table: WaveTable, accumulator: PhaseAccumulator, channels: usize) -> (r:
        BufferFiller)
        requires
            table.wf(),
            accumulator.wf(),
            channels >= 1,
        ensures
            r.table == table,
            r.accumulator == accumulator,
            r.channels == channels,
            r.wf(),
    {
        BufferFiller { table, accumulator, channels }
    }

    /// Fills `frame_count` interleaved frames: for each frame in order,
    /// advances the phase, looks the amplitude up, and writes it to every
    /// channel slot of the frame, so every slot of the buffer is written.
    /// The table, the channel count and the increment are untouched.  The
    /// signal handed back to the driver is always `Continue`: with the
    /// table invariant validated before streaming, no fault is left to
    /// report from the real-time path.
    pub fn fill(&mut self, buffer: &mut Vec<i64>, frame_count: usize) -> (signal: StreamSignal)
        requires
            old(self).wf(),
            old(buffer).len() == frame_count * old(self).channels,
        ensures
            final (self).wf(),
            final (self).table == old(self).table,
            final (self).channels == old(self).channels,
            final (self).accumulator.increment == old(self).accumulator.increment,
            final (self).accumulator.phase as int == phase_after(
                old(self).accumulator.phase as int,
                old(self).accumulator.increment as int,
                frame_count as nat,
            ),
            final (buffer).len() == old(buffer).len(),
            forall|f: int, c: int|
                0 <= f < frame_count && 0 <= c < old(self).channels ==> (#[trigger] final (
                    buffer
                )@[f * old(self).channels + c]) as int == sample_at(
                    old(self).table@,
                    old(self).accumulator.phase as int,
                    old(self).accumulator.increment as int,
                    f,
                ),
            signal == StreamSignal::Continue,
    {
        let ghost s = self.table@;
        let ghost start = self.accumulator.phase as int;
        let ghost inc = self.accumulator.increment as int;
        let ghost table0 = self.table;
        let ghost ch0 = self.channels as int;
        let channels = self.channels;
        // Read once so the buffer's spec length is known to fit a usize.
        let _buffer_len = buffer.len();
        let mut f: usize = 0;
        while f < frame_count
            invariant
                self.wf(),
                self.table == table0,
                self.table@ == s,
                self.channels == channels,
                channels as int == ch0,
                ch0 >= 1,
                self.accumulator.increment as int == inc,
                f <= frame_count,
                self.accumulator.phase as int == phase_after(start, inc, f as nat),
                0 <= start < PHASE_PERIOD,
                0 < inc < PHASE_PERIOD,
                buffer@.len() == frame_count * ch0,
                frame_count * ch0 <= usize::MAX,
                forall|ff: int, cc: int|
                    0 <= ff < f && 0 <= cc < ch0 ==> (#[trigger] buffer@[ff * ch0 + cc]) as int
                        == sample_at(s, start, inc, ff),
            decreases frame_count - f,
        {
            proof {
                lemma_phase_sequence(start, inc, f as nat);
            }
            let p = self.accumulator.advance();
            let amp = self.table.lookup(p);
            let mut c: usize = 0;
            while c < channels
                invariant
                    c <= channels,
                    channels as int == ch0,
                    ch0 >= 1,
                    f < frame_count,
                    buffer@.len() == frame_count * ch0,
                    frame_count * ch0 <= usize::MAX,
                    amp as int == sample_at(s, start, inc, f as int),
                    forall|ff: int, cc: int|
                        0 <= ff < f && 0 <= cc < ch0 ==> (#[trigger] buffer@[ff * ch0 + cc])
                            as int == sample_at(s, start, inc, ff),
                    forall|cc: int|
                        0 <= cc < c ==> (#[trigger] buffer@[f as int * ch0 + cc]) as int
                            == sample_at(s, start, inc, f as int),
                decreases channels - c,
            {
                proof {
                    vstd::arithmetic::mul::lemma_mul_is_distributive_add_other_way(
                        ch0,
                        f as int,
                        1,
                    );
                    vstd::arithmetic::mul::lemma_mul_inequality(
                        f as int + 1,
                        frame_count as int,
                        ch0,
                    );
                    assert(f as int * ch0 + c < frame_count as int * ch0);
                }
                let idx = f * channels + c;
                buffer.set(idx, amp);
                proof {
                    assert forall|ff: int, cc: int|
                        0 <= ff < f && 0 <= cc < ch0 implies (#[trigger] buffer@[ff * ch0 + cc])
                        as int == sample_at(s, start, inc, ff) by {
                        vstd::arithmetic::mul::lemma_mul_is_distributive_add_other_way(ch0, ff, 1);
                        vstd::arithmetic::mul::lemma_mul_inequality(ff + 1, f as int, ch0);
                    }
                }
                c += 1;
            }
            f += 1;
        }
        StreamSignal::Continue
    }
}

/// Determinism of the filler: every slot a run writes is pinned to
/// `sample_at`, a function of the table, the start phase, the increment
/// and the slot position alone, so two runs over the same inputs produce
/// identical output buffers.
pub proof fn lemma_fill_deterministic(
    s: Seq<WaveFrame>,
    start: int,
    inc: int,
    frame_count: int,
    channels: int,
    out1: Seq<i64>,
    out2: Seq<i64>,
)
    requires
        channels >= 1,
        frame_count >= 0,
        out1.len() == frame_count * channels,
        out2.len() == frame_count * channels,
        forall|f: int, c: int|
            0 <= f < frame_count && 0 <= c < channels ==> (#[trigger] out1[f * channels + c])
                as int == sample_at(s, start, inc, f),
        forall|f: int, c: int|
            0 <= f < frame_count && 0 <= c < channels ==> (#[trigger] out2[f * channels + c])
                as int == sample_at(s, start, inc, f),
    ensures
        out1 == out2,
{
    assert forall|k: int| 0 <= k < out1.len() implies out1[k] == out2[k] by {
        let f = k / channels;
        let c = k % channels;
        vstd::arithmetic::div_mod::lemma_fundamental_div_mod(k, channels);
        vstd::arithmetic::div_mod::lemma_mod_division_less_than_divisor(k, channels);
        vstd::arithmetic::div_mod::lemma_div_pos_is_pos(k, channels);
        vstd::arithmetic::mul::lemma_mul_is_commutative(frame_count, channels);
        vstd::arithmetic::div_mod::lemma_multiply_divide_lt(k, channels, frame_count);
        vstd::arithmetic::mul::lemma_mul_is_commutative(f, channels);
        assert(k == f * channels + c);
        assert(out1[f * channels + c] as int == sample_at(s, start, inc, f));
        assert(out2[f * channels + c] as int == sample_at(s, start, inc, f));
    }
    assert(out1 =~= out2);
}

} // verus!
