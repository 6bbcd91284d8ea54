//! The wavetable: one period of a waveform as a sorted sequence of
//! time/amplitude anchor points.

use vstd::prelude::*;

verus! {

use crate::PHASE_PERIOD;

/// One anchor point of the waveform: an anchor `time` in
/// `[0, PHASE_PERIOD)` fixed-point ticks, and the signal `amplitude` at
/// that time, in whatever integer scale the caller chose.
#[derive(Clone, Copy, PartialEq, Eq, Structural, Debug)]
pub struct WaveFrame {
    pub time: u64,
    pub amplitude: i64,
}

/// Why a wavetable could not be constructed.
#[derive(Clone, Copy, PartialEq, Eq, Structural, Debug)]
pub enum TableError {
    /// The table would hold no frame at all.
    EmptyTable,
    /// The frames are not strictly sorted by time, or an anchor time lies
    /// outside `[0, PHASE_PERIOD)`.
    MalformedTable,
}

/// Well-formedness of a frame sequence: non-empty, every anchor time inside
/// one period, and anchor times strictly increasing.
pub open spec fn frames_wf(s: Seq<WaveFrame>) -> bool {
    &&& s.len() > 0
    &&& forall|i: int| 0 <= i < s.len() ==> s[i].time < PHASE_PERIOD
    &&& forall|i: int, j: int| 0 <= i < j < s.len() ==> s[i].time < s[j].time
}

/// Index of the first frame at position `i` or later whose time exceeds
/// `p`, or `s.len()` when no such frame exists.
pub open spec fn first_above_from(s: Seq<WaveFrame>, p: int, i: int) -> int
    decreases s.len() - i,
{
    if i < 0 || i >= s.len() {
        s.len() as int
    } else if s[i].time > p {
        i
    } else {
        first_above_from(s, p, i + 1)
    }
}

/// Index of the first frame whose time exceeds `p` (the insertion index a
/// binary search yields), or `s.len()` when every time is at most `p`.
pub open spec fn first_above(s: Seq<WaveFrame>, p: int) -> int {
    first_above_from(s, p, 0)
}

/// Fixed-point linear interpolation between the anchors `(lt, la)` and
/// `(rt, ra)` at position `p`: the amplitude offset
/// `(p - lt) * (ra - la) / (rt - lt)` with its magnitude rounded toward
/// zero; a zero-width interval yields `la` outright.
pub open spec fn interp_amp(lt: int, la: int, rt: int, ra: int, p: int) -> int {
    if lt == rt {
        la
    } else if ra >= la {
        la + ((p - lt) * (ra - la)) / (rt - lt)
    } else {
        la - ((p - lt) * (la - ra)) / (rt - lt)
    }
}

/// The amplitude a lookup of phase `p` returns on the frame sequence `s`:
/// the anchor amplitude itself when `p` hits an anchor time exactly,
/// otherwise linear interpolation between the two neighbouring anchors.
/// Below the first anchor the last anchor serves as left neighbour with
/// its time shifted one period down; above the last anchor the first
/// anchor serves as right neighbour with its time shifted one period up.
pub open spec fn lookup_spec(s: Seq<WaveFrame>, p: int) -> int
    recommends
        frames_wf(s),
        0 <= p < PHASE_PERIOD,
{
    let r = first_above(s, p);
    if r > 0 && s[r - 1].time == p {
        s[r - 1].amplitude as int
    } else {
        let lt = if r == 0 {
            s[s.len() - 1].time - PHASE_PERIOD
        } else {
            s[r - 1].time as int
        };
        let la = if r == 0 {
            s[s.len() - 1].amplitude as int
        } else {
            s[r - 1].amplitude as int
        };
        let rt = if r == s.len() {
            s[0].time + PHASE_PERIOD
        } else {
            s[r].time as int
        };
        let ra = if r == s.len() {
            s[0].amplitude as int
        } else {
            s[r].amplitude as int
        };
        interp_amp(lt, la, rt, ra, p)
    }
}

/// `first_above_from(s, p, i)` is the unique `r` with nothing above `p`
/// before it and, unless it is the length, a time above `p` at it.
proof fn lemma_first_above_from_is(s: Seq<WaveFrame>, p: int, i: int, r: int)
    requires
        0 <= i <= r <= s.len(),
        forall|j: int| i <= j < r ==> s[j].time <= p,
        r < s.len() ==> s[r].time > p,
    ensures
        first_above_from(s, p, i) == r,
    decreases r - i,
{
    if i < r {
        assert(s[i].time <= p);
        lemma_first_above_from_is(s, p, i + 1, r);
    }
}

/// The interpolation offset magnitude never exceeds the amplitude gap:
/// for a position strictly inside the interval, `(off * d) / span` lies
/// between `0` and `d`.
proof fn lemma_interp_offset_bound(off: int, d: int, span: int)
    requires
        0 <= off < span,
        0 <= d,
    ensures
        0 <= (off * d) / span <= d,
{
    vstd::arithmetic::mul::lemma_mul_nonnegative(off, d);
    vstd::arithmetic::div_mod::lemma_div_pos_is_pos(off * d, span);
    if d > 0 {
        vstd::arithmetic::mul::lemma_mul_strict_inequality(off, span, d);
        vstd::arithmetic::div_mod::lemma_multiply_divide_lt(off * d, span, d);
    } else {
        vstd::arithmetic::mul::lemma_mul_by_zero_is_zero(off);
    }
}

/// A phase exactly equal to an anchor time yields that anchor's amplitude,
/// with no interpolation.
pub proof fn lemma_lookup_exact(s: Seq<WaveFrame>, i: int)
    requires
        frames_wf(s),
        0 <= i < s.len(),
    ensures
        lookup_spec(s, s[i].time as int) == s[i].amplitude as int,
{
    let p = s[i].time as int;
    assert forall|j: int| 0 <= j < i + 1 implies s[j].time <= p by {
        if j < i {
            assert(s[j].time < s[i].time);
        }
    }
    lemma_first_above_from_is(s, p, 0, i + 1);
}

/// Strictly between two adjacent anchor times the lookup is the linear
/// interpolation of the two anchors' amplitudes.
pub proof fn lemma_lookup_between(s: Seq<WaveFrame>, i: int, p: int)
    requires
        frames_wf(s),
        0 <= i,
        i + 1 < s.len(),
        s[i].time < p < s[i + 1].time,
    ensures
        lookup_spec(s, p) == interp_amp(
            s[i].time as int,
            s[i].amplitude as int,
            s[i + 1].time as int,
            s[i + 1].amplitude as int,
            p,
        ),
{
    assert forall|j: int| 0 <= j < i + 1 implies s[j].time <= p by {
        if j < i {
            assert(s[j].time < s[i].time);
        }
    }
    lemma_first_above_from_is(s, p, 0, i + 1);
}

/// Below the first anchor the lookup wraps: the last anchor serves as
/// left neighbour with its time taken one period earlier.
pub proof fn lemma_lookup_wrap_below(s: Seq<WaveFrame>, p: int)
    requires
        frames_wf(s),
        0 <= p < s[0].time,
    ensures
        lookup_spec(s, p) == interp_amp(
            s[s.len() - 1].time - PHASE_PERIOD,
            s[s.len() - 1].amplitude as int,
            s[0].time as int,
            s[0].amplitude as int,
            p,
        ),
{
    lemma_first_above_from_is(s, p, 0, 0);
}

/// Above the last anchor the lookup wraps the other way: the first anchor
/// serves as right neighbour with its time taken one period later.
pub proof fn lemma_lookup_wrap_above(s: Seq<WaveFrame>, p: int)
    requires
        frames_wf(s),
        s[s.len() - 1].time < p < PHASE_PERIOD,
    ensures
        lookup_spec(s, p) == interp_amp(
            s[s.len() - 1].time as int,
            s[s.len() - 1].amplitude as int,
            s[0].time + PHASE_PERIOD,
            s[0].amplitude as int,
            p,
        ),
{
    assert forall|j: int| 0 <= j < s.len() implies s[j].time <= p by {
        if j < s.len() - 1 {
            assert(s[j].time < s[s.len() - 1].time);
        }
    }
    lemma_first_above_from_is(s, p, 0, s.len() as int);
}

/// Anchor time of frame `a` in a synthesized table of `n` equally spaced
/// frames: the fraction `a / n` of one period, in fixed-point ticks.
pub open spec fn synth_time(a: int, n: int) -> int {
    a * (PHASE_PERIOD as int) / n
}

/// An equally spaced anchor time stays inside one period:
/// `synth_time(a, n)` lies in `[0, PHASE_PERIOD)` for `0 <= a < n`.
proof fn lemma_synth_time_range(a: int, n: int)
    requires
        0 <= a < n,
    ensures
        0 <= synth_time(a, n) < PHASE_PERIOD,
{
    let p = PHASE_PERIOD as int;
    vstd::arithmetic::mul::lemma_mul_nonnegative(a, p);
    vstd::arithmetic::div_mod::lemma_div_pos_is_pos(a * p, n);
    vstd::arithmetic::mul::lemma_mul_strict_inequality(a, n, p);
    vstd::arithmetic::div_mod::lemma_multiply_divide_lt(a * p, n, p);
}

/// Equally spaced anchor times are strictly increasing as long as the
/// table is no finer than the fixed-point grid (`n <= PHASE_PERIOD`).
proof fn lemma_synth_time_order(a: int, b: int, n: int)
    requires
        0 <= a < b < n,
        n <= PHASE_PERIOD,
    ensures
        synth_time(a, n) < synth_time(b, n),
{
    let p = PHASE_PERIOD as int;
    vstd::arithmetic::mul::lemma_mul_is_distributive_add_other_way(p, a, 1);
    vstd::arithmetic::mul::lemma_mul_inequality(a + 1, b, p);
    vstd::arithmetic::div_mod::lemma_div_is_ordered(a * p + n, b * p, n);
    vstd::arithmetic::div_mod::lemma_hoist_over_denominator(a * p, 1, n as nat);
}

/// Interpolation never leaves the closed range spanned by the two anchor
/// amplitudes: for a position inside the interval the result lies between
/// `la` and `ra`, whichever way round they are ordered.
pub proof fn lemma_interp_within_anchors(lt: int, la: int, rt: int, ra: int, p: int)
    requires
        lt <= p < rt,
    ensures
        la <= ra ==> la <= interp_amp(lt, la, rt, ra, p) <= ra,
        ra <= la ==> ra <= interp_amp(lt, la, rt, ra, p) <= la,
{
    if ra >= la {
        lemma_interp_offset_bound(p - lt, ra - la, rt - lt);
    } else {
        lemma_interp_offset_bound(p - lt, la - ra, rt - lt);
    }
}

/// One period of a waveform, immutable after construction.
#[derive(Debug)]
pub struct WaveTable {
    frames: Vec<WaveFrame>,
}

impl View for WaveTable {
    type V = Seq<WaveFrame>;

    closed spec fn view(&self) -> Seq<WaveFrame> {
        self.frames@
    }
}

impl WaveTable {
    /// The table invariant: its frame sequence is well formed.
    pub open spec fn wf(&self) -> bool {
        frames_wf(self@)
    }

    /// Builds a table from externally supplied frames, validating the
    /// invariant up front: construction succeeds exactly on well-formed
    /// input, rejects an empty sequence as `EmptyTable`, and rejects
    /// unsorted or out-of-range times as `MalformedTable`.
    pub fn from_frames(frames: Vec<WaveFrame>) -> (r: Result<WaveTable, TableError>)
        ensures
            r is Ok <==> frames_wf(frames@),
            (r matches Ok(t) ==> t@ == frames@ && t.wf()),
            (r matches Err(e) ==> (e == TableError::EmptyTable <==> frames@.len() == 0)
                && (e == TableError::MalformedTable <==> frames@.len() > 0 && !frames_wf(
                frames@,
            ))),
    {
        if frames.len() == 0 {
            return Err(TableError::EmptyTable);
        }
        let mut k: usize = 0;
        while k < frames.len()
            invariant
                0 <= k <= frames@.len(),
                forall|i: int| 0 <= i < k ==> frames@[i].time < PHASE_PERIOD,
                forall|i: int, j: int| 0 <= i < j < k ==> frames@[i].time < frames@[j].time,
            decreases frames@.len() - k,
        {
            if frames[k].time >= PHASE_PERIOD {
                return Err(TableError::MalformedTable);
            }
            if k > 0 && frames[k - 1].time >= frames[k].time {
                return Err(TableError::MalformedTable);
            }
            k += 1;
        }
        Ok(WaveTable { frames })
    }

    /// Builds a synthesized table of equally spaced anchors: frame `i` of
    /// `n` sits at time `i * PHASE_PERIOD / n` and carries `amplitudes[i]`,
    /// typically one period of an analytically generated waveform.  An
    /// empty amplitude sequence is rejected as `EmptyTable`.
    pub fn synthesized(amplitudes: Vec<i64>) -> (r: Result<WaveTable, TableError>)
        requires
            amplitudes@.len() <= PHASE_PERIOD,
        ensures
            r is Ok <==> amplitudes@.len() > 0,
            (r matches Ok(t) ==> t.wf() && t@.len() == amplitudes@.len() && forall|i: int|
                0 <= i < amplitudes@.len() ==> t@[i].time as int == synth_time(
                    i,
                    amplitudes@.len() as int,
                ) && t@[i].amplitude == amplitudes@[i]),
            (r matches Err(e) ==> e == TableError::EmptyTable && amplitudes@.len() == 0),
    {
        let n = amplitudes.len();
        if n == 0 {
            return Err(TableError::EmptyTable);
        }
        let mut frames: Vec<WaveFrame> = Vec::new();
        let mut i: usize = 0;
        while i < n
            invariant
                n == amplitudes@.len(),
                0 < n <= PHASE_PERIOD,
                i <= n,
                frames@.len() == i,
                forall|k: int| 0 <= k < i ==> frames@[k].time as int == synth_time(k, n as int)
                    && frames@[k].amplitude == amplitudes@[k],
            decreases n - i,
        {
            proof {
                vstd::arithmetic::mul::lemma_mul_upper_bound(
                    i as int,
                    (PHASE_PERIOD - 1) as int,
                    PHASE_PERIOD as int,
                    PHASE_PERIOD as int,
                );
                lemma_synth_time_range(i as int, n as int);
            }
            let t: u64 = ((i as u64) * PHASE_PERIOD) / (n as u64);
            let a: i64 = amplitudes[i];
            let ghost pre = frames@;
            frames.push(WaveFrame { time: t, amplitude: a });
            proof {
                assert(t as int == synth_time(i as int, n as int));
                assert forall|k: int| 0 <= k < i + 1 implies frames@[k].time as int == synth_time(
                    k,
                    n as int,
                ) && frames@[k].amplitude == amplitudes@[k] by {
                    if k < i {
                        assert(frames@[k] == pre[k]);
                    } else {
                        assert(frames@[k].time == t);
                    }
                }
            }
            i += 1;
        }
        proof {
            assert forall|k: int| 0 <= k < n implies frames@[k].time < PHASE_PERIOD by {
                lemma_synth_time_range(k, n as int);
            }
            assert forall|a: int, b: int| 0 <= a < b < n implies frames@[a].time
                < frames@[b].time by {
                lemma_synth_time_order(a, b, n as int);
            }
        }
        Ok(WaveTable { frames })
    }

    /// Number of frames in the table.
    pub fn len(&self) -> (n: usize)
        ensures
            n == self@.len(),
    {
        self.frames.len()
    }

    /// Looks the amplitude up for a phase inside one period: binary search
    /// for the insertion index, then either the exact anchor amplitude or
    /// linear interpolation between the two neighbouring anchors, wrapping
    /// across the period boundary.
    pub fn lookup(&self, phase: u64) -> (amp: i64)
        requires
            self.wf(),
            phase < PHASE_PERIOD,
        ensures
            amp as int == lookup_spec(self@, phase as int),
    {
        let n = self.frames.len();
        let mut lo: usize = 0;
        let mut hi: usize = n;
        while lo < hi
            invariant
                lo <= hi <= n,
                n == self@.len(),
                frames_wf(self@),
                forall|j: int| 0 <= j < lo ==> self@[j].time <= phase,
                forall|j: int| hi <= j < n ==> self@[j].time > phase,
            decreases hi - lo,
        {
            let mid = lo + (hi - lo) / 2;
            if self.frames[mid].time <= phase {
                lo = mid + 1;
            } else {
                hi = mid;
            }
        }
        let r = lo;
        proof {
            lemma_first_above_from_is(self@, phase as int, 0, r as int);
        }
        if r > 0 && self.frames[r - 1].time == phase {
            return self.frames[r - 1].amplitude;
        }
        let lf: WaveFrame = if r == 0 {
            self.frames[n - 1]
        } else {
            self.frames[r - 1]
        };
        let rf: WaveFrame = if r == n {
            self.frames[0]
        } else {
            self.frames[r]
        };
        let lt: i128 = if r == 0 {
            lf.time as i128 - PHASE_PERIOD as i128
        } else {
            lf.time as i128
        };
        let rt: i128 = if r == n {
            rf.time as i128 + PHASE_PERIOD as i128
        } else {
            rf.time as i128
        };
        let la: i128 = lf.amplitude as i128;
        let ra: i128 = rf.amplitude as i128;
        proof {
            assert(lt < phase as i128);
            assert((phase as i128) < rt);
        }
        let span: i128 = rt - lt;
        let off: i128 = phase as i128 - lt;
        let q: i128 = if ra >= la {
            let d: u128 = (ra - la) as u128;
            proof {
                lemma_interp_offset_bound(off as int, d as int, span as int);
                vstd::arithmetic::mul::lemma_mul_upper_bound(
                    off as int,
                    0x1_0000_0000,
                    d as int,
                    0xffff_ffff_ffff_ffff,
                );
            }
            (((off as u128) * d) / (span as u128)) as i128
        } else {
            let d: u128 = (la - ra) as u128;
            proof {
                lemma_interp_offset_bound(off as int, d as int, span as int);
                vstd::arithmetic::mul::lemma_mul_upper_bound(
                    off as int,
                    0x1_0000_0000,
                    d as int,
                    0xffff_ffff_ffff_ffff,
                );
            }
            -((((off as u128) * d) / (span as u128)) as i128)
        };
        let res: i128 = la + q;
        res as i64
    }
}

} // verus!
