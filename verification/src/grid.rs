//! Beat-grid quantization.  A track with a known tempo and downbeat phase
//! carries an implicit grid of bars; cut points are snapped down onto that
//! grid, with a 50 ms tolerance that rounds onto a boundary instead of
//! falling a whole bar back.
//!
//! Times are milliseconds, tempos thousandths of a beat per minute, and
//! confidences thousandths.

use vstd::prelude::*;
use vstd::arithmetic::div_mod::lemma_fundamental_div_mod;
use vstd::arithmetic::div_mod::lemma_fundamental_div_mod_converse;

verus! {

/// Snap tolerance around a grid boundary, in milliseconds.
pub const SNAP_TOLERANCE_MS: i64 = 50;

/// Tempo confidence (thousandths) below which no snapping happens.
pub const SNAP_MIN_CONFIDENCE_PM: u32 = 400;

/// Bound on the times the grid functions accept; far beyond any track.
pub const GRID_MS_BOUND: i64 = 2_000_000_000_000_000;

/// Milliseconds per bar (four beats) at a tempo in milli-BPM.
pub open spec fn bar_ms_spec(bpm_mbpm: int) -> int {
    240_000_000int / bpm_mbpm
}

/// Milliseconds per phrase of `beats` beats at a tempo in milli-BPM.
pub open spec fn stride_ms_spec(bpm_mbpm: int, beats: int) -> int {
    (beats * 60_000_000) / bpm_mbpm
}

/// Floor-snap of `time` onto the grid anchored at `first_beat` with the given
/// stride: the number of whole strides since the downbeat, rounded to the
/// nearest grid line when within the tolerance, floored otherwise, and never
/// before the downbeat itself.
pub open spec fn snap_floor_spec(time: int, first_beat: int, stride: int) -> int
    recommends
        stride > 0,
{
    let d = time - first_beat;
    let q = d / stride;
    let rem = d % stride;
    let up = stride - rem;
    let nearest = if rem < up {
        q
    } else if up < rem {
        q + 1
    } else if q >= 0 {
        q + 1
    } else {
        q
    };
    let dist = if rem < up { rem } else { up };
    let lines = if dist < SNAP_TOLERANCE_MS { nearest } else { q };
    let res = first_beat + lines * stride;
    if res < first_beat { first_beat } else { res }
}

/// Bar-floor snap: identity without a tempo or below the confidence floor.
pub open spec fn snap_bar_spec(time: int, bpm: int, first_beat: int, conf: int) -> int {
    if bpm <= 0 || conf < SNAP_MIN_CONFIDENCE_PM {
        time
    } else {
        let stride = bar_ms_spec(bpm);
        if stride <= 0 {
            time
        } else {
            snap_floor_spec(time, first_beat, stride)
        }
    }
}

/// Phrase-floor snap with a stride of `beats` beats.
pub open spec fn snap_phrase_spec(time: int, bpm: int, first_beat: int, conf: int, beats: int) -> int {
    if bpm <= 0 || conf < SNAP_MIN_CONFIDENCE_PM || beats <= 0 {
        time
    } else {
        let stride = stride_ms_spec(bpm, beats);
        if stride <= 0 {
            time
        } else {
            snap_floor_spec(time, first_beat, stride)
        }
    }
}

/// Cut-out snap: the sixteen-beat phrase grid when that stays within
/// `max_pos`, the bar grid otherwise, clamped into `[0, max_pos]`.
pub open spec fn snap_cut_out_spec(raw: int, bpm: int, first_beat: int, conf: int, max_pos: int) -> int {
    let phrase = snap_phrase_spec(raw, bpm, first_beat, conf, 16);
    let snapped = if phrase <= max_pos {
        phrase
    } else {
        snap_bar_spec(raw, bpm, first_beat, conf)
    };
    let capped = if snapped <= max_pos { snapped } else { max_pos };
    if capped >= 0 { capped } else { 0 }
}

/// One candidate cut-in: a start `bars` bars before the anchor, accepted when
/// it clears the fade-in by more than a bar and its bar-snap does not fall
/// before the fade-in.
pub open spec fn phrase_candidate_spec(
    anchor: int,
    bars: int,
    bpm: int,
    first_beat: int,
    fade_in: int,
    conf: int,
) -> Option<int> {
    let stride = bar_ms_spec(bpm);
    let raw = anchor - bars * stride;
    if raw > fade_in + stride {
        let s = snap_bar_spec(raw, bpm, first_beat, conf);
        if s >= fade_in {
            Some(s)
        } else {
            None
        }
    } else {
        None
    }
}

/// Cut-in selection: the longest of 32, 16, 8 or 4 bars before the anchor
/// that fits after the fade-in, bar-snapped; the fade-in itself without a
/// confident tempo; the downbeat (or fade-in) when nothing fits.
pub open spec fn best_phrase_start_spec(
    anchor: int,
    bpm: int,
    first_beat: int,
    fade_in: int,
    conf: int,
) -> int {
    if bpm <= 0 || conf < SNAP_MIN_CONFIDENCE_PM {
        fade_in
    } else {
        let stride = bar_ms_spec(bpm);
        if stride <= 0 {
            if first_beat >= fade_in { first_beat } else { fade_in }
        } else {
            match phrase_candidate_spec(anchor, 32, bpm, first_beat, fade_in, conf) {
                Some(v) => v,
                None => match phrase_candidate_spec(anchor, 16, bpm, first_beat, fade_in, conf) {
                    Some(v) => v,
                    None => match phrase_candidate_spec(anchor, 8, bpm, first_beat, fade_in, conf) {
                        Some(v) => v,
                        None => match phrase_candidate_spec(anchor, 4, bpm, first_beat, fade_in, conf) {
                            Some(v) => v,
                            None => if first_beat >= fade_in { first_beat } else { fade_in },
                        },
                    },
                },
            }
        }
    }
}

/// Floored division for a positive divisor.
pub(crate) fn div_floor(a: i64, b: i64) -> (q: i64)
    requires
        0 < b <= 1_000_000_000_000,
        -8_000_000_000_000_000 <= a <= 8_000_000_000_000_000,
    ensures
        q == a as int / b as int,
{
    if a >= 0 {
        ((a as u64) / (b as u64)) as i64
    } else {
        let n = (-a) as u64;
        let bu = b as u64;
        let q1 = (n + bu - 1) / bu;
        proof {
            lemma_fundamental_div_mod(n + bu - 1, bu as int);
            let bi = bu as int;
            let qi = q1 as int;
            let r1 = (n + bu - 1) as int % bi;
            assert(n + bu - 1 == bi * qi + r1);
            assert(bi * (-qi) == -(bi * qi)) by (nonlinear_arith);
            // a == b * (-q1) + (b - r1 - 1), with the remainder in range.
            assert(a as int == bi * (-qi) + (bi - r1 - 1));
            lemma_fundamental_div_mod_converse(a as int, bi, -qi, bi - r1 - 1);
        }
        -(q1 as i64)
    }
}

/// Executable form of `snap_floor_spec`.
fn snap_floor(time: i64, first_beat: i64, stride: i64) -> (r: i64)
    requires
        0 < stride <= 1_000_000_000_000,
        -4_000_000_000_000_000 <= time <= 4_000_000_000_000_000,
        -4_000_000_000_000_000 <= first_beat <= 4_000_000_000_000_000,
    ensures
        r == snap_floor_spec(time as int, first_beat as int, stride as int),
        r >= first_beat,
{
    let d = time - first_beat;
    let q = div_floor(d, stride);
    proof {
        lemma_fundamental_div_mod(d as int, stride as int);
        assert((q as int) * (stride as int) == (stride as int) * (q as int)) by (nonlinear_arith);
        assert((q as int) * (stride as int) == d as int - (d as int % stride as int));
    }
    let rem = d - q * stride;
    let up = stride - rem;
    let nearest = if rem < up {
        q
    } else if up < rem {
        q + 1
    } else if q >= 0 {
        q + 1
    } else {
        q
    };
    let dist = if rem < up { rem } else { up };
    let lines = if dist < SNAP_TOLERANCE_MS { nearest } else { q };
    proof {
        assert((q as int + 1) * (stride as int) == (q as int) * (stride as int) + stride as int)
            by (nonlinear_arith);
        assert(d as int - stride as int <= (lines as int) * (stride as int) <= d as int + stride as int);
    }
    let res = first_beat + lines * stride;
    if res < first_beat {
        first_beat
    } else {
        res
    }
}

/// Snaps a time down onto the bar grid.  Identity when the tempo is unknown
/// or its confidence is below 0.4.
pub fn snap_to_bar_floor(time_ms: i64, bpm_mbpm: u64, first_beat_ms: i64, confidence_pm: u32) -> (r: i64)
    requires
        -2 * GRID_MS_BOUND <= time_ms <= 2 * GRID_MS_BOUND,
        -2 * GRID_MS_BOUND <= first_beat_ms <= 2 * GRID_MS_BOUND,
    ensures
        r == snap_bar_spec(time_ms as int, bpm_mbpm as int, first_beat_ms as int, confidence_pm as int),
{
    if bpm_mbpm == 0 || confidence_pm < SNAP_MIN_CONFIDENCE_PM {
        return time_ms;
    }
    let stride = 240_000_000u64 / bpm_mbpm;
    if stride == 0 {
        return time_ms;
    }
    snap_floor(time_ms, first_beat_ms, stride as i64)
}

/// Snaps a time down onto a phrase grid of `beats_per_phrase` beats.
pub fn snap_to_phrase_floor(
    time_ms: i64,
    bpm_mbpm: u64,
    first_beat_ms: i64,
    confidence_pm: u32,
    beats_per_phrase: u64,
) -> (r: i64)
    requires
        -2 * GRID_MS_BOUND <= time_ms <= 2 * GRID_MS_BOUND,
        -2 * GRID_MS_BOUND <= first_beat_ms <= 2 * GRID_MS_BOUND,
        beats_per_phrase <= 1024,
    ensures
        r == snap_phrase_spec(
            time_ms as int,
            bpm_mbpm as int,
            first_beat_ms as int,
            confidence_pm as int,
            beats_per_phrase as int,
        ),
{
    if bpm_mbpm == 0 || confidence_pm < SNAP_MIN_CONFIDENCE_PM || beats_per_phrase == 0 {
        return time_ms;
    }
    let stride = (beats_per_phrase * 60_000_000) / bpm_mbpm;
    if stride == 0 {
        return time_ms;
    }
    snap_floor(time_ms, first_beat_ms, stride as i64)
}

/// Snaps a raw cut-out target onto the sixteen-beat phrase grid, falling back
/// to the bar grid when the phrase snap overshoots `max_pos`, clamped into
/// `[0, max_pos]`.
pub fn snap_cut_out_floor(
    raw_target_ms: i64,
    bpm_mbpm: u64,
    first_beat_ms: i64,
    confidence_pm: u32,
    max_pos_ms: i64,
) -> (r: i64)
    requires
        -GRID_MS_BOUND <= raw_target_ms <= GRID_MS_BOUND,
        -GRID_MS_BOUND <= first_beat_ms <= GRID_MS_BOUND,
        -GRID_MS_BOUND <= max_pos_ms <= GRID_MS_BOUND,
    ensures
        r == snap_cut_out_spec(
            raw_target_ms as int,
            bpm_mbpm as int,
            first_beat_ms as int,
            confidence_pm as int,
            max_pos_ms as int,
        ),
{
    let phrase = snap_to_phrase_floor(raw_target_ms, bpm_mbpm, first_beat_ms, confidence_pm, 16);
    let snapped = if phrase <= max_pos_ms {
        phrase
    } else {
        snap_to_bar_floor(raw_target_ms, bpm_mbpm, first_beat_ms, confidence_pm)
    };
    let capped = if snapped <= max_pos_ms { snapped } else { max_pos_ms };
    if capped >= 0 { capped } else { 0 }
}

/// Picks the cut-in for a track: the start of the longest phrase (32, 16, 8
/// or 4 bars) that ends at `anchor_ms` and still clears the fade-in.
pub fn find_best_phrase_start(
    anchor_ms: i64,
    bpm_mbpm: u64,
    first_beat_ms: i64,
    fade_in_ms: i64,
    confidence_pm: u32,
) -> (r: i64)
    requires
        -GRID_MS_BOUND <= anchor_ms <= GRID_MS_BOUND,
        -GRID_MS_BOUND <= first_beat_ms <= GRID_MS_BOUND,
        -GRID_MS_BOUND <= fade_in_ms <= GRID_MS_BOUND,
    ensures
        r == best_phrase_start_spec(
            anchor_ms as int,
            bpm_mbpm as int,
            first_beat_ms as int,
            fade_in_ms as int,
            confidence_pm as int,
        ),
{
    if bpm_mbpm == 0 || confidence_pm < SNAP_MIN_CONFIDENCE_PM {
        return fade_in_ms;
    }
    let stride = 240_000_000u64 / bpm_mbpm;
    if stride == 0 {
        return if first_beat_ms >= fade_in_ms { first_beat_ms } else { fade_in_ms };
    }
    let stride = stride as i64;
    let mut bars: u64 = 32;
    loop
        invariant
            bars == 32 || bars == 16 || bars == 8 || bars == 4,
            0 < stride <= 240_000_000,
            stride == bar_ms_spec(bpm_mbpm as int),
            bpm_mbpm > 0,
            confidence_pm >= SNAP_MIN_CONFIDENCE_PM,
            -GRID_MS_BOUND <= anchor_ms <= GRID_MS_BOUND,
            -GRID_MS_BOUND <= first_beat_ms <= GRID_MS_BOUND,
            -GRID_MS_BOUND <= fade_in_ms <= GRID_MS_BOUND,
            bars <= 16 ==> phrase_candidate_spec(anchor_ms as int, 32, bpm_mbpm as int,
                first_beat_ms as int, fade_in_ms as int, confidence_pm as int) is None,
            bars <= 8 ==> phrase_candidate_spec(anchor_ms as int, 16, bpm_mbpm as int,
                first_beat_ms as int, fade_in_ms as int, confidence_pm as int) is None,
            bars <= 4 ==> phrase_candidate_spec(anchor_ms as int, 8, bpm_mbpm as int,
                first_beat_ms as int, fade_in_ms as int, confidence_pm as int) is None,
        decreases bars,
    {
        proof {
            assert(0 <= (bars as int) * (stride as int) <= 32 * 240_000_000) by (nonlinear_arith)
                requires 0 < bars <= 32 && 0 < stride <= 240_000_000;
        }
        let raw = anchor_ms - (bars as i64) * stride;
        if raw > fade_in_ms + stride {
            let snapped = snap_to_bar_floor(raw, bpm_mbpm, first_beat_ms, confidence_pm);
            if snapped >= fade_in_ms {
                return snapped;
            }
        }
        if bars == 4 {
            return if first_beat_ms >= fade_in_ms { first_beat_ms } else { fade_in_ms };
        }
        bars = bars / 2;
    }
}

/// Law: snapping a time already on the bar grid is a no-op.
pub proof fn lemma_snap_on_grid_noop(n: int, bpm: int, first_beat: int, conf: int)
    requires
        0 < bpm,
        conf >= SNAP_MIN_CONFIDENCE_PM,
        bar_ms_spec(bpm) > 0,
        n >= 0,
    ensures
        snap_bar_spec(first_beat + n * bar_ms_spec(bpm), bpm, first_beat, conf)
            == first_beat + n * bar_ms_spec(bpm),
{
    let stride = bar_ms_spec(bpm);
    let t = first_beat + n * stride;
    let d = t - first_beat;
    assert(d == n * stride);
    lemma_fundamental_div_mod_converse(d, stride, n, 0);
    assert(d / stride == n && d % stride == 0);
    assert(snap_floor_spec(t, first_beat, stride) == first_beat + n * stride);
}

/// Law: within the snap tolerance below a bar boundary, the snap rounds up
/// onto that boundary instead of down to the preceding bar.
pub proof fn lemma_snap_rounds_up_near_boundary(n: int, e: int, bpm: int, first_beat: int, conf: int)
    requires
        0 < bpm <= 2_400_000,
        conf >= SNAP_MIN_CONFIDENCE_PM,
        0 < e < SNAP_TOLERANCE_MS,
        n >= 1,
    ensures
        snap_bar_spec(first_beat + n * bar_ms_spec(bpm) - e, bpm, first_beat, conf)
            == first_beat + n * bar_ms_spec(bpm),
{
    let stride = bar_ms_spec(bpm);
    assert(stride >= 100) by {
        assert(240_000_000int / 2_400_000int == 100);
        vstd::arithmetic::div_mod::lemma_div_is_ordered_by_denominator(240_000_000, bpm, 2_400_000);
    }
    let t = first_beat + n * stride - e;
    let d = t - first_beat;
    assert(d == (n - 1) * stride + (stride - e)) by {
        assert(n * stride == (n - 1) * stride + stride) by (nonlinear_arith);
    }
    lemma_fundamental_div_mod_converse(d, stride, n - 1, stride - e);
    assert(d / stride == n - 1 && d % stride == stride - e);
    assert(snap_floor_spec(t, first_beat, stride) == first_beat + n * stride) by {
        assert((n - 1 + 1) * stride == n * stride) by (nonlinear_arith);
        assert(first_beat + n * stride >= first_beat) by (nonlinear_arith)
            requires n >= 1 && stride > 0;
    }
}

/// A floor-snap never lands later than the tolerance above the input (or
/// the downbeat, for inputs before it).
pub proof fn lemma_snap_floor_upper(time: int, first_beat: int, stride: int)
    requires
        stride > SNAP_TOLERANCE_MS,
    ensures
        snap_floor_spec(time, first_beat, stride)
            <= vstd::math::max(first_beat, time + SNAP_TOLERANCE_MS),
{
    let d = time - first_beat;
    let q = d / stride;
    let rem = d % stride;
    vstd::arithmetic::div_mod::lemma_fundamental_div_mod(d, stride);
    assert(q * stride == d - rem);
    assert((q + 1) * stride == d - rem + stride) by (nonlinear_arith)
        requires q * stride == d - rem;
}

/// A bar snap of a time in a track stays non-negative and lands at most the
/// tolerance past the input (or at the downbeat).
pub proof fn lemma_snap_bar_in_range(time: int, bpm: int, first_beat: int, conf: int)
    requires
        0 <= time,
        0 <= first_beat,
        54_545 <= bpm <= 200_000,
    ensures
        0 <= snap_bar_spec(time, bpm, first_beat, conf),
        snap_bar_spec(time, bpm, first_beat, conf)
            <= vstd::math::max(first_beat, time + SNAP_TOLERANCE_MS),
{
    if conf >= SNAP_MIN_CONFIDENCE_PM {
        let stride = bar_ms_spec(bpm);
        assert(1200 <= stride <= 4400) by {
            vstd::arithmetic::div_mod::lemma_div_is_ordered_by_denominator(240_000_000, 54_545, bpm);
            vstd::arithmetic::div_mod::lemma_div_is_ordered_by_denominator(240_000_000, bpm, 200_000);
            assert(240_000_000int / 54_545int == 4400);
            assert(240_000_000int / 200_000int == 1200);
        }
        lemma_snap_floor_upper(time, first_beat, stride);
    }
}

/// A bar snap never lands later than the tolerance past the input or the
/// downbeat, wherever the input lies.
pub proof fn lemma_snap_bar_upper(time: int, bpm: int, first_beat: int, conf: int)
    requires
        54_545 <= bpm <= 200_000,
    ensures
        snap_bar_spec(time, bpm, first_beat, conf)
            <= vstd::math::max(first_beat, time + SNAP_TOLERANCE_MS),
{
    if conf >= SNAP_MIN_CONFIDENCE_PM {
        let stride = bar_ms_spec(bpm);
        assert(1200 <= stride <= 4400) by {
            vstd::arithmetic::div_mod::lemma_div_is_ordered_by_denominator(240_000_000, 54_545, bpm);
            vstd::arithmetic::div_mod::lemma_div_is_ordered_by_denominator(240_000_000, bpm, 200_000);
            assert(240_000_000int / 54_545int == 4400);
            assert(240_000_000int / 200_000int == 1200);
        }
        lemma_snap_floor_upper(time, first_beat, stride);
    }
}

/// A sixteen-beat phrase snap of a time in a track stays non-negative and
/// lands at most the tolerance past the input (or at the downbeat).
pub proof fn lemma_snap_phrase16_in_range(time: int, bpm: int, first_beat: int, conf: int)
    requires
        0 <= time,
        0 <= first_beat,
        54_545 <= bpm <= 200_000,
    ensures
        0 <= snap_phrase_spec(time, bpm, first_beat, conf, 16),
        snap_phrase_spec(time, bpm, first_beat, conf, 16)
            <= vstd::math::max(first_beat, time + SNAP_TOLERANCE_MS),
{
    if conf >= SNAP_MIN_CONFIDENCE_PM {
        let stride = stride_ms_spec(bpm, 16);
        assert(4800 <= stride <= 17600) by {
            vstd::arithmetic::div_mod::lemma_div_is_ordered_by_denominator(960_000_000, 54_545, bpm);
            vstd::arithmetic::div_mod::lemma_div_is_ordered_by_denominator(960_000_000, bpm, 200_000);
            assert(960_000_000int / 54_545int == 17600);
            assert(960_000_000int / 200_000int == 4800);
        }
        lemma_snap_floor_upper(time, first_beat, stride);
    }
}

/// Law: below the confidence floor the bar snap changes nothing.
pub proof fn lemma_snap_low_confidence_identity(time: int, bpm: int, first_beat: int, conf: int)
    requires
        conf < SNAP_MIN_CONFIDENCE_PM,
    ensures
        snap_bar_spec(time, bpm, first_beat, conf) == time,
{
}

/// Law: below the confidence floor the cut-in search returns the fade-in.
pub proof fn lemma_phrase_start_low_confidence(anchor: int, bpm: int, first_beat: int, fade_in: int, conf: int)
    requires
        conf < SNAP_MIN_CONFIDENCE_PM,
    ensures
        best_phrase_start_spec(anchor, bpm, first_beat, fade_in, conf) == fade_in,
{
}

} // verus!
