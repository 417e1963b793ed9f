//! The transition planner: given the feature records of the playing track
//! and the next one, picks a blend length in bars, an out-point on the
//! current track, an in-point on the next, a strategy and filter label, and
//! a compatibility score.

use vstd::prelude::*;
use vstd::utf8::encode_utf8;
use crate::camelot::camelot_compatible_spec;
use crate::camelot::is_camelot_compatible;
use crate::grid::snap_to_bar_floor;
use crate::grid::snap_to_phrase_floor;
use crate::grid::div_floor;
use crate::record::FeatureRecord;
use crate::record::MAX_DURATION_MS;

verus! {

broadcast use vstd::string::group_string_axioms;

/// A proposed transition between two tracks.
#[derive(Debug, Clone, PartialEq)]
pub struct TransitionProposal {
    pub duration_ms: i64,
    pub current_track_mix_out_ms: i64,
    pub next_track_mix_in_ms: i64,
    pub mix_type: String,
    pub filter_strategy: String,
    pub compatibility_score_pm: u32,
    pub key_compatible: bool,
    pub bpm_compatible: bool,
}

/// The tempo the planner assumes for a record: 128 BPM when unknown, and
/// never below 1 BPM.
pub open spec fn effective_bpm_spec(r: &FeatureRecord) -> int {
    match r.bpm_mbpm {
        Some(v) => if v >= 1000 { v as int } else { 1000 },
        None => 128_000,
    }
}

/// Two tracks are tempo-compatible when their tempos differ by under six
/// percent of the current track's.
pub open spec fn bpm_compatible_spec(a: &FeatureRecord, b: &FeatureRecord) -> bool {
    let ba = effective_bpm_spec(a);
    let bb = effective_bpm_spec(b);
    let diff = if ba >= bb { ba - bb } else { bb - ba };
    50 * diff < 3 * ba
}

/// Two tracks are key-compatible when both carry a Camelot key and the keys
/// are wheel-compatible.
pub open spec fn key_compatible_spec(a: &FeatureRecord, b: &FeatureRecord) -> bool {
    match (a.camelot_key, b.camelot_key) {
        (Some(ka), Some(kb)) => camelot_compatible_spec(encode_utf8(ka@), encode_utf8(kb@)),
        _ => false,
    }
}

/// The compatibility score in thousandths: one half, plus three tenths for
/// tempo fit, a tenth for key fit, a tenth for a blend of at least ten
/// seconds, less two tenths for a hard cut; clamped into `[0, 1000]`.
pub open spec fn score_spec(bpm_ok: bool, key_ok: bool, duration_ms: int, hard_cut: bool) -> int {
    let s = 500 + (if bpm_ok { 300int } else { 0 }) + (if key_ok { 100int } else { 0 })
        + (if duration_ms >= 10_000 { 100int } else { 0 }) - (if hard_cut { 200int } else { 0 });
    if s < 0 { 0 } else if s > 1000 { 1000 } else { s }
}

/// The strategy and filter labels a proposal may pair.
pub open spec fn valid_strategy_pair(m: Seq<char>, f: Seq<char>) -> bool {
    ||| (m == "Harmonic Deep Blend (32 Bars)"@ && f == "Eq Swap (Bass/Mid)"@)
    ||| (m == "Long Filter Blend (32 Bars)"@ && f == "Bass Swap / LPF"@)
    ||| (m == "Standard Blend (16 Bars)"@ && f == "Eq Mixing"@)
    ||| (m == "Filter Blend (16 Bars)"@ && f == "Bass Cut Out"@)
    ||| (m == "Short Blend (8 Bars)"@ && f == "Wash Out / Echo"@)
    ||| (m == "Quick Blend (4 Bars)"@ && (f == "Quick Fade"@ || f == "Echo Freeze"@))
    ||| (m == "Rapid Bass Swap (2 Bars)"@ && f == "Bass Swap / LPF"@)
    ||| (m == "Aggressive Blend (32 Bars)"@ && f == "Bass Swap / LPF"@)
    ||| (m == "Aggressive Blend (16 Bars)"@ && f == "Bass Swap / LPF"@)
    ||| (m == "Aggressive Blend (8 Bars)"@ && f == "Bass Swap / LPF"@)
    ||| (m == "Aggressive Blend (4 Bars)"@ && f == "Quick Fade"@)
    ||| (m == "Aggressive Blend (2 Bars)"@ && f == "Bass Swap / LPF"@)
    ||| (m == "Hard Cut (No Intro)"@ && f == "None"@)
    ||| (m == "Echo Out Transition"@ && f == "Echo Freeze"@)
}

/// Rounding division, half away from zero, for a positive divisor.
fn round_div(d: i64, s: i64) -> (r: i64)
    requires
        0 < s <= 1_000_000_000,
        -4_000_000_000_000 <= d <= 4_000_000_000_000,
    ensures
        r * s <= d + s,
        d - s <= r * s,
        -4_000_000_000_001 <= r <= 4_000_000_000_001,
{
    let q = div_floor(d, s);
    proof {
        vstd::arithmetic::div_mod::lemma_fundamental_div_mod(d as int, s as int);
        assert((q as int) * (s as int) == (s as int) * (q as int)) by (nonlinear_arith);
        assert((q as int) * (s as int) == d as int - (d as int % s as int));
        assert(((q as int) + 1) * (s as int) == (q as int) * (s as int) + s as int)
            by (nonlinear_arith);
    }
    let rem = d - q * s;
    proof {
        assert(-4_000_000_000_001 <= q <= 4_000_000_000_000) by (nonlinear_arith)
            requires
                (q as int) * (s as int) == d as int - (d as int % s as int),
                0 <= (d as int % s as int) < (s as int),
                1 <= s <= 1_000_000_000,
                -4_000_000_000_000 <= d <= 4_000_000_000_000;
    }
    let two_rem = 2 * rem;
    if two_rem < s {
        q
    } else if two_rem > s {
        q + 1
    } else if q >= 0 {
        q + 1
    } else {
        q
    }
}

/// The in-point a blend of `bars` bars would use: the landing point less
/// the blend, snapped onto the next track's bar grid.
pub open spec fn blend_next_in_spec(
    bars: int,
    spb_a: int,
    bpm_b: int,
    next_first_beat: int,
    next_landing: int,
    conf_b: int,
) -> int {
    crate::grid::snap_bar_spec(next_landing - bars * spb_a, bpm_b, next_first_beat, conf_b)
}

/// The out-point a blend would use: the ideal out snapped onto the
/// sixteen-beat phrase grid, or onto the finer bar grid when the phrase
/// grid falls more than thirty seconds back.
pub open spec fn blend_cur_out_spec(
    cur_ideal_out: int,
    bpm_a: int,
    cur_first_beat: int,
    conf_a: int,
) -> int {
    let s1 = crate::grid::snap_phrase_spec(cur_ideal_out, bpm_a, cur_first_beat, conf_a, 16);
    if cur_ideal_out - s1 > 30_000 {
        crate::grid::snap_bar_spec(cur_ideal_out, bpm_a, cur_first_beat, conf_a)
    } else {
        s1
    }
}

/// Whether a blend of `bars` bars fits: the raw in-point clears the next
/// downbeat by a quarter bar, its snap stays near the downbeat, four fifths
/// of the blend still fit the current track past the out-point, and the
/// strategy table has a row for this length and compatibility.
#[verifier::opaque]
pub open spec fn blend_accepted_spec(
    bars: int,
    spb_a: int,
    spb_b: int,
    bpm_a: int,
    bpm_b: int,
    conf_a: int,
    conf_b: int,
    cur_ideal_out: int,
    cur_first_beat: int,
    next_first_beat: int,
    next_landing: int,
    cur_duration: int,
    bpm_ok: bool,
) -> bool {
    let dur = bars * spb_a;
    let raw = next_landing - dur;
    &&& raw >= next_first_beat - spb_b / 4
    &&& blend_next_in_spec(bars, spb_a, bpm_b, next_first_beat, next_landing, conf_b)
        >= next_first_beat - 100
    &&& 5 * (cur_duration - blend_cur_out_spec(cur_ideal_out, bpm_a, cur_first_beat, conf_a))
        >= 4 * dur
    &&& ((bars == 32 || bars == 16) ==> bpm_ok)
}

/// The strategy code of an accepted blend.
pub open spec fn blend_code_spec(bars: int, bpm_ok: bool, key_ok: bool) -> int {
    if bars == 32 {
        if key_ok { 1 } else { 2 }
    } else if bars == 16 {
        if key_ok { 3 } else { 4 }
    } else if bars == 8 {
        5
    } else if bars == 4 {
        if bpm_ok { 6 } else { 7 }
    } else {
        8
    }
}

/// One blend candidate: `bars` bars at the current tempo, accepted exactly
/// when `blend_accepted_spec` says so; the returned duration, out-point,
/// in-point and strategy code are pinned to their specs.
#[verifier::rlimit(30)]
fn try_blend(
    bars: u64,
    spb_a: i64,
    spb_b: i64,
    bpm_a: u64,
    bpm_b: u64,
    conf_a: u32,
    conf_b: u32,
    cur_ideal_out: i64,
    cur_first_beat: i64,
    next_first_beat: i64,
    next_landing: i64,
    cur_duration: i64,
    bpm_compatible: bool,
    key_compatible: bool,
) -> (r: Option<(i64, i64, i64, u8)>)
    requires
        bars == 32 || bars == 16 || bars == 8 || bars == 4 || bars == 2,
        54_545 <= bpm_a <= 200_000,
        54_545 <= bpm_b <= 200_000,
        100 <= spb_a <= 240_000_000,
        100 <= spb_b <= 240_000_000,
        0 <= next_first_beat <= 1100,
        0 <= next_landing <= MAX_DURATION_MS + 32_000,
        0 <= cur_ideal_out <= MAX_DURATION_MS,
        0 <= cur_first_beat <= 1100,
        0 <= cur_duration <= MAX_DURATION_MS,
    ensures
        r is Some <==> blend_accepted_spec(bars as int, spb_a as int, spb_b as int, bpm_a as int,
            bpm_b as int, conf_a as int, conf_b as int, cur_ideal_out as int,
            cur_first_beat as int, next_first_beat as int, next_landing as int,
            cur_duration as int, bpm_compatible),
        r is Some ==> ({
            let (dur, cur_out, next_in, code) = r->0;
            &&& dur == bars * spb_a
            &&& dur > 0
            &&& cur_out == blend_cur_out_spec(cur_ideal_out as int, bpm_a as int,
                cur_first_beat as int, conf_a as int)
            &&& next_in == blend_next_in_spec(bars as int, spb_a as int, bpm_b as int,
                next_first_beat as int, next_landing as int, conf_b as int)
            &&& code == blend_code_spec(bars as int, bpm_compatible, key_compatible)
            &&& 1 <= code <= 8
            &&& (code <= 2 ==> bars == 32)
            &&& (code == 3 || code == 4 ==> bars == 16)
            &&& (code == 5 ==> bars == 8)
            &&& (code == 6 || code == 7 ==> bars == 4)
            &&& (code == 8 ==> bars == 2)
            &&& ((code == 1 || code == 3) ==> key_compatible)
            &&& ((code == 1 || code == 2 || code == 3 || code == 4) ==> bpm_compatible)
            &&& (code == 6 ==> bpm_compatible)
            &&& (code == 7 ==> !bpm_compatible)
            &&& -100 <= next_in <= MAX_DURATION_MS + 33_000
            &&& 0 <= cur_out <= MAX_DURATION_MS + 100
        }),
{
    proof {
        reveal(crate::planner::blend_accepted_spec);
    }
    let duration = (bars as i64) * spb_a;
    proof {
        assert(2 * 100 <= (bars as int) * (spb_a as int) <= 32 * 240_000_000)
            by (nonlinear_arith)
            requires 2 <= bars <= 32 && 100 <= spb_a <= 240_000_000;
    }
    let raw_next_in = next_landing - duration;
    if raw_next_in < next_first_beat - spb_b / 4 {
        return None;
    }
    let snapped_next_in = snap_to_bar_floor(raw_next_in, bpm_b, next_first_beat, conf_b);
    proof {
        crate::grid::lemma_snap_bar_upper(raw_next_in as int, bpm_b as int,
            next_first_beat as int, conf_b as int);
    }
    if snapped_next_in < next_first_beat - 100 {
        return None;
    }
    let mut snapped_cur_start = snap_to_phrase_floor(cur_ideal_out, bpm_a, cur_first_beat, conf_a, 16);
    proof {
        crate::grid::lemma_snap_phrase16_in_range(cur_ideal_out as int, bpm_a as int,
            cur_first_beat as int, conf_a as int);
    }
    if cur_ideal_out - snapped_cur_start > 30_000 {
        snapped_cur_start = snap_to_bar_floor(cur_ideal_out, bpm_a, cur_first_beat, conf_a);
        proof {
            crate::grid::lemma_snap_bar_in_range(cur_ideal_out as int, bpm_a as int,
                cur_first_beat as int, conf_a as int);
        }
    }
    let remaining = cur_duration - snapped_cur_start;
    if 5 * remaining < 4 * duration {
        return None;
    }
    let code: Option<u8> = if bars == 32 {
        if bpm_compatible && key_compatible {
            Some(1)
        } else if bpm_compatible {
            Some(2)
        } else {
            None
        }
    } else if bars == 16 {
        if bpm_compatible {
            if key_compatible { Some(3) } else { Some(4) }
        } else {
            None
        }
    } else if bars == 8 {
        Some(5)
    } else if bars == 4 {
        if bpm_compatible { Some(6) } else { Some(7) }
    } else {
        Some(8)
    };
    match code {
        Some(c) => Some((duration, snapped_cur_start, snapped_next_in, c)),
        None => None,
    }
}

/// The longest fitting blend, 32 bars first: the duration, out-point,
/// in-point and strategy code of the first length `blend_accepted_spec`
/// admits.
fn pick_blend(
    spb_a: i64,
    spb_b: i64,
    bpm_a: u64,
    bpm_b: u64,
    conf_a: u32,
    conf_b: u32,
    cur_ideal_out: i64,
    cur_first_beat: i64,
    next_first_beat: i64,
    next_landing: i64,
    cur_duration: i64,
    bpm_compatible: bool,
    key_compatible: bool,
) -> (r: Option<(i64, i64, i64, u8)>)
    requires
        54_545 <= bpm_a <= 200_000,
        54_545 <= bpm_b <= 200_000,
        100 <= spb_a <= 240_000_000,
        100 <= spb_b <= 240_000_000,
        0 <= next_first_beat <= 1100,
        0 <= next_landing <= MAX_DURATION_MS + 32_000,
        0 <= cur_ideal_out <= MAX_DURATION_MS,
        0 <= cur_first_beat <= 1100,
        0 <= cur_duration <= MAX_DURATION_MS,
    ensures
        ({
            let a32 = blend_accepted_spec(32, spb_a as int, spb_b as int, bpm_a as int,
                bpm_b as int, conf_a as int, conf_b as int, cur_ideal_out as int,
                cur_first_beat as int, next_first_beat as int, next_landing as int,
                cur_duration as int, bpm_compatible);
            let a16 = blend_accepted_spec(16, spb_a as int, spb_b as int, bpm_a as int,
                bpm_b as int, conf_a as int, conf_b as int, cur_ideal_out as int,
                cur_first_beat as int, next_first_beat as int, next_landing as int,
                cur_duration as int, bpm_compatible);
            let a8 = blend_accepted_spec(8, spb_a as int, spb_b as int, bpm_a as int,
                bpm_b as int, conf_a as int, conf_b as int, cur_ideal_out as int,
                cur_first_beat as int, next_first_beat as int, next_landing as int,
                cur_duration as int, bpm_compatible);
            let a4 = blend_accepted_spec(4, spb_a as int, spb_b as int, bpm_a as int,
                bpm_b as int, conf_a as int, conf_b as int, cur_ideal_out as int,
                cur_first_beat as int, next_first_beat as int, next_landing as int,
                cur_duration as int, bpm_compatible);
            let a2 = blend_accepted_spec(2, spb_a as int, spb_b as int, bpm_a as int,
                bpm_b as int, conf_a as int, conf_b as int, cur_ideal_out as int,
                cur_first_beat as int, next_first_beat as int, next_landing as int,
                cur_duration as int, bpm_compatible);
            &&& (r is Some <==> (a32 || a16 || a8 || a4 || a2))
            &&& (r is Some ==> ({
                let bars: int = if a32 { 32 } else if a16 { 16 } else if a8 { 8 }
                    else if a4 { 4 } else { 2 };
                let (dur, cur_out, next_in, code) = r->0;
                &&& dur == bars * spb_a
                &&& dur > 0
                &&& cur_out == blend_cur_out_spec(cur_ideal_out as int, bpm_a as int,
                    cur_first_beat as int, conf_a as int)
                &&& next_in == blend_next_in_spec(bars, spb_a as int, bpm_b as int,
                    next_first_beat as int, next_landing as int, conf_b as int)
                &&& code == blend_code_spec(bars, bpm_compatible, key_compatible)
                &&& 1 <= code <= 8
                &&& ((1 <= code <= 4 || code == 6) ==> bpm_compatible)
                &&& ((code == 1 || code == 3) ==> key_compatible)
                &&& -100 <= next_in <= MAX_DURATION_MS + 33_000
                &&& 0 <= cur_out <= MAX_DURATION_MS + 100
            }))
        }),
{
    let mut pick = try_blend(32, spb_a, spb_b, bpm_a, bpm_b, conf_a, conf_b, cur_ideal_out,
        cur_first_beat, next_first_beat, next_landing, cur_duration, bpm_compatible,
        key_compatible);
    if pick.is_none() {
        pick = try_blend(16, spb_a, spb_b, bpm_a, bpm_b, conf_a, conf_b, cur_ideal_out,
            cur_first_beat, next_first_beat, next_landing, cur_duration, bpm_compatible,
            key_compatible);
    }
    if pick.is_none() {
        pick = try_blend(8, spb_a, spb_b, bpm_a, bpm_b, conf_a, conf_b, cur_ideal_out,
            cur_first_beat, next_first_beat, next_landing, cur_duration, bpm_compatible,
            key_compatible);
    }
    if pick.is_none() {
        pick = try_blend(4, spb_a, spb_b, bpm_a, bpm_b, conf_a, conf_b, cur_ideal_out,
            cur_first_beat, next_first_beat, next_landing, cur_duration, bpm_compatible,
            key_compatible);
    }
    if pick.is_none() {
        pick = try_blend(2, spb_a, spb_b, bpm_a, bpm_b, conf_a, conf_b, cur_ideal_out,
            cur_first_beat, next_first_beat, next_landing, cur_duration, bpm_compatible,
            key_compatible);
    }
    pick
}

/// The strategy label of a blend code.
pub open spec fn blend_mix_label_spec(code: int) -> Seq<char> {
    if code == 1 { "Harmonic Deep Blend (32 Bars)"@ }
    else if code == 2 { "Long Filter Blend (32 Bars)"@ }
    else if code == 3 { "Standard Blend (16 Bars)"@ }
    else if code == 4 { "Filter Blend (16 Bars)"@ }
    else if code == 5 { "Short Blend (8 Bars)"@ }
    else if code == 6 || code == 7 { "Quick Blend (4 Bars)"@ }
    else { "Rapid Bass Swap (2 Bars)"@ }
}

/// The filter label of a blend code.
pub open spec fn blend_filter_label_spec(code: int) -> Seq<char> {
    if code == 1 { "Eq Swap (Bass/Mid)"@ }
    else if code == 2 { "Bass Swap / LPF"@ }
    else if code == 3 { "Eq Mixing"@ }
    else if code == 4 { "Bass Cut Out"@ }
    else if code == 5 { "Wash Out / Echo"@ }
    else if code == 6 { "Quick Fade"@ }
    else if code == 7 { "Echo Freeze"@ }
    else { "Bass Swap / LPF"@ }
}

/// Labels a picked blend and applies the final clamps and scoring.
fn finish_blend(
    current: &FeatureRecord,
    next: &FeatureRecord,
    duration: i64,
    cur_out: i64,
    next_in: i64,
    code: u8,
    bpm_compatible: bool,
    key_compatible: bool,
) -> (r: Option<TransitionProposal>)
    requires
        current.wf(),
        next.wf(),
        -10_000_000_000_000 <= duration <= 10_000_000_000_000,
        -10_000_000_000_000 <= next_in <= 10_000_000_000_000,
        -10_000_000_000_000 <= cur_out <= 10_000_000_000_000,
        1 <= code <= 8,
        (1 <= code <= 4 || code == 6) ==> bpm_compatible,
        (code == 1 || code == 3) ==> key_compatible,
    ensures
        r is Some <==> final_duration_spec(current, next, duration as int, next_in as int,
            cur_out as int) > 0,
        (duration > 0 && current.duration_ms >= 1
            && next.duration_ms > first_beat_floor_spec(next)) ==> r is Some,
        r is Some ==> labels_match_flags_spec(&r->0),
        r is Some ==> ({
            let p = r->0;
            &&& p.bpm_compatible == bpm_compatible
            &&& p.key_compatible == key_compatible
            &&& p.compatibility_score_pm as int == score_spec(bpm_compatible, key_compatible,
                p.duration_ms as int, p.mix_type@ == "Hard Cut (No Intro)"@)
            &&& valid_strategy_pair(p.mix_type@, p.filter_strategy@)
            &&& p.mix_type@ == blend_mix_label_spec(code as int)
            &&& p.filter_strategy@ == blend_filter_label_spec(code as int)
            &&& 0 < p.duration_ms
            &&& 0 <= p.current_track_mix_out_ms
            &&& p.current_track_mix_out_ms <= (if current.duration_ms >= 1000 {
                current.duration_ms - 1000
            } else {
                0
            })
            &&& 0 <= p.next_track_mix_in_ms <= next.duration_ms + 1100
        }),
{
    let mix_type: &str = match code {
        1 => "Harmonic Deep Blend (32 Bars)",
        2 => "Long Filter Blend (32 Bars)",
        3 => "Standard Blend (16 Bars)",
        4 => "Filter Blend (16 Bars)",
        5 => "Short Blend (8 Bars)",
        6 => "Quick Blend (4 Bars)",
        7 => "Quick Blend (4 Bars)",
        _ => "Rapid Bass Swap (2 Bars)",
    };
    let filter_strategy: &str = match code {
        1 => "Eq Swap (Bass/Mid)",
        2 => "Bass Swap / LPF",
        3 => "Eq Mixing",
        4 => "Bass Cut Out",
        5 => "Wash Out / Echo",
        6 => "Quick Fade",
        7 => "Echo Freeze",
        _ => "Bass Swap / LPF",
    };
    proof {
        reveal_strlit("Hard Cut (No Intro)");
        reveal_strlit("Harmonic Deep Blend (32 Bars)");
        reveal_strlit("Long Filter Blend (32 Bars)");
        reveal_strlit("Standard Blend (16 Bars)");
        reveal_strlit("Filter Blend (16 Bars)");
        reveal_strlit("Short Blend (8 Bars)");
        reveal_strlit("Quick Blend (4 Bars)");
        reveal_strlit("Rapid Bass Swap (2 Bars)");
        assert(mix_type@ != "Hard Cut (No Intro)"@) by {
            assert(mix_type@.len() != "Hard Cut (No Intro)"@.len());
        };
        // The blend labels are pairwise distinct, so a label names its code's
        // compatibility needs.
        reveal_strlit("Aggressive Blend (32 Bars)");
        reveal_strlit("Aggressive Blend (16 Bars)");
        reveal_strlit("Aggressive Blend (8 Bars)");
        reveal_strlit("Aggressive Blend (4 Bars)");
        reveal_strlit("Aggressive Blend (2 Bars)");
        assert("Harmonic Deep Blend (32 Bars)"@.len() == 29);
        assert("Long Filter Blend (32 Bars)"@.len() == 27);
        assert("Standard Blend (16 Bars)"@.len() == 24);
        assert("Filter Blend (16 Bars)"@.len() == 22);
        assert("Short Blend (8 Bars)"@.len() == 20);
        assert("Quick Blend (4 Bars)"@.len() == 20);
        assert("Rapid Bass Swap (2 Bars)"@.len() == 24);
        assert("Aggressive Blend (32 Bars)"@.len() == 26);
        assert("Aggressive Blend (16 Bars)"@.len() == 26);
        assert("Aggressive Blend (8 Bars)"@.len() == 25);
        assert("Aggressive Blend (4 Bars)"@.len() == 25);
        assert("Aggressive Blend (2 Bars)"@.len() == 25);
        assert("Rapid Bass Swap (2 Bars)"@ != "Standard Blend (16 Bars)"@) by {
            assert("Rapid Bass Swap (2 Bars)"@[0] == 'R');
            assert("Standard Blend (16 Bars)"@[0] == 'S');
        };
    }
    finish_fallback(current, next, duration, next_in, cur_out, mix_type, filter_strategy,
        false, bpm_compatible, key_compatible)
}

/// The planner's working scalars, derived from the two records.
struct PlanScalars {
    bpm_a: u64,
    bpm_b: u64,
    conf_a: u32,
    conf_b: u32,
    cur_ideal_out: i64,
    cur_first_beat: i64,
    next_first_beat: i64,
    next_landing: i64,
    spb_a: i64,
    spb_b: i64,
    bpm_compatible: bool,
    key_compatible: bool,
}

/// Reads the tempos, anchors and compatibility flags out of the records.
fn derive_plan_scalars(current: &FeatureRecord, next: &FeatureRecord) -> (s: PlanScalars)
    requires
        current.wf(),
        next.wf(),
    ensures
        54_545 <= s.bpm_a <= 200_000,
        54_545 <= s.bpm_b <= 200_000,
        100 <= s.spb_a <= 240_000_000,
        100 <= s.spb_b <= 240_000_000,
        0 <= s.cur_ideal_out <= MAX_DURATION_MS,
        0 <= s.cur_first_beat <= 1100,
        0 <= s.next_first_beat <= 1100,
        s.next_first_beat + 2000 <= s.next_landing <= MAX_DURATION_MS + 32_000,
        s.bpm_compatible == bpm_compatible_spec(current, next),
        s.key_compatible == key_compatible_spec(current, next),
{
    let bpm_a: u64 = match current.bpm_mbpm {
        Some(v) => if v >= 1000 { v } else { 1000 },
        None => 128_000,
    };
    let bpm_b: u64 = match next.bpm_mbpm {
        Some(v) => if v >= 1000 { v } else { 1000 },
        None => 128_000,
    };
    let diff = if bpm_a >= bpm_b { bpm_a - bpm_b } else { bpm_b - bpm_a };
    let bpm_compatible = 50 * diff < 3 * bpm_a;
    let key_compatible = match (&current.camelot_key, &next.camelot_key) {
        (Some(ka), Some(kb)) => is_camelot_compatible(ka.as_str(), kb.as_str()),
        _ => false,
    };
    let cur_fade_out = if current.fade_out_ms > 0 { current.fade_out_ms } else { 0 };
    let cur_ideal_out = {
        let c = match current.cut_out_ms {
            Some(v) => v,
            None => cur_fade_out,
        };
        if c > 0 { c } else { 0 }
    };
    let cur_first_beat = {
        let f = match current.first_beat_ms {
            Some(v) => v,
            None => 0,
        };
        if f > 0 { f } else { 0 }
    };
    let conf_a = match current.bpm_confidence_pm {
        Some(c) => c,
        None => 0,
    };
    let conf_b = match next.bpm_confidence_pm {
        Some(c) => c,
        None => 0,
    };
    let next_first_beat = {
        let f = match next.first_beat_ms {
            Some(v) => v,
            None => 0,
        };
        if f > 0 { f } else { 0 }
    };
    let next_vocal_in = match next.vocal_in_ms {
        Some(v) => v,
        None => match next.drop_ms {
            Some(d) => d,
            None => 30_000 + next_first_beat,
        },
    };
    let next_landing = if next_vocal_in > next_first_beat + 2000 {
        next_vocal_in
    } else {
        next_first_beat + 2000
    };
    let spb_a = {
        let v = (240_000_000u64 / bpm_a) as i64;
        if v > 100 { v } else { 100 }
    };
    let spb_b = {
        let v = (240_000_000u64 / bpm_b) as i64;
        if v > 100 { v } else { 100 }
    };
    proof {
        assert(spb_a <= 240_000_000 && spb_b <= 240_000_000) by {
            vstd::arithmetic::div_mod::lemma_div_is_ordered_by_denominator(
                240_000_000, 54_545, bpm_a as int);
            vstd::arithmetic::div_mod::lemma_div_is_ordered_by_denominator(
                240_000_000, 54_545, bpm_b as int);
            assert(240_000_000int / 54_545int == 4400);
        }
    }
    PlanScalars {
        bpm_a,
        bpm_b,
        conf_a,
        conf_b,
        cur_ideal_out,
        cur_first_beat,
        next_first_beat,
        next_landing,
        spb_a,
        spb_b,
        bpm_compatible,
        key_compatible,
    }
}

/// Plans a transition from `current` into `next`.
///
/// Tries blends of 32, 16, 8, 4 and 2 bars that fit both tracks, falling
/// back to an aggressive bass swap, an echo-out aligned with the next
/// track's landing point, or a hard cut.  `None` only when the fitted
/// duration collapses to nothing against the room left on either track.
pub fn suggest_transition(current: &FeatureRecord, next: &FeatureRecord) -> (r: Option<
    TransitionProposal,
>)
    requires
        current.wf(),
        next.wf(),
    ensures
        // A plan is owed whenever both tracks leave room: the current one
        // is not empty and the next one extends past its downbeat.
        (current.duration_ms >= 1 && next.duration_ms > first_beat_floor_spec(next))
            ==> r is Some,
        r is Some ==> labels_match_flags_spec(&r->0),
        r is Some ==> ({
            let p = r->0;
            &&& p.bpm_compatible == bpm_compatible_spec(current, next)
            &&& p.key_compatible == key_compatible_spec(current, next)
            &&& p.compatibility_score_pm as int == score_spec(p.bpm_compatible, p.key_compatible,
                p.duration_ms as int, p.mix_type@ == "Hard Cut (No Intro)"@)
            &&& valid_strategy_pair(p.mix_type@, p.filter_strategy@)
            &&& 0 < p.duration_ms
            &&& 0 <= p.current_track_mix_out_ms
            &&& p.current_track_mix_out_ms <= (if current.duration_ms >= 1000 {
                current.duration_ms - 1000
            } else {
                0
            })
            &&& 0 <= p.next_track_mix_in_ms <= next.duration_ms + 1100
        }),
{
    let s = derive_plan_scalars(current, next);
    // The fitted blends, longest first.
    let pick = pick_blend(s.spb_a, s.spb_b, s.bpm_a, s.bpm_b, s.conf_a, s.conf_b,
        s.cur_ideal_out, s.cur_first_beat, s.next_first_beat, s.next_landing,
        current.duration_ms, s.bpm_compatible, s.key_compatible);
    match pick {
        Some((dur, cur_out, next_in, code)) => {
            finish_blend(current, next, dur, cur_out, next_in, code, s.bpm_compatible,
                s.key_compatible)
        },
        None => plan_fallback(current, next, s.bpm_a, s.bpm_b, s.conf_a, s.spb_a, s.spb_b,
            s.cur_ideal_out, s.cur_first_beat, s.next_first_beat, s.next_landing,
            s.bpm_compatible, s.key_compatible),
    }
}

/// The fallback strategies when no straight blend fits: an aggressive bass
/// swap while the current track still has room, a hard cut when the next
/// track has no intro, and otherwise an echo-out whose end lands on the
/// next track's landing point.
#[verifier::rlimit(100)]
fn plan_fallback(
    current: &FeatureRecord,
    next: &FeatureRecord,
    bpm_a: u64,
    bpm_b: u64,
    conf_a: u32,
    spb_a: i64,
    spb_b: i64,
    cur_ideal_out: i64,
    cur_first_beat: i64,
    next_first_beat: i64,
    next_landing: i64,
    bpm_compatible: bool,
    key_compatible: bool,
) -> (r: Option<TransitionProposal>)
    requires
        current.wf(),
        next.wf(),
        54_545 <= bpm_a <= 200_000,
        54_545 <= bpm_b <= 200_000,
        100 <= spb_a <= 240_000_000,
        100 <= spb_b <= 240_000_000,
        0 <= cur_ideal_out <= MAX_DURATION_MS,
        0 <= cur_first_beat <= 1100,
        0 <= next_first_beat <= 1100,
        next_first_beat + 2000 <= next_landing <= MAX_DURATION_MS + 32_000,
        bpm_compatible == bpm_compatible_spec(current, next),
        key_compatible == key_compatible_spec(current, next),
    ensures
        (current.duration_ms >= 1 && next.duration_ms > first_beat_floor_spec(next))
            ==> r is Some,
        r is Some ==> labels_match_flags_spec(&r->0),
        r is Some ==> ({
            let p = r->0;
            &&& p.bpm_compatible == bpm_compatible_spec(current, next)
            &&& p.key_compatible == key_compatible_spec(current, next)
            &&& p.compatibility_score_pm as int == score_spec(p.bpm_compatible, p.key_compatible,
                p.duration_ms as int, p.mix_type@ == "Hard Cut (No Intro)"@)
            &&& valid_strategy_pair(p.mix_type@, p.filter_strategy@)
            &&& (p.mix_type@ == "Aggressive Blend (32 Bars)"@
                || p.mix_type@ == "Aggressive Blend (16 Bars)"@
                || p.mix_type@ == "Aggressive Blend (8 Bars)"@
                || p.mix_type@ == "Aggressive Blend (4 Bars)"@
                || p.mix_type@ == "Aggressive Blend (2 Bars)"@
                || p.mix_type@ == "Hard Cut (No Intro)"@
                || p.mix_type@ == "Echo Out Transition"@)
            &&& 0 < p.duration_ms
            &&& 0 <= p.current_track_mix_out_ms
            &&& p.current_track_mix_out_ms <= (if current.duration_ms >= 1000 {
                current.duration_ms - 1000
            } else {
                0
            })
            &&& 0 <= p.next_track_mix_in_ms <= next.duration_ms + 1100
        }),
{
    let next_safe_intro_len = next_landing - next_first_beat;
    // Aggressive bass swap: the longest length whose four fifths the current
    // track's remainder still covers.
    if bpm_compatible {
        let mut abars: u64 = 32;
        loop
            invariant
                abars == 32 || abars == 16 || abars == 8 || abars == 4 || abars == 2,
                current.wf(),
                next.wf(),
                54_545 <= bpm_a <= 200_000,
                100 <= spb_a <= 240_000_000,
                0 <= cur_ideal_out <= MAX_DURATION_MS,
                0 <= cur_first_beat <= 1100,
                0 <= next_first_beat <= 1100,
                bpm_compatible,
                bpm_compatible == bpm_compatible_spec(current, next),
                key_compatible == key_compatible_spec(current, next),
            decreases abars,
        {
            let target_dur = spb_a * (abars as i64);
            proof {
                assert(2 * 100 <= (spb_a as int) * (abars as int) <= 32 * 240_000_000)
                    by (nonlinear_arith)
                    requires 2 <= abars <= 32 && 100 <= spb_a <= 240_000_000;
            }
            let cur_remaining = {
                let c = current.duration_ms - cur_ideal_out;
                if c > 0 { c } else { 0 }
            };
            if 5 * cur_remaining > 4 * target_dur {
                let cur_out = snap_to_bar_floor(cur_ideal_out, bpm_a, cur_first_beat, conf_a);
                proof {
                    crate::grid::lemma_snap_bar_in_range(cur_ideal_out as int, bpm_a as int,
                        cur_first_beat as int, conf_a as int);
                    reveal_strlit("Hard Cut (No Intro)");
                    reveal_strlit("Aggressive Blend (32 Bars)");
                    reveal_strlit("Aggressive Blend (16 Bars)");
                    reveal_strlit("Aggressive Blend (8 Bars)");
                    reveal_strlit("Aggressive Blend (4 Bars)");
                    reveal_strlit("Aggressive Blend (2 Bars)");
                    assert("Aggressive Blend (32 Bars)"@ != "Hard Cut (No Intro)"@) by {
                        assert("Aggressive Blend (32 Bars)"@.len()
                            != "Hard Cut (No Intro)"@.len());
                    };
                    assert("Aggressive Blend (16 Bars)"@ != "Hard Cut (No Intro)"@) by {
                        assert("Aggressive Blend (16 Bars)"@.len()
                            != "Hard Cut (No Intro)"@.len());
                    };
                    assert("Aggressive Blend (8 Bars)"@ != "Hard Cut (No Intro)"@) by {
                        assert("Aggressive Blend (8 Bars)"@.len()
                            != "Hard Cut (No Intro)"@.len());
                    };
                    assert("Aggressive Blend (4 Bars)"@ != "Hard Cut (No Intro)"@) by {
                        assert("Aggressive Blend (4 Bars)"@.len()
                            != "Hard Cut (No Intro)"@.len());
                    };
                    assert("Aggressive Blend (2 Bars)"@ != "Hard Cut (No Intro)"@) by {
                        assert("Aggressive Blend (2 Bars)"@.len()
                            != "Hard Cut (No Intro)"@.len());
                    };
                    // A bass swap is no harmonic label, so only the tempo
                    // match is owed.
                    reveal_strlit("Harmonic Deep Blend (32 Bars)");
                    reveal_strlit("Standard Blend (16 Bars)");
                    assert("Harmonic Deep Blend (32 Bars)"@.len() == 29);
                    assert("Standard Blend (16 Bars)"@.len() == 24);
                    assert("Aggressive Blend (32 Bars)"@.len() == 26);
                    assert("Aggressive Blend (16 Bars)"@.len() == 26);
                    assert("Aggressive Blend (8 Bars)"@.len() == 25);
                    assert("Aggressive Blend (4 Bars)"@.len() == 25);
                    assert("Aggressive Blend (2 Bars)"@.len() == 25);
                }
                return finish_fallback(current, next, target_dur, next_first_beat, cur_out,
                    if abars == 32 { "Aggressive Blend (32 Bars)" }
                    else if abars == 16 { "Aggressive Blend (16 Bars)" }
                    else if abars == 8 { "Aggressive Blend (8 Bars)" }
                    else if abars == 4 { "Aggressive Blend (4 Bars)" }
                    else { "Aggressive Blend (2 Bars)" },
                    if abars == 4 { "Quick Fade" } else { "Bass Swap / LPF" },
                    false, bpm_compatible, key_compatible);
            }
            if abars == 2 {
                break;
            }
            abars = abars / 2;
        }
    }
    if next_safe_intro_len < spb_b / 4 {
        // Hard cut: the intro is shorter than a beat.
        let cur_out = snap_to_bar_floor(cur_ideal_out, bpm_a, cur_first_beat, conf_a);
        proof {
            crate::grid::lemma_snap_bar_in_range(cur_ideal_out as int, bpm_a as int,
                cur_first_beat as int, conf_a as int);
            reveal_strlit("Hard Cut (No Intro)");
            reveal_strlit("Harmonic Deep Blend (32 Bars)");
            reveal_strlit("Long Filter Blend (32 Bars)");
            reveal_strlit("Standard Blend (16 Bars)");
            reveal_strlit("Filter Blend (16 Bars)");
            reveal_strlit("Aggressive Blend (32 Bars)");
            reveal_strlit("Aggressive Blend (16 Bars)");
            reveal_strlit("Aggressive Blend (8 Bars)");
            reveal_strlit("Aggressive Blend (4 Bars)");
            reveal_strlit("Aggressive Blend (2 Bars)");
            assert("Hard Cut (No Intro)"@.len() == 19);
            assert("Harmonic Deep Blend (32 Bars)"@.len() == 29);
            assert("Long Filter Blend (32 Bars)"@.len() == 27);
            assert("Standard Blend (16 Bars)"@.len() == 24);
            assert("Filter Blend (16 Bars)"@.len() == 22);
            assert("Aggressive Blend (32 Bars)"@.len() == 26);
            assert("Aggressive Blend (16 Bars)"@.len() == 26);
            assert("Aggressive Blend (8 Bars)"@.len() == 25);
            assert("Aggressive Blend (4 Bars)"@.len() == 25);
            assert("Aggressive Blend (2 Bars)"@.len() == 25);
        }
        return finish_fallback(current, next, spb_a, next_first_beat, cur_out,
            "Hard Cut (No Intro)", "None", true, bpm_compatible, key_compatible);
    }
    // Echo out: give the echo room to decay, and align its end with the
    // landing point.
    let selected_cur_out = snap_to_bar_floor(cur_ideal_out, bpm_a, cur_first_beat, conf_a);
    proof {
        crate::grid::lemma_snap_bar_in_range(cur_ideal_out as int, bpm_a as int,
            cur_first_beat as int, conf_a as int);
    }
    let ideal_echo_len = spb_a * 4;
    let cur_tail_len = {
        let c = current.duration_ms - selected_cur_out;
        if c > 0 { c } else { 0 }
    };
    let effective_max_len = {
        let m = cur_tail_len + cur_tail_len / 2;
        if next_safe_intro_len < m { next_safe_intro_len } else { m }
    };
    let mut selected_duration = {
        let d = if effective_max_len < ideal_echo_len {
            effective_max_len
        } else {
            ideal_echo_len
        };
        if d > spb_a { d } else { spb_a }
    };
    if selected_duration > next_safe_intro_len {
        selected_duration = next_safe_intro_len;
    }
    let mut selected_next_in = next_first_beat;
    if next_safe_intro_len > selected_duration + 500 {
        let ideal_start = next_landing - selected_duration;
        let sec_per_beat = (60_000_000u64 / bpm_b) as i64;
        proof {
            assert(60_000_000u64 / bpm_b <= 60_000_000int / 54_545int) by {
                vstd::arithmetic::div_mod::lemma_div_is_ordered_by_denominator(
                    60_000_000, 54_545, bpm_b as int);
            }
            assert(60_000_000int / 54_545int == 1100);
        }
        if sec_per_beat > 0 {
            let beats = round_div(ideal_start - next_first_beat, sec_per_beat);
            let aligned = next_first_beat + beats * sec_per_beat;
            selected_next_in = if aligned > next_first_beat {
                aligned
            } else {
                next_first_beat
            };
            let new_duration = next_landing - selected_next_in;
            let min_dur = spb_a / 2;
            let max_dur = {
                let m1 = ideal_echo_len + spb_a;
                let m2 = 2 * cur_tail_len + 5000;
                if m1 < m2 { m1 } else { m2 }
            };
            if new_duration >= min_dur && new_duration <= max_dur {
                selected_duration = new_duration;
            }
        }
    }
    proof {
        assert(spb_b / 4 >= 25);
        assert(selected_duration >= 25);
        reveal_strlit("Hard Cut (No Intro)");
        reveal_strlit("Echo Out Transition");
        assert("Echo Out Transition"@ != "Hard Cut (No Intro)"@) by {
            assert("Echo Out Transition"@[0] == 'E');
            assert("Hard Cut (No Intro)"@[0] == 'H');
        };
        reveal_strlit("Harmonic Deep Blend (32 Bars)");
        reveal_strlit("Long Filter Blend (32 Bars)");
        reveal_strlit("Standard Blend (16 Bars)");
        reveal_strlit("Filter Blend (16 Bars)");
        reveal_strlit("Aggressive Blend (32 Bars)");
        reveal_strlit("Aggressive Blend (16 Bars)");
        reveal_strlit("Aggressive Blend (8 Bars)");
        reveal_strlit("Aggressive Blend (4 Bars)");
        reveal_strlit("Aggressive Blend (2 Bars)");
        assert("Echo Out Transition"@.len() == 19);
        assert("Harmonic Deep Blend (32 Bars)"@.len() == 29);
        assert("Long Filter Blend (32 Bars)"@.len() == 27);
        assert("Standard Blend (16 Bars)"@.len() == 24);
        assert("Filter Blend (16 Bars)"@.len() == 22);
        assert("Aggressive Blend (32 Bars)"@.len() == 26);
        assert("Aggressive Blend (16 Bars)"@.len() == 26);
        assert("Aggressive Blend (8 Bars)"@.len() == 25);
        assert("Aggressive Blend (4 Bars)"@.len() == 25);
        assert("Aggressive Blend (2 Bars)"@.len() == 25);
    }
    finish_fallback(current, next, selected_duration, selected_next_in, selected_cur_out,
        "Echo Out Transition", "Echo Freeze", false, bpm_compatible, key_compatible)
}

/// Final safety clamps and scoring, shared by every strategy branch.
#[verifier::rlimit(60)]
/// A record's downbeat floored at zero, as the planner falls back to it.
pub open spec fn first_beat_floor_spec(r: &FeatureRecord) -> int {
    match r.first_beat_ms {
        Some(f) => if f > 0 { f as int } else { 0 },
        None => 0,
    }
}

/// The in-point after the final safety clamp: floored at zero, and reset to
/// the next track's downbeat when it comes within five seconds of that
/// track's end.
pub open spec fn final_next_in_spec(next: &FeatureRecord, next_in: int) -> int {
    let ni = if next_in < 0 { 0 } else { next_in };
    let nmax = if next.duration_ms - 5000 > 0 { next.duration_ms - 5000 } else { 0 };
    if ni > nmax { first_beat_floor_spec(next) } else { ni }
}

/// The out-point after the final safety clamp: within a second of the
/// current track's end at the latest, and never negative.
pub open spec fn final_cur_out_spec(current: &FeatureRecord, cur_out: int) -> int {
    let co = if cur_out < 0 { 0 } else { cur_out };
    let cmax = if current.duration_ms - 1000 > 0 { current.duration_ms - 1000 } else { 0 };
    if co > cmax { cmax } else { co }
}

/// The blend length after the final clamps: cut to the room left on either
/// track, unless more than three fifths of it remain and a mild overrun is
/// tolerated.
pub open spec fn final_duration_spec(
    current: &FeatureRecord,
    next: &FeatureRecord,
    duration: int,
    next_in: int,
    cur_out: int,
) -> int {
    if duration <= 0 {
        duration
    } else {
        let ni = final_next_in_spec(next, next_in);
        let co = final_cur_out_spec(current, cur_out);
        let na = if next.duration_ms - ni > 0 { next.duration_ms - ni } else { 0 };
        let ca = if current.duration_ms - co > 0 { current.duration_ms - co } else { 0 };
        let d1 = if duration > na && !(5 * na > 3 * duration) { na } else { duration };
        if d1 > ca && !(5 * ca > 3 * d1) { ca } else { d1 }
    }
}

/// The strategy label squares with the compatibility flags: every 32- or
/// 16-bar blend and every aggressive bass swap needs the tempo match, and
/// the harmonic labels need the key match too.
pub open spec fn labels_match_flags_spec(p: &TransitionProposal) -> bool {
    &&& ((p.mix_type@ == "Harmonic Deep Blend (32 Bars)"@
        || p.mix_type@ == "Long Filter Blend (32 Bars)"@
        || p.mix_type@ == "Standard Blend (16 Bars)"@
        || p.mix_type@ == "Filter Blend (16 Bars)"@
        || p.mix_type@ == "Aggressive Blend (32 Bars)"@
        || p.mix_type@ == "Aggressive Blend (16 Bars)"@
        || p.mix_type@ == "Aggressive Blend (8 Bars)"@
        || p.mix_type@ == "Aggressive Blend (4 Bars)"@
        || p.mix_type@ == "Aggressive Blend (2 Bars)"@) ==> p.bpm_compatible)
    &&& ((p.mix_type@ == "Harmonic Deep Blend (32 Bars)"@
        || p.mix_type@ == "Standard Blend (16 Bars)"@) ==> p.key_compatible)
}

fn finish_fallback(
    current: &FeatureRecord,
    next: &FeatureRecord,
    duration: i64,
    next_in: i64,
    cur_out: i64,
    mix_type: &str,
    filter_strategy: &str,
    hard_cut: bool,
    bpm_compatible: bool,
    key_compatible: bool,
) -> (r: Option<TransitionProposal>)
    requires
        current.wf(),
        next.wf(),
        -10_000_000_000_000 <= duration <= 10_000_000_000_000,
        -10_000_000_000_000 <= next_in <= 10_000_000_000_000,
        -10_000_000_000_000 <= cur_out <= 10_000_000_000_000,
        valid_strategy_pair(mix_type@, filter_strategy@),
        hard_cut <==> mix_type@ == "Hard Cut (No Intro)"@,
    ensures
        r is Some <==> final_duration_spec(current, next, duration as int, next_in as int,
            cur_out as int) > 0,
        (duration > 0 && current.duration_ms >= 1
            && next.duration_ms > first_beat_floor_spec(next)) ==> r is Some,
        r is Some ==> ({
            let p = r->0;
            &&& p.bpm_compatible == bpm_compatible
            &&& p.key_compatible == key_compatible
            &&& p.compatibility_score_pm as int == score_spec(bpm_compatible, key_compatible,
                p.duration_ms as int, p.mix_type@ == "Hard Cut (No Intro)"@)
            &&& valid_strategy_pair(p.mix_type@, p.filter_strategy@)
            &&& p.mix_type@ == mix_type@
            &&& p.filter_strategy@ == filter_strategy@
            &&& p.duration_ms == final_duration_spec(current, next, duration as int,
                next_in as int, cur_out as int)
            &&& p.next_track_mix_in_ms == final_next_in_spec(next, next_in as int)
            &&& p.current_track_mix_out_ms == final_cur_out_spec(current, cur_out as int)
            &&& 0 < p.duration_ms
            &&& 0 <= p.current_track_mix_out_ms
            &&& p.current_track_mix_out_ms <= (if current.duration_ms >= 1000 {
                current.duration_ms - 1000
            } else {
                0
            })
            &&& 0 <= p.next_track_mix_in_ms <= next.duration_ms + 1100
        }),
{
    let mut selected_duration = duration;
    let mut selected_next_in = next_in;
    let mut selected_cur_out = cur_out;
    if selected_duration <= 0 {
        return None;
    }
    if selected_next_in < 0 {
        selected_next_in = 0;
    }
    let next_max_start = {
        let m = next.duration_ms - 5000;
        if m > 0 { m } else { 0 }
    };
    if selected_next_in > next_max_start {
        selected_next_in = {
            let f = match next.first_beat_ms {
                Some(v) => v,
                None => 0,
            };
            if f > 0 { f } else { 0 }
        };
    }
    if selected_cur_out < 0 {
        selected_cur_out = 0;
    }
    let cur_cap = {
        let c = current.duration_ms - 1000;
        if c > 0 { c } else { 0 }
    };
    if selected_cur_out > cur_cap {
        selected_cur_out = cur_cap;
    }
    let cur_avail = {
        let c = current.duration_ms - selected_cur_out;
        if c > 0 { c } else { 0 }
    };
    let next_avail = {
        let n = next.duration_ms - selected_next_in;
        if n > 0 { n } else { 0 }
    };
    if selected_duration > next_avail {
        if 5 * next_avail > 3 * selected_duration {
            // Tolerate a mild overrun into the next track.
        } else {
            selected_duration = next_avail;
        }
    }
    if selected_duration > cur_avail {
        if 5 * cur_avail > 3 * selected_duration {
            // Likewise against the current track's remainder.
        } else {
            selected_duration = cur_avail;
        }
    }
    if selected_duration <= 0 {
        proof {
            // With room on both tracks the clamps cannot collapse the blend.
            if duration > 0 && current.duration_ms >= 1
                && next.duration_ms > first_beat_floor_spec(next) {
                assert(next_avail >= 1);
                assert(cur_avail >= 1);
                assert(false);
            }
        }
        return None;
    }

    let mut score: i64 = 500;
    if bpm_compatible {
        score = score + 300;
    }
    if key_compatible {
        score = score + 100;
    }
    if selected_duration >= 10_000 {
        score = score + 100;
    }
    if hard_cut {
        score = score - 200;
    }
    if score < 0 {
        score = 0;
    }
    if score > 1000 {
        score = 1000;
    }

    Some(TransitionProposal {
        duration_ms: selected_duration,
        current_track_mix_out_ms: selected_cur_out,
        next_track_mix_in_ms: selected_next_in,
        mix_type: mix_type.to_owned(),
        filter_strategy: filter_strategy.to_owned(),
        compatibility_score_pm: score as u32,
        key_compatible,
        bpm_compatible,
    })
}

} // verus!
