//! Long harmonic mixes: a 32-bar blend with tempo sync, a pitch-shift
//! toward the current track's key, and a bass-swap automation envelope on
//! both decks.

use vstd::prelude::*;
use vstd::utf8::encode_utf8;
use crate::camelot::calc_key_distance;
use crate::camelot::key_distance_spec;
use crate::grid::snap_bar_spec;
use crate::grid::snap_to_bar_floor;
use crate::record::FeatureRecord;

verus! {

/// One automation breakpoint; volume and the two filter cuts are
/// thousandths of full.
#[derive(Debug, Clone, Copy, PartialEq)]
pub struct AutomationPoint {
    pub time_offset_ms: i64,
    pub volume_pm: u32,
    pub low_cut_pm: u32,
    pub high_cut_pm: u32,
}

/// A long-mix plan: where each deck starts, how long the blend runs, the
/// pitch shift and playback-rate correction for the next deck, and the
/// automation envelope of each deck.
#[derive(Debug, Clone, PartialEq)]
pub struct AdvancedTransition {
    pub start_time_current_ms: i64,
    pub start_time_next_ms: i64,
    pub duration_ms: i64,
    pub pitch_shift_semitones: i32,
    /// Playback rate of the next track in millionths (current over next
    /// tempo).
    pub playback_rate_ppm: u64,
    pub automation_current: Vec<AutomationPoint>,
    pub automation_next: Vec<AutomationPoint>,
    pub strategy: String,
}

/// The two decks' bass-swap envelopes for a blend of the given length:
/// five points each at the start, two seconds around the midpoint, and the
/// end, handing the bass from the current deck to the next at the middle.
pub open spec fn bass_swap_points_spec(a: Seq<AutomationPoint>, b: Seq<AutomationPoint>, duration: int) -> bool {
    let mid = duration / 2;
    &&& a.len() == 5 && b.len() == 5
    &&& a[0].time_offset_ms == 0 && b[0].time_offset_ms == 0
    &&& a[1].time_offset_ms == mid - 2000 && b[1].time_offset_ms == mid - 2000
    &&& a[2].time_offset_ms == mid && b[2].time_offset_ms == mid
    &&& a[3].time_offset_ms == mid + 2000 && b[3].time_offset_ms == mid + 2000
    &&& a[4].time_offset_ms == duration && b[4].time_offset_ms == duration
    &&& a[0].volume_pm == 1000 && a[1].volume_pm == 1000 && a[2].volume_pm == 900
        && a[3].volume_pm == 800 && a[4].volume_pm == 0
    &&& a[0].low_cut_pm == 0 && a[1].low_cut_pm == 0 && a[2].low_cut_pm == 500
        && a[3].low_cut_pm == 1000 && a[4].low_cut_pm == 1000
    &&& a[0].high_cut_pm == 0 && a[1].high_cut_pm == 0 && a[2].high_cut_pm == 0
        && a[3].high_cut_pm == 100 && a[4].high_cut_pm == 1000
    &&& b[0].volume_pm == 800 && b[1].volume_pm == 1000 && b[2].volume_pm == 900
        && b[3].volume_pm == 1000 && b[4].volume_pm == 1000
    &&& b[0].low_cut_pm == 1000 && b[1].low_cut_pm == 1000 && b[2].low_cut_pm == 500
        && b[3].low_cut_pm == 0 && b[4].low_cut_pm == 0
    &&& b[0].high_cut_pm == 0 && b[1].high_cut_pm == 0 && b[2].high_cut_pm == 0
        && b[3].high_cut_pm == 0 && b[4].high_cut_pm == 0
}

/// The tempo the long mix assumes for a record (128 BPM when unknown).
pub open spec fn long_bpm_spec(r: &FeatureRecord) -> int {
    match r.bpm_mbpm {
        Some(v) => v as int,
        None => 128_000,
    }
}

/// Milliseconds per bar at the long mix's tempo for a record.
pub open spec fn long_bar_ms_spec(r: &FeatureRecord) -> int {
    240_000_000int / long_bpm_spec(r)
}

/// The downbeat the long mix snaps onto (zero when unknown).
pub open spec fn long_first_beat_spec(r: &FeatureRecord) -> int {
    match r.first_beat_ms {
        Some(f) => f as int,
        None => 0,
    }
}

/// A record's Camelot key, as bytes.
pub open spec fn camelot_bytes_spec(r: &FeatureRecord) -> Option<Seq<u8>> {
    match r.camelot_key {
        Some(s) => Some(encode_utf8(s@)),
        None => None,
    }
}

/// Where the current deck's blend ends: five seconds before the track does,
/// snapped onto its bar grid.
pub open spec fn long_cur_mix_end_spec(current: &FeatureRecord) -> int {
    snap_bar_spec(current.duration_ms - 5000, long_bpm_spec(current),
        long_first_beat_spec(current), 800)
}

/// Where the next deck's blend ends: its drop, else its vocal entry, else
/// thirty seconds, snapped onto its bar grid.
pub open spec fn long_next_mix_end_spec(next: &FeatureRecord) -> int {
    let anchor = match next.drop_ms {
        Some(d) => d as int,
        None => match next.vocal_in_ms {
            Some(v) => v as int,
            None => 30_000,
        },
    };
    snap_bar_spec(anchor, long_bpm_spec(next), long_first_beat_spec(next), 800)
}

/// How many next-deck milliseconds the 32-bar blend spans once the next
/// deck is rate-matched.
pub open spec fn long_next_span_spec(current: &FeatureRecord, next: &FeatureRecord) -> int {
    (32 * long_bar_ms_spec(current)) * long_bpm_spec(next) / long_bpm_spec(current)
}

/// Where the next deck starts: span before its blend end, or its downbeat
/// when that would land before the track's start.
pub open spec fn long_next_start_spec(current: &FeatureRecord, next: &FeatureRecord) -> int {
    let s = long_next_mix_end_spec(next) - long_next_span_spec(current, next);
    if s < 0 { long_first_beat_spec(next) } else { s }
}

/// The blend's length: 32 bars, shortened when the next deck's intro cannot
/// hold them.
pub open spec fn long_duration_spec(current: &FeatureRecord, next: &FeatureRecord) -> int {
    let s = long_next_mix_end_spec(next) - long_next_span_spec(current, next);
    if s < 0 {
        long_next_mix_end_spec(next) - long_first_beat_spec(next)
    } else {
        32 * long_bar_ms_spec(current)
    }
}

/// Where the current deck starts: 32 bars before its blend end, floored at
/// the track's start.
pub open spec fn long_cur_start_spec(current: &FeatureRecord) -> int {
    let s = long_cur_mix_end_spec(current) - 32 * long_bar_ms_spec(current);
    if s > 0 { s } else { 0 }
}

/// An automation sequence is ordered in time and brackets `[0, duration]`.
pub open spec fn automation_ordered(pts: Seq<AutomationPoint>, duration: int) -> bool {
    &&& pts.len() > 0
    &&& pts[0].time_offset_ms == 0
    &&& pts[pts.len() - 1].time_offset_ms == duration
    &&& forall|i: int| 0 <= i < pts.len() - 1
        ==> #[trigger] pts[i].time_offset_ms <= pts[i + 1].time_offset_ms
}

/// All levels of an automation sequence lie in `[0, 1]`.
pub open spec fn automation_levels_in_range(pts: Seq<AutomationPoint>) -> bool {
    forall|i: int| 0 <= i < pts.len() ==> (#[trigger] pts[i].volume_pm <= 1000
        && pts[i].low_cut_pm <= 1000 && pts[i].high_cut_pm <= 1000)
}

/// The bass-swap envelope: five points on each deck at the start, around
/// the midpoint, and the end.  The current deck keeps its bass until the
/// midpoint, hands it over, and fades out; the next deck mirrors it.
///
/// For any blend of at least four seconds both sequences are ordered and
/// bracket `[0, duration]`; levels always lie in `[0, 1]`.
pub fn generate_bass_swap_automation(duration_ms: i64) -> (r: (Vec<AutomationPoint>, Vec<AutomationPoint>))
    requires
        -1_000_000_000_000 <= duration_ms <= 1_000_000_000_000,
    ensures
        bass_swap_points_spec(r.0@, r.1@, duration_ms as int),
        duration_ms >= 4000 ==> automation_ordered(r.0@, duration_ms as int)
            && automation_ordered(r.1@, duration_ms as int),
        automation_levels_in_range(r.0@) && automation_levels_in_range(r.1@),
{
    let mid = if duration_ms >= 0 {
        ((duration_ms as u64) / 2) as i64
    } else {
        let m = (((-duration_ms) as u64) / 2) as i64;
        proof {
            let n = -(duration_ms as int);
            vstd::arithmetic::div_mod::lemma_fundamental_div_mod(n, 2);
            if n % 2 == 0 {
                vstd::arithmetic::div_mod::lemma_fundamental_div_mod_converse(
                    duration_ms as int, 2, -(n / 2), 0);
            } else {
                vstd::arithmetic::div_mod::lemma_fundamental_div_mod_converse(
                    duration_ms as int, 2, -(n / 2) - 1, 1);
            }
        }
        if ((-duration_ms) as u64) % 2 == 1 { -m - 1 } else { -m }
    };
    let mut a: Vec<AutomationPoint> = Vec::new();
    let mut b: Vec<AutomationPoint> = Vec::new();
    a.push(AutomationPoint { time_offset_ms: 0, volume_pm: 1000, low_cut_pm: 0, high_cut_pm: 0 });
    b.push(AutomationPoint { time_offset_ms: 0, volume_pm: 800, low_cut_pm: 1000, high_cut_pm: 0 });
    a.push(AutomationPoint { time_offset_ms: mid - 2000, volume_pm: 1000, low_cut_pm: 0, high_cut_pm: 0 });
    b.push(AutomationPoint { time_offset_ms: mid - 2000, volume_pm: 1000, low_cut_pm: 1000, high_cut_pm: 0 });
    a.push(AutomationPoint { time_offset_ms: mid, volume_pm: 900, low_cut_pm: 500, high_cut_pm: 0 });
    b.push(AutomationPoint { time_offset_ms: mid, volume_pm: 900, low_cut_pm: 500, high_cut_pm: 0 });
    a.push(AutomationPoint { time_offset_ms: mid + 2000, volume_pm: 800, low_cut_pm: 1000, high_cut_pm: 100 });
    b.push(AutomationPoint { time_offset_ms: mid + 2000, volume_pm: 1000, low_cut_pm: 0, high_cut_pm: 0 });
    a.push(AutomationPoint { time_offset_ms: duration_ms, volume_pm: 0, low_cut_pm: 1000, high_cut_pm: 1000 });
    b.push(AutomationPoint { time_offset_ms: duration_ms, volume_pm: 1000, low_cut_pm: 0, high_cut_pm: 0 });
    (a, b)
}

/// Plans a long 32-bar harmonic mix from `current` into `next`: the current
/// deck's blend ends five seconds before its track does, the next deck's at
/// its drop or vocal entry, both bar-snapped; the next deck is rate-matched
/// and pitch-shifted toward the current key; both decks get the bass-swap
/// envelope.
pub fn suggest_long_mix(current: &FeatureRecord, next: &FeatureRecord) -> (r: Option<
    AdvancedTransition,
>)
    requires
        current.wf(),
        next.wf(),
    ensures
        r is Some,
        ({
            let p = r->0;
            &&& p.playback_rate_ppm as int == long_bpm_spec(current) * 1_000_000
                / long_bpm_spec(next)
            &&& 272_725 <= p.playback_rate_ppm <= 3_666_697
            &&& p.pitch_shift_semitones as int
                == key_distance_spec(camelot_bytes_spec(current), camelot_bytes_spec(next)).1
            &&& -6 <= p.pitch_shift_semitones <= 6
            &&& p.start_time_current_ms == long_cur_start_spec(current)
            &&& p.start_time_next_ms == long_next_start_spec(current, next)
            &&& p.duration_ms == long_duration_spec(current, next)
            &&& p.start_time_current_ms >= 0
            &&& bass_swap_points_spec(p.automation_current@, p.automation_next@,
                p.duration_ms as int)
            &&& (p.duration_ms >= 4000 ==> automation_ordered(p.automation_current@,
                p.duration_ms as int) && automation_ordered(p.automation_next@,
                p.duration_ms as int))
            &&& automation_levels_in_range(p.automation_current@)
            &&& automation_levels_in_range(p.automation_next@)
            &&& p.strategy@ == "Long Harmonic Bass Swap"@
        }),
{
    let bpm_a: u64 = match current.bpm_mbpm {
        Some(v) => v,
        None => 128_000,
    };
    let bpm_b: u64 = match next.bpm_mbpm {
        Some(v) => v,
        None => 128_000,
    };
    // Rate-match the next deck to the current tempo.
    let playback_rate_ppm = (bpm_a * 1_000_000) / bpm_b;
    proof {
        let x = (bpm_a * 1_000_000) as int;
        vstd::arithmetic::div_mod::lemma_div_is_ordered(54_545_000_000, x, bpm_b as int);
        vstd::arithmetic::div_mod::lemma_div_is_ordered_by_denominator(
            54_545_000_000, bpm_b as int, 200_000);
        assert(54_545_000_000int / 200_000int == 272_725);
        vstd::arithmetic::div_mod::lemma_div_is_ordered(x, 200_000_000_000, bpm_b as int);
        vstd::arithmetic::div_mod::lemma_div_is_ordered_by_denominator(
            200_000_000_000, 54_545, bpm_b as int);
        assert(200_000_000_000int / 54_545int == 3_666_697);
    }
    let ka = match &current.camelot_key {
        Some(s) => Some(s.as_str()),
        None => None,
    };
    let kb = match &next.camelot_key {
        Some(s) => Some(s.as_str()),
        None => None,
    };
    let (_, shift) = calc_key_distance(ka, kb);
    proof {
        assert(crate::camelot::opt_bytes(ka) == camelot_bytes_spec(current));
        assert(crate::camelot::opt_bytes(kb) == camelot_bytes_spec(next));
    }

    let spb_a = (240_000_000u64 / bpm_a) as i64;
    proof {
        vstd::arithmetic::div_mod::lemma_div_is_ordered_by_denominator(
            240_000_000, 54_545, bpm_a as int);
        vstd::arithmetic::div_mod::lemma_div_is_ordered_by_denominator(
            240_000_000, bpm_a as int, 200_000);
        assert(240_000_000int / 54_545int == 4400);
        assert(240_000_000int / 200_000int == 1200);
    }
    let mix_duration = 32 * spb_a;

    // Anchor the current deck's blend end five seconds before its track
    // ends, on a bar line.
    let cur_first_beat = match current.first_beat_ms {
        Some(f) => f,
        None => 0,
    };
    let cur_end_anchor = current.duration_ms - 5000;
    let cur_mix_end = snap_to_bar_floor(cur_end_anchor, bpm_a, cur_first_beat, 800);
    let cur_mix_start = cur_mix_end - mix_duration;

    // Anchor the next deck's blend end at its drop or vocal entry.
    let next_first_beat = match next.first_beat_ms {
        Some(f) => f,
        None => 0,
    };
    let next_anchor = match next.drop_ms {
        Some(d) => d,
        None => match next.vocal_in_ms {
            Some(v) => v,
            None => 30_000,
        },
    };
    let next_mix_end = snap_to_bar_floor(next_anchor, bpm_b, next_first_beat, 800);
    proof {
        crate::grid::lemma_snap_bar_in_range(next_anchor as int, bpm_b as int,
            next_first_beat as int, 800);
    }
    // The blend spans fewer next-deck milliseconds when it plays faster.
    proof {
        assert((mix_duration as int) * (bpm_b as int) <= 140_800 * 200_000) by (nonlinear_arith)
            requires 0 <= mix_duration <= 140_800 && bpm_b <= 200_000;
    }
    let next_span = ((mix_duration as u64) * bpm_b / bpm_a) as i64;
    proof {
        assert((mix_duration as u64) as int * (bpm_b as int) / (bpm_a as int)
            <= 28_160_000_000int / 54_545int) by {
            vstd::arithmetic::div_mod::lemma_div_is_ordered(
                (mix_duration as u64) as int * (bpm_b as int), 28_160_000_000, bpm_a as int);
            vstd::arithmetic::div_mod::lemma_div_is_ordered_by_denominator(
                28_160_000_000, 54_545, bpm_a as int);
        }
        assert(28_160_000_000int / 54_545int == 516_270);
    }
    let next_mix_start = next_mix_end - next_span;
    let (final_next_start, actual_duration) = if next_mix_start < 0 {
        (next_first_beat, next_mix_end - next_first_beat)
    } else {
        (next_mix_start, mix_duration)
    };

    let (auto_a, auto_b) = generate_bass_swap_automation(actual_duration);

    Some(AdvancedTransition {
        start_time_current_ms: if cur_mix_start > 0 { cur_mix_start } else { 0 },
        start_time_next_ms: final_next_start,
        duration_ms: actual_duration,
        pitch_shift_semitones: shift,
        playback_rate_ppm,
        automation_current: auto_a,
        automation_next: auto_b,
        strategy: "Long Harmonic Bass Swap".to_owned(),
    })
}

} // verus!
