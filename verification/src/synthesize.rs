//! Fusing one track's detector outputs into a `FeatureRecord`.
//!
//! This is the heart of the analyzer: silence edges, tempo, drop, vocal
//! segmentation, outro energy, smart cut points, the mix window and the
//! energy profile, assembled from the head and tail envelopes of one decode
//! pass.

use vstd::prelude::*;
use crate::camelot::get_camelot_key;
use crate::envelope::Envelope;
use crate::envelope::SILENCE_THRESHOLD_MICRO;
use crate::envelope::count_non_vocal_exec;
use crate::envelope::count_ratio_above_exec;
use crate::envelope::detect_drop_pos;
use crate::envelope::drop_candidate;
use crate::envelope::surge_gt;
use crate::envelope::surge_over_threshold;
use crate::envelope::detect_silence_from_envelope;
use crate::envelope::detect_vocal_in;
use crate::envelope::detect_vocal_out_fallback;
use crate::envelope::detect_vocal_segment;
use crate::envelope::outro_mean_square;
use crate::bpm::bpm_estimate_spec;
use crate::bpm::detect_bpm_from_envelope;
use crate::grid::find_best_phrase_start;
use crate::grid::lemma_snap_floor_upper;
use crate::grid::snap_cut_out_floor;
use crate::key::detect_key_from_chroma;
use crate::key::key_from_chroma_spec;
use crate::record::AnalysisInput;
use crate::record::FeatureRecord;
use crate::record::MAX_DURATION_MS;
use crate::record::RECORD_VERSION;

verus! {

/// Profile cell of a head frame (20 ms frames into 100 ms cells).
pub open spec fn head_cell(i: int) -> int {
    i / 5
}

/// Profile cell of a tail frame whose window starts at `tail_start_ms`.
pub open spec fn tail_cell(tail_start_ms: int, i: int) -> int {
    (tail_start_ms + 20 * i) / 100
}

/// Every frame's level is below its cell's value.
pub open spec fn profile_covers(p: Seq<u32>, head: &Envelope, tail: &Envelope, ts: int) -> bool {
    &&& (forall|i: int| 0 <= i < head.spec_len() && head_cell(i) < p.len()
        ==> p[head_cell(i)] >= #[trigger] head.rms@[i])
    &&& (forall|i: int| 0 <= i < tail.spec_len() && tail_cell(ts, i) < p.len()
        ==> p[tail_cell(ts, i)] >= #[trigger] tail.rms@[i])
}

/// Every cell is silent or holds some frame's level that maps into it.
pub open spec fn profile_from(p: Seq<u32>, head: &Envelope, tail: &Envelope, ts: int) -> bool {
    forall|k: int| 0 <= k < p.len() ==> (#[trigger] p[k] == 0
        || (exists|i: int| 0 <= i < head.spec_len() && head_cell(i) == k
            && #[trigger] head.rms@[i] == p[k])
        || (exists|i: int| 0 <= i < tail.spec_len() && tail_cell(ts, i) == k
            && #[trigger] tail.rms@[i] == p[k]))
}

/// Builds the 10 Hz energy profile: one cell per began 100 ms, each the
/// peak wideband RMS among the head and tail frames inside it.
fn fill_energy_profile(head: &Envelope, tail: &Envelope, duration_ms: i64) -> (p: Vec<u32>)
    requires
        head.wf(),
        tail.wf(),
        0 <= duration_ms <= MAX_DURATION_MS,
        tail.spec_len() * 20 <= duration_ms,
    ensures
        p@.len() == (duration_ms + 99) / 100,
        profile_covers(p@, head, tail, duration_ms - tail.spec_len() * 20),
        profile_from(p@, head, tail, duration_ms - tail.spec_len() * 20),
{
    let plen = ((duration_ms + 99) / 100) as usize;
    proof {
        assert(0 <= (duration_ms + 99) / 100 <= 10_000_001);
    }
    let ghost ts = duration_ms - tail.spec_len() * 20;
    let mut p: Vec<u32> = Vec::new();
    let mut z: usize = 0;
    while z < plen
        invariant
            p@.len() == z <= plen,
            forall|k: int| 0 <= k < z ==> #[trigger] p@[k] == 0,
        decreases plen - z,
    {
        p.push(0);
        z = z + 1;
    }
    let mut i: usize = 0;
    while i < head.rms.len()
        invariant
            i <= head.spec_len(),
            head.wf(),
            tail.wf(),
            p@.len() == plen <= 10_000_001,
            forall|j: int| 0 <= j < i && head_cell(j) < p@.len()
                ==> p@[head_cell(j)] >= #[trigger] head.rms@[j],
            forall|k: int| 0 <= k < p@.len() ==> (#[trigger] p@[k] == 0
                || (exists|j: int| 0 <= j < i && head_cell(j) == k
                    && #[trigger] head.rms@[j] == p@[k])),
        decreases head.spec_len() - i,
    {
        let cell = i / 5;
        if cell < plen {
            let v = head.rms[i];
            if v > p[cell] {
                p.set(cell, v);
            }
        }
        i = i + 1;
    }
    let tstart = duration_ms - (tail.len() as i64) * 20;
    let mut i: usize = 0;
    while i < tail.rms.len()
        invariant
            i <= tail.spec_len(),
            head.wf(),
            tail.wf(),
            p@.len() == plen <= 10_000_001,
            tstart == ts,
            0 <= tstart <= MAX_DURATION_MS,
            tail.spec_len() * 20 <= duration_ms,
            forall|j: int| 0 <= j < head.spec_len() && head_cell(j) < p@.len()
                ==> p@[head_cell(j)] >= #[trigger] head.rms@[j],
            forall|j: int| 0 <= j < i && tail_cell(ts, j) < p@.len()
                ==> p@[tail_cell(ts, j)] >= #[trigger] tail.rms@[j],
            forall|k: int| 0 <= k < p@.len() ==> (#[trigger] p@[k] == 0
                || (exists|j: int| 0 <= j < head.spec_len() && head_cell(j) == k
                    && #[trigger] head.rms@[j] == p@[k])
                || (exists|j: int| 0 <= j < i && tail_cell(ts, j) == k
                    && #[trigger] tail.rms@[j] == p@[k])),
        decreases tail.spec_len() - i,
    {
        let t_ms = tstart + (i as i64) * 20;
        let cell_i64 = t_ms / 100;
        proof {
            assert(t_ms >= 0);
            assert(cell_i64 == tail_cell(ts, i as int));
            assert(cell_i64 >= 0) by {
                vstd::arithmetic::div_mod::lemma_div_pos_is_pos(t_ms as int, 100);
            }
        }
        if cell_i64 < plen as i64 {
            let cell = cell_i64 as usize;
            let v = tail.rms[i];
            if v > p[cell] {
                p.set(cell, v);
            }
        }
        i = i + 1;
    }
    p
}

/// Whether a detected vocal-out may anchor the cut-out search: it must be
/// ordered with its segment start between the fade-in and the effective end,
/// lie inside the scanned region, and be followed by two mostly clear
/// seconds of its own window.
fn qualify_vocal_out(
    target: &Envelope,
    vocal_out: Option<i64>,
    vocal_last_in: Option<i64>,
    fade_in: i64,
    effective_end: i64,
    dur: i64,
    max_analyze_ms: i64,
    has_tail: bool,
    n_tail: usize,
) -> (r: Option<i64>)
    requires
        target.wf(),
        0 <= fade_in <= dur,
        0 <= effective_end <= dur <= MAX_DURATION_MS,
        5_000 <= max_analyze_ms <= 300_000,
        (n_tail as int) * 20 <= dur,
        match vocal_out {
            Some(v) => -MAX_DURATION_MS <= v <= MAX_DURATION_MS,
            None => true,
        },
        match vocal_last_in {
            Some(v) => -MAX_DURATION_MS <= v <= MAX_DURATION_MS,
            None => true,
        },
    ensures
        r is Some ==> vocal_out == Some(r->0) && vocal_last_in is Some
            && fade_in <= vocal_last_in->0 <= r->0 <= effective_end,
{
    let (v_out, v_last) = match (vocal_out, vocal_last_in) {
        (Some(a), Some(b)) => (a, b),
        _ => {
            return None;
        },
    };
    if !has_tail && dur > 2 * max_analyze_ms {
        return None;
    }
    if has_tail && v_out < dur - max_analyze_ms - 1000 {
        return None;
    }
    if !(fade_in <= v_last && v_last <= v_out && v_out <= effective_end) {
        return None;
    }
    let base: i64 = if has_tail {
        let b = dur - (n_tail as i64) * 20;
        if b > 0 { b } else { 0 }
    } else {
        0
    };
    let check_end = if v_out + 2000 < effective_end { v_out + 2000 } else { effective_end };
    let check_start = if v_out < check_end { v_out } else { check_end };
    let len = target.len();
    let s_rel = check_start - base;
    let e_rel = check_end - base;
    let start_idx: usize = if s_rel <= 0 {
        0
    } else {
        let si = (s_rel / 20) as usize;
        if si > len { len } else { si }
    };
    let end_idx: usize = if e_rel <= 0 {
        0
    } else {
        let ei = ((e_rel + 19) / 20) as usize;
        if ei > len { len } else { ei }
    };
    let end_idx = if end_idx < start_idx { start_idx } else { end_idx };
    let frames = end_idx - start_idx;
    if frames < 50 {
        return Some(v_out);
    }
    let clear = count_non_vocal_exec(target, start_idx, end_idx);
    if 5 * (clear as u64) >= 4 * (frames as u64) {
        Some(v_out)
    } else {
        None
    }
}

/// One leg of the cut-out search: snap `t`, keep the snap while it stays at
/// or after the search start, and step a quarter bar down, for at most
/// `fuel` snaps.
pub open spec fn cut_out_search_spec(
    t: int,
    best: Option<int>,
    fuel: nat,
    bpm: int,
    fb: int,
    conf: int,
    search_start: int,
    search_end: int,
    step: int,
) -> Option<int>
    decreases fuel,
{
    if fuel == 0 {
        best
    } else {
        let cand = crate::grid::snap_cut_out_spec(t, bpm, fb, conf, search_end);
        if cand < search_start {
            best
        } else if cand <= 0 {
            Some(cand)
        } else if cand - step < 0 {
            Some(cand)
        } else {
            cut_out_search_spec(cand - step, Some(cand), (fuel - 1) as nat, bpm, fb, conf,
                search_start, search_end, step)
        }
    }
}

/// The chosen cut-out: the search's last fitting snap (or the search end),
/// pushed past the vocal guard and clamped into `[0, search_end]`; without
/// a tempo, the search end held off the vocal-out.
pub open spec fn compute_cut_out_spec(
    bpm: Option<u64>,
    bpm_conf: Option<u32>,
    first_beat: Option<i64>,
    usable_vocal_out: Option<i64>,
    search_start: int,
    search_end: int,
) -> int {
    match (bpm, first_beat) {
        (Some(b), Some(f)) => {
            let c = match bpm_conf {
                Some(c) => c as int,
                None => 0,
            };
            let bar = 240_000_000int / (b as int);
            let step = bar / 4;
            let base = cut_out_search_spec(search_end, None, 512, b as int, f as int, c,
                search_start, search_end, step);
            let cut0 = match base {
                Some(x) => x,
                None => search_end,
            };
            let cut1 = match usable_vocal_out {
                Some(v) => if v + 2000 > cut0 { v + 2000 } else { cut0 },
                None => cut0,
            };
            let cut2 = if cut1 > search_end { search_end } else { cut1 };
            if cut2 < 0 { 0 } else { cut2 }
        },
        _ => match usable_vocal_out {
            Some(v) => {
                let c0 = if v + 20_000 < search_end { v + 20_000 } else { search_end };
                let c1 = if v + 2000 > c0 { v + 2000 } else { c0 };
                let c2 = if c1 > search_end { search_end } else { c1 };
                if c2 < 0 { 0 } else { c2 }
            },
            None => search_end,
        },
    }
}

/// The cut-out point: starting at the search window's end, repeatedly snaps
/// onto the phrase grid (falling back to the bar grid) and steps a quarter
/// bar back, keeping the last snap at or after the search start; without a
/// tempo the window's end (guarded by the vocal-out) decides.
fn compute_cut_out(
    bpm: Option<u64>,
    bpm_conf: Option<u32>,
    first_beat: Option<i64>,
    usable_vocal_out: Option<i64>,
    search_start: i64,
    search_end: i64,
) -> (r: i64)
    requires
        0 <= search_start <= search_end <= MAX_DURATION_MS,
        match bpm {
            Some(b) => 54_545 <= b <= 200_000,
            None => true,
        },
        match first_beat {
            Some(f) => 0 <= f <= 1100,
            None => true,
        },
        match usable_vocal_out {
            Some(v) => 0 <= v <= MAX_DURATION_MS,
            None => true,
        },
    ensures
        0 <= r <= search_end,
        r == compute_cut_out_spec(bpm, bpm_conf, first_beat, usable_vocal_out,
            search_start as int, search_end as int),
{
    match (bpm, first_beat) {
        (Some(bpm_v), Some(fb)) => {
            let conf = match bpm_conf {
                Some(c) => c,
                None => 0,
            };
            let bar = 240_000_000u64 / bpm_v;
            proof {
                vstd::arithmetic::div_mod::lemma_div_is_ordered_by_denominator(
                    240_000_000, 54_545, bpm_v as int);
                vstd::arithmetic::div_mod::lemma_div_is_ordered_by_denominator(
                    240_000_000, bpm_v as int, 200_000);
                assert(240_000_000int / 54_545int == 4400);
                assert(240_000_000int / 200_000int == 1200);
                assert(1200 <= bar <= 4400);
            }
            let step = (bar / 4) as i64;
            let ghost b_i = bpm_v as int;
            let ghost f_i = fb as int;
            let ghost c_i = conf as int;
            let ghost ss = search_start as int;
            let ghost se = search_end as int;
            let ghost st = step as int;
            let ghost whole = cut_out_search_spec(se, None, 512, b_i, f_i, c_i, ss, se, st);
            let mut t = search_end;
            let mut best: Option<i64> = None;
            let mut done = false;
            let mut iter: usize = 0;
            while iter < 512 && !done
                invariant
                    0 <= search_start <= search_end <= MAX_DURATION_MS,
                    -2_000_000_000 <= t <= search_end,
                    0 <= fb <= 1100,
                    0 < step <= 1100,
                    iter <= 512,
                    b_i == bpm_v as int && f_i == fb as int && c_i == conf as int,
                    ss == search_start as int && se == search_end as int && st == step as int,
                    whole == cut_out_search_spec(se, None, 512, b_i, f_i, c_i, ss, se, st),
                    match best {
                        Some(b) => search_start <= b <= search_end,
                        None => true,
                    },
                    ({
                        let best_i = match best {
                            Some(b) => Some(b as int),
                            None => Option::<int>::None,
                        };
                        if done {
                            whole == best_i
                        } else {
                            whole == cut_out_search_spec(t as int, best_i, (512 - iter) as nat,
                                b_i, f_i, c_i, ss, se, st)
                        }
                    }),
                decreases 512 - iter,
            {
                let cand = snap_cut_out_floor(t, bpm_v, fb, conf, search_end);
                if cand < search_start {
                    done = true;
                } else {
                    best = Some(cand);
                    if cand <= 0 {
                        done = true;
                    } else {
                        t = cand - step;
                        if t < 0 {
                            done = true;
                        }
                    }
                }
                iter = iter + 1;
            }
            proof {
                if !done {
                    assert(cut_out_search_spec(t as int, (match best {
                        Some(b) => Some(b as int),
                        None => Option::<int>::None,
                    }), 0, b_i, f_i, c_i, ss, se, st) == (match best {
                        Some(b) => Some(b as int),
                        None => Option::<int>::None,
                    }));
                }
            }
            let mut cut = match best {
                Some(b) => b,
                None => search_end,
            };
            if let Some(v) = usable_vocal_out {
                if v + 2000 > cut {
                    cut = v + 2000;
                }
            }
            if cut > search_end {
                cut = search_end;
            }
            if cut < 0 {
                cut = 0;
            }
            cut
        },
        _ => {
            match usable_vocal_out {
                Some(v) => {
                    let mut c = if v + 20_000 < search_end { v + 20_000 } else { search_end };
                    if v + 2000 > c {
                        c = v + 2000;
                    }
                    if c > search_end {
                        c = search_end;
                    }
                    if c < 0 {
                        c = 0;
                    }
                    c
                },
                None => search_end,
            }
        },
    }
}

/// The target blend length around the cut-out: eight bars clamped into
/// fifteen to thirty seconds, twenty without a tempo.
pub open spec fn mix_target_spec(bpm: Option<u64>) -> int {
    match bpm {
        Some(b) => {
            let m = (240_000_000int / (b as int)) * 8;
            if m < 15_000 { 15_000 } else if m > 30_000 { 30_000 } else { m }
        },
        None => 20_000,
    }
}

/// The mix window: half the target on each side of the center, clamped into
/// the track, with the front half collapsed onto the center when over forty
/// percent of the tail's vocal-share samples under it exceed 0.2.
pub open spec fn mix_window_spec(
    tail: &Envelope,
    mix_center: int,
    bpm: Option<u64>,
    dur: int,
    has_tail: bool,
) -> (int, int) {
    let half = mix_target_spec(bpm) / 2;
    let raw_start = if mix_center - half < 0 { 0 } else { mix_center - half };
    let raw_end = if mix_center + half > dur { dur } else { mix_center + half };
    let tl = tail.spec_len() as int;
    let tail_start = if dur - tl * 20 > 0 { dur - tl * 20 } else { 0 };
    let s_rel = if raw_start > tail_start { raw_start - tail_start } else { 0 };
    let e_rel = if mix_center > tail_start { mix_center - tail_start } else { 0 };
    let s_idx = if s_rel / 20 > tl { tl } else { s_rel / 20 };
    let e_idx = if (e_rel + 19) / 20 > tl { tl } else { (e_rel + 19) / 20 };
    let collapse = has_tail && e_idx > s_idx
        && 5 * crate::envelope::count_ratio_above(tail, s_idx, e_idx, 200_000)
            > 2 * (e_idx - s_idx);
    let start0 = if collapse { mix_center } else { raw_start };
    let start1 = if start0 > mix_center { mix_center } else { start0 };
    let start2 = if start1 < 0 { 0 } else { start1 };
    let end1 = if raw_end < mix_center { mix_center } else { raw_end };
    let end2 = if end1 > dur { dur } else { end1 };
    (start2, end2)
}

/// The mix window around its center: half the target blend length on each
/// side, clamped into the track, with the front half collapsed when the
/// tail's vocal share under it is over forty percent.
#[verifier::rlimit(60)]
fn compute_mix_window(tail: &Envelope, mix_center: i64, bpm: Option<u64>, dur: i64, has_tail: bool) -> (r: (i64, i64))
    requires
        tail.wf(),
        0 <= mix_center <= dur <= MAX_DURATION_MS,
        tail.spec_len() * 20 <= dur,
        has_tail == (tail.spec_len() > 0),
        match bpm {
            Some(b) => 54_545 <= b <= 200_000,
            None => true,
        },
    ensures
        0 <= r.0 <= mix_center <= r.1 <= dur,
        (r.0 as int, r.1 as int) == mix_window_spec(tail, mix_center as int, bpm, dur as int,
            has_tail),
{
    let n_tail = tail.len();
    let target_mix: i64 = match bpm {
        Some(b) => {
            let bar = (240_000_000u64 / b) as i64;
            proof {
                vstd::arithmetic::div_mod::lemma_div_is_ordered_by_denominator(
                    240_000_000, 54_545, b as int);
                assert(240_000_000int / 54_545int == 4400);
            }
            let m = bar * 8;
            if m < 15_000 {
                15_000
            } else if m > 30_000 {
                30_000
            } else {
                m
            }
        },
        None => 20_000,
    };
    let half = target_mix / 2;
    let mut raw_start = mix_center - half;
    if raw_start < 0 {
        raw_start = 0;
    }
    let mut raw_end = mix_center + half;
    if raw_end > dur {
        raw_end = dur;
    }
    // Never mix into a vocal line: collapse the window's front half when the
    // tail's vocal share under it is high.
    if has_tail {
        let tail_start = {
            let t = dur - (n_tail as i64) * 20;
            if t > 0 { t } else { 0 }
        };
        let check_start_rel = if raw_start > tail_start { raw_start - tail_start } else { 0 };
        let check_end_rel = if mix_center > tail_start { mix_center - tail_start } else { 0 };
        let start_idx: usize = {
            let si = (check_start_rel / 20) as usize;
            if si > n_tail { n_tail } else { si }
        };
        let end_idx: usize = {
            let ei = ((check_end_rel + 19) / 20) as usize;
            if ei > n_tail { n_tail } else { ei }
        };
        if end_idx > start_idx {
            let cnt = count_ratio_above_exec(tail, start_idx, end_idx, 200_000);
            if 5 * (cnt as u64) > 2 * ((end_idx - start_idx) as u64) {
                raw_start = mix_center;
            }
        }
    }
    let mix_start = {
        let mut st = raw_start;
        if st > mix_center {
            st = mix_center;
        }
        if st < 0 {
            st = 0;
        }
        st
    };
    let mix_end = {
        let mut e = raw_end;
        if e < mix_center {
            e = mix_center;
        }
        if e > dur {
            e = dur;
        }
        e
    };
    (mix_start, mix_end)
}

/// Synthesizes the feature record of one analyzed track.
///
/// Beyond the record's own invariants this pins: the tempo, downbeat and key
/// fields to their estimators; the ordering of the vocal chain and of the
/// cut points around the silence edges; the gating of the tail-derived
/// fields by `include_tail`; and the energy profile to the envelope peaks.
#[verifier::rlimit(100)]
pub fn synthesize_features(input: &AnalysisInput) -> (r: FeatureRecord)
    requires
        input.wf(),
    ensures
        r.wf(),
        r.duration_ms == input.duration_ms,
        r.analyze_window_ms == input.max_analyze_ms,
        r.loudness_mlufs == input.loudness_mlufs,
        ({
            let spec = bpm_estimate_spec(input.head.rms@, input.head.low@);
            &&& (match r.bpm_mbpm {
                Some(v) => spec.0 == Some(v as int),
                None => spec.0 is None,
            })
            &&& (match r.bpm_confidence_pm {
                Some(v) => spec.1 == Some(v as int),
                None => spec.1 is None,
            })
            &&& (match r.first_beat_ms {
                Some(v) => spec.2 == Some(v as int),
                None => spec.2 is None,
            })
        }),
        (match input.chroma {
            Some(c) => {
                let kspec = key_from_chroma_spec(c@);
                &&& (match r.key_root {
                    Some(v) => kspec.0 == Some(v as int),
                    None => kspec.0 is None,
                })
                &&& (match r.key_mode {
                    Some(v) => kspec.1 == Some(v as int),
                    None => kspec.1 is None,
                })
                &&& (match r.key_confidence_pm {
                    Some(v) => kspec.2 == Some(v as int),
                    None => kspec.2 is None,
                })
            },
            None => r.key_root is None && r.key_mode is None && r.key_confidence_pm is None,
        }),
        // The Camelot text is exactly the wheel notation of the detected
        // root and mode, and absent without them.
        (match (r.key_root, r.key_mode) {
            (Some(kr), Some(km)) => r.camelot_key is Some
                && r.camelot_key->0@ == crate::camelot::camelot_str_of(kr as int, km as int),
            _ => r.camelot_key is None,
        }),
        // The fade-in is pinned: twenty milliseconds per frame before the
        // first audible head frame, zero for a silent head.
        ((exists|i: int| 0 <= i < input.head.spec_len()
            && input.head.rms@[i] > SILENCE_THRESHOLD_MICRO)
            ==> exists|i: int| 0 <= i < input.head.spec_len()
                && #[trigger] input.head.rms@[i] > SILENCE_THRESHOLD_MICRO
                && (forall|k: int| 0 <= k < i
                    ==> #[trigger] input.head.rms@[k] <= SILENCE_THRESHOLD_MICRO)
                && r.fade_in_ms == 20 * i),
        (!(exists|i: int| 0 <= i < input.head.spec_len()
            && input.head.rms@[i] > SILENCE_THRESHOLD_MICRO) ==> r.fade_in_ms == 0),
        // The fade-out is pinned likewise: for a head-only record one frame
        // past the last audible head frame (capped at the track's end); with
        // a tail, the same on the tail, mapped to absolute time.
        ((input.include_tail && input.tail.spec_len() == 0)
            ==> ((exists|i: int| 0 <= i < input.head.spec_len()
                && input.head.rms@[i] > SILENCE_THRESHOLD_MICRO)
                ==> exists|i: int| 0 <= i < input.head.spec_len()
                    && #[trigger] input.head.rms@[i] > SILENCE_THRESHOLD_MICRO
                    && (forall|k: int| i < k < input.head.spec_len()
                        ==> #[trigger] input.head.rms@[k] <= SILENCE_THRESHOLD_MICRO)
                    && r.fade_out_ms == (if 20 * (i + 1) <= r.duration_ms {
                        20 * (i + 1)
                    } else {
                        r.duration_ms as int
                    }))),
        ((input.include_tail && input.tail.spec_len() > 0)
            ==> ((exists|i: int| 0 <= i < input.tail.spec_len()
                && input.tail.rms@[i] > SILENCE_THRESHOLD_MICRO)
                ==> exists|i: int| 0 <= i < input.tail.spec_len()
                    && #[trigger] input.tail.rms@[i] > SILENCE_THRESHOLD_MICRO
                    && (forall|k: int| i < k < input.tail.spec_len()
                        ==> #[trigger] input.tail.rms@[k] <= SILENCE_THRESHOLD_MICRO)
                    && r.fade_out_ms == r.duration_ms
                        - 20 * (input.tail.spec_len() - (i + 1)))),
        // A decoded but silent tail falls back to the head's edge.
        ((input.include_tail && input.tail.spec_len() > 0
            && !(exists|i: int| 0 <= i < input.tail.spec_len()
                && input.tail.rms@[i] > SILENCE_THRESHOLD_MICRO))
            ==> ((exists|i: int| 0 <= i < input.head.spec_len()
                && input.head.rms@[i] > SILENCE_THRESHOLD_MICRO)
                ==> exists|i: int| 0 <= i < input.head.spec_len()
                    && #[trigger] input.head.rms@[i] > SILENCE_THRESHOLD_MICRO
                    && (forall|k: int| i < k < input.head.spec_len()
                        ==> #[trigger] input.head.rms@[k] <= SILENCE_THRESHOLD_MICRO)
                    && r.fade_out_ms == (if 20 * (i + 1) <= r.duration_ms {
                        20 * (i + 1)
                    } else {
                        r.duration_ms as int
                    }))),
        (!input.include_tail ==> r.fade_out_ms == r.duration_ms),
        // The vocal chain is ordered between the silence edges.
        (r.vocal_in_ms is Some ==> r.fade_in_ms <= r.vocal_in_ms->0 <= r.duration_ms),
        (r.vocal_in_ms is Some && r.vocal_last_in_ms is Some
            ==> r.vocal_in_ms->0 <= r.vocal_last_in_ms->0),
        (r.vocal_last_in_ms is Some ==> r.vocal_out_ms is Some
            && r.vocal_last_in_ms->0 <= r.vocal_out_ms->0),
        (r.vocal_out_ms is Some ==> r.fade_in_ms <= r.vocal_out_ms->0 <= r.fade_out_ms),
        // Cut points stay inside the track, after the fade-in; the cut-out
        // respects the fade-out whenever a tail was decoded or the track is
        // short enough for the head to reach its end.
        (r.cut_in_ms is Some ==> r.fade_in_ms <= r.cut_in_ms->0 <= r.duration_ms),
        // The cut-in is pinned: the best phrase start before the vocal (or
        // drop) anchor under a known tempo, the downbeat or fade-in without
        // an anchor, the fade-in without a tempo.
        r.cut_in_ms == (match (r.bpm_mbpm, r.first_beat_ms) {
            (Some(b), Some(f)) => {
                let conf = match r.bpm_confidence_pm {
                    Some(c) => c as int,
                    None => 0,
                };
                match (r.vocal_in_ms, r.drop_ms) {
                    (Some(v), _) => Some(crate::grid::best_phrase_start_spec(v as int, b as int,
                        f as int, r.fade_in_ms as int, conf) as i64),
                    (None, Some(d)) => Some(crate::grid::best_phrase_start_spec(d as int,
                        b as int, f as int, r.fade_in_ms as int, conf) as i64),
                    (None, None) => Some(if f >= r.fade_in_ms { f } else { r.fade_in_ms }),
                }
            },
            _ => Some(r.fade_in_ms),
        }),
        (r.cut_out_ms is Some ==> 0 <= r.cut_out_ms->0 <= r.duration_ms),
        (r.cut_out_ms is Some
            && (input.tail.spec_len() > 0 || input.duration_ms <= 2 * input.max_analyze_ms)
            ==> r.cut_out_ms->0 <= r.fade_out_ms),
        (r.cut_out_ms is Some <==> input.include_tail),
        (r.vocal_out_ms is Some ==> input.include_tail),
        ((!input.include_tail || input.tail.spec_len() == 0) ==> r.outro_energy_sq is None),
        // The mix window sits around the cut-out, exactly as
        // `mix_window_spec` builds it.
        (r.cut_out_ms is Some ==> r.mix_center_ms == r.cut_out_ms->0),
        (r.mix_start_ms as int, r.mix_end_ms as int) == mix_window_spec(&input.tail,
            r.mix_center_ms as int, r.bpm_mbpm, input.duration_ms as int,
            input.tail.spec_len() > 0),
        // The drop is pinned to the surge detector: the first strict
        // maximum of the before/after contrast, only when it tops 1.5.
        (match r.drop_ms {
            Some(d) => exists|i: int| 0 <= i && d == 20 * i
                && #[trigger] drop_candidate(&input.head, i)
                && surge_over_threshold(&input.head, i)
                && (forall|j: int| drop_candidate(&input.head, j)
                    ==> !surge_gt(&input.head, j, i)),
            None => forall|j: int| drop_candidate(&input.head, j)
                ==> !surge_over_threshold(&input.head, j),
        }),
        // A silent recording: zero edges, no vocal events.
        (((forall|i: int| 0 <= i < input.head.spec_len()
                ==> #[trigger] input.head.rms@[i] <= SILENCE_THRESHOLD_MICRO)
            && (forall|i: int| 0 <= i < input.tail.spec_len()
                ==> #[trigger] input.tail.rms@[i] <= SILENCE_THRESHOLD_MICRO))
            ==> r.fade_in_ms == 0
                && (input.include_tail ==> r.fade_out_ms == 0)
                && r.vocal_in_ms is None
                && r.vocal_out_ms is None
                && r.vocal_last_in_ms is None),
        // Without a tail, a vocal-out can only come from a head frame.
        ((input.tail.spec_len() == 0 && r.vocal_out_ms is Some)
            ==> exists|i: int| 0 <= i < input.head.spec_len()
                && input.head.is_vocal_at(i) && r.vocal_out_ms->0 == 20 * i),
        // The energy profile holds exactly the envelope peaks.
        profile_covers(r.energy_profile@, &input.head, &input.tail,
            input.duration_ms - input.tail.spec_len() * 20),
        profile_from(r.energy_profile@, &input.head, &input.tail,
            input.duration_ms - input.tail.spec_len() * 20),
{
    let head = &input.head;
    let tail = &input.tail;
    let dur = input.duration_ms;
    let n_head = head.len();
    let n_tail = tail.len();
    let has_tail = n_tail > 0;

    // Silence edges.
    let (fi_idx, head_end_idx) = detect_silence_from_envelope(head, SILENCE_THRESHOLD_MICRO);
    let fade_in = (fi_idx as i64) * 20;
    proof {
        if fi_idx > 0 {
            assert(fi_idx < head.spec_len());
            assert((head.spec_len() - 1) * 20 <= dur) by (nonlinear_arith)
                requires head.spec_len() * 20 <= dur + 20;
        }
    }
    let tail_silence = if has_tail {
        Some(detect_silence_from_envelope(tail, SILENCE_THRESHOLD_MICRO))
    } else {
        None
    };
    let fade_out = match tail_silence {
        Some((_, local_end)) => {
            if local_end == 0 {
                // The tail never rises above the threshold; the last audible
                // moment known is the head's silence edge.
                let e = (head_end_idx as i64) * 20;
                if e > dur { dur } else { e }
            } else {
                dur - ((n_tail - local_end) as i64) * 20
            }
        },
        None => {
            let e = (head_end_idx as i64) * 20;
            if e > dur { dur } else { e }
        },
    };
    proof {
        assert(0 <= fade_in);
        assert(fade_in <= fade_out) by {
            match tail_silence {
                Some((_, local_end)) => {
                    if local_end == 0 {
                        if fi_idx > 0 {
                            assert(fi_idx < head_end_idx);
                        }
                    } else {
                        assert(fade_out >= dur - n_tail as int * 20);
                        if fi_idx > 0 {
                            assert(fade_in <= (head.spec_len() - 1) * 20);
                            assert((head.spec_len() - 1) * 20 + tail.spec_len() * 20 <= dur)
                                by (nonlinear_arith)
                                requires head.spec_len() * 20 + tail.spec_len() * 20 <= dur + 20;
                        }
                    }
                },
                None => {
                    if fi_idx > 0 {
                        assert(fi_idx < head_end_idx);
                    }
                },
            }
        }
        assert(fade_out <= dur);
    }

    // Tempo, downbeat, drop, vocal events.
    let (bpm, bpm_conf, first_beat) = detect_bpm_from_envelope(head);
    let drop_opt = detect_drop_pos(head);
    let drop_ms = match drop_opt {
        Some(idx) => {
            proof {
                assert((idx as int) * 20 <= (head.spec_len() - 100) * 20) by (nonlinear_arith)
                    requires idx + 100 <= head.spec_len();
                assert((head.spec_len() - 100) * 20 <= dur) by (nonlinear_arith)
                    requires head.spec_len() * 20 <= dur + 20;
            }
            Some((idx as i64) * 20)
        },
        None => None,
    };
    let vi_opt = detect_vocal_in(head);
    let vocal_in = match vi_opt {
        Some(idx) => {
            proof {
                assert((idx as int) * 20 <= (head.spec_len() - 1) * 20) by (nonlinear_arith)
                    requires idx < head.spec_len();
                assert((head.spec_len() - 1) * 20 <= dur) by (nonlinear_arith)
                    requires head.spec_len() * 20 <= dur + 20;
            }
            Some((idx as i64) * 20)
        },
        None => None,
    };

    // Terminal vocal segment, preferring the tail window.
    let target: &Envelope = if has_tail { tail } else { head };
    let seg = detect_vocal_segment(target);
    let fallback = match seg {
        Some(_) => None,
        None => detect_vocal_out_fallback(target),
    };
    let (vocal_out, vocal_last_in): (Option<i64>, Option<i64>) = match seg {
        Some((s, e)) => {
            if has_tail {
                (Some(dur - ((n_tail - e) as i64) * 20), Some(dur - ((n_tail - s) as i64) * 20))
            } else {
                (Some((e as i64) * 20), Some((s as i64) * 20))
            }
        },
        None => match fallback {
            Some(idx) => {
                if has_tail {
                    (Some(dur - ((n_tail - idx) as i64) * 20), None)
                } else {
                    (Some((idx as i64) * 20), None)
                }
            },
            None => (None, None),
        },
    };
    proof {
        let hl = head.spec_len() as int;
        let tl = tail.spec_len() as int;
        // The frame that closes the vocal stretch is vocal, hence audible,
        // hence inside the silence edges of its own window; the opening
        // frame starts a five-frame run, so the head's vocal-in cannot come
        // later.
        if vocal_out is Some {
            let e: int = match seg {
                Some(p) => p.1 as int,
                None => fallback->0 as int,
            };
            assert(target.is_vocal_at(e));
            assert(target.rms@[e] > SILENCE_THRESHOLD_MICRO);
            if has_tail {
                assert(tail_silence is Some);
                let te = (tail_silence->0).1 as int;
                assert(e < te);
                assert(vocal_out->0 <= fade_out - 20);
                assert(vocal_out->0 >= dur - tl * 20);
                assert(dur - tl * 20 >= (hl - 1) * 20);
                if fi_idx > 0 {
                    assert(fade_in <= (hl - 1) * 20);
                }
                assert(fade_in <= vocal_out->0);
            } else {
                assert(e < head_end_idx);
                assert(fade_in <= e * 20);
                assert(vocal_out->0 <= fade_out);
            }
        }
        if vocal_in is Some && vocal_last_in is Some {
            let vi = vi_opt->0 as int;
            let s: int = (seg->0).0 as int;
            let e: int = (seg->0).1 as int;
            if has_tail {
                assert(vocal_last_in->0 >= dur - tl * 20);
                assert(vocal_in->0 <= (hl - 1) * 20);
                assert(vocal_in->0 <= vocal_last_in->0);
            } else {
                // The segment's first frame opens a five-frame run.
                assert(crate::envelope::vocal_run5_at(head, s)) by {
                    assert forall|j: int| s <= j < vstd::math::min(s + 5, head.spec_len() as int)
                        implies head.is_vocal_at(j) by {
                        assert(j <= e);
                    }
                }
                assert(vi <= s);
                assert(vocal_in->0 <= vocal_last_in->0);
            }
        }
        if vocal_in is Some {
            let vi = vi_opt->0 as int;
            assert(head.is_vocal_at(vi));
            assert(head.rms@[vi] > SILENCE_THRESHOLD_MICRO);
            assert(fade_in <= vocal_in->0);
        }
        if vocal_last_in is Some {
            assert(vocal_out is Some);
            assert(vocal_last_in->0 <= vocal_out->0);
        }
    }

    // Outro energy over the last audible ten seconds of the tail.
    let outro_energy_sq = match tail_silence {
        Some((_, local_end)) => outro_mean_square(tail, local_end),
        None => None,
    };

    // Effective end of the usable span.
    let effective_end = if !has_tail && dur > 2 * input.max_analyze_ms {
        dur
    } else {
        fade_out
    };
    proof {
        assert(0 <= effective_end <= dur);
    }

    // A vocal-out is usable for cut-out planning when it is ordered, lies in
    // the scanned region, and the two seconds after it are mostly clear.
    let usable_vocal_out: Option<i64> = qualify_vocal_out(
        target, vocal_out, vocal_last_in, fade_in, effective_end, dur,
        input.max_analyze_ms, has_tail, n_tail,
    );

    // Cut-out search window.
    let mut search_end = effective_end - 500;
    if search_end < 0 {
        search_end = 0;
    }
    if let Some(v) = usable_vocal_out {
        if v + 40_000 < search_end {
            search_end = v + 40_000;
        }
    }
    proof {
        if usable_vocal_out is Some {
            assert(usable_vocal_out->0 >= fade_in);
        }
        assert(0 <= search_end <= effective_end);
    }
    let search_start = match usable_vocal_out {
        Some(v) => if v + 2000 < search_end { v + 2000 } else { search_end },
        None => if fade_in + 30_000 < search_end { fade_in + 30_000 } else { search_end },
    };

    // Cut-out: step backwards bar-quarter by bar-quarter, keeping the last
    // snap that stays at or after the search start.
    let cut_out: Option<i64> = Some(compute_cut_out(
        bpm, bpm_conf, first_beat, usable_vocal_out, search_start, search_end,
    ));
    proof {
        assert(match cut_out {
            Some(c) => 0 <= c <= effective_end,
            None => true,
        });
    }

    // Cut-in: the longest phrase ending at the vocal (or drop) anchor.
    let cut_in: Option<i64> = match (bpm, first_beat) {
        (Some(bpm_v), Some(fb)) => {
            let conf = match bpm_conf {
                Some(c) => c,
                None => 0,
            };
            let anchor = match vocal_in {
                Some(v) => Some(v),
                None => drop_ms,
            };
            match anchor {
                Some(a) => {
                    proof {
                        assert(input.head.rms@.len() >= 110) by {
                            if input.head.rms@.len() < 110 {
                                assert(bpm_estimate_spec(input.head.rms@, input.head.low@).0
                                    is None);
                            }
                        }
                        assert(dur >= 2180) by (nonlinear_arith)
                            requires
                                input.head.rms@.len() >= 110,
                                input.head.rms@.len() * 20 <= dur + 20;
                    }
                    let s = find_best_phrase_start(a, bpm_v, fb, fade_in, conf);
                    proof {
                        lemma_phrase_start_in_range(a as int, bpm_v as int, fb as int,
                            fade_in as int, conf as int, dur as int);
                    }
                    Some(s)
                },
                None => {
                    proof {
                        assert(input.head.rms@.len() >= 110) by {
                            if input.head.rms@.len() < 110 {
                                assert(bpm_estimate_spec(input.head.rms@, input.head.low@).0
                                    is None);
                            }
                        }
                        assert(dur >= 2180) by (nonlinear_arith)
                            requires
                                input.head.rms@.len() >= 110,
                                input.head.rms@.len() * 20 <= dur + 20;
                    }
                    Some(if fb > fade_in { fb } else { fade_in })
                },
            }
        },
        _ => Some(fade_in),
    };

    // Key and Camelot notation.
    let (key_root, key_mode, key_conf) = match &input.chroma {
        Some(c) => detect_key_from_chroma(c),
        None => (None, None, None),
    };
    let camelot_key = match (key_root, key_mode) {
        (Some(kr), Some(km)) => get_camelot_key(kr, km),
        _ => None,
    };

    // Mix window around the cut-out.
    let mix_center = {
        let mut c = match cut_out {
            Some(c) => c,
            None => if dur > 10_000 { dur - 10_000 } else { 0 },
        };
        if c > dur {
            c = dur;
        }
        if c < 0 {
            c = 0;
        }
        c
    };
    let (mix_start, mix_end) = compute_mix_window(tail, mix_center, bpm, dur, has_tail);

    // Energy profile.
    let energy_profile = fill_energy_profile(head, tail, dur);

    proof {
        // A silent recording has zero edges and no vocal events.
        if (forall|i: int| 0 <= i < head.spec_len()
                ==> #[trigger] head.rms@[i] <= SILENCE_THRESHOLD_MICRO)
            && (forall|i: int| 0 <= i < tail.spec_len()
                ==> #[trigger] tail.rms@[i] <= SILENCE_THRESHOLD_MICRO) {
            assert(!(exists|i: int| 0 <= i < head.spec_len()
                && head.rms@[i] > SILENCE_THRESHOLD_MICRO));
            assert(!(exists|i: int| 0 <= i < tail.spec_len()
                && tail.rms@[i] > SILENCE_THRESHOLD_MICRO));
            assert(fade_in == 0 && head_end_idx == 0);
            assert(fade_out == 0);
            if vi_opt is Some {
                let vi = vi_opt->0 as int;
                assert(head.is_vocal_at(vi));
                assert(false);
            }
            if seg is Some {
                let e = (seg->0).1 as int;
                assert(target.is_vocal_at(e));
                assert(false);
            }
            if fallback is Some {
                let e = fallback->0 as int;
                assert(target.is_vocal_at(e));
                assert(false);
            }
        }
        // The reported drop names the detector's witness frame.
        if let Some(idx) = drop_opt {
            assert(drop_candidate(head, idx as int) && surge_over_threshold(head, idx as int));
        }
        // Without a tail, a vocal-out names a vocal head frame.
        if tail.spec_len() == 0 && vocal_out is Some {
            let e: int = match seg {
                Some(p) => p.1 as int,
                None => fallback->0 as int,
            };
            assert(head.is_vocal_at(e) && vocal_out->0 == 20 * e);
        }
    }

    // Tail-derived fields exist only when the caller asked for the tail.
    let fade_out_pos = if input.include_tail { fade_out } else { dur };
    let vocal_out_pos = if input.include_tail { vocal_out } else { None };
    let vocal_last_in_pos = if input.include_tail { vocal_last_in } else { None };
    let outro_pos = if input.include_tail { outro_energy_sq } else { None };
    let cut_out_pos = if input.include_tail { cut_out } else { None };

    FeatureRecord {
        duration_ms: dur,
        bpm_mbpm: bpm,
        bpm_confidence_pm: bpm_conf,
        first_beat_ms: first_beat,
        fade_in_ms: fade_in,
        fade_out_ms: fade_out_pos,
        drop_ms,
        vocal_in_ms: vocal_in,
        vocal_out_ms: vocal_out_pos,
        vocal_last_in_ms: vocal_last_in_pos,
        cut_in_ms: cut_in,
        cut_out_ms: cut_out_pos,
        mix_center_ms: mix_center,
        mix_start_ms: mix_start,
        mix_end_ms: mix_end,
        energy_profile,
        loudness_mlufs: input.loudness_mlufs,
        outro_energy_sq: outro_pos,
        key_root,
        key_mode,
        key_confidence_pm: key_conf,
        camelot_key,
        analyze_window_ms: input.max_analyze_ms,
        version: RECORD_VERSION,
    }
}

/// The cut-in search lands between the fade-in and the track's end whenever
/// its inputs do.
proof fn lemma_phrase_start_in_range(
    anchor: int,
    bpm: int,
    fb: int,
    fade_in: int,
    conf: int,
    dur: int,
)
    requires
        0 <= fade_in <= dur,
        0 <= fb <= 1100,
        1100 <= dur,
        0 <= anchor <= dur,
        54_545 <= bpm <= 200_000,
    ensures
        fade_in <= crate::grid::best_phrase_start_spec(anchor, bpm, fb, fade_in, conf) <= dur,
{
    let stride = crate::grid::bar_ms_spec(bpm);
    assert(1200 <= stride <= 4401) by {
        vstd::arithmetic::div_mod::lemma_div_is_ordered_by_denominator(240_000_000, 54_545, bpm);
        vstd::arithmetic::div_mod::lemma_div_is_ordered_by_denominator(240_000_000, bpm, 200_000);
        assert(240_000_000int / 54_545int == 4400);
        assert(240_000_000int / 200_000int == 1200);
    }
    if bpm <= 0 || conf < crate::grid::SNAP_MIN_CONFIDENCE_PM {
    } else {
        lemma_candidate_in_range(anchor, 32, bpm, fb, fade_in, conf, dur);
        lemma_candidate_in_range(anchor, 16, bpm, fb, fade_in, conf, dur);
        lemma_candidate_in_range(anchor, 8, bpm, fb, fade_in, conf, dur);
        lemma_candidate_in_range(anchor, 4, bpm, fb, fade_in, conf, dur);
    }
}

/// One cut-in candidate, when accepted, lies between the fade-in and the
/// track's end.
proof fn lemma_candidate_in_range(
    anchor: int,
    bars: int,
    bpm: int,
    fb: int,
    fade_in: int,
    conf: int,
    dur: int,
)
    requires
        0 <= fade_in <= dur,
        0 <= fb <= 1100,
        1100 <= dur,
        0 <= anchor <= dur,
        54_545 <= bpm <= 200_000,
        4 <= bars <= 32,
    ensures
        match crate::grid::phrase_candidate_spec(anchor, bars, bpm, fb, fade_in, conf) {
            Some(v) => fade_in <= v <= dur,
            None => true,
        },
{
    let stride = crate::grid::bar_ms_spec(bpm);
    assert(1200 <= stride <= 4400) by {
        vstd::arithmetic::div_mod::lemma_div_is_ordered_by_denominator(240_000_000, 54_545, bpm);
        vstd::arithmetic::div_mod::lemma_div_is_ordered_by_denominator(240_000_000, bpm, 200_000);
        assert(240_000_000int / 54_545int == 4400);
        assert(240_000_000int / 200_000int == 1200);
    }
    let raw = anchor - bars * stride;
    assert(bars * stride >= 4 * 1200) by (nonlinear_arith)
        requires bars >= 4 && stride >= 1200;
    assert(bars * stride <= 32 * 4400) by (nonlinear_arith)
        requires bars <= 32 && 0 <= stride <= 4400;
    if raw > fade_in + stride {
        let s = crate::grid::snap_bar_spec(raw, bpm, fb, conf);
        lemma_snap_floor_upper(raw, fb, stride);
        assert(s <= vstd::math::max(fb, raw + crate::grid::SNAP_TOLERANCE_MS));
        assert(raw <= dur - 4 * 1200);
    }
}

} // verus!
