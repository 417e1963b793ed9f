//! Tempo and downbeat estimation.
//!
//! The onset strength of a window is the half-wave-rectified difference of
//! consecutive envelope samples ("flux").  Autocorrelating the wideband flux
//! over lags of 15..=55 frames (about 54 to 200 BPM at the 50 Hz envelope
//! rate) picks the tempo; the downbeat is the flux-grid phase with the most
//! energy, preferring the low-band bar grid over the wideband beat grid.

use vstd::prelude::*;
use crate::envelope::Envelope;
use crate::envelope::FRAME_MS;
use crate::envelope::RMS_CAP_MICRO;

verus! {

/// Shortest lag tried, in frames (200 BPM).
pub const MIN_LAG: usize = 15;

/// Longest lag tried, in frames (about 54 BPM).
pub const MAX_LAG: usize = 55;

/// Autocorrelation floor (squared millionths) under which no tempo is
/// reported.
pub const MIN_CORR: u64 = 100_000_000;

/// Confidence floor (thousandths) for downbeat detection.
pub const PHASE_MIN_CONFIDENCE_PM: u32 = 200;

/// Grid-energy floor (millionths) for accepting a downbeat phase.
pub const MIN_PHASE_ENERGY: u64 = 20_000;

/// Half-wave-rectified flux of a series at index `i`.
pub open spec fn flux_at(s: Seq<u32>, i: int) -> int {
    if i <= 0 || i >= s.len() {
        0
    } else if s[i] > s[i - 1] {
        s[i] - s[i - 1]
    } else {
        0
    }
}

/// Autocorrelation partial sum: products of flux `lag` apart over the first
/// `n` positions.
pub open spec fn corr_prefix(s: Seq<u32>, lag: int, n: int) -> int
    decreases n,
{
    if n <= 0 {
        0
    } else {
        corr_prefix(s, lag, n - 1) + flux_at(s, n - 1) * flux_at(s, n - 1 + lag)
    }
}

/// Autocorrelation of the flux at one lag.
pub open spec fn corr_of(s: Seq<u32>, lag: int) -> int {
    corr_prefix(s, lag, s.len() - lag)
}

/// The smallest lag in `[MIN_LAG, hi]` with the greatest autocorrelation.
pub open spec fn best_lag_upto(s: Seq<u32>, hi: int) -> int
    decreases hi,
{
    if hi <= MIN_LAG {
        MIN_LAG as int
    } else {
        let b = best_lag_upto(s, hi - 1);
        if corr_of(s, hi) > corr_of(s, b) {
            hi
        } else {
            b
        }
    }
}

/// Sum of the autocorrelations over `[MIN_LAG, hi]`.
pub open spec fn corr_band_total(s: Seq<u32>, hi: int) -> int
    decreases hi,
{
    if hi < MIN_LAG {
        0
    } else {
        corr_band_total(s, hi - 1) + corr_of(s, hi)
    }
}

/// Flux energy on the grid `idx, idx + step, ...` below `n`.
pub open spec fn grid_energy(x: Seq<u32>, idx: int, step: int, n: int) -> int
    decreases (if n - idx > 0 { n - idx } else { 0 }),
{
    if step < 1 || idx >= n {
        0
    } else {
        flux_at(x, idx) + grid_energy(x, idx + step, step, n)
    }
}

/// The smallest phase in `[0, hi)` with the greatest grid energy.
pub open spec fn best_phase_upto(x: Seq<u32>, step: int, n: int, hi: int) -> int
    decreases hi,
{
    if hi <= 1 {
        0
    } else {
        let b = best_phase_upto(x, step, n, hi - 1);
        if grid_energy(x, hi - 1, step, n) > grid_energy(x, b, step, n) {
            hi - 1
        } else {
            b
        }
    }
}

/// Sum of the grid energies over the phases `[0, hi)`.
pub open spec fn phase_energy_total(x: Seq<u32>, step: int, n: int, hi: int) -> int
    decreases hi,
{
    if hi <= 0 {
        0
    } else {
        phase_energy_total(x, step, n, hi - 1) + grid_energy(x, hi - 1, step, n)
    }
}

/// Whether a phase grid carries a downbeat: its best phase has audible
/// energy at least 1.15 times the average phase energy.
pub open spec fn grid_ok(x: Seq<u32>, step: int, n: int, lag: int) -> bool {
    let best = best_phase_upto(x, step, n, lag);
    let e = grid_energy(x, best, step, n);
    e > MIN_PHASE_ENERGY && 20 * e * lag >= 23 * phase_energy_total(x, step, n, lag)
}

/// Downbeat phase of the window, in frames: the bar grid's best phase when
/// the bar grid qualifies, else the beat grid's when that one does.
pub open spec fn first_beat_spec(s: Seq<u32>, l: Seq<u32>, lag: int, conf_pm: int) -> Option<int> {
    if conf_pm <= PHASE_MIN_CONFIDENCE_PM {
        None
    } else {
        let n = s.len() as int;
        let search = if n < 500 { n } else { 500 };
        if search <= lag {
            None
        } else {
            let stride = 4 * lag;
            let bar_ok = search > stride && grid_ok(l, stride, search, lag);
            let beat_ok = grid_ok(s, lag, search, lag);
            if bar_ok {
                Some(best_phase_upto(l, stride, search, lag))
            } else if beat_ok {
                Some(best_phase_upto(s, lag, search, lag))
            } else {
                None
            }
        }
    }
}

/// Tempo confidence in thousandths: how far the best autocorrelation rises
/// above the band average, scaled by a fifth and clamped at one.
pub open spec fn confidence_pm_spec(maxc: int, total: int) -> int {
    if total > 0 {
        let c = (200 * (41 * maxc - total)) / total;
        if c > 1000 {
            1000
        } else {
            c
        }
    } else {
        0
    }
}

/// The whole estimate: tempo in milli-BPM, confidence in thousandths, and
/// downbeat in milliseconds.
pub open spec fn bpm_estimate_spec(s: Seq<u32>, l: Seq<u32>) -> (Option<int>, Option<int>, Option<int>) {
    let n = s.len() as int;
    if n < 2 * MAX_LAG {
        (None, None, None)
    } else {
        let best = best_lag_upto(s, MAX_LAG as int);
        let maxc = corr_of(s, best);
        if maxc < MIN_CORR {
            (None, None, None)
        } else {
            let total = corr_band_total(s, MAX_LAG as int);
            let conf = confidence_pm_spec(maxc, total);
            let fb = first_beat_spec(s, l, best, conf);
            let fb_ms = match fb {
                Some(p) => Some(p * FRAME_MS),
                None => None,
            };
            (Some(3_000_000int / best), Some(conf), fb_ms)
        }
    }
}

proof fn lemma_flux_bounds(s: Seq<u32>, i: int)
    requires
        forall|k: int| 0 <= k < s.len() ==> #[trigger] s[k] <= RMS_CAP_MICRO,
    ensures
        0 <= flux_at(s, i) <= RMS_CAP_MICRO,
{
}

proof fn lemma_corr_prefix_bounds(s: Seq<u32>, lag: int, n: int)
    requires
        forall|k: int| 0 <= k < s.len() ==> #[trigger] s[k] <= RMS_CAP_MICRO,
        0 <= n <= s.len(),
    ensures
        0 <= corr_prefix(s, lag, n) <= n * 1_000_000_000_000,
    decreases n,
{
    if n <= 0 {
        assert(n * 1_000_000_000_000 >= 0) by (nonlinear_arith)
            requires n >= 0;
    } else {
        lemma_corr_prefix_bounds(s, lag, n - 1);
        lemma_flux_bounds(s, n - 1);
        lemma_flux_bounds(s, n - 1 + lag);
        assert(flux_at(s, n - 1) * flux_at(s, n - 1 + lag) <= 1_000_000_000_000) by (nonlinear_arith)
            requires
                0 <= flux_at(s, n - 1) <= 1_000_000,
                0 <= flux_at(s, n - 1 + lag) <= 1_000_000;
        assert(flux_at(s, n - 1) * flux_at(s, n - 1 + lag) >= 0) by (nonlinear_arith)
            requires
                0 <= flux_at(s, n - 1),
                0 <= flux_at(s, n - 1 + lag);
        assert(n * 1_000_000_000_000 == (n - 1) * 1_000_000_000_000 + 1_000_000_000_000)
            by (nonlinear_arith);
    }
}

proof fn lemma_grid_energy_bounds(x: Seq<u32>, idx: int, step: int, n: int)
    requires
        forall|k: int| 0 <= k < x.len() ==> #[trigger] x[k] <= RMS_CAP_MICRO,
        step >= 1,
        idx >= 0,
        n <= 500,
    ensures
        0 <= grid_energy(x, idx, step, n) <= 500_000_000,
{
    if idx >= n {
    } else {
        lemma_grid_energy_bounds_counted(x, idx, step, n);
    }
}

proof fn lemma_grid_energy_bounds_counted(x: Seq<u32>, idx: int, step: int, n: int)
    requires
        forall|k: int| 0 <= k < x.len() ==> #[trigger] x[k] <= RMS_CAP_MICRO,
        step >= 1,
        idx >= 0,
        n <= 500,
    ensures
        0 <= grid_energy(x, idx, step, n),
        grid_energy(x, idx, step, n) <= (if idx < n { (n - idx) * 1_000_000 } else { 0 }),
    decreases (if n - idx > 0 { n - idx } else { 0 }),
{
    if idx >= n {
    } else {
        lemma_flux_bounds(x, idx);
        lemma_grid_energy_bounds_counted(x, idx + step, step, n);
        if idx + step < n {
            assert((n - idx - step) * 1_000_000 + 1_000_000 <= (n - idx) * 1_000_000)
                by (nonlinear_arith)
                requires step >= 1;
        }
    }
}

proof fn lemma_best_lag_range(s: Seq<u32>, hi: int)
    requires
        hi >= MIN_LAG,
    ensures
        MIN_LAG <= best_lag_upto(s, hi) <= hi,
    decreases hi,
{
    if hi > MIN_LAG {
        lemma_best_lag_range(s, hi - 1);
    }
}

proof fn lemma_best_lag_is_max(s: Seq<u32>, hi: int, lag: int)
    requires
        MIN_LAG <= lag <= hi,
    ensures
        corr_of(s, best_lag_upto(s, hi)) >= corr_of(s, lag),
    decreases hi,
{
    if hi > MIN_LAG {
        if lag < hi {
            lemma_best_lag_is_max(s, hi - 1, lag);
        }
    }
}

proof fn lemma_total_le_41_max(s: Seq<u32>, hi: int)
    requires
        MIN_LAG <= hi <= MAX_LAG,
    ensures
        corr_band_total(s, hi) <= (hi - 14) * corr_of(s, best_lag_upto(s, MAX_LAG as int)),
    decreases hi,
{
    let m = corr_of(s, best_lag_upto(s, MAX_LAG as int));
    lemma_best_lag_is_max(s, MAX_LAG as int, hi);
    if hi == MIN_LAG {
        assert(corr_band_total(s, (MIN_LAG - 1) as int) == 0);
        assert(corr_band_total(s, hi) == corr_of(s, MIN_LAG as int));
        assert((hi - 14) * m == m) by (nonlinear_arith)
            requires hi == 15;
    } else {
        lemma_total_le_41_max(s, hi - 1);
        assert((hi - 14) * m == (hi - 1 - 14) * m + m) by (nonlinear_arith);
    }
}

proof fn lemma_phase_total_bounds(x: Seq<u32>, step: int, n: int, hi: int)
    requires
        forall|k: int| 0 <= k < x.len() ==> #[trigger] x[k] <= RMS_CAP_MICRO,
        step >= 1,
        hi >= 0,
        n <= 500,
    ensures
        0 <= phase_energy_total(x, step, n, hi) <= hi * 500_000_000,
    decreases hi,
{
    if hi <= 0 {
        assert(hi * 500_000_000 >= 0) by (nonlinear_arith)
            requires hi >= 0;
    } else {
        lemma_phase_total_bounds(x, step, n, hi - 1);
        lemma_grid_energy_bounds(x, hi - 1, step, n);
        assert(hi * 500_000_000 == (hi - 1) * 500_000_000 + 500_000_000) by (nonlinear_arith);
    }
}

proof fn lemma_best_phase_range(x: Seq<u32>, step: int, n: int, hi: int)
    requires
        hi >= 1,
    ensures
        0 <= best_phase_upto(x, step, n, hi) < hi,
    decreases hi,
{
    if hi > 1 {
        lemma_best_phase_range(x, step, n, hi - 1);
    }
}

/// Autocorrelation of the wideband flux at one lag.
fn corr_at_lag(env: &Envelope, lag: usize) -> (r: u64)
    requires
        env.wf(),
        1 <= lag <= env.spec_len(),
    ensures
        r == corr_of(env.rms@, lag as int),
        r <= 2_000_000_000_000_000_000,
{
    let n = env.rms.len() - lag;
    proof {
        lemma_corr_prefix_bounds(env.rms@, lag as int, n as int);
        assert(n * 1_000_000_000_000 <= 2_000_000_000_000_000_000int) by (nonlinear_arith)
            requires n <= 2_000_000;
    }
    let mut c: u64 = 0;
    let mut i: usize = 0;
    while i < n
        invariant
            i <= n,
            n + lag == env.spec_len(),
            1 <= lag,
            env.wf(),
            c == corr_prefix(env.rms@, lag as int, i as int),
            c <= 2_000_000_000_000_000_000,
        decreases n - i,
    {
        proof {
            lemma_corr_prefix_bounds(env.rms@, lag as int, i + 1);
            assert((i + 1) * 1_000_000_000_000 <= 2_000_000_000_000_000_000int) by (nonlinear_arith)
                requires i + 1 <= 2_000_000;
        }
        let f0: u64 = if i == 0 {
            0
        } else if env.rms[i] > env.rms[i - 1] {
            (env.rms[i] - env.rms[i - 1]) as u64
        } else {
            0
        };
        let j = i + lag;
        let f1: u64 = if env.rms[j] > env.rms[j - 1] {
            (env.rms[j] - env.rms[j - 1]) as u64
        } else {
            0
        };
        proof {
            assert(f0 == flux_at(env.rms@, i as int));
            assert(f1 == flux_at(env.rms@, i + lag));
            lemma_flux_bounds(env.rms@, i as int);
            lemma_flux_bounds(env.rms@, i + lag);
            assert(f0 * f1 <= 1_000_000_000_000u64) by (nonlinear_arith)
                requires f0 <= 1_000_000 && f1 <= 1_000_000;
        }
        c = c + f0 * f1;
        i = i + 1;
    }
    c
}

/// Flux energy on the grid `phase, phase + step, ...` below `search`.
fn grid_energy_exec(x: &Vec<u32>, phase: usize, step: usize, search: usize) -> (r: u64)
    requires
        forall|k: int| 0 <= k < x@.len() ==> #[trigger] x@[k] <= RMS_CAP_MICRO,
        1 <= step <= 256,
        phase <= 500,
        search <= 500,
        search <= x@.len(),
    ensures
        r == grid_energy(x@, phase as int, step as int, search as int),
        r <= 500_000_000,
{
    proof {
        lemma_grid_energy_bounds(x@, phase as int, step as int, search as int);
    }
    let mut acc: u64 = 0;
    let mut idx = phase;
    while idx < search
        invariant
            forall|k: int| 0 <= k < x@.len() ==> #[trigger] x@[k] <= RMS_CAP_MICRO,
            1 <= step <= 256,
            idx <= 500 + 256,
            search <= 500,
            search <= x@.len(),
            acc + grid_energy(x@, idx as int, step as int, search as int)
                == grid_energy(x@, phase as int, step as int, search as int),
            acc <= 500_000_000,
        decreases (if idx < search { search - idx } else { 0 }),
    {
        let f: u64 = if idx == 0 {
            0
        } else if x[idx] > x[idx - 1] {
            (x[idx] - x[idx - 1]) as u64
        } else {
            0
        };
        proof {
            assert(f == flux_at(x@, idx as int));
            lemma_grid_energy_bounds(x@, phase as int, step as int, search as int);
            lemma_grid_energy_bounds(x@, idx as int, step as int, search as int);
            lemma_grid_energy_bounds(x@, idx + step, step as int, search as int);
        }
        acc = acc + f;
        idx = idx + step;
    }
    acc
}

/// Best phase of a grid and the total energy over all phases below `lag`.
fn scan_phases(x: &Vec<u32>, step: usize, search: usize, lag: usize) -> (r: (usize, u64, u64))
    requires
        forall|k: int| 0 <= k < x@.len() ==> #[trigger] x@[k] <= RMS_CAP_MICRO,
        1 <= step <= 256,
        search <= 500,
        search <= x@.len(),
        1 <= lag <= 55,
    ensures
        r.0 == best_phase_upto(x@, step as int, search as int, lag as int),
        r.1 == grid_energy(x@, r.0 as int, step as int, search as int),
        r.2 == phase_energy_total(x@, step as int, search as int, lag as int),
        r.0 < lag,
        r.1 <= 500_000_000,
        r.2 <= 27_500_000_000,
{
    let e0 = grid_energy_exec(x, 0, step, search);
    let mut best_phase: usize = 0;
    let mut best_e: u64 = e0;
    let mut total: u64 = e0;
    let mut phase: usize = 1;
    proof {
        assert(phase_energy_total(x@, step as int, search as int, 0) == 0);
        lemma_phase_total_bounds(x@, step as int, search as int, 1);
    }
    while phase < lag
        invariant
            forall|k: int| 0 <= k < x@.len() ==> #[trigger] x@[k] <= RMS_CAP_MICRO,
            1 <= step <= 256,
            search <= 500,
            search <= x@.len(),
            1 <= phase <= lag <= 55,
            best_phase == best_phase_upto(x@, step as int, search as int, phase as int),
            best_e == grid_energy(x@, best_phase as int, step as int, search as int),
            total == phase_energy_total(x@, step as int, search as int, phase as int),
            best_phase < phase,
            best_e <= 500_000_000,
            total <= 27_500_000_000,
        decreases lag - phase,
    {
        let e = grid_energy_exec(x, phase, step, search);
        proof {
            lemma_phase_total_bounds(x@, step as int, search as int, phase + 1);
        }
        total = total + e;
        if e > best_e {
            best_phase = phase;
            best_e = e;
        }
        phase = phase + 1;
    }
    (best_phase, best_e, total)
}

/// Estimates the tempo, its confidence, and the downbeat phase from a
/// window's wideband and low-band envelopes.
///
/// Reports nothing on a window under `2 * MAX_LAG` frames or with a flat
/// autocorrelation; the downbeat alone may be absent when no grid phase
/// stands out.
pub fn detect_bpm_from_envelope(env: &Envelope) -> (r: (Option<u64>, Option<u32>, Option<i64>))
    requires
        env.wf(),
    ensures
        ({
            let spec = bpm_estimate_spec(env.rms@, env.low@);
            &&& (match r.0 {
                Some(v) => spec.0 == Some(v as int),
                None => spec.0 is None,
            })
            &&& (match r.1 {
                Some(v) => spec.1 == Some(v as int),
                None => spec.1 is None,
            })
            &&& (match r.2 {
                Some(v) => spec.2 == Some(v as int),
                None => spec.2 is None,
            })
        }),
        r.0 is Some ==> 54_545 <= r.0->0 <= 200_000,
        r.1 is Some ==> r.1->0 <= 1000,
        r.2 is Some ==> 0 <= r.2->0 <= 1100,
        r.1 is None ==> r.0 is None,
        r.2 is Some ==> r.0 is Some && r.1 is Some,
{
    let n = env.rms.len();
    if n < 2 * MAX_LAG {
        return (None, None, None);
    }
    // Scan the lag band for the autocorrelation peak.
    let mut best_lag: usize = MIN_LAG;
    let mut best_corr: u64 = corr_at_lag(env, MIN_LAG);
    let mut total: u128 = best_corr as u128;
    let mut lag: usize = MIN_LAG + 1;
    proof {
        assert(corr_band_total(env.rms@, (MIN_LAG - 1) as int) == 0);
        assert(corr_band_total(env.rms@, MIN_LAG as int) == corr_of(env.rms@, MIN_LAG as int));
    }
    while lag <= MAX_LAG
        invariant
            env.wf(),
            2 * MAX_LAG <= env.spec_len(),
            MIN_LAG < lag <= MAX_LAG + 1,
            MIN_LAG <= best_lag < lag,
            best_lag == best_lag_upto(env.rms@, lag - 1),
            best_corr == corr_of(env.rms@, best_lag as int),
            total == corr_band_total(env.rms@, lag - 1),
            best_corr <= 2_000_000_000_000_000_000,
            total <= (lag - MIN_LAG) * 2_000_000_000_000_000_000,
        decreases MAX_LAG + 1 - lag,
    {
        let c = corr_at_lag(env, lag);
        total = total + c as u128;
        if c > best_corr {
            best_lag = lag;
            best_corr = c;
        }
        lag = lag + 1;
    }
    if best_corr < MIN_CORR {
        return (None, None, None);
    }
    let bpm_mbpm: u64 = 3_000_000 / (best_lag as u64);
    proof {
        vstd::arithmetic::div_mod::lemma_div_is_ordered_by_denominator(3_000_000, MIN_LAG as int, best_lag as int);
        vstd::arithmetic::div_mod::lemma_div_is_ordered_by_denominator(3_000_000, best_lag as int, MAX_LAG as int);
        assert(3_000_000int / 15int == 200_000);
        assert(3_000_000int / 55int == 54_545);
    }
    // Confidence: rise of the peak above the band average, in thousandths.
    proof {
        // The band holds 41 lags, so the total is at most 41 times the peak.
        lemma_best_lag_is_max(env.rms@, MAX_LAG as int, best_lag as int);
        lemma_total_le_41_max(env.rms@, MAX_LAG as int);
    }
    let conf_pm: u32 = if total > 0 {
        proof {
            assert(41 * (best_corr as int) >= corr_band_total(env.rms@, MAX_LAG as int));
        }
        let c = (200u128 * (41u128 * (best_corr as u128) - total)) / total;
        if c > 1000 {
            1000
        } else {
            c as u32
        }
    } else {
        0
    };
    // Downbeat phase.
    let first_beat: Option<i64> = if conf_pm <= PHASE_MIN_CONFIDENCE_PM {
        None
    } else {
        let search = if n < 500 { n } else { 500 };
        if search <= best_lag {
            None
        } else {
            let stride = 4 * best_lag;
            let (beat_phase, beat_e, beat_total) = scan_phases(&env.rms, best_lag, search, best_lag);
            let bar = if search > stride {
                Some(scan_phases(&env.low, stride, search, best_lag))
            } else {
                None
            };
            proof {
                assert(20 * (beat_e as int) * (best_lag as int) <= 20 * 500_000_000 * 55)
                    by (nonlinear_arith)
                    requires beat_e <= 500_000_000 && best_lag <= 55;
            }
            let beat_ok = beat_e > MIN_PHASE_ENERGY
                && 20 * beat_e * (best_lag as u64) >= 23 * beat_total;
            let bar_ok = match bar {
                Some((_, bar_e, bar_total)) => {
                    proof {
                        assert(20 * (bar_e as int) * (best_lag as int) <= 20 * 500_000_000 * 55)
                            by (nonlinear_arith)
                            requires bar_e <= 500_000_000 && best_lag <= 55;
                    }
                    bar_e > MIN_PHASE_ENERGY && 20 * bar_e * (best_lag as u64) >= 23 * bar_total
                },
                None => false,
            };
            if bar_ok {
                match bar {
                    Some((bar_phase, _, _)) => Some((bar_phase as i64) * FRAME_MS),
                    None => None,
                }
            } else if beat_ok {
                Some((beat_phase as i64) * FRAME_MS)
            } else {
                None
            }
        }
    };
    (Some(bpm_mbpm), Some(conf_pm), first_beat)
}

} // verus!
