//! Envelope series and the event detectors that read them.
//!
//! An analysis window is reduced to three parallel series sampled at 50 Hz
//! (20 ms frames): wideband RMS, low-band RMS and the vocal-band share of the
//! wideband level.  RMS samples are millionths of full scale, capped at full
//! scale; ratio samples are millionths as well.

use vstd::prelude::*;

verus! {

/// Length of one envelope frame in milliseconds (50 Hz rate).
pub const FRAME_MS: i64 = 20;

/// Full scale in the envelope's fixed-point unit (millionths).
pub const RMS_CAP_MICRO: u32 = 1_000_000;

/// Silence threshold: 10^(-48/20) of full scale, in millionths.
pub const SILENCE_THRESHOLD_MICRO: u32 = 3981;

/// Wideband level a frame must exceed to count as vocal (0.01).
pub const VOCAL_RMS_MICRO: u32 = 10_000;

/// Vocal-band share a frame must exceed to count as vocal (0.18).
pub const VOCAL_RATIO_MICRO: u32 = 180_000;

/// Frames a vocal run must span to count as a terminal vocal segment (2 s).
pub const MIN_VOCAL_RUN_FRAMES: usize = 100;

/// Longest envelope the detectors accept (eleven hours of audio).
pub const MAX_ENV_FRAMES: usize = 2_000_000;

/// One analysis window reduced to three parallel 50 Hz series.
#[derive(Debug, Clone)]
pub struct Envelope {
    pub rms: Vec<u32>,
    pub low: Vec<u32>,
    pub ratio: Vec<u32>,
}

impl Envelope {
    /// Three series of one length, RMS values capped at full scale.
    pub open spec fn wf(&self) -> bool {
        &&& self.rms@.len() == self.low@.len()
        &&& self.rms@.len() == self.ratio@.len()
        &&& self.rms@.len() <= MAX_ENV_FRAMES
        &&& forall|i: int| 0 <= i < self.rms@.len() ==> #[trigger] self.rms@[i] <= RMS_CAP_MICRO
        &&& forall|i: int| 0 <= i < self.low@.len() ==> #[trigger] self.low@[i] <= RMS_CAP_MICRO
    }

    pub open spec fn spec_len(&self) -> nat {
        self.rms@.len()
    }

    /// Builds a well-formed envelope; `None` when the series disagree in
    /// length, are over-long, or hold an RMS sample above full scale.
    pub fn new(rms: Vec<u32>, low: Vec<u32>, ratio: Vec<u32>) -> (r: Option<Envelope>)
        ensures
            r is Some ==> r->0.wf(),
            r is Some ==> r->0.rms@ == rms@ && r->0.low@ == low@ && r->0.ratio@ == ratio@,
            r is None ==> !(Envelope { rms, low, ratio }).wf(),
    {
        if rms.len() != low.len() || rms.len() != ratio.len() || rms.len() > MAX_ENV_FRAMES {
            return None;
        }
        let mut i: usize = 0;
        while i < rms.len()
            invariant
                i <= rms@.len(),
                rms@.len() == low@.len(),
                forall|k: int| 0 <= k < i ==> #[trigger] rms@[k] <= RMS_CAP_MICRO,
                forall|k: int| 0 <= k < i ==> #[trigger] low@[k] <= RMS_CAP_MICRO,
            decreases rms@.len() - i,
        {
            if rms[i] > RMS_CAP_MICRO || low[i] > RMS_CAP_MICRO {
                return None;
            }
            i = i + 1;
        }
        Some(Envelope { rms, low, ratio })
    }

    /// Number of frames in the window.
    pub fn len(&self) -> (r: usize)
        ensures
            r == self.spec_len(),
    {
        self.rms.len()
    }

    /// The vocal predicate: audible wideband level and a high vocal-band
    /// share at frame `i`.
    pub open spec fn is_vocal_at(&self, i: int) -> bool {
        self.rms@[i] > VOCAL_RMS_MICRO && self.ratio@[i] > VOCAL_RATIO_MICRO
    }
}

pub fn is_vocal(rms: u32, ratio: u32) -> (r: bool)
    ensures
        r == (rms > VOCAL_RMS_MICRO && ratio > VOCAL_RATIO_MICRO),
{
    rms > VOCAL_RMS_MICRO && ratio > VOCAL_RATIO_MICRO
}

/// Silence edges of a window, as frame indices.
///
/// With any sample above the threshold the result is `(first, last + 1)`
/// where `first` and `last` are the outermost indices above it; a window
/// that never rises above the threshold reports `(0, 0)`.
pub fn detect_silence_from_envelope(env: &Envelope, threshold_micro: u32) -> (r: (usize, usize))
    requires
        env.wf(),
    ensures
        (exists|i: int| 0 <= i < env.spec_len() && env.rms@[i] > threshold_micro) ==> {
            &&& r.0 < r.1 <= env.spec_len()
            &&& env.rms@[r.0 as int] > threshold_micro
            &&& env.rms@[r.1 - 1] > threshold_micro
            &&& forall|k: int| 0 <= k < r.0 ==> #[trigger] env.rms@[k] <= threshold_micro
            &&& forall|k: int| r.1 <= k < env.spec_len() ==> #[trigger] env.rms@[k] <= threshold_micro
        },
        !(exists|i: int| 0 <= i < env.spec_len() && env.rms@[i] > threshold_micro) ==> r == (0usize, 0usize),
{
    let n = env.rms.len();
    let mut first: usize = 0;
    while first < n && env.rms[first] <= threshold_micro
        invariant
            first <= n == env.spec_len(),
            forall|k: int| 0 <= k < first ==> #[trigger] env.rms@[k] <= threshold_micro,
        decreases n - first,
    {
        first = first + 1;
    }
    if first == n {
        return (0, 0);
    }
    let mut last_end: usize = n;
    while last_end > first && env.rms[last_end - 1] <= threshold_micro
        invariant
            first <= last_end <= n == env.spec_len(),
            env.rms@[first as int] > threshold_micro,
            forall|k: int| last_end <= k < n ==> #[trigger] env.rms@[k] <= threshold_micro,
        decreases last_end,
    {
        last_end = last_end - 1;
    }
    (first, last_end)
}

/// Whether a five-frame (100 ms) vocal run starts at `i`, truncated at the
/// window's end.
pub open spec fn vocal_run5_at(env: &Envelope, i: int) -> bool {
    forall|j: int| i <= j < vstd::math::min(i + 5, env.spec_len() as int) ==> env.is_vocal_at(j)
}

/// First frame that opens a five-frame vocal run: where the vocals come in.
pub fn detect_vocal_in(env: &Envelope) -> (r: Option<usize>)
    requires
        env.wf(),
    ensures
        r is Some ==> r->0 < env.spec_len() && vocal_run5_at(env, r->0 as int)
            && (forall|k: int| 0 <= k < r->0 ==> !vocal_run5_at(env, k)),
        r is None ==> forall|k: int| 0 <= k < env.spec_len() ==> !vocal_run5_at(env, k),
{
    let n = env.rms.len();
    let mut i: usize = 0;
    while i < n
        invariant
            i <= n == env.spec_len(),
            env.wf(),
            forall|k: int| 0 <= k < i ==> !vocal_run5_at(env, k),
        decreases n - i,
    {
        if is_vocal(env.rms[i], env.ratio[i]) {
            let end = if i + 5 <= n { i + 5 } else { n };
            let mut j = i;
            let mut all = true;
            while j < end
                invariant
                    i <= j <= end <= n == env.spec_len(),
                    env.wf(),
                    end == vstd::math::min(i + 5, n as int),
                    all <==> (forall|k: int| i <= k < j ==> env.is_vocal_at(k)),
                decreases end - j,
            {
                if !is_vocal(env.rms[j], env.ratio[j]) {
                    proof {
                        assert(!env.is_vocal_at(j as int));
                    }
                    all = false;
                    j = end;
                } else {
                    proof {
                        assert(env.is_vocal_at(j as int));
                    }
                    j = j + 1;
                }
            }
            if all {
                return Some(i);
            }
            proof {
                assert(!vocal_run5_at(env, i as int));
            }
        } else {
            proof {
                assert(!env.is_vocal_at(i as int));
                assert(!vocal_run5_at(env, i as int));
            }
        }
        i = i + 1;
    }
    None
}

/// Whether frame `i` closes a vocal stretch: it and the five frames before it
/// (clipped at the start) are all vocal.
pub open spec fn vocal_back5_at(env: &Envelope, i: int) -> bool {
    forall|j: int| vstd::math::max(0, i - 5) <= j <= i ==> env.is_vocal_at(j)
}

/// Last frame that closes a vocal stretch, scanning backwards: the fallback
/// for the vocal-out point when no long terminal segment exists.
pub fn detect_vocal_out_fallback(env: &Envelope) -> (r: Option<usize>)
    requires
        env.wf(),
    ensures
        r is Some ==> r->0 < env.spec_len() && vocal_back5_at(env, r->0 as int)
            && (forall|k: int| r->0 < k < env.spec_len() ==> !vocal_back5_at(env, k)),
        r is None ==> forall|k: int| 0 <= k < env.spec_len() ==> !vocal_back5_at(env, k),
{
    let n = env.rms.len();
    let mut i: usize = n;
    while i > 0
        invariant
            i <= n == env.spec_len(),
            env.wf(),
            forall|k: int| i <= k < n ==> !vocal_back5_at(env, k),
        decreases i,
    {
        let idx = i - 1;
        if is_vocal(env.rms[idx], env.ratio[idx]) {
            let start = if idx >= 5 { idx - 5 } else { 0 };
            let mut j = start;
            let mut all = true;
            while j <= idx
                invariant
                    start <= j <= idx + 1,
                    idx < n == env.spec_len(),
                    env.wf(),
                    start == vstd::math::max(0, idx - 5),
                    all <==> (forall|k: int| start <= k < j ==> env.is_vocal_at(k)),
                decreases idx + 1 - j,
            {
                if !is_vocal(env.rms[j], env.ratio[j]) {
                    proof {
                        assert(!env.is_vocal_at(j as int));
                    }
                    all = false;
                    j = idx + 1;
                } else {
                    proof {
                        assert(env.is_vocal_at(j as int));
                    }
                    j = j + 1;
                }
            }
            if all {
                return Some(idx);
            }
            proof {
                assert(!vocal_back5_at(env, idx as int));
            }
        } else {
            proof {
                assert(!env.is_vocal_at(idx as int));
                assert(!vocal_back5_at(env, idx as int));
            }
        }
        i = idx;
    }
    None
}

/// All frames of `[a, b]` are vocal.
pub open spec fn seg_all_vocal(env: &Envelope, a: int, b: int) -> bool {
    forall|j: int| a <= j <= b ==> env.is_vocal_at(j)
}

/// `[a, b]` is a maximal vocal run: vocal throughout and extendable neither
/// down nor up.
pub open spec fn is_max_vocal_run(env: &Envelope, a: int, b: int) -> bool {
    &&& 0 <= a <= b < env.spec_len()
    &&& seg_all_vocal(env, a, b)
    &&& (a == 0 || !env.is_vocal_at(a - 1))
    &&& (b == env.spec_len() - 1 || !env.is_vocal_at(b + 1))
}

/// A maximal vocal run long enough to count as a vocal segment (two seconds).
pub open spec fn qualifying_vocal_run(env: &Envelope, a: int, b: int) -> bool {
    is_max_vocal_run(env, a, b) && b - a + 1 >= MIN_VOCAL_RUN_FRAMES
}

/// The latest vocal segment of at least two seconds: its first and last
/// frame.  `None` when no such segment exists.
pub fn detect_vocal_segment(env: &Envelope) -> (r: Option<(usize, usize)>)
    requires
        env.wf(),
    ensures
        r is Some ==> qualifying_vocal_run(env, (r->0).0 as int, (r->0).1 as int)
            && (forall|a: int, b: int| qualifying_vocal_run(env, a, b) ==> b <= (r->0).1),
        r is None ==> forall|a: int, b: int| !qualifying_vocal_run(env, a, b),
{
    let n = env.rms.len();
    let mut i: usize = n;
    while i > 0
        invariant
            i <= n == env.spec_len(),
            env.wf(),
            i == n || !env.is_vocal_at(i as int),
            forall|a: int, b: int| qualifying_vocal_run(env, a, b) ==> b < i,
        decreases i,
    {
        let e = i - 1;
        if !is_vocal(env.rms[e], env.ratio[e]) {
            proof {
                assert(!env.is_vocal_at(e as int));
            }
            i = e;
        } else {
            proof {
                assert(env.is_vocal_at(e as int));
            }
            // Walk down to the first frame of this run.
            let mut a: usize = e;
            while a > 0 && is_vocal(env.rms[a - 1], env.ratio[a - 1])
                invariant
                    a <= e < n == env.spec_len(),
                    env.wf(),
                    seg_all_vocal(env, a as int, e as int),
                decreases a,
            {
                proof {
                    assert(env.is_vocal_at(a - 1));
                }
                a = a - 1;
            }
            proof {
                assert(a == 0 || !env.is_vocal_at(a - 1));
                assert(is_max_vocal_run(env, a as int, e as int));
            }
            if e - a + 1 >= MIN_VOCAL_RUN_FRAMES {
                return Some((a, e));
            }
            // Too short: every qualifying run must end elsewhere, and all ends
            // in [a, e] belong to this run.
            proof {
                assert forall|x: int, y: int| qualifying_vocal_run(env, x, y) implies y < a by {
                    if a as int <= y <= e as int {
                        if y < e {
                            assert(env.is_vocal_at(y + 1));
                            assert(false);
                        }
                        // y == e, and maximality pins x to a.
                        if x < a {
                            assert(env.is_vocal_at(a - 1));
                            assert(false);
                        }
                        if x > a {
                            assert(env.is_vocal_at(x - 1));
                            assert(false);
                        }
                        assert(false);
                    }
                }
            }
            if a == 0 {
                return None;
            }
            proof {
                assert(!env.is_vocal_at(a - 1));
            }
            i = a - 1;
        }
    }
    None
}

/// Sum of `s[a..b]`.
pub open spec fn range_sum(s: Seq<u32>, a: int, b: int) -> int
    decreases b - a,
{
    if a >= b {
        0
    } else {
        range_sum(s, a, b - 1) + s[b - 1]
    }
}

/// Sum of the squares of `s[a..b]`.
pub open spec fn range_sum_sq(s: Seq<u32>, a: int, b: int) -> int
    decreases b - a,
{
    if a >= b {
        0
    } else {
        range_sum_sq(s, a, b - 1) + s[b - 1] * s[b - 1]
    }
}

pub proof fn lemma_range_sum_bounds(s: Seq<u32>, a: int, b: int, cap: int)
    requires
        0 <= a <= b <= s.len(),
        forall|i: int| 0 <= i < s.len() ==> #[trigger] s[i] <= cap,
        cap >= 0,
    ensures
        0 <= range_sum(s, a, b) <= (b - a) * cap,
    decreases b - a,
{
    if a < b {
        lemma_range_sum_bounds(s, a, b - 1, cap);
        assert((b - a) * cap == (b - 1 - a) * cap + cap) by (nonlinear_arith);
    }
}

pub proof fn lemma_range_sum_sq_bounds(s: Seq<u32>, a: int, b: int, cap: int)
    requires
        0 <= a <= b <= s.len(),
        forall|i: int| 0 <= i < s.len() ==> #[trigger] s[i] <= cap,
        cap >= 0,
    ensures
        0 <= range_sum_sq(s, a, b) <= (b - a) * (cap * cap),
    decreases b - a,
{
    if a < b {
        lemma_range_sum_sq_bounds(s, a, b - 1, cap);
        assert(s[b - 1] * s[b - 1] <= cap * cap) by (nonlinear_arith)
            requires 0 <= s[b - 1] <= cap;
        assert((b - a) * (cap * cap) == (b - 1 - a) * (cap * cap) + cap * cap) by (nonlinear_arith);
    }
}

/// Sum of the wideband series over `[a, b)`; the caller keeps the window
/// small enough for the bound.
fn rms_range_sum(env: &Envelope, a: usize, b: usize) -> (r: u64)
    requires
        env.wf(),
        a <= b <= env.spec_len(),
        b - a <= 1000,
    ensures
        r == range_sum(env.rms@, a as int, b as int),
        r <= 1_000_000_000,
{
    proof {
        lemma_range_sum_bounds(env.rms@, a as int, b as int, RMS_CAP_MICRO as int);
        assert((b - a) * (RMS_CAP_MICRO as int) <= 1000 * 1_000_000) by (nonlinear_arith)
            requires b - a <= 1000;
    }
    let mut r: u64 = 0;
    let mut j = a;
    while j < b
        invariant
            a <= j <= b <= env.spec_len(),
            env.wf(),
            b - a <= 1000,
            r == range_sum(env.rms@, a as int, j as int),
            r <= 1_000_000_000,
        decreases b - j,
    {
        proof {
            lemma_range_sum_bounds(env.rms@, a as int, j + 1, RMS_CAP_MICRO as int);
            assert((j + 1 - a) * (RMS_CAP_MICRO as int) <= 1000 * 1_000_000) by (nonlinear_arith)
                requires j + 1 - a <= 1000;
        }
        r = r + env.rms[j] as u64;
        j = j + 1;
    }
    r
}

/// Whether the energy-surge ratio at `i` strictly exceeds the one at `j`,
/// by cross-multiplication of the window sums.
pub open spec fn surge_gt(env: &Envelope, i: int, j: int) -> bool {
    range_sum(env.rms@, i, i + 100) * range_sum(env.rms@, j - 200, j)
        > range_sum(env.rms@, j, j + 100) * range_sum(env.rms@, i - 200, i)
}

/// An index eligible for drop detection: four seconds of history, two of
/// future, and an audible history window.
pub open spec fn drop_candidate(env: &Envelope, i: int) -> bool {
    &&& 200 <= i
    &&& i + 100 <= env.spec_len()
    &&& range_sum(env.rms@, i - 200, i) > 200_000
}

/// Whether the surge at a candidate clears the reporting threshold: the mean
/// of the next two seconds is more than one and a half times the mean of the
/// previous four.
pub open spec fn surge_over_threshold(env: &Envelope, i: int) -> bool {
    4 * range_sum(env.rms@, i, i + 100) > 3 * range_sum(env.rms@, i - 200, i)
}

/// Finds the drop: the first frame whose two-second-ahead mean most exceeds
/// its four-second history, reported only when that surge tops 1.5x.
pub fn detect_drop_pos(env: &Envelope) -> (r: Option<usize>)
    requires
        env.wf(),
    ensures
        r is Some ==> {
            &&& drop_candidate(env, r->0 as int)
            &&& surge_over_threshold(env, r->0 as int)
            &&& forall|j: int| drop_candidate(env, j) && j < r->0 ==> surge_gt(env, r->0 as int, j)
            &&& forall|j: int| drop_candidate(env, j) ==> !surge_gt(env, j, r->0 as int)
        },
        r is None ==> forall|j: int| drop_candidate(env, j) ==> !surge_over_threshold(env, j),
{
    let n = env.rms.len();
    if n < 300 {
        proof {
            assert forall|j: int| drop_candidate(env, j) implies !surge_over_threshold(env, j) by {
                assert(false);
            }
        }
        return None;
    }
    // Best candidate so far: its index and its window sums.
    let mut best: Option<usize> = None;
    let mut best_next: u64 = 0;
    let mut best_prev: u64 = 0;
    let mut i: usize = 200;
    while i + 100 <= n
        invariant
            200 <= i,
            i <= n + 1,
            n == env.spec_len(),
            env.wf(),
            best_next <= 1_000_000_000,
            best_prev <= 1_000_000_000,
            match best {
                Some(d) => {
                    &&& drop_candidate(env, d as int)
                    &&& best_next == range_sum(env.rms@, d as int, d + 100)
                    &&& best_prev == range_sum(env.rms@, d - 200, d as int)
                    &&& best_next > 0
                    &&& forall|j: int| drop_candidate(env, j) && j < d ==> surge_gt(env, d as int, j)
                    &&& forall|j: int| drop_candidate(env, j) && j < i ==> !surge_gt(env, j, d as int)
                },
                None => forall|j: int| drop_candidate(env, j) && j < i ==> range_sum(env.rms@, j, j + 100) == 0,
            },
        decreases n - i,
    {
        let prev_sum = rms_range_sum(env, i - 200, i);
        let next_sum = rms_range_sum(env, i, i + 100);
        if prev_sum > 200_000 {
            proof {
                assert(drop_candidate(env, i as int));
            }
            proof {
                assert((next_sum as int) * (best_prev as int) <= 1_000_000_000_000_000_000int)
                    by (nonlinear_arith)
                    requires next_sum <= 1_000_000_000 && best_prev <= 1_000_000_000;
                assert((best_next as int) * (prev_sum as int) <= 1_000_000_000_000_000_000int)
                    by (nonlinear_arith)
                    requires best_next <= 1_000_000_000 && prev_sum <= 1_000_000_000;
            }
            let better = match best {
                Some(_) => (next_sum as u128) * (best_prev as u128) > (best_next as u128) * (prev_sum as u128),
                None => next_sum > 0,
            };
            if better {
                proof {
                    match best {
                        Some(d) => {
                            assert(next_sum > 0) by (nonlinear_arith)
                                requires
                                    (next_sum as int) * (best_prev as int)
                                        > (best_next as int) * (prev_sum as int),
                                    best_next > 0,
                                    prev_sum > 0,
                                    best_prev >= 0;
                            assert(surge_gt(env, i as int, d as int));
                            assert forall|j: int| drop_candidate(env, j) && j < i
                                implies surge_gt(env, i as int, j) by {
                                if j < d {
                                    lemma_surge_trans(env, i as int, j, d as int);
                                } else if j > d {
                                    lemma_surge_trans_le(env, i as int, j, d as int);
                                }
                            }
                        },
                        None => {
                            assert forall|j: int| drop_candidate(env, j) && j < i
                                implies surge_gt(env, i as int, j) by {
                                let jp = range_sum(env.rms@, j - 200, j);
                                lemma_range_sum_bounds(env.rms@, j - 200, j, RMS_CAP_MICRO as int);
                                assert(range_sum(env.rms@, j, j + 100) == 0);
                                assert((next_sum as int) * jp > 0) by (nonlinear_arith)
                                    requires next_sum > 0 && jp > 200_000;
                            }
                        },
                    }
                    assert forall|j: int| drop_candidate(env, j) && j < i + 1
                        implies !surge_gt(env, j, i as int) by {
                        if j < i {
                            assert(surge_gt(env, i as int, j));
                        }
                    }
                }
                best = Some(i);
                best_next = next_sum;
                best_prev = prev_sum;
            } else {
                proof {
                    if let Some(d) = best {
                        assert(!surge_gt(env, i as int, d as int));
                    } else {
                        assert(range_sum(env.rms@, i as int, i + 100) == 0);
                    }
                }
            }
        }
        proof {
            if !drop_candidate(env, i as int) {
                assert(range_sum(env.rms@, i - 200, i as int) <= 200_000);
            }
        }
        i = i + 1;
    }
    match best {
        Some(d) => {
            if 4 * best_next > 3 * best_prev {
                proof {
                    assert forall|j: int| drop_candidate(env, j) implies !surge_gt(env, j, d as int) by {
                        assert(j < i);
                    }
                }
                Some(d)
            } else {
                proof {
                    assert forall|j: int| drop_candidate(env, j) implies !surge_over_threshold(env, j) by {
                        assert(j < i);
                        if j < d {
                            assert(surge_gt(env, d as int, j));
                            lemma_surge_not_over(env, d as int, j, best_next as int, best_prev as int);
                        } else if j > d {
                            assert(!surge_gt(env, j, d as int));
                            lemma_surge_not_over_le(env, d as int, j, best_next as int, best_prev as int);
                        }
                    }
                }
                None
            }
        },
        None => {
            proof {
                assert forall|j: int| drop_candidate(env, j) implies !surge_over_threshold(env, j) by {
                    assert(j < i);
                    assert(range_sum(env.rms@, j, j + 100) == 0);
                }
            }
            None
        },
    }
}

/// Strict dominance of the surge ratio carries over a strictly dominated
/// middle candidate.
proof fn lemma_surge_trans(env: &Envelope, i: int, j: int, o: int)
    requires
        env.wf(),
        drop_candidate(env, i),
        drop_candidate(env, j),
        drop_candidate(env, o),
        surge_gt(env, i, o),
        surge_gt(env, o, j),
    ensures
        surge_gt(env, i, j),
{
    let ni = range_sum(env.rms@, i, i + 100);
    let pi = range_sum(env.rms@, i - 200, i);
    let nj = range_sum(env.rms@, j, j + 100);
    let pj = range_sum(env.rms@, j - 200, j);
    let no = range_sum(env.rms@, o, o + 100);
    let po = range_sum(env.rms@, o - 200, o);
    lemma_range_sum_bounds(env.rms@, i, i + 100, RMS_CAP_MICRO as int);
    lemma_range_sum_bounds(env.rms@, j, j + 100, RMS_CAP_MICRO as int);
    lemma_range_sum_bounds(env.rms@, o, o + 100, RMS_CAP_MICRO as int);
    assert(ni * pj > nj * pi) by (nonlinear_arith)
        requires
            ni * po > no * pi,
            no * pj > nj * po,
            pi > 200_000,
            pj > 200_000,
            po > 200_000,
            ni >= 0,
            nj >= 0,
            no >= 0;
}

/// Strict dominance of the surge ratio carries over a weakly dominated
/// middle candidate.
proof fn lemma_surge_trans_le(env: &Envelope, i: int, j: int, o: int)
    requires
        env.wf(),
        drop_candidate(env, i),
        drop_candidate(env, j),
        drop_candidate(env, o),
        surge_gt(env, i, o),
        !surge_gt(env, j, o),
    ensures
        surge_gt(env, i, j),
{
    let ni = range_sum(env.rms@, i, i + 100);
    let pi = range_sum(env.rms@, i - 200, i);
    let nj = range_sum(env.rms@, j, j + 100);
    let pj = range_sum(env.rms@, j - 200, j);
    let no = range_sum(env.rms@, o, o + 100);
    let po = range_sum(env.rms@, o - 200, o);
    lemma_range_sum_bounds(env.rms@, i, i + 100, RMS_CAP_MICRO as int);
    lemma_range_sum_bounds(env.rms@, j, j + 100, RMS_CAP_MICRO as int);
    lemma_range_sum_bounds(env.rms@, o, o + 100, RMS_CAP_MICRO as int);
    assert(ni * pj > nj * pi) by (nonlinear_arith)
        requires
            ni * po > no * pi,
            nj * po <= no * pj,
            pi > 200_000,
            pj > 200_000,
            po > 200_000,
            ni >= 0,
            nj >= 0,
            no >= 0;
}

/// A candidate whose ratio is below the best one stays under the reporting
/// threshold when the best does.
proof fn lemma_surge_not_over(env: &Envelope, d: int, j: int, dn: int, dp: int)
    requires
        env.wf(),
        drop_candidate(env, d),
        drop_candidate(env, j),
        dn == range_sum(env.rms@, d, d + 100),
        dp == range_sum(env.rms@, d - 200, d),
        4 * dn <= 3 * dp,
        surge_gt(env, d, j),
    ensures
        !surge_over_threshold(env, j),
{
    let jn = range_sum(env.rms@, j, j + 100);
    let jp = range_sum(env.rms@, j - 200, j);
    lemma_range_sum_bounds(env.rms@, j - 200, j, RMS_CAP_MICRO as int);
    lemma_range_sum_bounds(env.rms@, j, j + 100, RMS_CAP_MICRO as int);
    lemma_range_sum_bounds(env.rms@, d - 200, d, RMS_CAP_MICRO as int);
    lemma_range_sum_bounds(env.rms@, d, d + 100, RMS_CAP_MICRO as int);
    // From dn * jp > jn * dp and 4 dn <= 3 dp: 4 jn jp <= 3 jp jp is what we
    // need in ratio form; cross-multiplied with positive jp and dp.
    assert(4 * jn <= 3 * jp) by (nonlinear_arith)
        requires
            dn * jp > jn * dp,
            4 * dn <= 3 * dp,
            jp > 200_000,
            dp > 200_000,
            jn >= 0,
            dn >= 0;
}

/// A candidate whose ratio does not exceed the best one stays under the
/// reporting threshold when the best does.
proof fn lemma_surge_not_over_le(env: &Envelope, d: int, j: int, dn: int, dp: int)
    requires
        env.wf(),
        drop_candidate(env, d),
        drop_candidate(env, j),
        dn == range_sum(env.rms@, d, d + 100),
        dp == range_sum(env.rms@, d - 200, d),
        4 * dn <= 3 * dp,
        !surge_gt(env, j, d),
    ensures
        !surge_over_threshold(env, j),
{
    let jn = range_sum(env.rms@, j, j + 100);
    let jp = range_sum(env.rms@, j - 200, j);
    lemma_range_sum_bounds(env.rms@, j - 200, j, RMS_CAP_MICRO as int);
    lemma_range_sum_bounds(env.rms@, j, j + 100, RMS_CAP_MICRO as int);
    lemma_range_sum_bounds(env.rms@, d - 200, d, RMS_CAP_MICRO as int);
    lemma_range_sum_bounds(env.rms@, d, d + 100, RMS_CAP_MICRO as int);
    assert(4 * jn <= 3 * jp) by (nonlinear_arith)
        requires
            jn * dp <= dn * jp,
            4 * dn <= 3 * dp,
            jp > 200_000,
            dp > 200_000,
            jn >= 0,
            dn >= 0;
}

/// Mean square of the wideband level over the up-to-ten-second stretch
/// `[end_idx - 500, end_idx)`, in squared millionths; `None` on an empty
/// stretch.
pub fn outro_mean_square(env: &Envelope, end_idx: usize) -> (r: Option<u64>)
    requires
        env.wf(),
    ensures
        ({
            let end = vstd::math::min(end_idx as int, env.spec_len() as int);
            let start = vstd::math::max(0, end - 500);
            if end > start {
                r == Some((range_sum_sq(env.rms@, start, end) / (end - start)) as u64)
            } else {
                r is None
            }
        }),
{
    let end = if end_idx <= env.rms.len() { end_idx } else { env.rms.len() };
    let start = if end >= 500 { end - 500 } else { 0 };
    if end <= start {
        return None;
    }
    proof {
        lemma_range_sum_sq_bounds(env.rms@, start as int, end as int, RMS_CAP_MICRO as int);
        assert((end - start) * ((RMS_CAP_MICRO as int) * (RMS_CAP_MICRO as int))
            <= 500 * 1_000_000_000_000int) by (nonlinear_arith)
            requires end - start <= 500;
    }
    let mut sum: u64 = 0;
    let mut j = start;
    while j < end
        invariant
            start <= j <= end <= env.spec_len(),
            env.wf(),
            end - start <= 500,
            sum == range_sum_sq(env.rms@, start as int, j as int),
            sum <= 500_000_000_000_000,
        decreases end - j,
    {
        proof {
            lemma_range_sum_sq_bounds(env.rms@, start as int, j + 1, RMS_CAP_MICRO as int);
            assert((j + 1 - start) * ((RMS_CAP_MICRO as int) * (RMS_CAP_MICRO as int))
                <= 500 * 1_000_000_000_000int) by (nonlinear_arith)
                requires j + 1 - start <= 500;
        }
        let v = env.rms[j] as u64;
        sum = sum + v * v;
        j = j + 1;
    }
    Some(sum / ((end - start) as u64))
}

/// Number of frames of `[a, b)` whose vocal-band share exceeds `thr`.
pub open spec fn count_ratio_above(env: &Envelope, a: int, b: int, thr: u32) -> int
    decreases b - a,
{
    if a >= b {
        0
    } else {
        count_ratio_above(env, a, b - 1, thr) + if env.ratio@[b - 1] > thr { 1int } else { 0int }
    }
}

/// Counts the frames of `[a, b)` whose vocal-band share exceeds `thr`.
pub fn count_ratio_above_exec(env: &Envelope, a: usize, b: usize, thr: u32) -> (r: usize)
    requires
        env.wf(),
        a <= b <= env.spec_len(),
    ensures
        r == count_ratio_above(env, a as int, b as int, thr),
        r <= b - a,
{
    let mut r: usize = 0;
    let mut j = a;
    while j < b
        invariant
            a <= j <= b <= env.spec_len(),
            env.wf(),
            r == count_ratio_above(env, a as int, j as int, thr),
            r <= j - a,
        decreases b - j,
    {
        if env.ratio[j] > thr {
            r = r + 1;
        }
        j = j + 1;
    }
    r
}

/// Number of non-vocal frames of `[a, b)`.
pub open spec fn count_non_vocal(env: &Envelope, a: int, b: int) -> int
    decreases b - a,
{
    if a >= b {
        0
    } else {
        count_non_vocal(env, a, b - 1) + if !env.is_vocal_at(b - 1) { 1int } else { 0int }
    }
}

/// Counts the non-vocal frames of `[a, b)`.
pub fn count_non_vocal_exec(env: &Envelope, a: usize, b: usize) -> (r: usize)
    requires
        env.wf(),
        a <= b <= env.spec_len(),
    ensures
        r == count_non_vocal(env, a as int, b as int),
        r <= b - a,
{
    let mut r: usize = 0;
    let mut j = a;
    while j < b
        invariant
            a <= j <= b <= env.spec_len(),
            env.wf(),
            r == count_non_vocal(env, a as int, j as int),
            r <= j - a,
        decreases b - j,
    {
        if !is_vocal(env.rms[j], env.ratio[j]) {
            proof {
                assert(!env.is_vocal_at(j as int));
            }
            r = r + 1;
        } else {
            proof {
                assert(env.is_vocal_at(j as int));
            }
        }
        j = j + 1;
    }
    r
}

} // verus!
