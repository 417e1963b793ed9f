//! Key estimation from a 12-bin chroma vector.
//!
//! The octave-folded spectral energy of a window arrives as twelve
//! non-negative integers (any common scale; the scorer is scale-free).
//! Each candidate root and mode is scored by the dot product of the chroma
//! with the rotated Krumhansl-Schmuckler profile, normalized by the
//! profile's norm; the best candidate wins and the margin over the runner-up
//! becomes the confidence.

use vstd::prelude::*;

verus! {

/// Largest chroma bin value the scorer accepts.
pub const CHROMA_BIN_CAP: u64 = 1_000_000_000;

/// Confidence floor (thousandths) under which no key is reported.
pub const KEY_MIN_CONFIDENCE_PM: u32 = 50;

/// Krumhansl-Schmuckler major profile, in hundredths.
pub open spec fn major_profile(i: int) -> int {
    if i == 0 { 635 }
    else if i == 1 { 223 }
    else if i == 2 { 348 }
    else if i == 3 { 233 }
    else if i == 4 { 438 }
    else if i == 5 { 409 }
    else if i == 6 { 252 }
    else if i == 7 { 519 }
    else if i == 8 { 239 }
    else if i == 9 { 366 }
    else if i == 10 { 229 }
    else { 288 }
}

/// Krumhansl-Schmuckler minor profile, in hundredths.
pub open spec fn minor_profile(i: int) -> int {
    if i == 0 { 633 }
    else if i == 1 { 268 }
    else if i == 2 { 352 }
    else if i == 3 { 538 }
    else if i == 4 { 260 }
    else if i == 5 { 353 }
    else if i == 6 { 254 }
    else if i == 7 { 475 }
    else if i == 8 { 398 }
    else if i == 9 { 269 }
    else if i == 10 { 334 }
    else { 317 }
}

/// Profile value for a mode (0 = major, 1 = minor) at a pitch class.
pub open spec fn profile_at(mode: int, i: int) -> int {
    if mode == 0 {
        major_profile(i)
    } else {
        minor_profile(i)
    }
}

/// Dot product of the first `k` chroma bins with the profile rotated to
/// `root`.
pub open spec fn dot_prefix(c: Seq<u64>, root: int, mode: int, k: int) -> int
    decreases k,
{
    if k <= 0 {
        0
    } else {
        dot_prefix(c, root, mode, k - 1) + c[k - 1] * profile_at(mode, ((k - 1) + 12 - root) % 12)
    }
}

/// Score numerator of a candidate key.
pub open spec fn key_num(c: Seq<u64>, root: int, mode: int) -> int {
    dot_prefix(c, root, mode, 12)
}

/// Sum of the squares of the first `k` profile values of a mode.
pub open spec fn profile_sq_prefix(mode: int, k: int) -> int
    decreases k,
{
    if k <= 0 {
        0
    } else {
        profile_sq_prefix(mode, k - 1) + profile_at(mode, k - 1) * profile_at(mode, k - 1)
    }
}

/// Squared norm of a mode's profile.
pub open spec fn profile_norm_sq(mode: int) -> int {
    profile_sq_prefix(mode, 12)
}

/// Whether candidate `(n1, m1)` scores strictly above `(n2, m2)`.  The true
/// scores divide by the profile norms, so the comparison cross-multiplies
/// the squares.
pub open spec fn score_gt(n1: int, m1: int, n2: int, m2: int) -> bool {
    n1 * n1 * profile_norm_sq(m2) > n2 * n2 * profile_norm_sq(m1)
}

/// The scan state after the first `t` of the 24 candidates (root `t / 2`,
/// major before minor): the best `(num, root, mode)` and the runner-up
/// `(num, mode)`.
pub open spec fn key_scan(c: Seq<u64>, t: int) -> (Option<(int, int, int)>, Option<(int, int)>)
    decreases t,
{
    if t <= 0 {
        (None, None)
    } else {
        let (b, s2) = key_scan(c, t - 1);
        let root = (t - 1) / 2;
        let mode = (t - 1) % 2;
        let n = key_num(c, root, mode);
        match b {
            None => (Some((n, root, mode)), None),
            Some((bn, br, bm)) => {
                if score_gt(n, mode, bn, bm) {
                    (Some((n, root, mode)), Some((bn, bm)))
                } else {
                    match s2 {
                        None => (b, Some((n, mode))),
                        Some((sn, sm)) => {
                            if score_gt(n, mode, sn, sm) {
                                (b, Some((n, mode)))
                            } else {
                                (b, s2)
                            }
                        },
                    }
                }
            },
        }
    }
}

pub open spec fn is_sqrt_floor(r: int, x: int) -> bool {
    0 <= r && r * r <= x && x < (r + 1) * (r + 1)
}

/// Floor of the square root of a non-negative integer.
pub open spec fn sqrt_floor(x: int) -> int {
    choose|r: int| is_sqrt_floor(r, x)
}

pub proof fn lemma_sqrt_floor_unique(r: int, x: int)
    requires
        is_sqrt_floor(r, x),
    ensures
        sqrt_floor(x) == r,
{
    assert(exists|q: int| is_sqrt_floor(q, x)) by {
        assert(is_sqrt_floor(r, x));
    }
    let rp = sqrt_floor(x);
    assert(is_sqrt_floor(rp, x));
    assert(rp == r) by (nonlinear_arith)
        requires
            is_sqrt_floor(r, x),
            is_sqrt_floor(rp, x);
}

/// Confidence (thousandths) of the best candidate over the runner-up:
/// one minus the ratio of their scores.
pub open spec fn key_confidence_spec(bn: int, bm: int, s2: Option<(int, int)>) -> int {
    match s2 {
        None => 1000,
        Some((sn, sm)) => {
            let q = (1_000_000 * sn * sn * profile_norm_sq(bm)) / (bn * bn * profile_norm_sq(sm));
            let rt = sqrt_floor(q);
            let rtc = if rt > 1000 { 1000 } else { rt };
            1000 - rtc
        },
    }
}

/// The detected key of a chroma vector: root, mode, confidence.
pub open spec fn key_from_chroma_spec(c: Seq<u64>) -> (Option<int>, Option<int>, Option<int>) {
    let (b, s2) = key_scan(c, 24);
    match b {
        Some((bn, br, bm)) => {
            if bn <= 0 {
                (None, None, None)
            } else {
                let conf = key_confidence_spec(bn, bm, s2);
                if conf < KEY_MIN_CONFIDENCE_PM {
                    (None, None, None)
                } else {
                    (Some(br), Some(bm), Some(conf))
                }
            }
        },
        None => (None, None, None),
    }
}

proof fn lemma_dot_prefix_bounds(c: Seq<u64>, root: int, mode: int, k: int)
    requires
        0 <= k <= 12,
        c.len() == 12,
        forall|i: int| 0 <= i < 12 ==> #[trigger] c[i] <= CHROMA_BIN_CAP,
    ensures
        0 <= dot_prefix(c, root, mode, k) <= k * 635_000_000_000,
    decreases k,
{
    if k > 0 {
        lemma_dot_prefix_bounds(c, root, mode, k - 1);
        let p = profile_at(mode, ((k - 1) + 12 - root) % 12);
        assert(0 <= p <= 635);
        assert(0 <= c[k - 1] * p <= 635_000_000_000) by (nonlinear_arith)
            requires 0 <= c[k - 1] <= 1_000_000_000 && 0 <= p <= 635;
        assert(k * 635_000_000_000 == (k - 1) * 635_000_000_000 + 635_000_000_000)
            by (nonlinear_arith);
    }
}

proof fn lemma_profile_sq_pos(mode: int, k: int)
    requires
        k >= 1,
    ensures
        profile_sq_prefix(mode, k) >= 1,
    decreases k,
{
    if k == 1 {
        assert(profile_sq_prefix(mode, 0) == 0);
        let p = profile_at(mode, 0);
        assert(p * p >= 1) by (nonlinear_arith)
            requires p >= 633;
    } else {
        lemma_profile_sq_pos(mode, k - 1);
        let p = profile_at(mode, k - 1);
        assert(p * p >= 0) by (nonlinear_arith);
    }
}

proof fn lemma_profile_sq_bounds(mode: int, k: int)
    requires
        0 <= k <= 12,
    ensures
        0 <= profile_sq_prefix(mode, k) <= k * 403_225,
    decreases k,
{
    if k > 0 {
        lemma_profile_sq_bounds(mode, k - 1);
        let p = profile_at(mode, k - 1);
        assert(0 <= p <= 635);
        assert(0 <= p * p <= 403_225) by (nonlinear_arith)
            requires 0 <= p <= 635;
        assert(k * 403_225 == (k - 1) * 403_225 + 403_225) by (nonlinear_arith);
    }
}

/// Profile value for a mode at a pitch class.
fn profile_exec(mode: usize, i: usize) -> (r: u64)
    requires
        i < 12,
    ensures
        r == profile_at(mode as int, i as int),
        r <= 635,
{
    if mode == 0 {
        match i {
            0 => 635, 1 => 223, 2 => 348, 3 => 233, 4 => 438, 5 => 409,
            6 => 252, 7 => 519, 8 => 239, 9 => 366, 10 => 229, _ => 288,
        }
    } else {
        match i {
            0 => 633, 1 => 268, 2 => 352, 3 => 538, 4 => 260, 5 => 353,
            6 => 254, 7 => 475, 8 => 398, 9 => 269, 10 => 334, _ => 317,
        }
    }
}

/// Score numerator of one candidate.
fn key_num_exec(c: &Vec<u64>, root: usize, mode: usize) -> (r: u64)
    requires
        c@.len() == 12,
        root < 12,
        mode < 2,
        forall|i: int| 0 <= i < 12 ==> #[trigger] c@[i] <= CHROMA_BIN_CAP,
    ensures
        r == key_num(c@, root as int, mode as int),
        r <= 7_620_000_000_000,
{
    proof {
        lemma_dot_prefix_bounds(c@, root as int, mode as int, 12);
    }
    let mut acc: u64 = 0;
    let mut k: usize = 0;
    while k < 12
        invariant
            k <= 12,
            c@.len() == 12,
            root < 12,
            mode < 2,
            forall|i: int| 0 <= i < 12 ==> #[trigger] c@[i] <= CHROMA_BIN_CAP,
            acc == dot_prefix(c@, root as int, mode as int, k as int),
            acc <= k * 635_000_000_000,
        decreases 12 - k,
    {
        let pidx = (k + 12 - root) % 12;
        let p = profile_exec(mode, pidx);
        proof {
            assert(pidx as int == (k as int + 12 - root) % 12);
            assert(c@[k as int] * (p as int) <= 635_000_000_000) by (nonlinear_arith)
                requires c@[k as int] <= 1_000_000_000 && p <= 635;
            assert(c@[k as int] * (p as int) >= 0) by (nonlinear_arith)
                requires c@[k as int] >= 0 && p >= 0;
            assert((k as int + 1) * 635_000_000_000 == k as int * 635_000_000_000
                + 635_000_000_000) by (nonlinear_arith);
        }
        acc = acc + c[k] * p;
        k = k + 1;
    }
    acc
}

/// Squared norm of a mode's profile.
fn profile_norm_sq_exec(mode: usize) -> (r: u64)
    requires
        mode < 2,
    ensures
        r == profile_norm_sq(mode as int),
        1 <= r <= 4_838_700,
{
    proof {
        lemma_profile_sq_bounds(mode as int, 12);
        lemma_profile_sq_pos(mode as int, 12);
    }
    let mut acc: u64 = 0;
    let mut k: usize = 0;
    while k < 12
        invariant
            k <= 12,
            mode < 2,
            acc == profile_sq_prefix(mode as int, k as int),
            acc <= k * 403_225,
        decreases 12 - k,
    {
        let p = profile_exec(mode, k);
        proof {
            assert((p as int) * (p as int) <= 403_225) by (nonlinear_arith)
                requires p <= 635;
            assert((k as int + 1) * 403_225 == k as int * 403_225 + 403_225) by (nonlinear_arith);
        }
        acc = acc + p * p;
        k = k + 1;
    }
    acc
}

/// Whether candidate `(n1, m1)` scores strictly above `(n2, m2)`.
fn score_gt_exec(n1: u64, m1: usize, n2: u64, m2: usize) -> (r: bool)
    requires
        m1 < 2,
        m2 < 2,
        n1 <= 7_620_000_000_000,
        n2 <= 7_620_000_000_000,
    ensures
        r == score_gt(n1 as int, m1 as int, n2 as int, m2 as int),
{
    let p1 = profile_norm_sq_exec(m1);
    let p2 = profile_norm_sq_exec(m2);
    proof {
        assert((n1 as int) * (n1 as int) <= 58_064_400_000_000_000_000_000_000int)
            by (nonlinear_arith)
            requires n1 <= 7_620_000_000_000;
        assert((n2 as int) * (n2 as int) <= 58_064_400_000_000_000_000_000_000int)
            by (nonlinear_arith)
            requires n2 <= 7_620_000_000_000;
        assert((n1 as int) * (n1 as int) * (p2 as int)
            <= 58_064_400_000_000_000_000_000_000int * 4_838_700) by (nonlinear_arith)
            requires
                0 <= (n1 as int) * (n1 as int) <= 58_064_400_000_000_000_000_000_000int,
                p2 <= 4_838_700;
        assert((n2 as int) * (n2 as int) * (p1 as int)
            <= 58_064_400_000_000_000_000_000_000int * 4_838_700) by (nonlinear_arith)
            requires
                0 <= (n2 as int) * (n2 as int) <= 58_064_400_000_000_000_000_000_000int,
                p1 <= 4_838_700;
    }
    (n1 as u128) * (n1 as u128) * (p2 as u128) > (n2 as u128) * (n2 as u128) * (p1 as u128)
}

/// Floor of the square root, by bisection.
fn isqrt_u128(x: u128) -> (r: u128)
    ensures
        is_sqrt_floor(r as int, x as int),
{
    let mut lo: u128 = 0;
    let mut hi: u128 = 18_446_744_073_709_551_616;
    proof {
        assert(18_446_744_073_709_551_616int * 18_446_744_073_709_551_616int
            > u128::MAX as int) by (nonlinear_arith);
    }
    while lo + 1 < hi
        invariant
            lo < hi <= 18_446_744_073_709_551_616,
            (lo as int) * (lo as int) <= x as int,
            (hi as int) * (hi as int) > x as int,
        decreases hi - lo,
    {
        let mid = lo + (hi - lo) / 2;
        proof {
            assert((mid as int) * (mid as int) < u128::MAX as int) by (nonlinear_arith)
                requires mid < 18_446_744_073_709_551_616u128;
        }
        if mid * mid <= x {
            lo = mid;
        } else {
            hi = mid;
        }
    }
    lo
}

/// Detects the key of a 12-bin chroma vector.
///
/// Returns the best root (0 = C), the mode (0 = major, 1 = minor) and the
/// confidence in thousandths; all `None` when the chroma is silent or the
/// margin over the runner-up key is under five percent.
pub fn detect_key_from_chroma(chroma: &Vec<u64>) -> (r: (Option<i32>, Option<i32>, Option<u32>))
    requires
        chroma@.len() == 12,
        forall|i: int| 0 <= i < 12 ==> #[trigger] chroma@[i] <= CHROMA_BIN_CAP,
    ensures
        ({
            let spec = key_from_chroma_spec(chroma@);
            &&& (match r.0 {
                Some(v) => spec.0 == Some(v as int),
                None => spec.0 is None,
            })
            &&& (match r.1 {
                Some(v) => spec.1 == Some(v as int),
                None => spec.1 is None,
            })
            &&& (match r.2 {
                Some(v) => spec.2 == Some(v as int),
                None => spec.2 is None,
            })
        }),
        r.0 is Some <==> r.1 is Some,
        r.0 is Some <==> r.2 is Some,
        r.0 is Some ==> 0 <= r.0->0 <= 11,
        r.1 is Some ==> 0 <= r.1->0 <= 1,
        r.2 is Some ==> KEY_MIN_CONFIDENCE_PM <= r.2->0 <= 1000,
{
    let mut best_n: u64 = 0;
    let mut best_root: usize = 0;
    let mut best_mode: usize = 0;
    let mut have_best = false;
    let mut second_n: u64 = 0;
    let mut second_mode: usize = 0;
    let mut have_second = false;
    let mut t: usize = 0;
    while t < 24
        invariant
            t <= 24,
            chroma@.len() == 12,
            forall|i: int| 0 <= i < 12 ==> #[trigger] chroma@[i] <= CHROMA_BIN_CAP,
            best_root < 12,
            best_mode < 2,
            second_mode < 2,
            best_n <= 7_620_000_000_000,
            second_n <= 7_620_000_000_000,
            ({
                let (b, s2) = key_scan(chroma@, t as int);
                &&& (match b {
                    Some((bn, br, bm)) => have_best && bn == best_n && br == best_root && bm == best_mode,
                    None => !have_best,
                })
                &&& (match s2 {
                    Some((sn, sm)) => have_second && sn == second_n && sm == second_mode,
                    None => !have_second,
                })
            }),
        decreases 24 - t,
    {
        let root = t / 2;
        let mode = t % 2;
        let n = key_num_exec(chroma, root, mode);
        if !have_best {
            best_n = n;
            best_root = root;
            best_mode = mode;
            have_best = true;
        } else if score_gt_exec(n, mode, best_n, best_mode) {
            second_n = best_n;
            second_mode = best_mode;
            have_second = true;
            best_n = n;
            best_root = root;
            best_mode = mode;
        } else if !have_second {
            second_n = n;
            second_mode = mode;
            have_second = true;
        } else if score_gt_exec(n, mode, second_n, second_mode) {
            second_n = n;
            second_mode = mode;
        }
        t = t + 1;
    }
    if best_n == 0 {
        return (None, None, None);
    }
    // Confidence: one minus the score ratio of runner-up to best, by an
    // exact integer square root of the squared ratio in millionths.
    let conf_pm: u32 = if !have_second {
        1000
    } else {
        let pb = profile_norm_sq_exec(best_mode);
        let ps = profile_norm_sq_exec(second_mode);
        proof {
            assert((second_n as int) * (second_n as int)
                <= 58_064_400_000_000_000_000_000_000int) by (nonlinear_arith)
                requires second_n <= 7_620_000_000_000;
            assert((best_n as int) * (best_n as int)
                <= 58_064_400_000_000_000_000_000_000int) by (nonlinear_arith)
                requires best_n <= 7_620_000_000_000;
            assert((second_n as int) * (second_n as int) * (pb as int)
                <= 58_064_400_000_000_000_000_000_000int * 4_838_700) by (nonlinear_arith)
                requires
                    0 <= (second_n as int) * (second_n as int)
                        <= 58_064_400_000_000_000_000_000_000int,
                    pb <= 4_838_700;
            assert(1_000_000int * ((second_n as int) * (second_n as int) * (pb as int))
                <= 280_958_250_198_000_000_000_000_000_000_000_000_000int) by (nonlinear_arith)
                requires
                    0 <= (second_n as int) * (second_n as int) * (pb as int)
                        <= 280_958_250_198_000_000_000_000_000_000_000int;
            assert((best_n as int) * (best_n as int) * (ps as int)
                <= 58_064_400_000_000_000_000_000_000int * 4_838_700) by (nonlinear_arith)
                requires
                    0 <= (best_n as int) * (best_n as int)
                        <= 58_064_400_000_000_000_000_000_000int,
                    ps <= 4_838_700;
            assert((best_n as int) * (best_n as int) * (ps as int) > 0) by (nonlinear_arith)
                requires best_n > 0 && ps >= 1;
        }
        let num: u128 = 1_000_000u128 * ((second_n as u128) * (second_n as u128) * (pb as u128));
        let den: u128 = (best_n as u128) * (best_n as u128) * (ps as u128);
        proof {
            assert(1_000_000int * (second_n as int) * (second_n as int) * (pb as int)
                == 1_000_000int * ((second_n as int) * (second_n as int) * (pb as int)))
                by (nonlinear_arith);
        }
        let q = num / den;
        let rt = isqrt_u128(q);
        let rtc: u128 = if rt > 1000 { 1000 } else { rt };
        proof {
            lemma_sqrt_floor_unique(rt as int, q as int);
        }
        (1000 - rtc) as u32
    };
    if conf_pm < KEY_MIN_CONFIDENCE_PM {
        return (None, None, None);
    }
    (Some(best_root as i32), Some(best_mode as i32), Some(conf_pm))
}

} // verus!
