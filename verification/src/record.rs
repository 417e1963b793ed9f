//! The feature record of one analyzed track, and the reduced input a decode
//! pass hands to the synthesizer.
//!
//! Times are milliseconds, tempos thousandths of a beat per minute,
//! confidences thousandths, loudness thousandths of a LUFS, envelope levels
//! millionths of full scale.

use vstd::prelude::*;
use crate::envelope::Envelope;
use crate::key::CHROMA_BIN_CAP;

verus! {

/// Format tag of the record layout; consumers treat lower versions as stale.
pub const RECORD_VERSION: i32 = 11;

/// Upper bound on a track duration the synthesizer accepts (twelve days).
pub const MAX_DURATION_MS: i64 = 1_000_000_000;

/// Shortest accepted analysis window (5 s).
pub const MIN_ANALYZE_MS: i64 = 5_000;

/// Longest accepted analysis window (300 s).
pub const MAX_ANALYZE_MS: i64 = 300_000;

/// Default analysis window (60 s).
pub const DEFAULT_ANALYZE_MS: i64 = 60_000;

/// Dense per-track analysis result.
#[derive(Debug, Clone, PartialEq)]
pub struct FeatureRecord {
    pub duration_ms: i64,
    pub bpm_mbpm: Option<u64>,
    pub bpm_confidence_pm: Option<u32>,
    pub first_beat_ms: Option<i64>,
    pub fade_in_ms: i64,
    pub fade_out_ms: i64,
    pub drop_ms: Option<i64>,
    pub vocal_in_ms: Option<i64>,
    pub vocal_out_ms: Option<i64>,
    pub vocal_last_in_ms: Option<i64>,
    pub cut_in_ms: Option<i64>,
    pub cut_out_ms: Option<i64>,
    pub mix_center_ms: i64,
    pub mix_start_ms: i64,
    pub mix_end_ms: i64,
    /// 10 Hz profile; each cell the peak wideband RMS of its 100 ms.
    pub energy_profile: Vec<u32>,
    pub loudness_mlufs: Option<i64>,
    /// Mean square of the last ten audible seconds of the tail, in squared
    /// millionths of full scale.
    pub outro_energy_sq: Option<u64>,
    pub key_root: Option<i32>,
    pub key_mode: Option<i32>,
    pub key_confidence_pm: Option<u32>,
    pub camelot_key: Option<String>,
    pub analyze_window_ms: i64,
    pub version: i32,
}

impl FeatureRecord {
    /// The record invariants: silence edges inside the track, an ordered mix
    /// window inside the track, an energy profile of one cell per began
    /// 100 ms, a Camelot key exactly when a key was detected, confidences
    /// capped at one, and plausible tempo and downbeat ranges.
    pub open spec fn wf(&self) -> bool {
        &&& 0 <= self.duration_ms <= MAX_DURATION_MS
        &&& 0 <= self.fade_in_ms <= self.fade_out_ms <= self.duration_ms
        &&& 0 <= self.mix_start_ms <= self.mix_center_ms <= self.mix_end_ms <= self.duration_ms
        &&& self.energy_profile@.len() == (self.duration_ms + 99) / 100
        &&& (self.camelot_key is Some <==> self.key_root is Some)
        &&& (self.key_root is Some <==> self.key_mode is Some)
        &&& (self.key_root is Some <==> self.key_confidence_pm is Some)
        &&& (match self.bpm_confidence_pm {
            Some(c) => c <= 1000,
            None => true,
        })
        &&& (self.bpm_confidence_pm is Some <==> self.bpm_mbpm is Some)
        &&& (match self.bpm_mbpm {
            Some(b) => 54_545 <= b <= 200_000,
            None => true,
        })
        &&& (match self.first_beat_ms {
            Some(f) => 0 <= f <= 1100,
            None => true,
        })
        &&& (self.first_beat_ms is Some ==> self.bpm_mbpm is Some)
        &&& (match self.key_confidence_pm {
            Some(c) => c <= 1000,
            None => true,
        })
        &&& (match self.key_root {
            Some(kr) => 0 <= kr <= 11,
            None => true,
        })
        &&& (match self.key_mode {
            Some(km) => km == 0 || km == 1,
            None => true,
        })
        &&& (match self.drop_ms {
            Some(d) => 4_000 <= d <= self.duration_ms,
            None => true,
        })
        &&& (match self.vocal_in_ms {
            Some(v) => 0 <= v <= self.duration_ms,
            None => true,
        })
        &&& (match self.vocal_out_ms {
            Some(v) => 0 <= v <= self.duration_ms,
            None => true,
        })
        &&& (match self.vocal_last_in_ms {
            Some(v) => 0 <= v <= self.duration_ms,
            None => true,
        })
        &&& (match self.cut_in_ms {
            Some(v) => 0 <= v <= self.duration_ms,
            None => true,
        })
        &&& (match self.cut_out_ms {
            Some(v) => 0 <= v <= self.duration_ms,
            None => true,
        })
        &&& MIN_ANALYZE_MS <= self.analyze_window_ms <= MAX_ANALYZE_MS
        &&& self.version == RECORD_VERSION
    }
}

/// What one decoded file reduces to before synthesis: the head window's
/// envelope, the (possibly empty) tail window's envelope, the track length,
/// the analysis window, whether the tail half of the record is wanted, and
/// the two values only floating-point signal processing can supply - the
/// chroma vector and the integrated loudness.
pub struct AnalysisInput {
    pub head: Envelope,
    pub tail: Envelope,
    pub duration_ms: i64,
    pub max_analyze_ms: i64,
    pub include_tail: bool,
    pub chroma: Option<Vec<u64>>,
    pub loudness_mlufs: Option<i64>,
}

impl AnalysisInput {
    /// Windows fit the track: the tail lies inside it, the head may round up
    /// by at most one frame, together they cover it at most once, and a tail
    /// exists only when the track is longer than two analysis windows.
    pub open spec fn wf(&self) -> bool {
        &&& self.head.wf()
        &&& self.tail.wf()
        &&& 0 <= self.duration_ms <= MAX_DURATION_MS
        &&& MIN_ANALYZE_MS <= self.max_analyze_ms <= MAX_ANALYZE_MS
        &&& self.tail.spec_len() * 20 <= self.duration_ms
        &&& self.head.spec_len() * 20 <= self.duration_ms + 20
        &&& self.head.spec_len() * 20 + self.tail.spec_len() * 20 <= self.duration_ms + 20
        &&& (self.tail.spec_len() > 0 ==> self.duration_ms > 2 * self.max_analyze_ms)
        &&& (match self.chroma {
            Some(c) => c@.len() == 12
                && (forall|i: int| 0 <= i < 12 ==> #[trigger] c@[i] <= CHROMA_BIN_CAP),
            None => true,
        })
    }

    /// Assembles a well-formed input; `None` when the windows cannot belong
    /// to a track of the stated length.
    pub fn new(
        head: Envelope,
        tail: Envelope,
        duration_ms: i64,
        max_analyze_ms: i64,
        include_tail: bool,
        chroma: Option<Vec<u64>>,
        loudness_mlufs: Option<i64>,
    ) -> (r: Option<AnalysisInput>)
        requires
            head.wf(),
            tail.wf(),
        ensures
            r is Some ==> r->0.wf(),
            r is Some ==> r->0.duration_ms == duration_ms && r->0.max_analyze_ms == max_analyze_ms
                && r->0.include_tail == include_tail
                && r->0.head.rms@.len() == head.rms@.len()
                && r->0.tail.rms@.len() == tail.rms@.len()
                && r->0.loudness_mlufs == loudness_mlufs,
            r is None ==> !(AnalysisInput {
                head,
                tail,
                duration_ms,
                max_analyze_ms,
                include_tail,
                chroma,
                loudness_mlufs,
            }).wf(),
    {
        if duration_ms < 0 || duration_ms > MAX_DURATION_MS {
            return None;
        }
        if max_analyze_ms < MIN_ANALYZE_MS || max_analyze_ms > MAX_ANALYZE_MS {
            return None;
        }
        let head_span = (head.len() as i64) * 20;
        let tail_span = (tail.len() as i64) * 20;
        if tail_span > duration_ms {
            return None;
        }
        if head_span > duration_ms + 20 || head_span + tail_span > duration_ms + 20 {
            return None;
        }
        if tail.len() > 0 && duration_ms <= 2 * max_analyze_ms {
            return None;
        }
        let chroma = match chroma {
            Some(c) => {
                if c.len() != 12 {
                    return None;
                }
                let mut i: usize = 0;
                while i < 12
                    invariant
                        i <= 12,
                        chroma == Some(c),
                        c@.len() == 12,
                        forall|k: int| 0 <= k < i ==> #[trigger] c@[k] <= CHROMA_BIN_CAP,
                    decreases 12 - i,
                {
                    if c[i] > CHROMA_BIN_CAP {
                        return None;
                    }
                    i = i + 1;
                }
                Some(c)
            },
            None => None,
        };
        Some(AnalysisInput {
            head,
            tail,
            duration_ms,
            max_analyze_ms,
            include_tail,
            chroma,
            loudness_mlufs,
        })
    }
}

/// The effective analysis window for a requested budget: the default where
/// none was given, else the request clamped into the supported range.
pub fn clamp_analyze_window(requested_ms: Option<i64>) -> (r: i64)
    ensures
        r == (match requested_ms {
            None => DEFAULT_ANALYZE_MS as int,
            Some(v) => if v < MIN_ANALYZE_MS {
                MIN_ANALYZE_MS as int
            } else if v > MAX_ANALYZE_MS {
                MAX_ANALYZE_MS as int
            } else {
                v as int
            },
        }),
        MIN_ANALYZE_MS <= r <= MAX_ANALYZE_MS,
{
    match requested_ms {
        None => DEFAULT_ANALYZE_MS,
        Some(v) => {
            if v < MIN_ANALYZE_MS {
                MIN_ANALYZE_MS
            } else if v > MAX_ANALYZE_MS {
                MAX_ANALYZE_MS
            } else {
                v
            }
        },
    }
}

} // verus!
