use mixplan::record::FeatureRecord;
use mixplan::planner::suggest_transition;
use mixplan::longmix::suggest_long_mix;

/// A plain record for a steady club track.
fn record(duration_ms: i64, bpm_mbpm: u64, camelot: &str) -> FeatureRecord {
    let cells = ((duration_ms + 99) / 100) as usize;
    FeatureRecord {
        duration_ms,
        bpm_mbpm: Some(bpm_mbpm),
        bpm_confidence_pm: Some(900),
        first_beat_ms: Some(0),
        fade_in_ms: 0,
        fade_out_ms: duration_ms,
        drop_ms: Some(30_000),
        vocal_in_ms: Some(70_000),
        vocal_out_ms: Some(duration_ms - 30_000),
        vocal_last_in_ms: Some(duration_ms - 60_000),
        cut_in_ms: Some(16_000),
        cut_out_ms: Some(duration_ms - 80_000),
        mix_center_ms: duration_ms - 20_000,
        mix_start_ms: duration_ms - 30_000,
        mix_end_ms: duration_ms - 10_000,
        energy_profile: vec![100_000; cells],
        loudness_mlufs: Some(-9_000),
        outro_energy_sq: None,
        key_root: Some(0),
        key_mode: Some(0),
        key_confidence_pm: Some(500),
        camelot_key: Some(camelot.to_owned()),
        analyze_window_ms: 60_000,
        version: 11,
    }
}

#[test]
fn compatible_tracks_get_a_harmonic_blend() {
    let a = record(300_000, 128_000, "8B");
    let b = record(300_000, 128_000, "9B");
    let p = suggest_transition(&a, &b).expect("plan expected");
    assert!(p.bpm_compatible);
    assert!(p.key_compatible);
    assert_eq!(p.mix_type, "Harmonic Deep Blend (32 Bars)");
    assert_eq!(p.filter_strategy, "Eq Swap (Bass/Mid)");
    // 32 bars at 128 BPM are exactly 60 s.
    assert_eq!(p.duration_ms, 60_000);
    // 0.5 + 0.3 (tempo) + 0.1 (key) + 0.1 (length) = 1.0.
    assert_eq!(p.compatibility_score_pm, 1000);
}

#[test]
fn tempo_only_match_swaps_bass() {
    let a = record(300_000, 128_000, "8B");
    let b = record(300_000, 128_000, "3A");
    let p = suggest_transition(&a, &b).expect("plan expected");
    assert!(p.bpm_compatible);
    assert!(!p.key_compatible);
    assert_eq!(p.mix_type, "Long Filter Blend (32 Bars)");
    assert_eq!(p.filter_strategy, "Bass Swap / LPF");
    assert_eq!(p.compatibility_score_pm, 900);
}

#[test]
fn incompatible_tempos_still_blend_short() {
    let a = record(300_000, 128_000, "8B");
    let b = record(300_000, 100_000, "8B");
    let p = suggest_transition(&a, &b).expect("plan expected");
    assert!(!p.bpm_compatible);
    // 32- and 16-bar blends need the tempo match; 8 bars do not.
    assert_eq!(p.mix_type, "Short Blend (8 Bars)");
    assert_eq!(p.filter_strategy, "Wash Out / Echo");
}

#[test]
fn score_stays_in_range() {
    let a = record(300_000, 128_000, "8B");
    let b = record(300_000, 170_000, "4A");
    if let Some(p) = suggest_transition(&a, &b) {
        assert!(p.compatibility_score_pm <= 1000);
        assert!(p.duration_ms > 0);
        assert!(p.next_track_mix_in_ms >= 0);
        assert!(p.current_track_mix_out_ms >= 0);
    }
}

#[test]
fn long_mix_rate_and_shift() {
    let a = record(300_000, 128_000, "8B");
    let b = record(300_000, 160_000, "10B");
    let p = suggest_long_mix(&a, &b).expect("always plans");
    // 128 / 160 in millionths.
    assert_eq!(p.playback_rate_ppm, 800_000);
    // D (10B) down to C (8B) is minus two semitones.
    assert_eq!(p.pitch_shift_semitones, -2);
    assert_eq!(p.strategy, "Long Harmonic Bass Swap");
    assert_eq!(p.automation_current.len(), 5);
    assert_eq!(p.automation_next.len(), 5);
}

#[test]
fn long_mix_automation_brackets_duration() {
    let a = record(300_000, 120_000, "8B");
    let b = record(300_000, 120_000, "8B");
    let p = suggest_long_mix(&a, &b).expect("always plans");
    if p.duration_ms >= 4000 {
        let pts = &p.automation_current;
        assert_eq!(pts[0].time_offset_ms, 0);
        assert_eq!(pts[4].time_offset_ms, p.duration_ms);
        for w in pts.windows(2) {
            assert!(w[0].time_offset_ms <= w[1].time_offset_ms);
        }
        for pt in pts.iter() {
            assert!(pt.volume_pm <= 1000 && pt.low_cut_pm <= 1000 && pt.high_cut_pm <= 1000);
        }
    }
}
