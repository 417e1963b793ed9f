use mixplan::envelope::Envelope;
use mixplan::record::AnalysisInput;
use mixplan::record::clamp_analyze_window;
use mixplan::synthesize::synthesize_features;

fn env_of(rms: Vec<u32>, ratio: Vec<u32>) -> Envelope {
    let low = vec![0u32; rms.len()];
    Envelope::new(rms, low, ratio).expect("well-formed envelope")
}

fn empty_env() -> Envelope {
    Envelope::new(vec![], vec![], vec![]).unwrap()
}

#[test]
fn analyze_window_clamps() {
    assert_eq!(clamp_analyze_window(None), 60_000);
    assert_eq!(clamp_analyze_window(Some(1_000)), 5_000);
    assert_eq!(clamp_analyze_window(Some(500_000)), 300_000);
    assert_eq!(clamp_analyze_window(Some(120_000)), 120_000);
}

#[test]
fn input_rejects_overlapping_windows() {
    let head = env_of(vec![0u32; 100], vec![0u32; 100]);
    let tail = env_of(vec![0u32; 100], vec![0u32; 100]);
    // 100 + 100 frames are 4 s of audio; a 3 s track cannot hold them.
    assert!(AnalysisInput::new(head, tail, 3_000, 60_000, true, None, None).is_none());
}

#[test]
fn input_rejects_tail_on_short_track() {
    let head = env_of(vec![0u32; 100], vec![0u32; 100]);
    let tail = env_of(vec![0u32; 10], vec![0u32; 10]);
    // A tail exists only when the track is longer than two windows.
    assert!(AnalysisInput::new(head, tail, 100_000, 60_000, true, None, None).is_none());
}

#[test]
fn silent_track_has_zero_edges_and_no_vocals() {
    let head = env_of(vec![0u32; 300], vec![0u32; 300]);
    let input = AnalysisInput::new(head, empty_env(), 6_000, 5_000, true, None, None).unwrap();
    let r = synthesize_features(&input);
    assert_eq!(r.fade_in_ms, 0);
    assert_eq!(r.fade_out_ms, 0);
    assert_eq!(r.vocal_in_ms, None);
    assert_eq!(r.vocal_out_ms, None);
    assert_eq!(r.vocal_last_in_ms, None);
    assert_eq!(r.version, 11);
}

#[test]
fn energy_profile_has_one_cell_per_hundred_millis() {
    let head = env_of(vec![500_000u32; 300], vec![0u32; 300]);
    let input = AnalysisInput::new(head, empty_env(), 6_010, 5_000, true, None, None).unwrap();
    let r = synthesize_features(&input);
    // ceil(6010 / 100) cells.
    assert_eq!(r.energy_profile.len(), 61);
    assert!(r.energy_profile[0..60].iter().all(|&v| v == 500_000));
}

#[test]
fn record_orders_its_fields() {
    let mut rms = vec![0u32; 400];
    let mut ratio = vec![0u32; 400];
    for i in 50..350 {
        rms[i] = 400_000;
    }
    for i in 120..240 {
        ratio[i] = 300_000;
    }
    let head = env_of(rms, ratio);
    let input = AnalysisInput::new(head, empty_env(), 8_000, 5_000, true, None, None).unwrap();
    let r = synthesize_features(&input);
    assert!(0 <= r.fade_in_ms && r.fade_in_ms <= r.fade_out_ms && r.fade_out_ms <= r.duration_ms);
    assert!(0 <= r.mix_start_ms && r.mix_start_ms <= r.mix_center_ms);
    assert!(r.mix_center_ms <= r.mix_end_ms && r.mix_end_ms <= r.duration_ms);
    assert_eq!(r.fade_in_ms, 1_000);
    assert_eq!(r.fade_out_ms, 7_000);
    // The 2.4 s vocal stretch is found whole.
    assert_eq!(r.vocal_in_ms, Some(2_400));
    assert_eq!(r.vocal_last_in_ms, Some(2_400));
    assert_eq!(r.vocal_out_ms, Some(4_780));
    assert_eq!(r.camelot_key, None);
}

#[test]
fn head_only_analysis_hides_tail_fields() {
    let mut rms = vec![0u32; 400];
    for i in 0..400 {
        rms[i] = 300_000;
    }
    let head = env_of(rms, vec![0u32; 400]);
    let input = AnalysisInput::new(head, empty_env(), 8_000, 5_000, false, None, None).unwrap();
    let r = synthesize_features(&input);
    assert_eq!(r.fade_out_ms, 8_000);
    assert_eq!(r.vocal_out_ms, None);
    assert_eq!(r.cut_out_ms, None);
    assert_eq!(r.outro_energy_sq, None);
}

#[test]
fn tail_window_maps_to_absolute_time() {
    // A 20 s track scanned with a 5 s window: 6 s of head, 4 s of tail.
    let head = env_of(vec![300_000u32; 300], vec![0u32; 300]);
    let tail = env_of(vec![300_000u32; 200], vec![0u32; 200]);
    let input = AnalysisInput::new(head, tail, 20_000, 5_000, true, None, None).unwrap();
    let r = synthesize_features(&input);
    assert_eq!(r.fade_in_ms, 0);
    // The tail is audible to its very end.
    assert_eq!(r.fade_out_ms, 20_000);
    // No tempo: the cut-out is the search end, half a second early.
    assert_eq!(r.cut_out_ms, Some(19_500));
    // Outro mean square of a constant 0.3 level.
    assert_eq!(r.outro_energy_sq, Some(90_000_000_000));
    assert_eq!(r.energy_profile.len(), 200);
    // Head cells, the unscanned middle, and tail cells.
    assert_eq!(r.energy_profile[30], 300_000);
    assert_eq!(r.energy_profile[100], 0);
    assert_eq!(r.energy_profile[180], 300_000);
}

#[test]
fn silent_tail_falls_back_to_head_edge() {
    // Audible head, silent decoded tail: the fade-out is the head's edge,
    // not the tail window's start.
    let head = env_of(vec![300_000u32; 300], vec![0u32; 300]);
    let tail = env_of(vec![0u32; 200], vec![0u32; 200]);
    let input = AnalysisInput::new(head, tail, 20_000, 5_000, true, None, None).unwrap();
    let r = synthesize_features(&input);
    assert_eq!(r.fade_out_ms, 6_000);
    assert_eq!(r.outro_energy_sq, None);
}

#[test]
fn silent_track_with_tail_has_zero_edges() {
    let head = env_of(vec![0u32; 300], vec![0u32; 300]);
    let tail = env_of(vec![0u32; 200], vec![0u32; 200]);
    let input = AnalysisInput::new(head, tail, 20_000, 5_000, true, None, None).unwrap();
    let r = synthesize_features(&input);
    assert_eq!(r.fade_in_ms, 0);
    assert_eq!(r.fade_out_ms, 0);
    assert_eq!(r.vocal_in_ms, None);
    assert_eq!(r.vocal_out_ms, None);
    assert_eq!(r.vocal_last_in_ms, None);
}

#[test]
fn same_input_gives_identical_records() {
    let mut rms = vec![0u32; 400];
    for i in 10..390 {
        rms[i] = 250_000;
    }
    let head = env_of(rms, vec![0u32; 400]);
    let a = AnalysisInput::new(head.clone(), empty_env(), 8_000, 5_000, true, None, Some(-9_500))
        .unwrap();
    let b = AnalysisInput::new(head, empty_env(), 8_000, 5_000, true, None, Some(-9_500)).unwrap();
    assert_eq!(synthesize_features(&a), synthesize_features(&b));
}
