use mixplan::envelope::Envelope;
use mixplan::envelope::detect_drop_pos;
use mixplan::envelope::detect_silence_from_envelope;
use mixplan::envelope::detect_vocal_in;
use mixplan::envelope::detect_vocal_out_fallback;
use mixplan::envelope::detect_vocal_segment;
use mixplan::envelope::outro_mean_square;
use mixplan::envelope::SILENCE_THRESHOLD_MICRO;

fn env_of(rms: Vec<u32>, ratio: Vec<u32>) -> Envelope {
    let low = vec![0u32; rms.len()];
    Envelope::new(rms, low, ratio).expect("well-formed envelope")
}

#[test]
fn envelope_rejects_mismatched_series() {
    assert!(Envelope::new(vec![0, 0], vec![0], vec![0, 0]).is_none());
    assert!(Envelope::new(vec![2_000_000], vec![0], vec![0]).is_none());
}

#[test]
fn silence_edges_of_a_plain_window() {
    let mut rms = vec![0u32; 50];
    for i in 10..40 {
        rms[i] = 100_000;
    }
    let ratio = vec![0u32; 50];
    let env = env_of(rms, ratio);
    assert_eq!(detect_silence_from_envelope(&env, SILENCE_THRESHOLD_MICRO), (10, 40));
}

#[test]
fn silence_edges_of_a_silent_window() {
    let env = env_of(vec![0u32; 50], vec![0u32; 50]);
    assert_eq!(detect_silence_from_envelope(&env, SILENCE_THRESHOLD_MICRO), (0, 0));
}

#[test]
fn vocal_in_needs_five_frames() {
    let mut rms = vec![0u32; 40];
    let mut ratio = vec![0u32; 40];
    // A four-frame burst at 5 does not count; the run from 20 does.
    for i in 5..9 {
        rms[i] = 50_000;
        ratio[i] = 300_000;
    }
    for i in 20..30 {
        rms[i] = 50_000;
        ratio[i] = 300_000;
    }
    let env = env_of(rms, ratio);
    assert_eq!(detect_vocal_in(&env), Some(20));
}

#[test]
fn vocal_segment_prefers_last_long_run() {
    let n = 500;
    let mut rms = vec![0u32; n];
    let mut ratio = vec![0u32; n];
    // A long run at 100..=250 and a short late burst at 400..=420.
    for i in 100..=250 {
        rms[i] = 50_000;
        ratio[i] = 300_000;
    }
    for i in 400..=420 {
        rms[i] = 50_000;
        ratio[i] = 300_000;
    }
    let env = env_of(rms, ratio);
    assert_eq!(detect_vocal_segment(&env), Some((100, 250)));
    // The fallback sees the late burst instead.
    assert_eq!(detect_vocal_out_fallback(&env), Some(420));
}

#[test]
fn drop_detector_finds_the_surge() {
    let n = 600;
    let mut rms = vec![10_000u32; n];
    for i in 300..n {
        rms[i] = 500_000;
    }
    let ratio = vec![0u32; n];
    let env = env_of(rms, ratio);
    let drop = detect_drop_pos(&env).expect("surge expected");
    // The strongest before/after contrast sits at the step.
    assert!(298 <= drop && drop <= 302, "drop at {drop}");
}

#[test]
fn drop_detector_quiet_track_has_none() {
    let env = env_of(vec![100_000u32; 600], vec![0u32; 600]);
    assert_eq!(detect_drop_pos(&env), None);
}

#[test]
fn outro_mean_square_is_the_slice_mean() {
    let rms = vec![1000u32; 100];
    let env = env_of(rms, vec![0u32; 100]);
    // Mean of 1000^2 over the last up-to-500 frames ending at 100.
    assert_eq!(outro_mean_square(&env, 100), Some(1_000_000));
    assert_eq!(outro_mean_square(&env, 0), None);
}
