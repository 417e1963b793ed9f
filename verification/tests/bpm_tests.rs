use mixplan::envelope::Envelope;
use mixplan::bpm::detect_bpm_from_envelope;

fn pulse_train(n: usize, period: usize) -> Envelope {
    let mut rms = vec![0u32; n];
    let mut low = vec![0u32; n];
    for i in (0..n).step_by(period) {
        rms[i] = 800_000;
        low[i] = 600_000;
    }
    let ratio = vec![0u32; n];
    Envelope::new(rms, low, ratio).expect("well-formed envelope")
}

#[test]
fn pulse_train_at_120_bpm() {
    // Beats every 25 frames at 50 Hz are 120 BPM, with the downbeat at 0.
    let env = pulse_train(600, 25);
    let (bpm, conf, first_beat) = detect_bpm_from_envelope(&env);
    assert_eq!(bpm, Some(120_000));
    assert!(conf.unwrap() > 400);
    assert_eq!(first_beat, Some(0));
}

#[test]
fn pulse_train_at_150_bpm() {
    // Beats every 20 frames are 150 BPM.
    let env = pulse_train(600, 20);
    let (bpm, _, _) = detect_bpm_from_envelope(&env);
    assert_eq!(bpm, Some(150_000));
}

#[test]
fn short_window_has_no_tempo() {
    let env = pulse_train(100, 25);
    assert_eq!(detect_bpm_from_envelope(&env), (None, None, None));
}

#[test]
fn flat_window_has_no_tempo() {
    let env = Envelope::new(vec![5000u32; 600], vec![0u32; 600], vec![0u32; 600]).unwrap();
    assert_eq!(detect_bpm_from_envelope(&env), (None, None, None));
}
