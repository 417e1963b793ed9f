use mixplan::key::detect_key_from_chroma;
use num_complex::Complex32;
use rustfft::FftPlanner;

fn gen_chord(sample_rate: u32, seconds: f32, freqs: &[f32]) -> Vec<f32> {
    let len = (sample_rate as f32 * seconds) as usize;
    let mut out = vec![0.0f32; len];
    let sr = sample_rate as f32;
    for i in 0..len {
        let t = i as f32 / sr;
        let mut v = 0.0f32;
        for &f in freqs {
            v += (2.0 * std::f32::consts::PI * f * t).sin();
        }
        out[i] = v / freqs.len() as f32;
    }
    out
}

/// Hann-windowed FFT chroma of mono PCM, scaled into the scorer's integer
/// range.
fn chroma_of(pcm: &[f32], sample_rate: u32) -> Vec<u64> {
    let frame_size = 4096usize;
    let hop_size = 1024usize;
    let sr = sample_rate as f32;
    let mut window = vec![0.0f32; frame_size];
    let denom = (frame_size - 1) as f32;
    for (i, w) in window.iter_mut().enumerate() {
        *w = 0.5 - 0.5 * (2.0 * std::f32::consts::PI * (i as f32) / denom).cos();
    }
    let half = frame_size / 2;
    let mut bin_to_pc: Vec<Option<usize>> = vec![None; half];
    let bin_hz = sr / frame_size as f32;
    for bin in 1..half {
        let hz = bin as f32 * bin_hz;
        if hz < 80.0 || hz > 5000.0 {
            continue;
        }
        let midi = 69.0 + 12.0 * ((hz / 440.0).ln() / std::f32::consts::LN_2);
        bin_to_pc[bin] = Some((midi.round() as i32).rem_euclid(12) as usize);
    }
    let mut planner = FftPlanner::<f32>::new();
    let fft = planner.plan_fft_forward(frame_size);
    let mut buffer = vec![Complex32::new(0.0, 0.0); frame_size];
    let mut chroma = [0.0f32; 12];
    let mut start = 0usize;
    while start + frame_size <= pcm.len() {
        for i in 0..frame_size {
            buffer[i] = Complex32::new(pcm[start + i] * window[i], 0.0);
        }
        fft.process(&mut buffer);
        for bin in 1..half {
            if let Some(pc) = bin_to_pc[bin] {
                let c = buffer[bin];
                chroma[pc] += c.re * c.re + c.im * c.im;
            }
        }
        start += hop_size;
    }
    let max = chroma.iter().cloned().fold(0.0f32, f32::max);
    if max <= 0.0 {
        return vec![0u64; 12];
    }
    chroma
        .iter()
        .map(|&v| ((v / max) as f64 * 1_000_000_000.0) as u64)
        .collect()
}

#[test]
fn detects_c_major_chord() {
    let sr = 44_100;
    let pcm = gen_chord(sr, 2.0, &[261.63, 329.63, 392.00]);
    let (root, mode, conf) = detect_key_from_chroma(&chroma_of(&pcm, sr));
    assert_eq!(root, Some(0));
    assert_eq!(mode, Some(0));
    assert!(conf.unwrap_or(0) > 50);
}

#[test]
fn detects_a_minor_chord() {
    let sr = 44_100;
    let pcm = gen_chord(sr, 2.0, &[220.00, 261.63, 329.63]);
    let (root, mode, conf) = detect_key_from_chroma(&chroma_of(&pcm, sr));
    assert_eq!(root, Some(9));
    assert_eq!(mode, Some(1));
    assert!(conf.unwrap_or(0) > 50);
}

#[test]
fn silent_chroma_has_no_key() {
    assert_eq!(detect_key_from_chroma(&vec![0u64; 12]), (None, None, None));
}

#[test]
fn synthetic_major_chroma() {
    // Energy concentrated on C, E and G fits C major best.
    let mut c = vec![0u64; 12];
    c[0] = 1_000_000_000;
    c[4] = 800_000_000;
    c[7] = 900_000_000;
    let (root, mode, conf) = detect_key_from_chroma(&c);
    assert_eq!(root, Some(0));
    assert_eq!(mode, Some(0));
    assert!(conf.unwrap() <= 1000);
}
