use fnkey::enhance::{enhance, COEFF_MAX, COEFF_ONE, SAMPLE_ONE};

/// Fixed-point filter coefficient for an 80 Hz cutoff at the given rate.
fn coeff_for_rate(sample_rate: u32) -> i64 {
    let a = (-2.0 * std::f32::consts::PI * 80.0 / sample_rate as f32).exp();
    let c = (a as f64 * COEFF_ONE as f64).round() as i64;
    assert!(0 <= c && c <= COEFF_MAX);
    c
}

/// Fixed-point form of a float sample, clamped to full scale.
fn to_fixed(s: f32) -> i64 {
    let v = (s as f64 * SAMPLE_ONE as f64).round() as i64;
    v.clamp(-SAMPLE_ONE, SAMPLE_ONE)
}

#[test]
fn silence_stays_silence() {
    let coeff = coeff_for_rate(48000);
    for len in [0usize, 1, 17, 1000] {
        let samples = vec![0i64; len];
        let out = enhance(&samples, coeff);
        assert_eq!(out.len(), len);
        assert!(out.iter().all(|&v| v == 0));
    }
}

#[test]
fn empty_input_empty_output() {
    let samples: Vec<i64> = Vec::new();
    let out = enhance(&samples, 0);
    assert!(out.is_empty());
}

#[test]
fn constant_input_becomes_silence() {
    // A constant buffer is pure DC: the mean removal leaves zeros.
    let samples = vec![1000i64; 5];
    let out = enhance(&samples, coeff_for_rate(48000));
    assert_eq!(out, vec![0i64; 5]);
}

#[test]
fn filter_recurrence_concrete() {
    // coeff 0.5: y[0] = 0.5*16384 = 8192, y[1] = 0.5*(8192 - 16384 - 16384).
    let half = COEFF_ONE / 2;
    let samples = vec![16384i64, -16384];
    let out = enhance(&samples, half);
    assert_eq!(out, vec![8192i64, -12288]);
}

#[test]
fn zero_coefficient_blocks_everything() {
    let samples = vec![100i64, -200, 300];
    let out = enhance(&samples, 0);
    assert_eq!(out, vec![0i64, 0, 0]);
}

#[test]
fn tone_output_clamped_and_same_length() {
    let rate = 48000u32;
    let n = rate as usize;
    let samples: Vec<i64> = (0..n)
        .map(|i| {
            let t = i as f32 / rate as f32;
            to_fixed(0.3 * (2.0 * std::f32::consts::PI * 440.0 * t).sin())
        })
        .collect();
    let out = enhance(&samples, coeff_for_rate(rate));
    assert_eq!(out.len(), n);
    assert!(out.iter().all(|&v| -SAMPLE_ONE <= v && v <= SAMPLE_ONE));
    // The tone is well above the cutoff: most of it survives the filter.
    let peak = out.iter().map(|&v| v.abs()).max().unwrap();
    assert!(peak > SAMPLE_ONE / 8, "peak {peak}");
}

#[test]
fn dc_offset_removed_from_tone() {
    let rate = 48000u32;
    let n = 4800usize;
    // Tone with a strong positive DC offset.
    let samples: Vec<i64> = (0..n)
        .map(|i| {
            let t = i as f32 / rate as f32;
            to_fixed(0.4 + 0.2 * (2.0 * std::f32::consts::PI * 440.0 * t).sin())
        })
        .collect();
    let out = enhance(&samples, coeff_for_rate(rate));
    let mean: i64 = out.iter().sum::<i64>() / n as i64;
    assert!(mean.abs() < SAMPLE_ONE / 64, "residual offset {mean}");
}
