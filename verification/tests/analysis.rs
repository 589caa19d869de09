use mt63::analysis::{
    sample_calculations, signal_calculations, window_calculations, GUARD_OFFSET, REFERENCE_UNIT,
};
use mt63::audio::{Audio, Mode, Sample};
use mt63::error::AnalysisError;

/// Reference tone at `freq_hz`, fixed point, entry `k` at time `k / rate`.
fn reference_tone(freq_hz: f64, rate: f64, count: usize) -> Vec<Sample> {
    (0..count)
        .map(|k| {
            let phase = (k as f64) / rate * 2.0 * std::f64::consts::PI * freq_hz;
            Sample {
                sin: (phase.sin() * (REFERENCE_UNIT as f64)).round() as i64,
                cos: (phase.cos() * (REFERENCE_UNIT as f64)).round() as i64,
            }
        })
        .collect()
}

/// A pure tone at `freq_hz`, fixed point, `count` samples long.
fn tone_buffer(freq_hz: f64, rate: f64, count: usize) -> Vec<i64> {
    (0..count)
        .map(|k| {
            let phase = (k as f64) / rate * 2.0 * std::f64::consts::PI * freq_hz;
            (phase.sin() * (REFERENCE_UNIT as f64)).round() as i64
        })
        .collect()
}

#[test]
fn sample_calculation_values_are_exact() {
    // A unit in-phase reference: each record is the amplitude itself, scaled.
    let amplitudes: Vec<i64> = vec![3, -5, 0, 7];
    let reference: Vec<Sample> = vec![Sample { sin: REFERENCE_UNIT, cos: 0 }; 4];
    let r = sample_calculations(&amplitudes, &reference, Mode::TwoK, 8000);
    assert_eq!(r.len(), 4);
    for (k, c) in r.iter().enumerate() {
        assert_eq!(c.sin, amplitudes[k] * REFERENCE_UNIT);
        assert_eq!(c.cos, 0);
        // signal power reproduces the amplitude magnitude, scaled
        assert_eq!(c.signal_power, (amplitudes[k].unsigned_abs()) * (REFERENCE_UNIT as u64));
        // thousandths of a symbol at 20 baud, 8000 Hz: k * 20000 / 8000
        assert_eq!(c.symbol_count, (k as u64) * 20000 / 8000);
    }
}

#[test]
fn window_sums_match_direct_summation() {
    let amplitudes: Vec<i64> = vec![1, 2, 3, 4, 5, 6];
    let reference: Vec<Sample> = vec![Sample { sin: REFERENCE_UNIT, cos: -REFERENCE_UNIT }; 6];
    let samples = sample_calculations(&amplitudes, &reference, Mode::TwoK, 8000);
    let windows = window_calculations(&samples, 3).expect("enough samples");
    assert_eq!(windows.len(), 4);
    for (i, w) in windows.iter().enumerate() {
        let sin_sum: i64 = samples[i..i + 3].iter().map(|c| c.sin).sum();
        let cos_sum: i64 = samples[i..i + 3].iter().map(|c| c.cos).sum();
        assert_eq!(w.sin, sin_sum);
        assert_eq!(w.cos, cos_sum);
        let energy = (w.sin as i128) * (w.sin as i128) + (w.cos as i128) * (w.cos as i128);
        let p = w.signal_power as i128;
        assert!(p * p <= energy && energy < (p + 1) * (p + 1));
    }
}

#[test]
fn window_of_zero_length_is_rejected() {
    let samples = sample_calculations(&[1, 2], &[Sample { sin: 0, cos: 0 }; 2], Mode::TwoK, 8000);
    assert_eq!(window_calculations(&samples, 0), Err(AnalysisError::EmptyWindow));
}

#[test]
fn window_longer_than_input_is_rejected() {
    let samples = sample_calculations(&[1, 2], &[Sample { sin: 0, cos: 0 }; 2], Mode::TwoK, 8000);
    assert_eq!(window_calculations(&samples, 3), Err(AnalysisError::InsufficientSamples));
}

#[test]
fn detector_rejects_degenerate_window() {
    // 15 Hz sampling cannot hold a 20 baud symbol: window size 0
    let audio = Audio::new(vec![0; 4000], 15);
    let r = signal_calculations(&audio, &[], 0);
    assert_eq!(r, Err(AnalysisError::EmptyWindow));
}

#[test]
fn detector_rejects_short_buffer() {
    // 600 samples cannot hold the 500-sample lead-in plus one 400-sample window
    let audio = Audio::new(vec![0; 600], 8000);
    let reference = reference_tone(1000.0, 8000.0, 100);
    let r = signal_calculations(&audio, &reference, 0);
    assert_eq!(r, Err(AnalysisError::InsufficientSamples));
}

#[test]
fn detector_output_is_paired_and_truncated() {
    let n: usize = 1500;
    let audio = Audio::new(tone_buffer(1000.0, 8000.0, n), 8000);
    let reference = reference_tone(1000.0, 8000.0, n - GUARD_OFFSET);
    let r = signal_calculations(&audio, &reference, 0).expect("long enough");
    // N per-sample records, N - W + 1 windows, paired index for index
    assert_eq!(r.len(), (n - GUARD_OFFSET) - 400 + 1);
    let samples = sample_calculations(
        &audio.data[GUARD_OFFSET..],
        &reference,
        Mode::TwoK,
        8000,
    );
    for (i, c) in r.iter().enumerate() {
        assert_eq!(c.sample, samples[i]);
    }
}

#[test]
fn detector_discriminates_tones() {
    // A steady 1000 Hz tone at 8000 Hz: per-window power against a matching
    // reference is roughly constant and far above the power against a
    // reference far from the tone.
    let n: usize = 10000;
    let audio = Audio::new(tone_buffer(1000.0, 8000.0, n), 8000);
    let count = n - GUARD_OFFSET;

    let near = reference_tone(1000.0, 8000.0, count);
    let matched = signal_calculations(&audio, &near, 0).expect("long enough");
    let far = reference_tone(3000.0, 8000.0, count);
    let unmatched = signal_calculations(&audio, &far, 0).expect("long enough");
    assert_eq!(matched.len(), unmatched.len());

    let matched_powers: Vec<u64> = matched.iter().map(|c| c.window.signal_power).collect();
    let min = *matched_powers.iter().min().unwrap();
    let max = *matched_powers.iter().max().unwrap();
    assert!(min > 0);
    // steady-state tone: the integrated power hardly moves between windows
    assert!(max < 2 * min, "matched power swings: {min}..{max}");
    for (m, u) in matched.iter().zip(unmatched.iter()) {
        assert!(
            m.window.signal_power > 100 * u.window.signal_power,
            "no discrimination: {} vs {}",
            m.window.signal_power,
            u.window.signal_power
        );
    }
}
