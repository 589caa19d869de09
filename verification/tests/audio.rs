use mt63::analysis::REFERENCE_UNIT;
use mt63::audio::{Audio, AudioWindow, Mode, OwnedAudioWindow, Sample};
use mt63::error::AnalysisError;

/// A synthetic stand-in for a decoded waveform: a quiet 8 kHz buffer long
/// enough to window into.
fn test_audio(len: usize) -> Audio {
    let data: Vec<i64> = (0..len).map(|k| ((k % 41) as i64) - 20).collect();
    Audio::new(data, 8000)
}

#[test]
fn window_at_offset() {
    let audio = test_audio(2000);
    let offset = 500;
    let window = audio.window_at(offset).expect("Should get window");
    // Sample rate = 8000, baud rate = 20, thus sample rate / baud rate
    let expected_len = 400;
    assert_eq!(window.data.len(), expected_len);
}

#[test]
fn sin_cos_at_freq() {
    let audio = test_audio(2000);
    let reference: Vec<Sample> = (0..audio.len())
        .map(|k| {
            let phase = (k as f64) / 8000.0 * 2.0 * std::f64::consts::PI * 781.25;
            Sample {
                sin: (phase.sin() * (REFERENCE_UNIT as f64)) as i64,
                cos: (phase.cos() * (REFERENCE_UNIT as f64)) as i64,
            }
        })
        .collect();
    let sin_cos = audio.sin_cos_at_freq(&reference);
    assert_eq!(sin_cos.len(), audio.len());
}

#[test]
fn sin_cos_at_freq_scales_reference_by_amplitude() {
    let audio = Audio::new(vec![2, -3, 0], 8000);
    let reference = vec![
        Sample { sin: 100, cos: -7 },
        Sample { sin: -50, cos: 11 },
        Sample { sin: 9, cos: 13 },
    ];
    let r = audio.sin_cos_at_freq(&reference);
    assert_eq!(r.len(), 3);
    assert_eq!((r[0].sin, r[0].cos), (200, -14));
    assert_eq!((r[1].sin, r[1].cos), (150, -33));
    assert_eq!((r[2].sin, r[2].cos), (0, 0));
}

#[test]
fn audio_window_sub() {
    let audio = test_audio(2000);
    let offset = 500;
    let window = audio.window_at(offset).expect("Should get window");
    let new_window = window.difference(&window).expect("Should get window");
    assert!(new_window.data.iter().all(|&x| x == 0));
}

#[test]
fn window_at_end_of_buffer_is_out_of_range() {
    let audio = test_audio(1000);
    // 601 + 400 > 1000, one sample past the last full window
    assert!(matches!(audio.window_at(601), Err(AnalysisError::OutOfRange)));
    assert!(audio.window_at(600).is_ok());
}

#[test]
fn difference_of_unequal_lengths_is_shape_mismatch() {
    let short = OwnedAudioWindow { data: vec![1, 2, 3], sample_rate: 8000 };
    let long = OwnedAudioWindow { data: vec![1, 2, 3, 4], sample_rate: 8000 };
    let r = short.as_audio_window().difference(&long.as_audio_window());
    assert!(matches!(r, Err(AnalysisError::ShapeMismatch)));
}

#[test]
fn difference_subtracts_elementwise() {
    let a = OwnedAudioWindow { data: vec![10, -4, 7], sample_rate: 8000 };
    let b = OwnedAudioWindow { data: vec![3, 5, -2], sample_rate: 8000 };
    let d = a
        .as_audio_window()
        .difference(&b.as_audio_window())
        .expect("equal lengths");
    assert_eq!(d.data, vec![7, -9, 9]);
    assert_eq!(d.sample_rate, 8000);
}

#[test]
fn to_owned_copies_the_span() {
    let audio = test_audio(1200);
    let window = audio.window_at(100).expect("Should get window");
    let owned = window.to_owned();
    assert_eq!(owned.data.len(), window.len());
    assert_eq!(owned.sample_rate, 8000);
    for (k, v) in owned.data.iter().enumerate() {
        assert_eq!(*v, window.data[k]);
    }
}

#[test]
fn window_view_borrows_owned_data() {
    let owned = OwnedAudioWindow { data: vec![5, 6, 7], sample_rate: 11025 };
    let view: AudioWindow = owned.as_audio_window();
    assert_eq!(view.len(), 3);
    assert!(!view.is_empty());
    assert_eq!(view.sample_rate, 11025);
}

#[test]
fn mode_rates_and_intervals() {
    assert_eq!(Mode::OneK.baud_rate(), 10);
    assert_eq!(Mode::TwoK.baud_rate(), 20);
    assert_eq!(Mode::OneK.symbol_interval(), 100);
    assert_eq!(Mode::TwoK.symbol_interval(), 50);
    assert_eq!(Mode::default(), Mode::TwoK);
}

#[test]
fn window_size_is_rate_over_baud() {
    // sample_rate = 8000, TwoK baud = 20: floor(8000 / 20) = 400
    assert_eq!(Mode::TwoK.window_size(8000), 400);
    assert_eq!(Mode::OneK.window_size(8000), 800);
    // a sample rate below the baud rate gives a degenerate window
    assert_eq!(Mode::TwoK.window_size(19), 0);
}
