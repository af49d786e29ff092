use oxygen::clip::AudioClip;
use oxygen::spectrum::{intensity_q16, mel_row};

fn clip_with(samples: Vec<f32>, rate: u32) -> AudioClip {
    AudioClip {
        id: None,
        name: "spec".to_string(),
        date: "2024-01-01 00:00:00 UTC".to_string(),
        samples: samples.into_iter().map(f32::to_bits).collect(),
        sample_rate: rate,
    }
}

#[test]
fn test_spectrogram_buffer_shape() {
    let samples: Vec<f32> = (0..12000)
        .map(|i| (2.0 * std::f32::consts::PI * 440.0 * (i as f32) / 12000.0).sin())
        .collect();
    let clip = clip_with(samples, 12000);
    let n = clip.samples.len();
    for (w, h) in [(16usize, 12usize), (7, 5), (1, 1)] {
        let buf = clip.render_spectrogram((0, n), w, h).unwrap();
        assert_eq!(buf.len(), w * h * 4);
    }
}

#[test]
fn test_spectrogram_window_count() {
    let clip = clip_with(vec![0.25; 4000], 12000);
    // Windows start at 0 and advance by 200 while a whole 2048-sample
    // window starts strictly before the end.
    let spectra = clip.spectrogram((0, 4000)).unwrap();
    assert_eq!(spectra.len(), (4000 - 2048 - 1) / 200 + 1);
    for s in &spectra {
        assert_eq!(s.len(), 1024);
    }
}

#[test]
fn test_spectrogram_short_clip_has_no_windows() {
    let clip = clip_with(vec![0.25; 1000], 12000);
    let spectra = clip.spectrogram((0, 1000)).unwrap();
    assert_eq!(spectra.len(), 0);
}

#[test]
fn test_spectrogram_tone_peaks_at_its_bin() {
    // A 440 Hz tone at 12 kHz concentrates energy near bin
    // 440 * 2048 / 12000.
    let samples: Vec<f32> = (0..6000)
        .map(|i| (2.0 * std::f32::consts::PI * 440.0 * (i as f32) / 12000.0).sin())
        .collect();
    let clip = clip_with(samples, 12000);
    let spectra = clip.spectrogram((0, 6000)).unwrap();
    assert!(!spectra.is_empty());
    let mags: Vec<f32> = spectra[0].iter().map(|b| f32::from_bits(*b)).collect();
    let peak = mags
        .iter()
        .enumerate()
        .max_by(|a, b| a.1.partial_cmp(b.1).unwrap())
        .unwrap()
        .0;
    let expected = 440 * 2048 / 12000;
    assert!((peak as i64 - expected as i64).abs() <= 2, "peak at {}", peak);
}

#[test]
fn test_intensity_of_unit_magnitude() {
    // A magnitude of 1.0 sits at 0 dB: 80 of the 100 dB span, which in
    // Q16 is 0.8 * 65536 truncated.
    assert_eq!(intensity_q16(1.0f32.to_bits()), 52428);
    // Silence clamps to the floor.
    assert_eq!(intensity_q16(0.0f32.to_bits()), 0);
    // Loud magnitudes clamp to full scale.
    assert_eq!(intensity_q16(1000.0f32.to_bits()), 65536);
}

#[test]
fn test_mel_rows_monotone_in_frequency() {
    let h = 100;
    assert_eq!(mel_row(0, h), 0);
    let mut prev = 0;
    for i in 0..1024 {
        let r = mel_row(i, h);
        assert!(r >= prev);
        assert!(r <= h);
        prev = r;
    }
    assert!(prev > 90, "highest bin lands near the top, got {}", prev);
}
