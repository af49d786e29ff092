use oxygen::clip::AudioClip;

fn clip_with(samples: Vec<f32>, rate: u32) -> AudioClip {
    AudioClip {
        id: Some(7),
        name: "clip".to_string(),
        date: "2024-01-01 00:00:00 UTC".to_string(),
        samples: samples.into_iter().map(f32::to_bits).collect(),
        sample_rate: rate,
    }
}

#[test]
fn test_resample_identity_same_rate() {
    let clip = clip_with(vec![0.1, -0.2, 0.3], 44100);
    let out = clip.resample(44100);
    assert_eq!(out.id, clip.id);
    assert_eq!(out.name, clip.name);
    assert_eq!(out.date, clip.date);
    assert_eq!(out.sample_rate, clip.sample_rate);
    assert_eq!(out.samples, clip.samples);
}

#[test]
fn test_resample_length_formula() {
    let clip = clip_with(vec![0.0; 1000], 48000);
    assert_eq!(clip.resample(12000).samples.len(), 1000 * 12000 / 48000);
    assert_eq!(clip.resample(16000).samples.len(), 1000 * 16000 / 48000);
    let odd = clip_with(vec![0.0; 7], 3);
    assert_eq!(odd.resample(2).samples.len(), 7 * 2 / 3);
}

#[test]
fn test_resample_short_input_yields_empty() {
    let one = clip_with(vec![0.5], 48000);
    assert_eq!(one.resample(12000).samples.len(), 0);
    let none = clip_with(vec![], 48000);
    assert_eq!(none.resample(12000).samples.len(), 0);
}

#[test]
fn test_resample_preserves_constant_signal() {
    let clip = clip_with(vec![0.5; 100], 24000);
    let out = clip.resample(48000);
    assert_eq!(out.samples.len(), 200);
    // Every position but the last interpolates between equal samples;
    // the last one interpolates toward the zero beyond the buffer.
    for s in &out.samples[..199] {
        assert_eq!(f32::from_bits(*s), 0.5);
    }
    assert_eq!(f32::from_bits(out.samples[199]), 0.25);
}

#[test]
fn test_resample_downsample_picks_alternate_samples() {
    // At an exact 2:1 ratio every output position lands on an input
    // sample, so interpolation returns it unchanged.
    let values = vec![0.0, 0.25, 0.5, 0.75, -0.5, -0.25, 0.125, 1.0];
    let clip = clip_with(values.clone(), 48000);
    let out = clip.resample(24000);
    assert_eq!(out.samples.len(), 4);
    for (j, s) in out.samples.iter().enumerate() {
        assert_eq!(f32::from_bits(*s), values[2 * j]);
    }
}

#[test]
fn test_num_samples() {
    let clip = clip_with(vec![0.0, 1.0, -1.0], 8000);
    assert_eq!(clip.num_samples(), 3);
}
