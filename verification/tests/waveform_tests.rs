use oxygen::clip::AudioClip;
use oxygen::waveform::{rasterize_waveform, DisplayColumn};

fn clip_with(samples: Vec<f32>, rate: u32) -> AudioClip {
    AudioClip {
        id: None,
        name: "clip".to_string(),
        date: "2024-01-01 00:00:00 UTC".to_string(),
        samples: samples.into_iter().map(f32::to_bits).collect(),
        sample_rate: rate,
    }
}

#[test]
fn test_render_with_zero_samples() {
    let clip = AudioClip {
        id: Some(1),
        name: "Name".into(),
        date: "2024-01-01 00:00:00 UTC".into(),
        samples: vec![],
        sample_rate: 44100,
    };
    assert_eq!(clip.render_waveform((0, 0), 100).len(), 100);
    assert_eq!(clip.render_waveform((0, 0), 0).len(), 0);
    assert_eq!(clip.render_waveform((100, 0), 0).len(), 0);
    assert_eq!(clip.render_waveform((100, 200), 100).len(), 100);
}

#[test]
fn test_waveform_determinism_two_pixels() {
    let clip = clip_with(vec![-1.0, 1.0], 44100);
    let cols = clip.render_waveform((0, 2), 2);
    assert_eq!(cols.len(), 2);
    assert_eq!(f32::from_bits(cols[0].min), -1.0);
    assert_eq!(f32::from_bits(cols[0].max), -1.0);
    assert_eq!(f32::from_bits(cols[1].min), 1.0);
    assert_eq!(f32::from_bits(cols[1].max), 1.0);
}

#[test]
fn test_waveform_empty_range_is_silence() {
    let clip = clip_with(vec![0.25, -0.5, 0.75], 44100);
    let cols = clip.render_waveform((2, 2), 5);
    assert_eq!(cols.len(), 5);
    for col in cols {
        assert_eq!(f32::from_bits(col.min), 0.0);
        assert_eq!(f32::from_bits(col.max), 0.0);
    }
}

#[test]
fn test_waveform_values_clamped() {
    let clip = clip_with(vec![-3.5, 4.0, 0.5], 44100);
    let cols = clip.render_waveform((0, 3), 1);
    assert_eq!(cols.len(), 1);
    assert_eq!(f32::from_bits(cols[0].min), -1.0);
    assert_eq!(f32::from_bits(cols[0].max), 1.0);
    for col in &cols {
        let mn = f32::from_bits(col.min);
        let mx = f32::from_bits(col.max);
        assert!((-1.0..=1.0).contains(&mn));
        assert!((-1.0..=1.0).contains(&mx));
    }
}

#[test]
fn test_waveform_window_minmax() {
    let clip = clip_with(vec![0.1, -0.4, 0.9, 0.2], 8000);
    let cols = clip.render_waveform((0, 4), 2);
    assert_eq!(f32::from_bits(cols[0].min), -0.4);
    assert_eq!(f32::from_bits(cols[0].max), 0.1);
    assert_eq!(f32::from_bits(cols[1].min), 0.2);
    assert_eq!(f32::from_bits(cols[1].max), 0.9);
}

#[test]
fn test_rasterize_waveform_shape_and_colors() {
    let cols = vec![
        DisplayColumn { min: (-1.0f32).to_bits(), max: 1.0f32.to_bits() },
        DisplayColumn { min: 0.0f32.to_bits(), max: 0.0f32.to_bits() },
    ];
    let height = 4;
    let buf = rasterize_waveform(&cols, height);
    assert_eq!(buf.len(), 2 * height * 4);
    // The full-scale column is painted top to bottom.
    for y in 0..height {
        let base = (y * 2) * 4;
        assert_eq!(&buf[base..base + 4], &[0x26, 0x6B, 0xD2, 0xFF]);
    }
    // Every pixel is either transparent black or the opaque accent.
    for px in buf.chunks(4) {
        assert!(px == [0, 0, 0, 0] || px == [0x26, 0x6B, 0xD2, 0xFF]);
    }
}

#[test]
fn test_render_waveform_raster_length() {
    let clip = clip_with(vec![0.5, -0.5, 0.25, -0.25], 44100);
    let buf = clip.render_waveform_raster((0, 4), 3, 5);
    assert_eq!(buf.len(), 3 * 5 * 4);
}
