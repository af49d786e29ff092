use oxygen::sample::{from_q32, sample_clamp_unit, sample_max, sample_min, to_q32};
use oxygen::spectrum::rasterize_spectrogram;

#[test]
fn test_q32_reads_exact_values() {
    assert_eq!(to_q32(1.0f32.to_bits()), 1 << 32);
    assert_eq!(to_q32((-1.0f32).to_bits()), -(1 << 32));
    assert_eq!(to_q32(0.5f32.to_bits()), 1 << 31);
    assert_eq!(to_q32(0.0f32.to_bits()), 0);
    assert_eq!(to_q32((-0.0f32).to_bits()), 0);
    assert_eq!(to_q32(256.0f32.to_bits()), 1 << 40);
    // Saturation beyond the working range.
    assert_eq!(to_q32(1.0e30f32.to_bits()), 1 << 40);
    assert_eq!(to_q32((-1.0e30f32).to_bits()), -(1 << 40));
    // A NaN pattern reads as silence.
    assert_eq!(to_q32(f32::NAN.to_bits()), 0);
}

#[test]
fn test_q32_round_trip_on_representable_values() {
    for v in [0.0f32, 0.5, -0.5, 1.0, -1.0, 0.25, -0.125, 0.75, 100.0, -255.5] {
        let q = to_q32(v.to_bits());
        assert_eq!(f32::from_bits(from_q32(q)), v);
    }
}

#[test]
fn test_sample_order_matches_float_order() {
    let vals = [-2.0f32, -1.0, -0.5, -0.0, 0.0, 0.125, 1.0, 3.5];
    for a in vals {
        for b in vals {
            let mn = f32::from_bits(sample_min(a.to_bits(), b.to_bits()));
            let mx = f32::from_bits(sample_max(a.to_bits(), b.to_bits()));
            assert_eq!(mn, a.min(b));
            assert_eq!(mx, a.max(b));
        }
    }
}

#[test]
fn test_clamp_unit() {
    assert_eq!(f32::from_bits(sample_clamp_unit(3.0f32.to_bits())), 1.0);
    assert_eq!(f32::from_bits(sample_clamp_unit((-3.0f32).to_bits())), -1.0);
    assert_eq!(f32::from_bits(sample_clamp_unit(0.5f32.to_bits())), 0.5);
}

#[test]
fn test_rasterize_spectrogram_shape() {
    let spectra: Vec<Vec<u32>> = (0..3)
        .map(|k| (0..1024).map(|i| ((k + i) as f32 * 0.001).to_bits()).collect())
        .collect();
    let buf = rasterize_spectrogram(&spectra, 9, 7);
    assert_eq!(buf.len(), 9 * 7 * 4);
    // Alpha bytes are either transparent or opaque.
    for px in buf.chunks(4) {
        assert!(px[3] == 0 || px[3] == 255);
    }
    // An empty schedule still yields a full transparent canvas.
    let empty = rasterize_spectrogram(&Vec::new(), 4, 4);
    assert_eq!(empty.len(), 64);
    assert!(empty.iter().all(|b| *b == 0));
}
