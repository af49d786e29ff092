use std::io::Cursor;
use oxygen::clip::AudioClip;
use oxygen::ErrorKind;

fn clip_with(samples: Vec<f32>, rate: u32) -> AudioClip {
    AudioClip {
        id: None,
        name: "wave".to_string(),
        date: "2024-01-01 00:00:00 UTC".to_string(),
        samples: samples.into_iter().map(f32::to_bits).collect(),
        sample_rate: rate,
    }
}

#[test]
fn test_export_rejects_non_wav_path() {
    let clip = clip_with(vec![0.5], 44100);
    assert_eq!(clip.export("out.txt").unwrap_err(), ErrorKind::InvalidArgument);
    assert_eq!(clip.export("wav").unwrap_err(), ErrorKind::InvalidArgument);
    assert_eq!(clip.export("").unwrap_err(), ErrorKind::InvalidArgument);
}

#[test]
fn test_export_header_declares_float_mono() {
    let clip = clip_with(vec![0.5, -0.25, 1.0], 22050);
    let bytes = clip.export("out.wav").unwrap();
    let reader = hound::WavReader::new(Cursor::new(bytes)).unwrap();
    let spec = reader.spec();
    assert_eq!(spec.channels, 1);
    assert_eq!(spec.bits_per_sample, 32);
    assert_eq!(spec.sample_format, hound::SampleFormat::Float);
    assert_eq!(spec.sample_rate, 22050);
}

#[test]
fn test_export_samples_round_trip() {
    let values = vec![0.5f32, -0.25, 1.0, -1.0, 0.0];
    let clip = clip_with(values.clone(), 48000);
    let bytes = clip.export("tone.wav").unwrap();
    let mut reader = hound::WavReader::new(Cursor::new(bytes)).unwrap();
    let read: Vec<f32> = reader.samples::<f32>().map(|s| s.unwrap()).collect();
    assert_eq!(read, values);
}

#[test]
fn test_export_empty_clip() {
    let clip = clip_with(vec![], 8000);
    let bytes = clip.export("empty.wav").unwrap();
    assert_eq!(bytes.len(), 44);
    let mut reader = hound::WavReader::new(Cursor::new(bytes)).unwrap();
    assert_eq!(reader.samples::<f32>().count(), 0);
}
