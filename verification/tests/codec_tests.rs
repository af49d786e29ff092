use oxygen::clip::AudioClip;
use oxygen::codec::{
    assemble_frames, chunk_frames, decode_v0, decode_v1_container, encode_v1_container,
    frame_size_for,
};
use oxygen::ErrorKind;

#[test]
fn test_decode_v0_reads_big_endian() {
    let mut bytes: Vec<u8> = Vec::new();
    bytes.extend_from_slice(&1.0f32.to_be_bytes());
    bytes.extend_from_slice(&(-0.5f32).to_be_bytes());
    let samples = decode_v0(&bytes);
    assert_eq!(samples.len(), 2);
    assert_eq!(f32::from_bits(samples[0]), 1.0);
    assert_eq!(f32::from_bits(samples[1]), -0.5);
}

#[test]
fn test_decode_v0_truncates_trailing_bytes() {
    let mut bytes: Vec<u8> = Vec::new();
    bytes.extend_from_slice(&0.25f32.to_be_bytes());
    bytes.push(0xAB);
    bytes.push(0xCD);
    let samples = decode_v0(&bytes);
    assert_eq!(samples.len(), 1);
    assert_eq!(f32::from_bits(samples[0]), 0.25);
}

#[test]
fn test_container_round_trip() {
    let packets: Vec<Vec<u8>> = vec![vec![1, 2, 3], vec![], vec![0xFF; 300]];
    let bytes = encode_v1_container(12345, &packets).unwrap();
    let (count, decoded) = decode_v1_container(&bytes).unwrap();
    assert_eq!(count, 12345);
    assert_eq!(decoded, packets);
}

#[test]
fn test_container_rejects_oversized_packet() {
    let packets: Vec<Vec<u8>> = vec![vec![0u8; 0x10000]];
    assert_eq!(encode_v1_container(1, &packets), Err(ErrorKind::Encode));
}

#[test]
fn test_container_rejects_truncated_stream() {
    // A record announcing 10 bytes with only 2 present.
    let bytes: Vec<u8> = vec![0, 0, 0, 4, 0, 10, 1, 2];
    assert!(decode_v1_container(&bytes).is_err());
    // A stream shorter than its header.
    let short: Vec<u8> = vec![0, 0, 0];
    assert!(decode_v1_container(&short).is_err());
}

#[test]
fn test_chunk_and_assemble_round_trip_length() {
    let samples: Vec<u32> = (0..1000u32).map(|i| (i as f32 / 1000.0).to_bits()).collect();
    let fs = frame_size_for(48000);
    assert_eq!(fs, 960);
    let frames = chunk_frames(&samples, fs);
    assert_eq!(frames.len(), 2);
    assert_eq!(frames[0].len(), fs);
    assert_eq!(frames[1].len(), fs);
    // The coder hands back same-length frames; reassembly recovers the
    // original sample count exactly.
    let out = assemble_frames(1000, &frames, fs).unwrap();
    assert_eq!(out.len(), 1000);
    assert_eq!(out, samples);
}

#[test]
fn test_assemble_rejects_wrong_frame_size() {
    let frames: Vec<Vec<u32>> = vec![vec![0u32; 100]];
    assert_eq!(assemble_frames(100, &frames, 160), Err(ErrorKind::Decode));
}

#[test]
fn test_assemble_rejects_excess_frames() {
    let frames: Vec<Vec<u32>> = vec![vec![0u32; 160], vec![0u32; 160], vec![0u32; 160]];
    // Two frames beyond the declared count: the third starts past it.
    assert_eq!(assemble_frames(100, &frames, 160), Err(ErrorKind::Decode));
}

#[test]
fn test_encode_v1_frames_keeps_supported_rate() {
    let clip = AudioClip {
        id: None,
        name: "tone".to_string(),
        date: "2024-01-01 00:00:00 UTC".to_string(),
        samples: vec![0.5f32.to_bits(); 480],
        sample_rate: 24000,
    };
    let (rate, count, frames) = clip.encode_v1_frames();
    assert_eq!(rate, 24000);
    assert_eq!(count, 480);
    assert_eq!(frames.len(), 1);
    assert_eq!(frames[0].len(), 480);
}

#[test]
fn test_encode_v1_frames_resamples_unsupported_rate() {
    let clip = AudioClip {
        id: None,
        name: "tone".to_string(),
        date: "2024-01-01 00:00:00 UTC".to_string(),
        samples: vec![0.5f32.to_bits(); 44100],
        sample_rate: 44100,
    };
    let (rate, count, _frames) = clip.encode_v1_frames();
    assert_eq!(rate, 48000);
    assert_eq!(count, 48000);
}
