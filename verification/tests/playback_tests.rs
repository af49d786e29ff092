use oxygen::playback::PlaybackState;

fn bits(v: f32) -> u32 {
    v.to_bits()
}

#[test]
fn test_fill_broadcasts_and_advances() {
    let samples = vec![bits(0.1), bits(0.2), bits(0.3)];
    let mut st = PlaybackState::new(samples, 48000);
    let (out, done, _) = st.fill(2, 2);
    assert_eq!(out.len(), 4);
    assert_eq!(f32::from_bits(out[0]), 0.1);
    assert_eq!(f32::from_bits(out[1]), 0.1);
    assert_eq!(f32::from_bits(out[2]), 0.2);
    assert_eq!(f32::from_bits(out[3]), 0.2);
    assert!(!done);
    assert_eq!(st.time, 2);
}

#[test]
fn test_fill_past_end_is_silence() {
    let mut st = PlaybackState::new(vec![bits(1.0)], 48000);
    let (out, _, _) = st.fill(3, 1);
    assert_eq!(f32::from_bits(out[0]), 1.0);
    assert_eq!(f32::from_bits(out[1]), 0.0);
    assert_eq!(f32::from_bits(out[2]), 0.0);
}

#[test]
fn test_done_fires_exactly_once() {
    let mut st = PlaybackState::new(vec![bits(0.0); 4], 48000);
    let (_, done1, _) = st.fill(2, 1);
    assert!(!done1);
    let (_, done2, _) = st.fill(2, 1);
    assert!(done2);
    let (_, done3, _) = st.fill(2, 1);
    assert!(!done3);
    let (_, done4, _) = st.fill(2, 1);
    assert!(!done4);
}

#[test]
fn test_connect_done_after_completion_fires_now() {
    let mut st = PlaybackState::new(vec![bits(0.0); 2], 48000);
    assert!(!st.connect_done(1));
    assert_eq!(st.done_cbs, vec![1]);
    let _ = st.fill(2, 1);
    assert!(st.connect_done(2));
    assert_eq!(st.done_cbs, vec![1]);
}

#[test]
fn test_changed_threshold() {
    // One hundredth of the rate: 10 frames between firings.
    let mut st = PlaybackState::new(vec![bits(0.0); 100], 1000);
    let (_, _, changed1) = st.fill(9, 1);
    assert!(!changed1);
    let (_, _, changed2) = st.fill(1, 1);
    assert!(changed2);
    assert_eq!(st.changed_at, 10);
    let (_, _, changed3) = st.fill(9, 1);
    assert!(!changed3);
}

#[test]
fn test_seek_lands_on_fraction() {
    let mut st = PlaybackState::new(vec![bits(0.0); 10], 48000);
    let t = st.seek(1, 2);
    assert_eq!(t, 5);
    assert_eq!(st.time, 5);
    assert_eq!(st.changed_at, 0);
    let t = st.seek(1, 3);
    assert_eq!(t, 3);
    let t = st.seek(1, 1);
    assert_eq!(t, 10);
}

#[test]
fn test_seek_then_time_permille_tracks_fraction() {
    let mut st = PlaybackState::new(vec![bits(0.0); 1000], 48000);
    let _ = st.seek(250, 1000);
    assert_eq!(st.time, 250);
    assert_eq!(st.time_permille(1000), 250);
}
