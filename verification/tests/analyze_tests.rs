use oxygen::analyze::{filter_segments, RawSegment};

fn seg(t0: i64, t1: i64, text: Option<&str>, probs: Vec<f32>) -> RawSegment {
    RawSegment {
        t0,
        t1,
        text: text.map(|s| s.to_string()),
        token_probs: probs.into_iter().map(f32::to_bits).collect(),
    }
}

#[test]
fn test_reliable_segment_kept_with_ms_timestamps() {
    let out = filter_segments(vec![seg(12, 34, Some("hello"), vec![0.9, 0.8])]);
    assert_eq!(out.len(), 1);
    assert_eq!(out[0].t0_ms, 120);
    assert_eq!(out[0].t1_ms, 340);
    assert_eq!(out[0].text, "hello");
}

#[test]
fn test_unreliable_segment_dropped() {
    let out = filter_segments(vec![
        seg(0, 1, Some("noise"), vec![0.1, 0.2, 0.3]),
        seg(2, 3, Some("speech"), vec![0.7, 0.9]),
    ]);
    assert_eq!(out.len(), 1);
    assert_eq!(out[0].text, "speech");
}

#[test]
fn test_mean_exactly_half_is_kept() {
    let out = filter_segments(vec![seg(0, 1, Some("edge"), vec![0.5, 0.5])]);
    assert_eq!(out.len(), 1);
}

#[test]
fn test_invalid_text_skipped() {
    let out = filter_segments(vec![
        seg(0, 1, None, vec![0.99]),
        seg(1, 2, Some("ok"), vec![0.99]),
    ]);
    assert_eq!(out.len(), 1);
    assert_eq!(out[0].text, "ok");
}

#[test]
fn test_segment_without_tokens_survives() {
    let out = filter_segments(vec![seg(5, 6, Some("quiet"), vec![])]);
    assert_eq!(out.len(), 1);
    assert_eq!(out[0].t0_ms, 50);
}

#[test]
fn test_order_preserved() {
    let out = filter_segments(vec![
        seg(0, 1, Some("one"), vec![0.9]),
        seg(1, 2, Some("two"), vec![0.9]),
        seg(2, 3, Some("three"), vec![0.9]),
    ]);
    let texts: Vec<&str> = out.iter().map(|s| s.text.as_str()).collect();
    assert_eq!(texts, vec!["one", "two", "three"]);
}
