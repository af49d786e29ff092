//! Post-processing of speech-model output.
//!
//! The speech engine itself is opaque to this library: it consumes 16 kHz
//! mono samples (the caller resamples with `AudioClip::resample`) and
//! yields raw segments with 10 ms tick timestamps and per-token
//! probabilities, carried here as binary32 bit patterns. This module makes
//! the decisions: it drops unreliable segments, skips text the model
//! failed to produce, and converts timestamps to milliseconds.

use vstd::prelude::*;
use crate::sample::to_q32_spec;

verus! {

/// A segment as the speech model hands it over: tick timestamps, the
/// text (absent when the model produced invalid text), and each token's
/// probability as binary32 bits.
pub struct RawSegment {
    pub t0: i64,
    pub t1: i64,
    pub text: Option<String>,
    pub token_probs: Vec<u32>,
}

/// A transcript segment: millisecond timestamps and the text.
pub struct Segment {
    pub t0_ms: i64,
    pub t1_ms: i64,
    pub text: String,
}

/// The probabilities' sum in Q32 fixed point, each token's value floored
/// to 2^-32 precision.
pub open spec fn prob_sum_q32(probs: Seq<u32>) -> int
    decreases probs.len(),
{
    if probs.len() == 0 {
        0
    } else {
        prob_sum_q32(probs.drop_last()) + to_q32_spec(probs.last())
    }
}

/// Whether a segment survives the reliability filter: its text exists and
/// the mean token probability reaches one half (in Q32 arithmetic; a
/// segment without tokens has no evidence against it and survives, as a
/// mean of nothing is not below anything).
pub open spec fn segment_kept(seg: RawSegment) -> bool {
    &&& seg.text is Some
    &&& (seg.token_probs@.len() == 0 || 2 * prob_sum_q32(seg.token_probs@)
        >= seg.token_probs@.len() * 0x1_0000_0000)
}

/// The transcript a raw segment list yields: kept segments in order, with
/// 10 ms ticks scaled to milliseconds.
pub open spec fn transcript_of(raw: Seq<RawSegment>) -> Seq<(int, int, Seq<char>)>
    decreases raw.len(),
{
    if raw.len() == 0 {
        Seq::empty()
    } else {
        let rest = transcript_of(raw.drop_last());
        let seg = raw.last();
        if segment_kept(seg) {
            rest.push((seg.t0 * 10, seg.t1 * 10, seg.text.unwrap()@))
        } else {
            rest
        }
    }
}

/// Sums a segment's token probabilities in Q32.
fn sum_probs(probs: &Vec<u32>) -> (r: i128)
    requires
        probs@.len() <= 0xFFFF_FFFF,
    ensures
        r == prob_sum_q32(probs@),
        -0x1_0000_0000_0000_0000_0000 <= r <= 0x1_0000_0000_0000_0000_0000,
{
    let n = probs.len();
    let mut sum: i128 = 0;
    let mut i: usize = 0;
    while i < n
        invariant
            n == probs@.len(),
            n <= 0xFFFF_FFFF,
            i <= n,
            sum == prob_sum_q32(probs@.take(i as int)),
            -0x1_0000_0000_0000 * (i as int) <= sum <= 0x1_0000_0000_0000 * (i as int),
        decreases n - i,
    {
        let q = crate::sample::to_q32(probs[i]);
        proof {
            assert(probs@.take(i + 1).drop_last() =~= probs@.take(i as int));
            assert(probs@.take(i + 1).last() == probs@[i as int]);
        }
        sum = sum + (q as i128);
        i = i + 1;
    }
    proof {
        assert(probs@.take(n as int) =~= probs@);
        assert(0x1_0000_0000_0000 * (n as int) <= 0x1_0000_0000_0000_0000_0000)
            by (nonlinear_arith)
            requires
                n <= 0xFFFF_FFFF,
        ;
        assert(-0x1_0000_0000_0000_0000_0000 <= -0x1_0000_0000_0000 * (n as int))
            by (nonlinear_arith)
            requires
                n <= 0xFFFF_FFFF,
        ;
    }
    sum
}

/// Filters and converts the speech model's raw segments into the final
/// transcript.
pub fn filter_segments(raw: Vec<RawSegment>) -> (r: Vec<Segment>)
    requires
        forall|i: int|
            0 <= i < raw@.len() ==> {
                let seg = #[trigger] raw@[i];
                &&& -0xCCC_CCCC_CCCC_CCC <= seg.t0 <= 0xCCC_CCCC_CCCC_CCC
                &&& -0xCCC_CCCC_CCCC_CCC <= seg.t1 <= 0xCCC_CCCC_CCCC_CCC
                &&& seg.token_probs@.len() <= 0xFFFF_FFFF
            },
    ensures
        r@.map_values(|s: Segment| (s.t0_ms as int, s.t1_ms as int, s.text@)) == transcript_of(
            raw@,
        ),
{
    let n = raw.len();
    let mut out: Vec<Segment> = Vec::new();
    let mut i: usize = 0;
    let mut raw = raw;
    proof {
        assert(raw@.take(0) =~= Seq::<RawSegment>::empty());
    }
    let mut done: usize = 0;
    while done < n
        invariant
            n == raw@.len(),
            done <= n,
            forall|q: int|
                0 <= q < raw@.len() ==> {
                    let seg = #[trigger] raw@[q];
                    &&& -0xCCC_CCCC_CCCC_CCC <= seg.t0 <= 0xCCC_CCCC_CCCC_CCC
                    &&& -0xCCC_CCCC_CCCC_CCC <= seg.t1 <= 0xCCC_CCCC_CCCC_CCC
                    &&& seg.token_probs@.len() <= 0xFFFF_FFFF
                },
            out@.map_values(|s: Segment| (s.t0_ms as int, s.t1_ms as int, s.text@))
                == transcript_of(raw@.take(done as int)),
        decreases n - done,
    {
        let ghost before = out@.map_values(|s: Segment| (s.t0_ms as int, s.t1_ms as int, s.text@));
        let seg = &raw[done];
        let n_tokens = seg.token_probs.len();
        let sum = sum_probs(&seg.token_probs);
        proof {
            assert((n_tokens as int) * 0x1_0000_0000 <= 0xFFFF_FFFF * 0x1_0000_0000)
                by (nonlinear_arith)
                requires
                    n_tokens <= 0xFFFF_FFFF,
            ;
            assert(0 <= (n_tokens as int) * 0x1_0000_0000) by (nonlinear_arith);
        }
        let keep_prob = n_tokens == 0 || 2 * sum >= (n_tokens as i128) * 0x1_0000_0000;
        let emitted: bool;
        match &seg.text {
            Some(text) => {
                if keep_prob {
                    let s = Segment { t0_ms: seg.t0 * 10, t1_ms: seg.t1 * 10, text: text.clone() };
                    out.push(s);
                    emitted = true;
                } else {
                    emitted = false;
                }
            },
            None => {
                emitted = false;
            },
        }
        proof {
            assert(raw@.take(done + 1).drop_last() =~= raw@.take(done as int));
            assert(raw@.take(done + 1).last() == raw@[done as int]);
            let mapped = out@.map_values(
                |s: Segment| (s.t0_ms as int, s.t1_ms as int, s.text@),
            );
            if emitted {
                assert(mapped =~= before.push(
                    (
                        raw@[done as int].t0 * 10,
                        raw@[done as int].t1 * 10,
                        raw@[done as int].text.unwrap()@,
                    ),
                ));
            }
        }
        done = done + 1;
    }
    proof {
        assert(raw@.take(n as int) =~= raw@);
    }
    out
}

} // verus!
