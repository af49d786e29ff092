//! The central clip entity and its resampler.

use vstd::prelude::*;
use crate::sample::{
    from_q32, from_q32_spec, lerp_q32, lerp_q32_spec, to_q32, to_q32_spec, ZERO_BITS,
};

verus! {

/// A named mono recording. Samples are binary32 bit patterns; the creation
/// instant is carried in its persisted UTC text form.
pub struct AudioClip {
    /// Catalog identity; absent before the first save.
    pub id: Option<usize>,
    /// Unique display name.
    pub name: String,
    /// UTC creation instant, in the catalog's text form.
    pub date: String,
    /// Mono samples, as binary32 bit patterns.
    pub samples: Vec<u32>,
    /// Samples per second; always positive.
    pub sample_rate: u32,
}

/// The audio driver the host opens devices through: the platform's
/// default driver, or the professional low-latency one.
#[derive(Clone, Copy, Debug, PartialEq, Eq, Structural)]
pub enum AudioBackend {
    Default,
    Jack,
}

impl Default for AudioBackend {
    fn default() -> (r: AudioBackend)
        ensures
            r == AudioBackend::Default,
    {
        AudioBackend::Default
    }
}

/// Value equality on clips: every field agrees.
pub open spec fn clip_eq(a: &AudioClip, b: &AudioClip) -> bool {
    &&& a.id == b.id
    &&& a.name@ == b.name@
    &&& a.date@ == b.date@
    &&& a.samples@ == b.samples@
    &&& a.sample_rate == b.sample_rate
}

impl Clone for AudioClip {
    fn clone(&self) -> (r: AudioClip)
        ensures
            clip_eq(&r, self),
    {
        AudioClip {
            id: self.id,
            name: self.name.clone(),
            date: self.date.clone(),
            samples: clone_samples(&self.samples),
            sample_rate: self.sample_rate,
        }
    }
}

/// Copies a sample buffer.
pub fn clone_samples(v: &Vec<u32>) -> (r: Vec<u32>)
    ensures
        r@ == v@,
{
    let mut r: Vec<u32> = Vec::new();
    let n = v.len();
    for i in 0..n
        invariant
            n == v@.len(),
            r@ == v@.subrange(0, i as int),
    {
        r.push(v[i]);
        proof {
            assert(r@ =~= v@.subrange(0, i + 1));
        }
    }
    proof {
        assert(r@ =~= v@);
    }
    r
}

/// The sample the resampler emits at output index `j`, for a source at rate
/// `sr` resampled to rate `tr`: the linear interpolation between the two
/// source samples around the exact rational position `j * sr / tr`, with
/// reads past the end of the source extrapolated as zero.
pub open spec fn resampled_sample(s: Seq<u32>, sr: int, tr: int, j: int) -> u32 {
    let idx = j * sr / tr;
    let num = j * sr % tr;
    let a = if idx < s.len() {
        s[idx]
    } else {
        ZERO_BITS
    };
    let b = if idx + 1 < s.len() {
        s[idx + 1]
    } else {
        ZERO_BITS
    };
    from_q32_spec(lerp_q32_spec(to_q32_spec(a), to_q32_spec(b), num, tr))
}

/// The resampler's output length: `floor(len * tr / sr)`.
pub open spec fn resampled_len(len: int, sr: int, tr: int) -> int {
    len * tr / sr
}

/// The whole buffer the resampler emits.
pub open spec fn resampled_seq(s: Seq<u32>, sr: int, tr: int) -> Seq<u32> {
    if sr == tr {
        s
    } else if s.len() < 2 {
        Seq::empty()
    } else {
        Seq::new(resampled_len(s.len() as int, sr, tr) as nat, |j: int| resampled_sample(s, sr, tr, j))
    }
}

proof fn lemma_resample_idx_in_range(j: int, len: int, sr: int, tr: int)
    requires
        0 < sr,
        0 < tr,
        2 <= len,
        0 <= j < len * tr / sr,
    ensures
        0 <= j * sr / tr < len,
        0 <= j * sr % tr < tr,
{
    let n = len * tr / sr;
    vstd::arithmetic::div_mod::lemma_fundamental_div_mod(len * tr, sr);
    assert(n * sr <= len * tr);
    assert((j + 1) * sr <= n * sr) by (nonlinear_arith)
        requires
            j + 1 <= n,
            0 < sr,
    ;
    assert(j * sr < (j + 1) * sr) by (nonlinear_arith)
        requires
            0 < sr,
    ;
    assert(j * sr / tr < len) by (nonlinear_arith)
        requires
            0 <= j * sr,
            j * sr < len * tr,
            0 < tr,
    ;
    assert(j * sr >= 0) by (nonlinear_arith)
        requires
            0 <= j,
            0 < sr,
    ;
    assert(j * sr / tr >= 0) by (nonlinear_arith)
        requires
            0 <= j * sr,
            0 < tr,
    ;
    vstd::arithmetic::div_mod::lemma_mod_bound(j * sr, tr);
}

impl AudioClip {
    /// The number of samples in the clip.
    pub fn num_samples(&self) -> (n: usize)
        ensures
            n == self.samples@.len(),
    {
        self.samples.len()
    }

    /// Resamples the clip to `sample_rate` by linear interpolation at exact
    /// rational positions. Matching rates return a value-equal copy; a
    /// source shorter than two samples has nothing to interpolate and
    /// yields an empty buffer; otherwise the output holds
    /// `floor(len * target / source)` interpolated samples.
    pub fn resample(&self, sample_rate: u32) -> (r: AudioClip)
        requires
            self.sample_rate > 0,
            sample_rate > 0,
            self.samples@.len() <= 0xFFFF_FFFF,
            resampled_len(self.samples@.len() as int, self.sample_rate as int, sample_rate as int)
                <= 0xFFFF_FFFF,
        ensures
            r.id == self.id,
            r.name@ == self.name@,
            r.date@ == self.date@,
            r.sample_rate == sample_rate,
            sample_rate == self.sample_rate ==> clip_eq(&r, self),
            sample_rate != self.sample_rate && self.samples@.len() < 2 ==> r.samples@.len() == 0,
            sample_rate != self.sample_rate && self.samples@.len() >= 2 ==> {
                &&& r.samples@.len() == resampled_len(
                    self.samples@.len() as int,
                    self.sample_rate as int,
                    sample_rate as int,
                )
                &&& forall|j: int|
                    0 <= j < r.samples@.len() ==> r.samples@[j] == resampled_sample(
                        self.samples@,
                        self.sample_rate as int,
                        sample_rate as int,
                        j,
                    )
            },
            r.samples@ == resampled_seq(
                self.samples@,
                self.sample_rate as int,
                sample_rate as int,
            ),
    {
        if self.sample_rate == sample_rate {
            return self.clone();
        }

        let len: usize = self.samples.len();
        let sr: u64 = self.sample_rate as u64;
        let tr: u64 = sample_rate as u64;
        let mut out: Vec<u32> = Vec::new();

        if len < 2 {
            proof {
                assert(out@ =~= resampled_seq(
                    self.samples@,
                    self.sample_rate as int,
                    sample_rate as int,
                ));
            }
            return AudioClip {
                id: self.id,
                name: self.name.clone(),
                date: self.date.clone(),
                samples: out,
                sample_rate,
            };
        }

        proof {
            vstd::arithmetic::mul::lemma_mul_upper_bound(
                len as int,
                0xFFFF_FFFF,
                tr as int,
                0xFFFF_FFFF,
            );
        }
        let n_out_wide: u128 = (len as u128) * (tr as u128) / (sr as u128);
        let n_out: usize = n_out_wide as usize;
        assert(n_out == resampled_len(len as int, sr as int, tr as int));

        let mut j: usize = 0;
        while j < n_out
            invariant
                2 <= len == self.samples@.len(),
                sr == self.sample_rate as u64,
                tr == sample_rate as u64,
                sr > 0,
                tr > 0,
                n_out == resampled_len(len as int, sr as int, tr as int),
                n_out <= 0xFFFF_FFFF,
                j <= n_out,
                out@.len() == j,
                forall|k: int|
                    0 <= k < j ==> out@[k] == resampled_sample(
                        self.samples@,
                        sr as int,
                        tr as int,
                        k,
                    ),
            decreases n_out - j,
        {
            proof {
                lemma_resample_idx_in_range(j as int, len as int, sr as int, tr as int);
                vstd::arithmetic::mul::lemma_mul_upper_bound(
                    j as int,
                    0xFFFF_FFFF,
                    sr as int,
                    0xFFFF_FFFF,
                );
            }
            let pos: u64 = (j as u64) * sr;
            let idx: usize = (pos / tr) as usize;
            let num: u64 = pos % tr;
            let a: u32 = self.samples[idx];
            let b: u32 = if idx + 1 < len {
                self.samples[idx + 1]
            } else {
                ZERO_BITS
            };
            let qa = to_q32(a);
            let qb = to_q32(b);
            let q = lerp_q32(qa, qb, num, tr);
            out.push(from_q32(q));
            j = j + 1;
        }

        proof {
            assert(out@ =~= resampled_seq(
                self.samples@,
                self.sample_rate as int,
                sample_rate as int,
            ));
        }
        AudioClip {
            id: self.id,
            name: self.name.clone(),
            date: self.date.clone(),
            samples: out,
            sample_rate,
        }
    }
}

} // verus!
