//! The capture engine's shared state machine.
//!
//! The input device's callback thread hands bursts of interleaved frames
//! to this state, which keeps only the first channel of every frame. The
//! host owns the stream; stopping it takes the finished clip out.

use vstd::prelude::*;
use crate::clip::AudioClip;

verus! {

/// The state behind a running capture: the clip being recorded.
pub struct RecordState {
    pub clip: AudioClip,
}

/// The mono samples a burst of interleaved frames contributes: the first
/// channel of every (possibly partial, trailing) frame.
pub open spec fn first_channel(data: Seq<u32>, channels: int) -> Seq<u32> {
    Seq::new(((data.len() + channels - 1) / channels) as nat, |f: int| data[f * channels])
}

impl RecordState {
    /// Starts a capture into an empty clip.
    pub fn new(name: String, date: String, sample_rate: u32) -> (r: RecordState)
        ensures
            r.clip.id is None,
            r.clip.name@ == name@,
            r.clip.date@ == date@,
            r.clip.samples@.len() == 0,
            r.clip.sample_rate == sample_rate,
    {
        RecordState {
            clip: AudioClip { id: None, name, date, samples: Vec::new(), sample_rate },
        }
    }

    /// Appends one device burst: the first channel of every interleaved
    /// frame joins the clip's buffer.
    pub fn append_interleaved(&mut self, data: &Vec<u32>, channels: usize)
        requires
            0 < channels <= 0x1_0000,
            data@.len() <= 0xFFFF_FFFF,
            old(self).clip.samples@.len() + data@.len() <= 0xFFFF_FFFF,
        ensures
            final(self).clip.samples@ == old(self).clip.samples@ + first_channel(
                data@,
                channels as int,
            ),
            final(self).clip.id == old(self).clip.id,
            final(self).clip.name@ == old(self).clip.name@,
            final(self).clip.date@ == old(self).clip.date@,
            final(self).clip.sample_rate == old(self).clip.sample_rate,
    {
        let len = data.len();
        proof {
            crate::codec::lemma_frame_count_le_len(len as int, channels as int);
        }
        let count: usize = (((len as u64) + (channels as u64) - 1) / (channels as u64)) as usize;
        let mut f: usize = 0;
        while f < count
            invariant
                0 < channels <= 0x1_0000,
                len == data@.len(),
                len <= 0xFFFF_FFFF,
                count == ((len + channels - 1) as int) / (channels as int),
                count <= len,
                f <= count,
                old(self).clip.samples@.len() + len <= 0xFFFF_FFFF,
                self.clip.samples@.len() == old(self).clip.samples@.len() + f,
                self.clip.id == old(self).clip.id,
                self.clip.name@ == old(self).clip.name@,
                self.clip.date@ == old(self).clip.date@,
                self.clip.sample_rate == old(self).clip.sample_rate,
                forall|q: int|
                    0 <= q < old(self).clip.samples@.len() ==> #[trigger] self.clip.samples@[q]
                        == old(self).clip.samples@[q],
                forall|q: int|
                    old(self).clip.samples@.len() <= q < self.clip.samples@.len()
                        ==> #[trigger] self.clip.samples@[q] == data@[(q - old(
                        self,
                    ).clip.samples@.len()) * channels],
            decreases count - f,
        {
            proof {
                vstd::arithmetic::mul::lemma_mul_upper_bound(
                    f as int,
                    0xFFFF_FFFF,
                    channels as int,
                    0x1_0000,
                );
                vstd::arithmetic::div_mod::lemma_fundamental_div_mod(
                    (len + channels - 1) as int,
                    channels as int,
                );
                vstd::arithmetic::div_mod::lemma_mod_bound(
                    (len + channels - 1) as int,
                    channels as int,
                );
                assert((f + 1) * (channels as int) <= count * (channels as int))
                    by (nonlinear_arith)
                    requires
                        f + 1 <= count,
                        0 < channels,
                ;
                assert(f * (channels as int) + channels == (f + 1) * (channels as int))
                    by (nonlinear_arith);
                assert((channels as int) * (count as int) == (count as int) * (channels as int))
                    by (nonlinear_arith);
            }
            let idx: u64 = (f as u64) * (channels as u64);
            self.clip.samples.push(data[idx as usize]);
            f = f + 1;
        }
        proof {
            assert(self.clip.samples@ =~= old(self).clip.samples@ + first_channel(
                data@,
                channels as int,
            ));
        }
    }

    /// Ends the capture, handing the finished clip out.
    pub fn stop(self) -> (r: AudioClip)
        ensures
            crate::clip::clip_eq(&r, &self.clip),
    {
        self.clip
    }
}

} // verus!
