//! The playback engine's shared state machine.
//!
//! The output device's callback thread drives this state: each callback
//! fills a burst of frames by broadcasting the mono sample at the current
//! time index to every channel, advancing time one step per frame, and
//! learns which observer callbacks to fire. Observers are carried as
//! opaque tokens; the host invokes the tokens this machine hands back.

use vstd::prelude::*;
use crate::sample::ZERO_BITS;

verus! {

/// The state behind a playing clip: a resampled copy of its samples, the
/// playhead, and the registered observers.
pub struct PlaybackState {
    /// The playhead, in samples.
    pub time: usize,
    /// The clip's samples, already resampled to the device rate.
    pub samples: Vec<u32>,
    /// Tokens of observers to invoke as the playhead advances.
    pub changed_cbs: Vec<u64>,
    /// Where the playhead stood when `changed` observers last fired.
    pub changed_at: usize,
    /// Tokens of observers to invoke once playback completes.
    pub done_cbs: Vec<u64>,
    /// Whether completion has already been reported.
    pub done_fired: bool,
    /// The device rate the samples play at.
    pub sample_rate: usize,
}

/// The threshold the playhead must advance past before `changed`
/// observers fire again: about ten milliseconds of audio.
pub open spec fn changed_step(sample_rate: int) -> int {
    sample_rate / 100
}

/// The sample a frame at time `t` broadcasts: the playhead sample, or
/// silence past the end.
pub open spec fn sample_at(samples: Seq<u32>, t: int) -> u32 {
    if t < samples.len() {
        samples[t]
    } else {
        ZERO_BITS
    }
}

impl PlaybackState {
    /// Starts a playback at the beginning of a sample buffer.
    pub fn new(samples: Vec<u32>, sample_rate: usize) -> (r: PlaybackState)
        ensures
            r.time == 0,
            r.samples == samples,
            r.changed_cbs@.len() == 0,
            r.changed_at == 0,
            r.done_cbs@.len() == 0,
            !r.done_fired,
            r.sample_rate == sample_rate,
    {
        PlaybackState {
            time: 0,
            samples,
            changed_cbs: Vec::new(),
            changed_at: 0,
            done_cbs: Vec::new(),
            done_fired: false,
            sample_rate,
        }
    }

    /// Registers a `changed` observer.
    pub fn connect_changed(&mut self, token: u64)
        ensures
            final(self).changed_cbs@ == old(self).changed_cbs@.push(token),
            final(self).time == old(self).time,
            final(self).samples == old(self).samples,
            final(self).changed_at == old(self).changed_at,
            final(self).done_cbs == old(self).done_cbs,
            final(self).done_fired == old(self).done_fired,
            final(self).sample_rate == old(self).sample_rate,
    {
        self.changed_cbs.push(token);
    }

    /// Registers a `done` observer. Registering after completion does not
    /// retain the observer: it reports that the caller must fire it at
    /// once instead.
    pub fn connect_done(&mut self, token: u64) -> (fire_now: bool)
        ensures
            fire_now == (old(self).time >= old(self).samples@.len()),
            fire_now ==> *final(self) == *old(self),
            !fire_now ==> final(self).done_cbs@ == old(self).done_cbs@.push(token)
                && final(self).time == old(self).time && final(self).samples == old(self).samples
                && final(self).changed_cbs == old(self).changed_cbs && final(self).changed_at
                == old(self).changed_at && final(self).done_fired == old(self).done_fired
                && final(self).sample_rate == old(self).sample_rate,
    {
        if self.time >= self.samples.len() {
            true
        } else {
            self.done_cbs.push(token);
            false
        }
    }

    /// Fills one callback burst: `n_frames` frames of `channels` samples
    /// each, every channel of a frame carrying the playhead's sample (or
    /// silence past the end), the playhead advancing one step per frame.
    /// Reports whether the burst completed playback — at most one burst
    /// ever does — and whether the playhead advanced far enough for the
    /// `changed` observers to fire.
    pub fn fill(&mut self, n_frames: usize, channels: usize) -> (r: (Vec<u32>, bool, bool))
        requires
            0 < channels,
            old(self).time + n_frames <= 0xFFFF_FFFF,
            n_frames * channels <= 0xFFFF_FFFF,
        ensures
            r.0@.len() == n_frames * channels,
            forall|i: int|
                0 <= i < r.0@.len() ==> #[trigger] r.0@[i] == sample_at(
                    old(self).samples@,
                    old(self).time + i / (channels as int),
                ),
            final(self).time == old(self).time + n_frames,
            r.1 == (!old(self).done_fired && old(self).time + n_frames >= old(
                self,
            ).samples@.len()),
            final(self).done_fired == (old(self).done_fired || r.1),
            r.2 == (old(self).time + n_frames >= old(self).changed_at + changed_step(
                old(self).sample_rate as int,
            )),
            final(self).changed_at == (if r.2 {
                old(self).time + n_frames
            } else {
                old(self).changed_at as int
            }),
            final(self).samples == old(self).samples,
            final(self).changed_cbs == old(self).changed_cbs,
            final(self).done_cbs == old(self).done_cbs,
            final(self).sample_rate == old(self).sample_rate,
    {
        let mut out: Vec<u32> = Vec::new();
        let len = self.samples.len();
        let mut f: usize = 0;
        while f < n_frames
            invariant
                0 < channels,
                n_frames * channels <= 0xFFFF_FFFF,
                self.time + n_frames <= 0xFFFF_FFFF,
                f <= n_frames,
                len == self.samples@.len(),
                out@.len() == f * channels,
                forall|i: int|
                    0 <= i < out@.len() ==> #[trigger] out@[i] == sample_at(
                        self.samples@,
                        self.time + i / (channels as int),
                    ),
            decreases n_frames - f,
        {
            proof {
                assert((f + 1) * channels == f * channels + channels) by (nonlinear_arith);
                assert(f * channels + channels <= n_frames * channels) by (nonlinear_arith)
                    requires
                        f + 1 <= n_frames,
                        0 < channels,
                ;
            }
            let t = self.time + f;
            let s: u32 = if t < len {
                self.samples[t]
            } else {
                ZERO_BITS
            };
            let mut c: usize = 0;
            while c < channels
                invariant
                    0 < channels,
                    c <= channels,
                    out@.len() == f * channels + c,
                    f * channels + channels <= 0xFFFF_FFFF,
                    len == self.samples@.len(),
                    s == sample_at(self.samples@, self.time + f),
                    forall|i: int|
                        0 <= i < out@.len() ==> #[trigger] out@[i] == sample_at(
                            self.samples@,
                            self.time + i / (channels as int),
                        ),
                decreases channels - c,
            {
                proof {
                    vstd::arithmetic::div_mod::lemma_fundamental_div_mod_converse(
                        f * channels + c,
                        channels as int,
                        f as int,
                        c as int,
                    );
                }
                out.push(s);
                c = c + 1;
            }
            f = f + 1;
        }
        self.time = self.time + n_frames;
        let fire_done = !self.done_fired && self.time >= len;
        if fire_done {
            self.done_fired = true;
        }
        let step = self.sample_rate / 100;
        let fire_changed = self.time >= self.changed_at && self.time - self.changed_at >= step;
        if fire_changed {
            self.changed_at = self.time;
        }
        (out, fire_done, fire_changed)
    }

    /// Seeks to the fraction `num / den` of the clip: the playhead lands
    /// on `floor(fraction * len)` and the changed threshold resets.
    pub fn seek(&mut self, num: u64, den: u64) -> (t: usize)
        requires
            0 < den,
            num <= den,
            old(self).samples@.len() <= 0xFFFF_FFFF,
        ensures
            t == num * old(self).samples@.len() as int / den as int,
            final(self).time == t,
            final(self).changed_at == 0,
            final(self).samples == old(self).samples,
            final(self).changed_cbs == old(self).changed_cbs,
            final(self).done_cbs == old(self).done_cbs,
            final(self).done_fired == old(self).done_fired,
            final(self).sample_rate == old(self).sample_rate,
    {
        let len = self.samples.len();
        proof {
            vstd::arithmetic::mul::lemma_mul_upper_bound(
                num as int,
                den as int,
                len as int,
                0xFFFF_FFFF,
            );
            assert((num as int) * (len as int) <= (den as int) * (len as int))
                by (nonlinear_arith)
                requires
                    num <= den,
                    0 <= len,
            ;
            assert((den as int) * (len as int) / (den as int) == len as int)
                by (nonlinear_arith)
                requires
                    0 < den,
            ;
            vstd::arithmetic::div_mod::lemma_div_is_ordered(
                (num as int) * (len as int),
                (den as int) * (len as int),
                den as int,
            );
            vstd::arithmetic::div_mod::lemma_div_is_ordered(
                0,
                (num as int) * (len as int),
                den as int,
            );
        }
        let t: usize = (((num as u128) * (len as u128)) / (den as u128)) as usize;
        self.time = t;
        self.changed_at = 0;
        t
    }

    /// The playhead as a share of the clip, scaled by `den`: the value
    /// `floor(time / len * den)`, or zero for an empty clip.
    pub fn time_permille(&self, den: u64) -> (r: u64)
        requires
            self.samples@.len() <= 0xFFFF_FFFF,
            self.time <= 0xFFFF_FFFF,
        ensures
            self.samples@.len() == 0 ==> r == 0,
            self.samples@.len() > 0 ==> r as int == ({
                let q = self.time * den as int / self.samples@.len() as int;
                if q <= 0xFFFF_FFFF_FFFF_FFFF {
                    q
                } else {
                    0xFFFF_FFFF_FFFF_FFFF
                }
            }),
    {
        let len = self.samples.len();
        if len == 0 {
            return 0;
        }
        proof {
            vstd::arithmetic::mul::lemma_mul_upper_bound(
                self.time as int,
                0xFFFF_FFFF,
                den as int,
                0xFFFF_FFFF_FFFF_FFFF,
            );
        }
        let q: u128 = ((self.time as u128) * (den as u128)) / (len as u128);
        if q > 0xFFFF_FFFF_FFFF_FFFF {
            0xFFFF_FFFF_FFFF_FFFF
        } else {
            q as u64
        }
    }
}

/// Playback completion fires exactly once: only a burst that first
/// crosses the end reports completion, and every burst after a reporting
/// one finds the flag set and stays silent.
pub proof fn lemma_done_fires_once(
    fired_before: bool,
    time: int,
    len: int,
    n1: int,
    n2: int,
)
    requires
        !fired_before,
        time + n1 >= len,
        n2 >= 0,
    ensures
        fill_reports_done(fired_before, time, len, n1),
        !fill_reports_done(true, time + n1, len, n2),
{
}

/// Whether a burst of `n` frames from playhead `time` reports completion,
/// as `fill` computes it.
pub open spec fn fill_reports_done(fired: bool, time: int, len: int, n: int) -> bool {
    !fired && time + n >= len
}

/// Seek accuracy: the playhead lands within one sample of the exact
/// fraction — `t * den` never exceeds `num * len` by a full `den`.
pub proof fn lemma_seek_accuracy(len: int, num: int, den: int)
    requires
        0 < den,
        0 <= num <= den,
        0 <= len,
    ensures
        ({
            let t = num * len / den;
            &&& t * den <= num * len < (t + 1) * den
            &&& 0 <= t <= len
        }),
{
    let t = num * len / den;
    vstd::arithmetic::div_mod::lemma_fundamental_div_mod(num * len, den);
    vstd::arithmetic::div_mod::lemma_mod_bound(num * len, den);
    assert(num * len >= 0) by (nonlinear_arith)
        requires
            0 <= num,
            0 <= len,
    ;
    assert((t + 1) * den == t * den + den) by (nonlinear_arith);
    assert(num * len <= den * len) by (nonlinear_arith)
        requires
            num <= den,
            0 <= len,
    ;
    assert(den * len / den == len) by (nonlinear_arith)
        requires
            0 < den,
    ;
    vstd::arithmetic::div_mod::lemma_div_is_ordered(num * len, den * len, den);
    vstd::arithmetic::div_mod::lemma_div_is_ordered(0, num * len, den);
}

} // verus!
