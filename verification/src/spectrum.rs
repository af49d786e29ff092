//! The spectrogram renderer: short-time magnitudes of the clip at 12 kHz,
//! warped onto a perceptual frequency axis and rastered through a fixed
//! colormap.
//!
//! The float primitives — the transform itself, and the cosine and
//! arithmetic the Hann window needs — are named trusted calls into the
//! FFT and complex-number crates; the window's composition, the hop
//! schedule, the gathering and zero-padding of windows, and the raster
//! assembly are verified over those names. The perceptual row mapping and
//! the intensity scale are this module's own verified integer arithmetic:
//! floating point is barred from verified code, so the `2595 log10(1 +
//! f/700)` warp and the `20 log10` gain are carried out over a Q16
//! base-2 logarithm with a linearly interpolated mantissa. That reading
//! keeps the formulas' structure — the warp's endpoints, its
//! monotonicity, the gain's -80 dB floor and 100 dB span — and its exact
//! definition stands in the open spec functions below; rows and colour
//! indices may differ from the real-valued formulas by the mantissa
//! interpolation's error (under a tenth of an octave).

use vstd::prelude::*;
use bytemuck::cast;
use num_complex::Complex32;
use realfft::RealFftPlanner;
use vstd::arithmetic::power2::{pow2, lemma2_to64, lemma2_to64_rest, lemma_pow2_pos};
use vstd::bits::{lemma_u64_shl_is_mul, lemma_u64_shr_is_div};
use crate::ErrorKind;
use crate::clip::{resampled_seq, AudioClip};
use crate::sample::{exp_of, f32_bits_of_int, float_bits_of_int, frac_of, msb_pos, lemma_msb_pos_unique, ZERO_BITS};

verus! {

/// The transform length.
pub const N_FFT: usize = 2048;

/// The hop between successive windows, in 12 kHz samples.
pub const HOP: usize = 200;

/// Names what num-complex's cosine returns on the real axis. The cosine
/// reaches the platform's float library, so results are fixed within a
/// process but may differ across machines; no contract here equates
/// results across machines.
pub uninterp spec fn cos_of(x: u32) -> u32;

/// Names the product num-complex's multiplication returns on the real
/// axis.
pub uninterp spec fn mul_of(a: u32, b: u32) -> u32;

/// Names the difference num-complex's subtraction returns on the real
/// axis.
pub uninterp spec fn sub_of(a: u32, b: u32) -> u32;

/// Names the quotient num-complex's division returns on the real axis.
pub uninterp spec fn div_of(a: u32, b: u32) -> u32;

/// Names the bins of the forward real FFT of a frame, flattened as
/// real/imaginary bit-pattern pairs.
pub uninterp spec fn fft_bins_of(chunk: Seq<u32>) -> Seq<u32>;

/// Names the complex magnitude num-complex's `norm` returns for a bin.
pub uninterp spec fn norm_of(re: u32, im: u32) -> u32;

/// Relies on num-complex's `Complex::cos` on the real axis.
#[verifier::external_body]
fn cos_bits(x: u32) -> (r: u32)
    ensures
        r == cos_of(x),
{
    Complex32::new(cast(x), 0 as _).cos().re.to_bits()
}

/// Relies on num-complex's multiplication on the real axis.
#[verifier::external_body]
fn mul_bits(a: u32, b: u32) -> (r: u32)
    ensures
        r == mul_of(a, b),
{
    (Complex32::new(cast(a), 0 as _) * Complex32::new(cast(b), 0 as _)).re.to_bits()
}

/// Relies on num-complex's subtraction on the real axis.
#[verifier::external_body]
fn sub_bits(a: u32, b: u32) -> (r: u32)
    ensures
        r == sub_of(a, b),
{
    (Complex32::new(cast(a), 0 as _) - Complex32::new(cast(b), 0 as _)).re.to_bits()
}

/// Relies on num-complex's division on the real axis.
#[verifier::external_body]
fn div_bits(a: u32, b: u32) -> (r: u32)
    ensures
        r == div_of(a, b),
{
    (Complex32::new(cast(a), 0 as _) / Complex32::new(cast(b), 0 as _)).re.to_bits()
}

/// Relies on realfft's `RealToComplex::process`: the forward real FFT of
/// the frame, each of its `len / 2 + 1` bins handed out as the bit
/// patterns of its real and imaginary parts.
#[verifier::external_body]
fn fft_bins(chunk: &Vec<u32>) -> (r: Vec<u32>)
    requires
        chunk@.len() == 2048,
    ensures
        r@ == fft_bins_of(chunk@),
        r@.len() == 2050,
{
    let r2c = RealFftPlanner::new().plan_fft_forward(chunk.len());
    let mut out: Vec<Complex32> = r2c.make_output_vec();
    let mut inp = chunk.clone();
    let _ = r2c.process(bytemuck::cast_slice_mut(inp.as_mut_slice()), &mut out);
    out.iter().flat_map(|z| [z.re.to_bits(), z.im.to_bits()]).collect()
}

/// Relies on num-complex's `Complex::norm`: the complex magnitude of a
/// bin.
#[verifier::external_body]
fn norm_bits(re: u32, im: u32) -> (r: u32)
    ensures
        r == norm_of(re, im),
{
    Complex32::new(cast(re), cast(im)).norm().to_bits()
}

/// The bit pattern of 2 pi, the full turn of the window's cosine.
pub const TAU_BITS: u32 = 0x40C9_0FDB;

/// The bit pattern of one half.
pub const HALF_BITS: u32 = 0x3F00_0000;

/// The Hann coefficient of position `i` in a frame of `n`:
/// `0.5 * (1 - cos(2 pi * (i / n)))`, each float step the named primitive.
pub open spec fn hann_coeff(i: int, n: int) -> u32 {
    mul_of(
        HALF_BITS,
        sub_of(
            crate::sample::ONE_BITS,
            cos_of(mul_of(TAU_BITS, div_of(float_bits_of_int(i), float_bits_of_int(n)))),
        ),
    )
}

/// A frame weighted by the Hann window.
pub open spec fn hann_windowed(chunk: Seq<u32>) -> Seq<u32> {
    Seq::new(chunk.len(), |i: int| mul_of(hann_coeff(i, chunk.len() as int), chunk[i]))
}

/// The first `len / 2` magnitudes of a frame's forward real FFT: the
/// complex magnitude of each kept bin.
pub open spec fn fft_mags_of(chunk: Seq<u32>) -> Seq<u32> {
    Seq::new(1024, |i: int| norm_of(fft_bins_of(chunk)[2 * i], fft_bins_of(chunk)[2 * i + 1]))
}

/// Weights each sample of a frame by the Hann window, composing the
/// named float primitives.
fn hann_apply(chunk: &Vec<u32>) -> (r: Vec<u32>)
    requires
        chunk@.len() <= 0xFF_FFFF,
    ensures
        r@ == hann_windowed(chunk@),
        r@.len() == chunk@.len(),
{
    let n = chunk.len();
    let fn_bits = f32_bits_of_int(n as u32);
    let mut r: Vec<u32> = Vec::new();
    let mut i: usize = 0;
    while i < n
        invariant
            n == chunk@.len(),
            n <= 0xFF_FFFF,
            fn_bits == float_bits_of_int(n as int),
            i <= n,
            r@.len() == i,
            forall|q: int| 0 <= q < i ==> #[trigger] r@[q] == hann_windowed(chunk@)[q],
        decreases n - i,
    {
        let fi = f32_bits_of_int(i as u32);
        let w = mul_bits(
            HALF_BITS,
            sub_bits(
                crate::sample::ONE_BITS,
                cos_bits(mul_bits(TAU_BITS, div_bits(fi, fn_bits))),
            ),
        );
        r.push(mul_bits(w, chunk[i]));
        i = i + 1;
    }
    proof {
        assert(r@ =~= hann_windowed(chunk@));
    }
    r
}

/// Reduces a windowed frame's FFT bins to the kept magnitudes: the first
/// half of the bins, each taken as its complex magnitude.
fn fft_mags(chunk: &Vec<u32>) -> (r: Vec<u32>)
    requires
        chunk@.len() == 2048,
    ensures
        r@ == fft_mags_of(chunk@),
        r@.len() == 1024,
{
    let bins = fft_bins(chunk);
    let mut r: Vec<u32> = Vec::new();
    let mut i: usize = 0;
    while i < 1024
        invariant
            bins@ == fft_bins_of(chunk@),
            bins@.len() == 2050,
            i <= 1024,
            r@.len() == i,
            forall|q: int| 0 <= q < i ==> #[trigger] r@[q] == fft_mags_of(chunk@)[q],
        decreases 1024 - i,
    {
        r.push(norm_bits(bins[2 * i], bins[2 * i + 1]));
        i = i + 1;
    }
    proof {
        assert(r@ =~= fft_mags_of(chunk@));
    }
    r
}

/// The 2048-sample window starting at `start`, reads past the end of the
/// buffer filled with silence.
pub open spec fn window_at(s: Seq<u32>, start: int) -> Seq<u32> {
    Seq::new(2048, |i: int| if start + i < s.len() {
        s[start + i]
    } else {
        ZERO_BITS
    })
}

/// Where the hop schedule starts: the requested start, quantized down to
/// a whole number of transform lengths.
pub open spec fn hop_start(range_lo: int) -> int {
    (range_lo / 2048) * 2048
}

/// The upper bound of the schedule: the requested end mapped from
/// source-rate indices to 12 kHz indices.
pub open spec fn hop_end(range_hi: int, source_rate: int) -> int {
    range_hi * 12000 / source_rate
}

/// How many windows the schedule yields: one per hop while a whole
/// window still starts strictly before the end.
pub open spec fn hop_count(start: int, end: int) -> int {
    if start + 2048 < end {
        (end - start - 2049) / 200 + 1
    } else {
        0
    }
}

/// The whole schedule's magnitudes: one named transform per hop.
pub open spec fn spectro_frames(s12: Seq<u32>, start: int, end: int) -> Seq<Seq<u32>> {
    Seq::new(
        hop_count(start, end) as nat,
        |k: int| fft_mags_of(hann_windowed(window_at(s12, start + 200 * k))),
    )
}

impl AudioClip {
    /// The short-time magnitudes of the clip: the clip is resampled to
    /// 12 kHz, and every 200-sample hop from the quantized range start
    /// yields the named transform of its zero-padded 2048-sample window.
    pub fn spectrogram(&self, range: (usize, usize)) -> (r: Result<Vec<Vec<u32>>, ErrorKind>)
        requires
            self.sample_rate > 0,
            self.samples@.len() <= 0xFFFF_FFFF,
            crate::clip::resampled_len(self.samples@.len() as int, self.sample_rate as int, 12000)
                <= 0xFFFF_FFFF,
            range.0 <= 0xFFFF_FFFF,
            range.1 <= 0xFFFF_FFFF,
            range.1 * 12000 / self.sample_rate as int <= 0xFFFF_FFFF,
        ensures
            match r {
                Ok(v) => {
                    let s12 = resampled_seq(self.samples@, self.sample_rate as int, 12000);
                    let start = hop_start(range.0 as int);
                    let end = hop_end(range.1 as int, self.sample_rate as int);
                    &&& v@.len() == hop_count(start, end)
                    &&& forall|k: int|
                        0 <= k < v@.len() ==> #[trigger] v@[k]@ == fft_mags_of(
                            hann_windowed(window_at(s12, start + 200 * k)),
                        ) && v@[k]@.len() == 1024
                },
                Err(_) => false,
            },
    {
        let resampled = self.resample(12000);
        let s12 = &resampled.samples;
        let len12 = s12.len();
        let start0: usize = (range.0 / 2048) * 2048;
        proof {
            vstd::arithmetic::div_mod::lemma_fundamental_div_mod(range.0 as int, 2048);
            vstd::arithmetic::div_mod::lemma_mod_bound(range.0 as int, 2048);
        }
        let end: u64 = ((range.1 as u64) * 12000u64) / (self.sample_rate as u64);
        let mut spectra: Vec<Vec<u32>> = Vec::new();
        let mut start: u64 = start0 as u64;
        let ghost gstart = start0 as int;
        let ghost gend = end as int;
        while start + 2048 < end
            invariant
                start <= 0x1_0000_1000,
                len12 == s12@.len(),
                s12@ == resampled_seq(self.samples@, self.sample_rate as int, 12000),
                gend == end,
                gend <= 0xFFFF_FFFF,
                start >= gstart,
                (start - gstart) % 200 == 0,
                spectra@.len() == (start - gstart) / 200,
                gstart + 2048 < gend ==> start <= gstart + 200 * hop_count(gstart, gend),
                !(gstart + 2048 < gend) ==> start == gstart,
                forall|k: int|
                    0 <= k < spectra@.len() ==> #[trigger] spectra@[k]@ == fft_mags_of(
                        hann_windowed(window_at(s12@, gstart + 200 * k)),
                    ) && spectra@[k]@.len() == 1024,
            decreases end - start,
        {
            let mut chunk: Vec<u32> = Vec::new();
            let mut i: usize = 0;
            while i < 2048
                invariant
                    i <= 2048,
                    start + 2048 < gend <= 0xFFFF_FFFF,
                    len12 == s12@.len(),
                    chunk@.len() == i,
                    forall|q: int|
                        0 <= q < i ==> #[trigger] chunk@[q] == window_at(s12@, start as int)[q],
                decreases 2048 - i,
            {
                let idx: u64 = start + (i as u64);
                if idx < len12 as u64 {
                    chunk.push(s12[idx as usize]);
                } else {
                    chunk.push(ZERO_BITS);
                }
                i = i + 1;
            }
            proof {
                assert(chunk@ =~= window_at(s12@, start as int));
            }
            let windowed = hann_apply(&chunk);
            let mags = fft_mags(&windowed);
            proof {
                let k = spectra@.len() as int;
                vstd::arithmetic::div_mod::lemma_fundamental_div_mod(
                    (start - gstart) as int,
                    200,
                );
                assert(start as int == gstart + 200 * k);
                lemma_hop_count_step(gstart, gend, k);
            }
            spectra.push(mags);
            start = start + 200;
            proof {
                vstd::arithmetic::div_mod::lemma_fundamental_div_mod_converse(
                    (start - gstart) as int,
                    200,
                    spectra@.len() as int,
                    0,
                );
            }
        }
        proof {
            if gstart + 2048 < gend {
                let k = spectra@.len() as int;
                vstd::arithmetic::div_mod::lemma_fundamental_div_mod((start - gstart) as int, 200);
                assert(start as int == gstart + 200 * k);
                lemma_hop_count_exact(gstart, gend, k);
            } else {
                assert(spectra@.len() == 0);
            }
        }
        Ok(spectra)
    }
}

/// While a whole window still fits, the hop index stays below the count.
proof fn lemma_hop_count_step(start: int, end: int, k: int)
    requires
        0 <= k,
        start + 200 * k + 2048 < end,
    ensures
        k < hop_count(start, end),
        start + 2048 < end,
{
    assert(200 * k >= 0) by (nonlinear_arith)
        requires
            k >= 0,
    ;
    let c = (end - start - 2049) / 200 + 1;
    vstd::arithmetic::div_mod::lemma_fundamental_div_mod(end - start - 2049, 200);
    vstd::arithmetic::div_mod::lemma_mod_bound(end - start - 2049, 200);
    assert(200 * k <= end - start - 2049);
    vstd::arithmetic::div_mod::lemma_div_is_ordered(200 * k, end - start - 2049, 200);
    assert(200 * k / 200 == k) by (nonlinear_arith);
}

/// Once no whole window fits, exactly `hop_count` windows were taken.
proof fn lemma_hop_count_exact(start: int, end: int, k: int)
    requires
        0 <= k,
        start + 2048 < end,
        !(start + 200 * k + 2048 < end),
        k == 0 || start + 200 * (k - 1) + 2048 < end,
    ensures
        k == hop_count(start, end),
{
    vstd::arithmetic::div_mod::lemma_fundamental_div_mod(end - start - 2049, 200);
    vstd::arithmetic::div_mod::lemma_mod_bound(end - start - 2049, 200);
    if k == 0 {
        assert(false);
    } else {
        assert(200 * (k - 1) <= end - start - 2049 < 200 * k) by (nonlinear_arith)
            requires
                start + 200 * (k - 1) + 2048 < end,
                !(start + 200 * k + 2048 < end),
                200 * k == 200 * (k - 1) + 200,
        ;
        assert(200 * k == 200 * (k - 1) + 200) by (nonlinear_arith);
        assert((end - start - 2049) / 200 == k - 1) by {
            vstd::arithmetic::div_mod::lemma_fundamental_div_mod_converse(
                end - start - 2049,
                200,
                k - 1,
                end - start - 2049 - 200 * (k - 1),
            );
        }
    }
}

/// A base-2 logarithm in Q16 fixed point, the mantissa interpolated
/// linearly between powers of two: `msb(n) + (n - 2^msb) / 2^msb`.
pub open spec fn log2n_q16(n: int) -> int {
    let p = msb_pos(n as nat);
    p * 65536 + (n - pow2(p)) * 65536 / (pow2(p) as int)
}

/// Computes the Q16 base-2 logarithm of a positive integer.
pub fn log2n(n: u64) -> (r: u64)
    requires
        1 <= n <= 0xFFFF_FFFF,
    ensures
        r == log2n_q16(n as int),
        r <= 33 * 65536,
{
    let mut p: u64 = 0;
    proof {
        lemma2_to64();
        assert(n >> 0u64 == n) by (bit_vector);
    }
    while p < 63 && (n >> (p + 1)) > 0
        invariant
            p < 64,
            n >> p >= 1,
            n <= 0xFFFF_FFFF,
        decreases 64 - p,
    {
        proof {
            lemma_u64_shr_is_div(n, (p + 1) as u64);
            lemma_u64_shr_is_div(n, p);
            lemma_pow2_pos((p + 1) as nat);
            lemma_pow2_pos(p as nat);
        }
        p = p + 1;
    }
    proof {
        lemma_u64_shr_is_div(n, p);
        lemma_pow2_pos(p as nat);
        assert(n as nat >= pow2(p as nat)) by (nonlinear_arith)
            requires
                n as nat / pow2(p as nat) >= 1,
                pow2(p as nat) > 0,
        ;
        if p >= 32 {
            lemma2_to64();
            lemma2_to64_rest();
            if p > 32 {
                vstd::arithmetic::power2::lemma_pow2_strictly_increases(32nat, p as nat);
            }
            assert(false);
        }
        lemma_u64_shr_is_div(n, (p + 1) as u64);
        lemma_pow2_pos((p + 1) as nat);
        assert((n as nat) < pow2((p + 1) as nat)) by (nonlinear_arith)
            requires
                n as nat / pow2((p + 1) as nat) == 0,
                pow2((p + 1) as nat) > 0,
        ;
        lemma_msb_pos_unique(n as nat, p as nat);
        lemma_u64_shl_is_mul(1u64, p);
        assert(pow2(p as nat) <= 0xFFFF_FFFF);
    }
    let base: u64 = 1u64 << p;
    let rest: u64 = n - base;
    proof {
        lemma_u64_shl_is_mul(rest, 16);
        assert(rest * pow2(16nat) <= 0xFFFF_FFFF * 0x1_0000) by (nonlinear_arith)
            requires
                rest <= 0xFFFF_FFFF,
                pow2(16nat) == 0x1_0000,
        ;
        lemma2_to64();
        lemma_u64_shr_is_div((rest << 16u64), p);
    }
    let frac: u64 = (rest << 16u64) >> p;
    proof {
        assert(frac == (rest * 65536) as nat / pow2(p as nat));
        assert(frac * pow2(p as nat) <= rest * 65536) by {
            vstd::arithmetic::div_mod::lemma_fundamental_div_mod(
                (rest * 65536) as int,
                pow2(p as nat) as int,
            );
            vstd::arithmetic::div_mod::lemma_mod_bound(
                (rest * 65536) as int,
                pow2(p as nat) as int,
            );
        }
        assert(frac <= 65536) by (nonlinear_arith)
            requires
                frac * pow2(p as nat) <= rest * 65536,
                rest < pow2(p as nat),
                pow2(p as nat) > 0,
        ;
    }
    p * 65536 + frac
}

/// The Q16 logarithm lies within its leading bit's band.
proof fn lemma_log2n_range(n: int)
    requires
        1 <= n,
    ensures
        msb_pos(n as nat) * 65536 <= log2n_q16(n) < (msb_pos(n as nat) + 1) * 65536,
{
    let p = msb_pos(n as nat);
    crate::sample::lemma_msb_pos_bounds(n as nat);
    lemma_pow2_pos(p);
    vstd::arithmetic::power2::lemma_pow2_adds(p, 1);
    lemma2_to64();
    assert(pow2(p + 1) == pow2(p) * 2);
    let d = pow2(p) as int;
    assert(d <= n && n < 2 * d);
    let numer = (n - d) * 65536;
    assert(0 <= numer && numer <= 65536 * d - 1) by (nonlinear_arith)
        requires
            d <= n,
            n - d < d,
            numer == (n - d) * 65536,
    ;
    vstd::arithmetic::div_mod::lemma_div_pos_is_pos(numer, d);
    vstd::arithmetic::div_mod::lemma_div_is_ordered(numer, 65536 * d - 1, d);
    vstd::arithmetic::div_mod::lemma_fundamental_div_mod_converse(
        65536 * d - 1,
        d,
        65535,
        d - 1,
    );
}

/// The Q16 logarithm never shrinks as its argument grows.
pub proof fn lemma_log2n_monotone(n1: int, n2: int)
    requires
        1 <= n1 <= n2,
    ensures
        log2n_q16(n1) <= log2n_q16(n2),
{
    let p1 = msb_pos(n1 as nat);
    let p2 = msb_pos(n2 as nat);
    crate::sample::lemma_msb_pos_bounds(n1 as nat);
    crate::sample::lemma_msb_pos_bounds(n2 as nat);
    lemma_log2n_range(n1);
    lemma_log2n_range(n2);
    if p1 > p2 {
        vstd::arithmetic::power2::lemma_pow2_strictly_increases(p2 + 1, p1 + 1);
        if p2 + 1 < p1 {
            vstd::arithmetic::power2::lemma_pow2_strictly_increases(p2 + 1, p1);
        }
        assert(false);
    }
    if p1 == p2 {
        let d = pow2(p1) as int;
        lemma_pow2_pos(p1);
        assert((n1 - d) * 65536 <= (n2 - d) * 65536) by (nonlinear_arith)
            requires
                n1 <= n2,
        ;
        vstd::arithmetic::div_mod::lemma_div_is_ordered(
            (n1 - d) * 65536,
            (n2 - d) * 65536,
            d,
        );
    } else {
        assert((p1 + 1) * 65536 <= p2 * 65536) by (nonlinear_arith)
            requires
                p1 + 1 <= p2,
        ;
    }
}

/// The perceptual row mapping is monotone: a higher frequency bin never
/// lands on a lower raster row.
pub proof fn lemma_mel_row_monotone(i1: int, i2: int, h: int)
    requires
        0 <= i1 <= i2,
        0 <= h,
    ensures
        mel_row_spec(i1, h) <= mel_row_spec(i2, h),
{
    let a1 = log2n_q16(44800 + 375 * i1) - log2n_q16(44864);
    let a2 = log2n_q16(44800 + 375 * i2) - log2n_q16(44864);
    let b = log2n_q16((6700 * 64) as int) - log2n_q16((701 * 64) as int);
    assert(375 * i1 <= 375 * i2) by (nonlinear_arith)
        requires
            i1 <= i2,
    ;
    assert(0 <= 375 * i1) by (nonlinear_arith)
        requires
            0 <= i1,
    ;
    lemma_log2n_monotone(44800 + 375 * i1, 44800 + 375 * i2);
    lemma2_to64();
    lemma2_to64_rest();
    lemma_msb_pos_unique((6700 * 64) as nat, 18nat);
    lemma_msb_pos_unique((701 * 64) as nat, 15nat);
    lemma_log2n_range((6700 * 64) as int);
    lemma_log2n_range((701 * 64) as int);
    assert(b > 0);
    if a1 <= 0 {
        if a2 > 0 {
            assert(2 * h * a2 + b >= 0) by (nonlinear_arith)
                requires
                    0 <= h,
                    0 < a2,
                    0 < b,
            ;
            vstd::arithmetic::div_mod::lemma_div_pos_is_pos(2 * h * a2 + b, 2 * b);
        }
    } else {
        assert(2 * h * a1 + b >= 0 && 2 * h * a1 + b <= 2 * h * a2 + b) by (nonlinear_arith)
            requires
                0 <= h,
                0 < a1 <= a2,
                0 < b,
        ;
        vstd::arithmetic::div_mod::lemma_div_is_ordered(2 * h * a1 + b, 2 * h * a2 + b, 2 * b);
    }
}

/// The raster row (from the bottom) that frequency bin `i` lands on at a
/// raster `h` rows tall: the perceptual position of the bin's frequency
/// between 1 Hz and 6 kHz, rounded. The `2595 * log10(1 + f / 700)` warp
/// reduces exactly to a ratio of logarithms of integer frequencies scaled
/// by 64, which is then read over the Q16 base-2 logarithm — the module's
/// defined integer rendering of the warp (see the module notes).
pub open spec fn mel_row_spec(i: int, h: int) -> int {
    let a = log2n_q16(44800 + 375 * i) - log2n_q16(44864);
    let b = log2n_q16((6700 * 64) as int) - log2n_q16((701 * 64) as int);
    if a <= 0 {
        0
    } else {
        let row = (2 * h * a + b) / (2 * b);
        if row > h {
            h
        } else {
            row
        }
    }
}

/// Computes the raster row of a frequency bin.
pub fn mel_row(i: usize, h: usize) -> (r: usize)
    requires
        i < 1024,
        h <= 0xFFFF_FFFF,
    ensures
        r == mel_row_spec(i as int, h as int),
        r <= h,
{
    let num: u64 = 44800 + 375 * (i as u64);
    let a1 = log2n(num);
    let a2 = log2n(44864);
    let b1 = log2n(6700 * 64);
    let b2 = log2n(701 * 64);
    proof {
        lemma2_to64();
        lemma2_to64_rest();
        lemma_msb_pos_unique((6700 * 64) as nat, 18nat);
        lemma_msb_pos_unique((701 * 64) as nat, 15nat);
        lemma_log2n_range((6700 * 64) as int);
        lemma_log2n_range((701 * 64) as int);
        assert(b1 >= 18 * 65536);
        assert(b2 < 16 * 65536);
    }
    let b: i128 = (b1 as i128) - (b2 as i128);
    if a1 <= a2 {
        return 0;
    }
    let a: i128 = (a1 as i128) - (a2 as i128);
    proof {
        assert(2 * (h as int) * (a as int) <= 2 * 0xFFFF_FFFF * (33 * 65536))
            by (nonlinear_arith)
            requires
                0 < a as int <= 33 * 65536,
                0 <= h as int <= 0xFFFF_FFFF,
        ;
        assert(0 <= 2 * (h as int) * (a as int)) by (nonlinear_arith)
            requires
                0 < a as int,
                0 <= h as int,
        ;
    }
    let row_wide: i128 = (2 * (h as i128) * a + b) / (2 * b);
    proof {
        let aa = a as int;
        let bb = b as int;
        let hh = h as int;
        assert(2 * hh * aa + bb >= 0) by (nonlinear_arith)
            requires
                aa > 0,
                bb > 0,
                hh >= 0,
        ;
        assert((2 * hh * aa + bb) / (2 * bb) >= 0) by (nonlinear_arith)
            requires
                2 * hh * aa + bb >= 0,
                bb > 0,
        ;
        assert((2 * hh * aa + bb) / (2 * bb) <= (2 * hh * (33 * 65536) + bb) / (2 * bb))
            by (nonlinear_arith)
            requires
                aa <= 33 * 65536,
                bb > 0,
                hh >= 0,
                2 * hh * aa + bb >= 0,
        ;
        assert((2 * hh * (33 * 65536) + bb) / (2 * bb) <= 2 * hh * (33 * 65536) / (2 * bb) + 1)
            by (nonlinear_arith)
            requires
                bb > 0,
        ;
        assert(2 * hh * (33 * 65536) / (2 * bb) <= hh * 33) by (nonlinear_arith)
            requires
                bb >= 65536,
                hh >= 0,
        ;
    }
    let row = if row_wide > h as i128 {
        h as i128
    } else {
        row_wide
    };
    row as usize
}

/// The intensity of a magnitude, in Q16 fixed point between silence and
/// full scale: the gain `20 * log10(mag)` normalized from a -80 dB floor
/// over a 100 dB span. The base-10 logarithm is the module's defined
/// integer rendering (see the module notes): the Q16 base-2 logarithm
/// read straight off the magnitude's exponent and fraction, scaled by
/// the base conversion constant 0.30103 as 19728 / 65536.
pub open spec fn intensity_q16_spec(b: u32) -> int {
    let log2m = (exp_of(b) - 127) * 65536 + frac_of(b) / 128;
    let log10_q32 = log2m * 19728;
    let numer = 20 * log10_q32 + 80 * 0x1_0000_0000;
    if numer <= 0 {
        0
    } else {
        let a = numer / 6553600;
        if a > 65536 {
            65536
        } else {
            a
        }
    }
}

/// Computes a magnitude's Q16 intensity.
pub fn intensity_q16(b: u32) -> (r: u32)
    ensures
        r == intensity_q16_spec(b),
        r <= 65536,
{
    let e: i64 = (((b >> 23) & 0xFF) as i64) - 127;
    let f: i64 = ((b & 0x7F_FFFF) >> 7) as i64;
    proof {
        assert(((b >> 23) & 0xFF) < 256) by (bit_vector);
        assert(((b & 0x7F_FFFF) >> 7) == (b & 0x7F_FFFF) / 128) by (bit_vector);
        assert(((b & 0x7F_FFFF) >> 7) < 0x1_0000) by (bit_vector);
    }
    let log2m: i64 = e * 65536 + f;
    let numer: i128 = 20 * (log2m as i128) * 19728 + 80 * 0x1_0000_0000;
    if numer <= 0 {
        return 0;
    }
    let a: i128 = numer / 6553600;
    proof {
        let nn = numer as int;
        assert(nn / 6553600 >= 0) by (nonlinear_arith)
            requires
                nn > 0,
        ;
        assert(nn / 6553600 <= 0x1_0000_0000_0000) by (nonlinear_arith)
            requires
                0 < nn <= 0x1_0000_0000_0000 * 6553600,
        ;
        assert(20 * (log2m as int) * 19728 == (log2m as int) * (20 * 19728)) by (nonlinear_arith);
    }
    if a > 65536 {
        65536
    } else {
        a as u32
    }
}

/// The colormap's bytes.
pub open spec fn acton_bytes() -> Seq<u8> {
    seq![
        46u8, 33u8, 76u8, 47u8, 34u8, 77u8, 48u8, 34u8, 78u8, 49u8, 35u8, 79u8, 50u8, 36u8, 80u8, 51u8,
        37u8, 81u8, 52u8, 38u8, 82u8, 53u8, 39u8, 82u8, 54u8, 40u8, 83u8, 55u8, 41u8, 84u8, 56u8, 42u8,
        85u8, 57u8, 42u8, 86u8, 58u8, 43u8, 87u8, 59u8, 44u8, 88u8, 60u8, 45u8, 89u8, 61u8, 46u8, 90u8,
        62u8, 47u8, 91u8, 63u8, 48u8, 92u8, 64u8, 49u8, 93u8, 65u8, 50u8, 93u8, 66u8, 51u8, 94u8, 67u8,
        52u8, 95u8, 68u8, 53u8, 96u8, 69u8, 54u8, 97u8, 70u8, 54u8, 98u8, 71u8, 55u8, 99u8, 73u8, 56u8,
        100u8, 74u8, 57u8, 101u8, 75u8, 58u8, 102u8, 76u8, 59u8, 103u8, 77u8, 60u8, 104u8, 78u8, 61u8, 105u8,
        79u8, 62u8, 106u8, 80u8, 63u8, 107u8, 81u8, 64u8, 107u8, 83u8, 65u8, 108u8, 84u8, 66u8, 109u8, 85u8,
        67u8, 110u8, 86u8, 67u8, 111u8, 87u8, 68u8, 112u8, 88u8, 69u8, 113u8, 90u8, 70u8, 114u8, 91u8, 71u8,
        115u8, 92u8, 72u8, 116u8, 93u8, 73u8, 117u8, 94u8, 74u8, 118u8, 96u8, 75u8, 118u8, 97u8, 76u8, 119u8,
        98u8, 76u8, 120u8, 99u8, 77u8, 121u8, 101u8, 78u8, 122u8, 102u8, 79u8, 123u8, 103u8, 80u8, 124u8, 104u8,
        81u8, 125u8, 106u8, 82u8, 125u8, 107u8, 82u8, 126u8, 108u8, 83u8, 127u8, 110u8, 84u8, 128u8, 111u8, 85u8,
        129u8, 112u8, 85u8, 129u8, 113u8, 86u8, 130u8, 115u8, 87u8, 131u8, 116u8, 88u8, 132u8, 117u8, 88u8, 132u8,
        119u8, 89u8, 133u8, 120u8, 90u8, 134u8, 121u8, 90u8, 134u8, 123u8, 91u8, 135u8, 124u8, 92u8, 136u8, 125u8,
        92u8, 136u8, 127u8, 93u8, 137u8, 128u8, 93u8, 138u8, 129u8, 94u8, 138u8, 131u8, 94u8, 139u8, 132u8, 95u8,
        139u8, 133u8, 95u8, 140u8, 135u8, 96u8, 140u8, 136u8, 96u8, 141u8, 137u8, 97u8, 141u8, 138u8, 97u8, 141u8,
        140u8, 97u8, 142u8, 141u8, 98u8, 142u8, 142u8, 98u8, 143u8, 143u8, 98u8, 143u8, 145u8, 99u8, 143u8, 146u8,
        99u8, 144u8, 147u8, 99u8, 144u8, 148u8, 99u8, 144u8, 149u8, 100u8, 144u8, 151u8, 100u8, 145u8, 152u8, 100u8,
        145u8, 153u8, 100u8, 145u8, 154u8, 100u8, 145u8, 155u8, 100u8, 146u8, 156u8, 101u8, 146u8, 158u8, 101u8, 146u8,
        159u8, 101u8, 146u8, 160u8, 101u8, 146u8, 161u8, 101u8, 146u8, 162u8, 101u8, 147u8, 163u8, 101u8, 147u8, 164u8,
        101u8, 147u8, 165u8, 101u8, 147u8, 166u8, 101u8, 147u8, 167u8, 102u8, 147u8, 169u8, 102u8, 147u8, 170u8, 102u8,
        148u8, 171u8, 102u8, 148u8, 172u8, 102u8, 148u8, 173u8, 102u8, 148u8, 174u8, 102u8, 148u8, 175u8, 102u8, 148u8,
        176u8, 103u8, 149u8, 177u8, 103u8, 149u8, 179u8, 103u8, 149u8, 180u8, 103u8, 149u8, 181u8, 103u8, 149u8, 182u8,
        104u8, 150u8, 183u8, 104u8, 150u8, 184u8, 104u8, 150u8, 186u8, 105u8, 151u8, 187u8, 105u8, 151u8, 188u8, 106u8,
        151u8, 189u8, 106u8, 152u8, 190u8, 107u8, 152u8, 192u8, 107u8, 153u8, 193u8, 108u8, 153u8, 194u8, 109u8, 154u8,
        195u8, 109u8, 154u8, 196u8, 110u8, 155u8, 198u8, 111u8, 156u8, 199u8, 112u8, 156u8, 200u8, 113u8, 157u8, 201u8,
        114u8, 158u8, 202u8, 115u8, 159u8, 203u8, 116u8, 159u8, 204u8, 117u8, 160u8, 205u8, 118u8, 161u8, 206u8, 119u8,
        162u8, 206u8, 120u8, 162u8, 207u8, 121u8, 163u8, 208u8, 122u8, 164u8, 208u8, 123u8, 165u8, 209u8, 124u8, 165u8,
        209u8, 125u8, 166u8, 210u8, 126u8, 167u8, 210u8, 127u8, 168u8, 211u8, 128u8, 168u8, 211u8, 129u8, 169u8, 211u8,
        130u8, 170u8, 211u8, 131u8, 171u8, 212u8, 132u8, 171u8, 212u8, 133u8, 172u8, 212u8, 134u8, 173u8, 212u8, 135u8,
        173u8, 212u8, 136u8, 174u8, 212u8, 136u8, 175u8, 212u8, 137u8, 175u8, 212u8, 138u8, 176u8, 212u8, 139u8, 176u8,
        212u8, 140u8, 177u8, 212u8, 141u8, 178u8, 212u8, 142u8, 178u8, 212u8, 142u8, 179u8, 212u8, 143u8, 180u8, 212u8,
        144u8, 180u8, 212u8, 145u8, 181u8, 212u8, 146u8, 181u8, 212u8, 147u8, 182u8, 212u8, 147u8, 182u8, 212u8, 148u8,
        183u8, 212u8, 149u8, 184u8, 211u8, 150u8, 184u8, 211u8, 151u8, 185u8, 211u8, 151u8, 185u8, 211u8, 152u8, 186u8,
        211u8, 153u8, 187u8, 211u8, 154u8, 187u8, 211u8, 155u8, 188u8, 211u8, 156u8, 188u8, 211u8, 156u8, 189u8, 211u8,
        157u8, 190u8, 211u8, 158u8, 190u8, 211u8, 159u8, 191u8, 211u8, 160u8, 191u8, 211u8, 161u8, 192u8, 211u8, 162u8,
        193u8, 211u8, 162u8, 193u8, 211u8, 163u8, 194u8, 211u8, 164u8, 194u8, 211u8, 165u8, 195u8, 211u8, 166u8, 196u8,
        211u8, 167u8, 196u8, 211u8, 168u8, 197u8, 211u8, 169u8, 198u8, 211u8, 169u8, 198u8, 211u8, 170u8, 199u8, 212u8,
        171u8, 199u8, 212u8, 172u8, 200u8, 212u8, 173u8, 201u8, 212u8, 174u8, 201u8, 212u8, 175u8, 202u8, 212u8, 176u8,
        203u8, 212u8, 177u8, 203u8, 213u8, 178u8, 204u8, 213u8, 179u8, 205u8, 213u8, 180u8, 205u8, 213u8, 181u8, 206u8,
        213u8, 182u8, 207u8, 214u8, 182u8, 207u8, 214u8, 183u8, 208u8, 214u8, 184u8, 209u8, 214u8, 185u8, 209u8, 214u8,
        186u8, 210u8, 215u8, 187u8, 211u8, 215u8, 188u8, 211u8, 215u8, 189u8, 212u8, 216u8, 190u8, 213u8, 216u8, 191u8,
        213u8, 216u8, 192u8, 214u8, 216u8, 193u8, 215u8, 217u8, 194u8, 215u8, 217u8, 195u8, 216u8, 217u8, 196u8, 217u8,
        218u8, 197u8, 217u8, 218u8, 198u8, 218u8, 218u8, 199u8, 219u8, 219u8, 200u8, 220u8, 219u8, 201u8, 220u8, 219u8,
        202u8, 221u8, 220u8, 203u8, 222u8, 220u8, 204u8, 222u8, 220u8, 205u8, 223u8, 221u8, 206u8, 224u8, 221u8, 207u8,
        224u8, 221u8, 208u8, 225u8, 222u8, 209u8, 226u8, 222u8, 210u8, 227u8, 223u8, 211u8, 227u8, 223u8, 212u8, 228u8,
        223u8, 213u8, 229u8, 224u8, 215u8, 229u8, 224u8, 216u8, 230u8, 224u8, 217u8, 231u8, 225u8, 218u8, 231u8, 225u8,
        219u8, 232u8, 226u8, 220u8, 233u8, 226u8, 221u8, 234u8, 226u8, 222u8, 234u8, 227u8, 223u8, 235u8, 227u8, 224u8,
        236u8, 228u8, 225u8, 236u8, 228u8, 226u8, 237u8, 228u8, 227u8, 238u8, 229u8, 228u8, 239u8, 229u8, 229u8, 239u8,
    ]
}

/// The painting state after the first `i` bins of a spectrum column
/// have been walked: the row the next span starts at, the accumulated
/// intensity sum and count, and the rows painted so far with their
/// colormap indices.
pub open spec fn column_walk(spectrum: Seq<u32>, h: int, i: int) -> (int, int, int, Map<int, int>)
    decreases i,
{
    if i <= 0 {
        (0, 0, 0, Map::<int, int>::empty())
    } else {
        let s = column_walk(spectrum, h, i - 1);
        let y = mel_row_spec(i - 1, h);
        let a = intensity_q16_spec(spectrum[i - 1]);
        if y > s.0 {
            let px = if s.2 > 0 {
                painted_rows(s.3, s.0, y, cmap_index(s.1, s.2))
            } else {
                s.3
            };
            (y, a, 1, px)
        } else {
            (s.0, s.1 + a, s.2 + 1, s.3)
        }
    }
}

/// The colormap entry an averaged intensity selects.
pub open spec fn cmap_index(sum: int, cnt: int) -> int {
    let v = 255 * (sum / cnt) / 65536;
    if v > 255 {
        255
    } else {
        v
    }
}

/// A span of rows painted over earlier rows.
pub open spec fn painted_rows(px: Map<int, int>, lo: int, hi: int, idx: int) -> Map<int, int> {
    Map::new(
        |r: int| (lo <= r < hi) || px.dom().contains(r),
        |r: int| if lo <= r < hi {
            idx
        } else {
            px[r]
        },
    )
}

/// The byte a spectrogram raster holds for a pixel: the column's share of
/// the schedule is walked, and a covered bottom-up row shows its span's
/// colormap color, opaque; everything else is transparent black.
pub open spec fn spectro_pixel(sm: Seq<Seq<u32>>, w: int, h: int, xx: int, yy: int, ch: int) -> u8 {
    let c = xx * sm.len() / w;
    if c < sm.len() {
        let px = column_walk(sm[c], h, 1024).3;
        let row = h - 1 - yy;
        if px.dom().contains(row) {
            if ch == 3 {
                255u8
            } else {
                acton_bytes()[3 * px[row] + ch]
            }
        } else {
            0u8
        }
    } else {
        0u8
    }
}

/// A magnitude's intensity is never negative.
proof fn lemma_intensity_nonneg(b: u32)
    ensures
        0 <= intensity_q16_spec(b) <= 65536,
{
    let log2m = (exp_of(b) - 127) * 65536 + frac_of(b) / 128;
    let numer = 20 * (log2m * 19728) + 80 * 0x1_0000_0000;
    if numer > 0 {
        vstd::arithmetic::div_mod::lemma_div_pos_is_pos(numer, 6553600);
    }
}

/// The byte one column's paint leaves at a flat raster position: rows
/// the walk covered show their span's color (opaque); every other
/// position keeps the base byte.
pub open spec fn column_byte(
    pxm: Map<int, int>,
    w: int,
    h: int,
    x: int,
    base: Seq<u8>,
    i: int,
) -> u8 {
    let pix = i / 4;
    let ch = i % 4;
    let xx = pix % w;
    let yy = pix / w;
    if xx == x && pxm.dom().contains(h - 1 - yy) {
        if ch == 3 {
            255u8
        } else {
            acton_bytes()[3 * pxm[h - 1 - yy] + ch]
        }
    } else {
        base[i]
    }
}

/// The finished raster's byte at a flat position.
pub open spec fn raster_byte_of(sm: Seq<Seq<u32>>, w: int, h: int, i: int) -> u8 {
    spectro_pixel(sm, w, h, (i / 4) % w, (i / 4) / w, i % 4)
}

/// A flat raster index recomposes from its channel, column and row.
proof fn lemma_flat_decompose(i: int, w: int)
    requires
        0 < w,
        0 <= i,
    ensures
        i == (((i / 4) / w) * w + (i / 4) % w) * 4 + i % 4,
        0 <= i % 4 < 4,
        0 <= (i / 4) % w < w,
        0 <= (i / 4) / w,
{
    vstd::arithmetic::div_mod::lemma_fundamental_div_mod(i, 4);
    vstd::arithmetic::div_mod::lemma_mod_bound(i, 4);
    vstd::arithmetic::div_mod::lemma_fundamental_div_mod(i / 4, w);
    vstd::arithmetic::div_mod::lemma_mod_bound(i / 4, w);
    vstd::arithmetic::div_mod::lemma_div_pos_is_pos(i, 4);
    vstd::arithmetic::div_mod::lemma_div_pos_is_pos(i / 4, w);
    assert((((i / 4) / w) * w + (i / 4) % w) * 4 + i % 4 == i) by (nonlinear_arith)
        requires
            i == 4 * (i / 4) + i % 4,
            i / 4 == w * ((i / 4) / w) + (i / 4) % w,
    ;
}

/// The flat index of a channel at a column and row decomposes back.
proof fn lemma_flat_compose(yy: int, x: int, ch: int, w: int)
    requires
        0 <= x < w,
        0 <= yy,
        0 <= ch < 4,
    ensures
        ({
            let j = (yy * w + x) * 4 + ch;
            &&& 0 <= j
            &&& j / 4 == yy * w + x
            &&& j % 4 == ch
            &&& (yy * w + x) % w == x
            &&& (yy * w + x) / w == yy
        }),
{
    assert(yy * w >= 0) by (nonlinear_arith)
        requires
            0 <= yy,
            0 < w,
    ;
    vstd::arithmetic::div_mod::lemma_fundamental_div_mod_converse(
        (yy * w + x) * 4 + ch,
        4,
        yy * w + x,
        ch,
    );
    vstd::arithmetic::div_mod::lemma_fundamental_div_mod_converse(yy * w + x, w, yy, x);
}

/// Every index a walk paints selects a colormap entry, and the running
/// intensity sum and count never go negative.
proof fn lemma_walk_index_range(spectrum: Seq<u32>, h: int, i: int)
    ensures
        0 <= column_walk(spectrum, h, i).1,
        0 <= column_walk(spectrum, h, i).2,
        forall|r: int|
            #[trigger] column_walk(spectrum, h, i).3.dom().contains(r) ==> 0 <= column_walk(
                spectrum,
                h,
                i,
            ).3[r] <= 255,
    decreases i,
{
    if i > 0 {
        lemma_walk_index_range(spectrum, h, i - 1);
        lemma_intensity_nonneg(spectrum[i - 1]);
        let s = column_walk(spectrum, h, i - 1);
        if s.2 > 0 {
            vstd::arithmetic::div_mod::lemma_div_pos_is_pos(s.1, s.2);
            vstd::arithmetic::div_mod::lemma_div_pos_is_pos(255 * (s.1 / s.2), 65536);
        }
    }
}

/// The fixed 256-entry colormap, three bytes a color.
pub fn colormap() -> (r: Vec<u8>)
    ensures
        r@ == acton_bytes(),
        r@.len() == 768,
{
    let r = vec![
    46, 33, 76, 47, 34, 77, 48, 34, 78, 49, 35, 79, 50, 36, 80, 51,
    37, 81, 52, 38, 82, 53, 39, 82, 54, 40, 83, 55, 41, 84, 56, 42,
    85, 57, 42, 86, 58, 43, 87, 59, 44, 88, 60, 45, 89, 61, 46, 90,
    62, 47, 91, 63, 48, 92, 64, 49, 93, 65, 50, 93, 66, 51, 94, 67,
    52, 95, 68, 53, 96, 69, 54, 97, 70, 54, 98, 71, 55, 99, 73, 56,
    100, 74, 57, 101, 75, 58, 102, 76, 59, 103, 77, 60, 104, 78, 61, 105,
    79, 62, 106, 80, 63, 107, 81, 64, 107, 83, 65, 108, 84, 66, 109, 85,
    67, 110, 86, 67, 111, 87, 68, 112, 88, 69, 113, 90, 70, 114, 91, 71,
    115, 92, 72, 116, 93, 73, 117, 94, 74, 118, 96, 75, 118, 97, 76, 119,
    98, 76, 120, 99, 77, 121, 101, 78, 122, 102, 79, 123, 103, 80, 124, 104,
    81, 125, 106, 82, 125, 107, 82, 126, 108, 83, 127, 110, 84, 128, 111, 85,
    129, 112, 85, 129, 113, 86, 130, 115, 87, 131, 116, 88, 132, 117, 88, 132,
    119, 89, 133, 120, 90, 134, 121, 90, 134, 123, 91, 135, 124, 92, 136, 125,
    92, 136, 127, 93, 137, 128, 93, 138, 129, 94, 138, 131, 94, 139, 132, 95,
    139, 133, 95, 140, 135, 96, 140, 136, 96, 141, 137, 97, 141, 138, 97, 141,
    140, 97, 142, 141, 98, 142, 142, 98, 143, 143, 98, 143, 145, 99, 143, 146,
    99, 144, 147, 99, 144, 148, 99, 144, 149, 100, 144, 151, 100, 145, 152, 100,
    145, 153, 100, 145, 154, 100, 145, 155, 100, 146, 156, 101, 146, 158, 101, 146,
    159, 101, 146, 160, 101, 146, 161, 101, 146, 162, 101, 147, 163, 101, 147, 164,
    101, 147, 165, 101, 147, 166, 101, 147, 167, 102, 147, 169, 102, 147, 170, 102,
    148, 171, 102, 148, 172, 102, 148, 173, 102, 148, 174, 102, 148, 175, 102, 148,
    176, 103, 149, 177, 103, 149, 179, 103, 149, 180, 103, 149, 181, 103, 149, 182,
    104, 150, 183, 104, 150, 184, 104, 150, 186, 105, 151, 187, 105, 151, 188, 106,
    151, 189, 106, 152, 190, 107, 152, 192, 107, 153, 193, 108, 153, 194, 109, 154,
    195, 109, 154, 196, 110, 155, 198, 111, 156, 199, 112, 156, 200, 113, 157, 201,
    114, 158, 202, 115, 159, 203, 116, 159, 204, 117, 160, 205, 118, 161, 206, 119,
    162, 206, 120, 162, 207, 121, 163, 208, 122, 164, 208, 123, 165, 209, 124, 165,
    209, 125, 166, 210, 126, 167, 210, 127, 168, 211, 128, 168, 211, 129, 169, 211,
    130, 170, 211, 131, 171, 212, 132, 171, 212, 133, 172, 212, 134, 173, 212, 135,
    173, 212, 136, 174, 212, 136, 175, 212, 137, 175, 212, 138, 176, 212, 139, 176,
    212, 140, 177, 212, 141, 178, 212, 142, 178, 212, 142, 179, 212, 143, 180, 212,
    144, 180, 212, 145, 181, 212, 146, 181, 212, 147, 182, 212, 147, 182, 212, 148,
    183, 212, 149, 184, 211, 150, 184, 211, 151, 185, 211, 151, 185, 211, 152, 186,
    211, 153, 187, 211, 154, 187, 211, 155, 188, 211, 156, 188, 211, 156, 189, 211,
    157, 190, 211, 158, 190, 211, 159, 191, 211, 160, 191, 211, 161, 192, 211, 162,
    193, 211, 162, 193, 211, 163, 194, 211, 164, 194, 211, 165, 195, 211, 166, 196,
    211, 167, 196, 211, 168, 197, 211, 169, 198, 211, 169, 198, 211, 170, 199, 212,
    171, 199, 212, 172, 200, 212, 173, 201, 212, 174, 201, 212, 175, 202, 212, 176,
    203, 212, 177, 203, 213, 178, 204, 213, 179, 205, 213, 180, 205, 213, 181, 206,
    213, 182, 207, 214, 182, 207, 214, 183, 208, 214, 184, 209, 214, 185, 209, 214,
    186, 210, 215, 187, 211, 215, 188, 211, 215, 189, 212, 216, 190, 213, 216, 191,
    213, 216, 192, 214, 216, 193, 215, 217, 194, 215, 217, 195, 216, 217, 196, 217,
    218, 197, 217, 218, 198, 218, 218, 199, 219, 219, 200, 220, 219, 201, 220, 219,
    202, 221, 220, 203, 222, 220, 204, 222, 220, 205, 223, 221, 206, 224, 221, 207,
    224, 221, 208, 225, 222, 209, 226, 222, 210, 227, 223, 211, 227, 223, 212, 228,
    223, 213, 229, 224, 215, 229, 224, 216, 230, 224, 217, 231, 225, 218, 231, 225,
    219, 232, 226, 220, 233, 226, 221, 234, 226, 222, 234, 227, 223, 235, 227, 224,
    236, 228, 225, 236, 228, 226, 237, 228, 227, 238, 229, 228, 239, 229, 229, 239
    ];
    proof {
        assert(r@ =~= acton_bytes());
    }
    r
}

/// Rasterizes short-time magnitudes onto a `width * height` RGBA canvas:
/// each column shows the spectrum at its share of the schedule, painted
/// bottom-up along the perceptual rows with colormap colors; rows no bin
/// lands on stay transparent black, as does every column past the
/// schedule. Every byte of the canvas is pinned.
pub fn rasterize_spectrogram(spectra: &Vec<Vec<u32>>, width: usize, height: usize) -> (r: Vec<u8>)
    requires
        spectra@.len() <= 0xFFFF_FFFF,
        forall|k: int| 0 <= k < spectra@.len() ==> (#[trigger] spectra@[k])@.len() == 1024,
        width * height <= 0x3FF_FFFF,
    ensures
        r@.len() == width * height * 4,
        forall|i: int|
            0 <= i < r@.len() ==> #[trigger] r@[i] == raster_byte_of(
                spectra@.map_values(|v: Vec<u32>| v@),
                width as int,
                height as int,
                i,
            ),
{
    let ghost sm = spectra@.map_values(|v: Vec<u32>| v@);
    let ghost w = width as int;
    let ghost h = height as int;
    let n = spectra.len();
    let cmap = colormap();
    let mut out: Vec<u8> = Vec::new();
    let total = width * height;
    let mut z: usize = 0;
    proof {
        assert(width * height * 4 == total * 4) by (nonlinear_arith)
            requires
                total == width * height,
        ;
    }
    while z < total * 4
        invariant
            total * 4 <= 0xFFF_FFFC,
            z <= total * 4,
            out@.len() == z,
            forall|i: int| 0 <= i < out@.len() ==> out@[i] == 0u8,
        decreases total * 4 - z,
    {
        out.push(0);
        z = z + 1;
    }
    if height == 0 || width == 0 {
        return out;
    }
    proof {
        assert(width <= width * height) by (nonlinear_arith)
            requires
                1 <= height,
                0 <= width,
        ;
    }
    let mut x: usize = 0;
    while x < width
        invariant
            n == spectra@.len(),
            n == sm.len(),
            sm == spectra@.map_values(|v: Vec<u32>| v@),
            n <= 0xFFFF_FFFF,
            forall|k: int| 0 <= k < spectra@.len() ==> (#[trigger] spectra@[k])@.len() == 1024,
            0 < height,
            x <= width,
            w == width as int,
            h == height as int,
            width <= 0x3FF_FFFF,
            total == width * height,
            total * 4 <= 0xFFF_FFFC,
            out@.len() == total * 4,
            cmap@ == acton_bytes(),
            forall|ii: int|
                0 <= ii < out@.len() ==> #[trigger] out@[ii] == (if (ii / 4) % w < x {
                    raster_byte_of(sm, w, h, ii)
                } else {
                    0u8
                }),
        decreases width - x,
    {
        proof {
            vstd::arithmetic::mul::lemma_mul_upper_bound(
                x as int,
                0x3FF_FFFF,
                n as int,
                0xFFFF_FFFF,
            );
            assert(width * height * 4 == total * 4) by (nonlinear_arith)
                requires
                    total == width * height,
            ;
            assert(height <= width * height) by (nonlinear_arith)
                requires
                    1 <= width,
                    0 <= height,
            ;
        }
        proof {
            assert((x as int) * (n as int) <= (width as int) * (n as int)) by (nonlinear_arith)
                requires
                    x <= width,
                    0 <= n,
            ;
            assert((width as int) * (n as int) / (width as int) == n as int)
                by (nonlinear_arith)
                requires
                    0 < width,
            ;
            assert(0 <= (x as int) * (n as int)) by (nonlinear_arith)
                requires
                    0 <= x,
                    0 <= n,
            ;
            vstd::arithmetic::div_mod::lemma_div_is_ordered(
                (x as int) * (n as int),
                (width as int) * (n as int),
                width as int,
            );
        }
        let c: usize = (((x as u64) * (n as u64)) / (width as u64)) as usize;
        let ghost before = out@;
        if c < n {
            proof {
                assert(sm[c as int] == spectra@[c as int]@);
            }
            paint_column(&mut out, &spectra[c], &cmap, x, width, height);
        }
        proof {
            assert forall|ii: int| 0 <= ii < out@.len() implies #[trigger] out@[ii] == (if (ii
                / 4) % w < x + 1 {
                raster_byte_of(sm, w, h, ii)
            } else {
                0u8
            }) by {
                lemma_flat_decompose(ii, w);
                assert(before[ii] == (if (ii / 4) % w < x as int {
                    raster_byte_of(sm, w, h, ii)
                } else {
                    0u8
                }));
                if (ii / 4) % w == x as int {
                    assert(before[ii] == 0u8);
                    assert(c as int == (x as int) * (n as int) / w);
                    if c < n {
                        assert(out@[ii] == column_byte(
                            column_walk(spectra@[c as int]@, height as int, 1024).3,
                            width as int,
                            height as int,
                            x as int,
                            before,
                            ii,
                        ));
                        assert(sm[c as int] == spectra@[c as int]@);
                    } else {
                        assert(out@[ii] == before[ii]);
                    }
                } else {
                    if c < n {
                        assert(out@[ii] == column_byte(
                            column_walk(spectra@[c as int]@, height as int, 1024).3,
                            width as int,
                            height as int,
                            x as int,
                            before,
                            ii,
                        ));
                        assert(out@[ii] == before[ii]);
                    }
                }
            }
        }
        x = x + 1;
    }
    proof {
        assert forall|ii: int| 0 <= ii < out@.len() implies #[trigger] out@[ii] == raster_byte_of(
            sm,
            w,
            h,
            ii,
        ) by {
            lemma_flat_decompose(ii, w);
        }
    }
    out
}

/// Paints one raster column from one spectrum: bins are walked upward,
/// their intensities averaged over each row span, and each finished span
/// painted with its colormap color, opaque. The buffer afterwards holds,
/// at every position, exactly what the walk prescribes over its previous
/// contents.
fn paint_column(
    out: &mut Vec<u8>,
    spectrum: &Vec<u32>,
    cmap: &Vec<u8>,
    x: usize,
    width: usize,
    height: usize,
)
    requires
        spectrum@.len() == 1024,
        cmap@ == acton_bytes(),
        0 < height <= 0x3FF_FFFF,
        x < width,
        width * height * 4 == old(out)@.len(),
        old(out)@.len() <= 0xFFF_FFFC,
    ensures
        final(out)@.len() == old(out)@.len(),
        forall|ii: int|
            0 <= ii < final(out)@.len() ==> #[trigger] final(out)@[ii] == column_byte(
                column_walk(spectrum@, height as int, 1024).3,
                width as int,
                height as int,
                x as int,
                old(out)@,
                ii,
            ),
{
    let ghost w = width as int;
    let ghost h = height as int;
    let ghost base0 = old(out)@;
    let mut prev_y: usize = 0;
    let mut sum: u64 = 0;
    let mut cnt: u64 = 0;
    let mut i: usize = 0;
    proof {
        assert(cmap@.len() == 768);
        assert forall|ii: int| 0 <= ii < out@.len() implies #[trigger] out@[ii] == column_byte(
            column_walk(spectrum@, h, 0).3,
            w,
            h,
            x as int,
            base0,
            ii,
        ) by {
            lemma_flat_decompose(ii, w);
        }
    }
    while i < 1024
        invariant
            spectrum@.len() == 1024,
            cmap@ == acton_bytes(),
            cmap@.len() == 768,
            0 < height <= 0x3FF_FFFF,
            x < width,
            w == width as int,
            h == height as int,
            width * height * 4 == out@.len(),
            out@.len() == base0.len(),
            out@.len() <= 0xFFF_FFFC,
            prev_y <= height,
            i <= 1024,
            cnt <= i,
            sum <= cnt * 65536,
            prev_y == column_walk(spectrum@, h, i as int).0,
            sum == column_walk(spectrum@, h, i as int).1,
            cnt == column_walk(spectrum@, h, i as int).2,
            forall|ii: int|
                0 <= ii < out@.len() ==> #[trigger] out@[ii] == column_byte(
                    column_walk(spectrum@, h, i as int).3,
                    w,
                    h,
                    x as int,
                    base0,
                    ii,
                ),
        decreases 1024 - i,
    {
        let ghost walk = column_walk(spectrum@, h, i as int);
        let y = mel_row(i, height);
        if y > prev_y {
            if cnt > 0 {
                let avg: u64 = sum / cnt;
                proof {
                    assert(sum / cnt <= 65536) by (nonlinear_arith)
                        requires
                            sum <= cnt * 65536,
                            cnt > 0,
                    ;
                }
                let mut idx: usize = ((255u64 * avg) / 65536u64) as usize;
                if idx > 255 {
                    idx = 255;
                }
                proof {
                    assert(idx == cmap_index(walk.1, walk.2));
                }
                let mut row = prev_y;
                proof {
                    assert(painted_rows(walk.3, prev_y as int, prev_y as int, idx as int)
                        =~= walk.3);
                }
                while row < y
                    invariant
                        prev_y <= row <= y <= height,
                        0 < height,
                        x < width,
                        w == width as int,
                        h == height as int,
                        width * height * 4 == out@.len(),
                        out@.len() == base0.len(),
                        out@.len() <= 0xFFF_FFFC,
                        cmap@ == acton_bytes(),
                        cmap@.len() == 768,
                        idx <= 255,
                        forall|ii: int|
                            0 <= ii < out@.len() ==> #[trigger] out@[ii] == column_byte(
                                painted_rows(walk.3, prev_y as int, row as int, idx as int),
                                w,
                                h,
                                x as int,
                                base0,
                                ii,
                            ),
                    decreases y - row,
                {
                    proof {
                        lemma_pixel_in_canvas(h, w, h - row - 1, x as int);
                        lemma_flat_compose(h - 1 - row, x as int, 0, w);
                        lemma_flat_compose(h - 1 - row, x as int, 1, w);
                        lemma_flat_compose(h - 1 - row, x as int, 2, w);
                        lemma_flat_compose(h - 1 - row, x as int, 3, w);
                    }
                    let base: usize = ((height - row - 1) * width + x) * 4;
                    out.set(base, cmap[3 * idx]);
                    out.set(base + 1, cmap[3 * idx + 1]);
                    out.set(base + 2, cmap[3 * idx + 2]);
                    out.set(base + 3, 255);
                    proof {
                        assert forall|ii: int| 0 <= ii < out@.len() implies #[trigger] out@[ii]
                            == column_byte(
                            painted_rows(walk.3, prev_y as int, row + 1, idx as int),
                            w,
                            h,
                            x as int,
                            base0,
                            ii,
                        ) by {
                            lemma_flat_decompose(ii, w);
                        }
                    }
                    row = row + 1;
                }
            }
            prev_y = y;
            sum = 0;
            cnt = 0;
        }
        let a = intensity_q16(spectrum[i]);
        proof {
            assert(sum + a <= (cnt + 1) * 65536) by (nonlinear_arith)
                requires
                    sum <= cnt * 65536,
                    a <= 65536,
            ;
        }
        sum = sum + a as u64;
        cnt = cnt + 1;
        i = i + 1;
    }
}

/// A pixel addressed by row and column lies inside the canvas.
proof fn lemma_pixel_in_canvas(h: int, w: int, row: int, x: int)
    requires
        0 <= row < h,
        0 <= x < w,
    ensures
        (row * w + x) * 4 + 3 < w * h * 4,
{
    assert((row * w + x) * 4 + 3 < w * h * 4) by (nonlinear_arith)
        requires
            0 <= row < h,
            0 <= x < w,
    ;
}

impl AudioClip {
    /// Renders the clip's spectrogram over a sample range onto a
    /// `width * height` RGBA canvas.
    pub fn render_spectrogram(&self, range: (usize, usize), width: usize, height: usize) -> (r:
        Result<Vec<u8>, ErrorKind>)
        requires
            self.sample_rate > 0,
            self.samples@.len() <= 0xFFFF_FFFF,
            crate::clip::resampled_len(self.samples@.len() as int, self.sample_rate as int, 12000)
                <= 0xFFFF_FFFF,
            range.0 <= 0xFFFF_FFFF,
            range.1 <= 0xFFFF_FFFF,
            range.1 * 12000 / self.sample_rate as int <= 0xFFFF_FFFF,
            width * height <= 0x3FF_FFFF,
        ensures
            match r {
                Ok(buffer) => {
                    let s12 = resampled_seq(self.samples@, self.sample_rate as int, 12000);
                    let frames = spectro_frames(
                        s12,
                        hop_start(range.0 as int),
                        hop_end(range.1 as int, self.sample_rate as int),
                    );
                    &&& buffer@.len() == width * height * 4
                    &&& forall|i: int|
                        0 <= i < buffer@.len() ==> #[trigger] buffer@[i] == raster_byte_of(
                            frames,
                            width as int,
                            height as int,
                            i,
                        )
                },
                Err(_) => false,
            },
    {
        let spectra = match self.spectrogram(range) {
            Ok(v) => v,
            Err(e) => {
                return Err(e);
            },
        };
        proof {
            assert(spectra@.map_values(|v: Vec<u32>| v@) =~~= spectro_frames(
                resampled_seq(self.samples@, self.sample_rate as int, 12000),
                hop_start(range.0 as int),
                hop_end(range.1 as int, self.sample_rate as int),
            ));
        }
        Ok(rasterize_spectrogram(&spectra, width, height))
    }
}

} // verus!
