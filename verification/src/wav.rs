//! The WAV exporter: writes a clip as a single-channel, 32-bit float WAV
//! byte stream. The container is assembled byte by byte here; the caller
//! puts the bytes on disk.

use vstd::prelude::*;
use vstd::string::StringSliceAdditionalSpecFns;
use crate::ErrorKind;
use crate::clip::AudioClip;

verus! {

/// A 32-bit little-endian write.
pub open spec fn le32_bytes(x: u32) -> Seq<u8> {
    seq![
        (x & 0xFF) as u8,
        ((x >> 8) & 0xFF) as u8,
        ((x >> 16) & 0xFF) as u8,
        ((x >> 24) & 0xFF) as u8,
    ]
}

/// A 16-bit little-endian write.
pub open spec fn le16_bytes(x: u16) -> Seq<u8> {
    seq![(x & 0xFF) as u8, ((x >> 8) & 0xFF) as u8]
}

/// The 44-byte canonical WAV header for IEEE-float mono audio: the RIFF
/// chunk wrapping a 16-byte fmt chunk (format 3, one channel, 32 bits a
/// sample) and the data chunk's tag and size.
pub open spec fn wav_header(rate: u32, n: int) -> Seq<u8> {
    seq![0x52u8, 0x49u8, 0x46u8, 0x46u8]  // RIFF
     + le32_bytes((36 + 4 * n) as u32) + seq![0x57u8, 0x41u8, 0x56u8, 0x45u8]  // WAVE
     + seq![0x66u8, 0x6Du8, 0x74u8, 0x20u8]  // fmt-space
     + le32_bytes(16) + le16_bytes(3) + le16_bytes(1) + le32_bytes(rate) + le32_bytes(
        (4 * rate) as u32,
    ) + le16_bytes(4) + le16_bytes(32) + seq![0x64u8, 0x61u8, 0x74u8, 0x61u8]  // data
     + le32_bytes((4 * n) as u32)
}

/// The data chunk: every sample's bits, little endian.
pub open spec fn wav_data(samples: Seq<u32>) -> Seq<u8> {
    Seq::new((4 * samples.len()) as nat, |b: int| le32_bytes(samples[b / 4])[b % 4])
}

/// The full WAV stream for a mono float clip.
pub open spec fn wav_bytes(rate: u32, samples: Seq<u32>) -> Seq<u8> {
    wav_header(rate, samples.len() as int) + wav_data(samples)
}

/// A path the exporter accepts: its UTF-8 bytes end in `.wav`.
pub open spec fn wav_path_ok(p: Seq<u8>) -> bool {
    &&& p.len() >= 4
    &&& p[p.len() - 4] == 0x2Eu8  // '.'
    &&& p[p.len() - 3] == 0x77u8  // 'w'
    &&& p[p.len() - 2] == 0x61u8  // 'a'
    &&& p[p.len() - 1] == 0x76u8  // 'v'
}

/// Appends a 32-bit little-endian value.
fn push_le32(out: &mut Vec<u8>, x: u32)
    ensures
        final(out)@ == old(out)@ + le32_bytes(x),
{
    proof {
        assert((x & 0xFF) < 256 && ((x >> 8) & 0xFF) < 256 && ((x >> 16) & 0xFF) < 256 && ((x
            >> 24) & 0xFF) < 256) by (bit_vector);
    }
    out.push((x & 0xFF) as u8);
    out.push(((x >> 8) & 0xFF) as u8);
    out.push(((x >> 16) & 0xFF) as u8);
    out.push(((x >> 24) & 0xFF) as u8);
    proof {
        assert(out@ =~= old(out)@ + le32_bytes(x));
    }
}

/// Appends a 16-bit little-endian value.
fn push_le16(out: &mut Vec<u8>, x: u16)
    ensures
        final(out)@ == old(out)@ + le16_bytes(x),
{
    proof {
        assert((x & 0xFF) < 256 && ((x >> 8) & 0xFF) < 256) by (bit_vector);
    }
    out.push((x & 0xFF) as u8);
    out.push(((x >> 8) & 0xFF) as u8);
    proof {
        assert(out@ =~= old(out)@ + le16_bytes(x));
    }
}

/// Builds the WAV stream for a mono float clip.
pub fn wav_encode(rate: u32, samples: &Vec<u32>) -> (r: Vec<u8>)
    requires
        samples@.len() <= 0x3FFF_FFF5,
        rate <= 0x3FFF_FFFF,
    ensures
        r@ == wav_bytes(rate, samples@),
{
    let n = samples.len();
    let mut out: Vec<u8> = Vec::new();
    out.push(0x52);
    out.push(0x49);
    out.push(0x46);
    out.push(0x46);
    push_le32(&mut out, 36 + 4 * (n as u32));
    out.push(0x57);
    out.push(0x41);
    out.push(0x56);
    out.push(0x45);
    out.push(0x66);
    out.push(0x6D);
    out.push(0x74);
    out.push(0x20);
    push_le32(&mut out, 16);
    push_le16(&mut out, 3);
    push_le16(&mut out, 1);
    push_le32(&mut out, rate);
    push_le32(&mut out, 4 * rate);
    push_le16(&mut out, 4);
    push_le16(&mut out, 32);
    out.push(0x64);
    out.push(0x61);
    out.push(0x74);
    out.push(0x61);
    push_le32(&mut out, 4 * (n as u32));
    proof {
        assert(out@ =~= wav_header(rate, samples@.len() as int));
    }

    let ghost header = out@;
    let mut i: usize = 0;
    while i < n
        invariant
            n == samples@.len(),
            i <= n,
            out@.len() == header.len() + 4 * i,
            header == wav_header(rate, samples@.len() as int),
            out@ == header + Seq::new((4 * i) as nat, |b: int| le32_bytes(samples@[b / 4])[b % 4]),
        decreases n - i,
    {
        push_le32(&mut out, samples[i]);
        proof {
            vstd::arithmetic::div_mod::lemma_fundamental_div_mod_converse(
                4 * i as int,
                4,
                i as int,
                0,
            );
            vstd::arithmetic::div_mod::lemma_fundamental_div_mod_converse(
                4 * i as int + 1,
                4,
                i as int,
                1,
            );
            vstd::arithmetic::div_mod::lemma_fundamental_div_mod_converse(
                4 * i as int + 2,
                4,
                i as int,
                2,
            );
            vstd::arithmetic::div_mod::lemma_fundamental_div_mod_converse(
                4 * i as int + 3,
                4,
                i as int,
                3,
            );
            assert(out@ =~= header + Seq::new(
                (4 * (i + 1)) as nat,
                |b: int| le32_bytes(samples@[b / 4])[b % 4],
            ));
        }
        i = i + 1;
    }
    proof {
        assert(out@ =~= wav_bytes(rate, samples@));
    }
    out
}

impl AudioClip {
    /// Exports the clip as a 32-bit float mono WAV stream at its own
    /// rate. Only paths ending in `.wav` are accepted; the caller writes
    /// the returned bytes to that path.
    pub fn export(&self, path: &str) -> (r: Result<Vec<u8>, ErrorKind>)
        requires
            self.samples@.len() <= 0x3FFF_FFF5,
            self.sample_rate <= 0x3FFF_FFFF,
        ensures
            match r {
                Ok(bytes) => wav_path_ok(path.spec_bytes()) && bytes@ == wav_bytes(
                    self.sample_rate,
                    self.samples@,
                ),
                Err(e) => e == ErrorKind::InvalidArgument && !wav_path_ok(path.spec_bytes()),
            },
    {
        let b = path.as_bytes();
        let l = b.len();
        if l < 4 || b[l - 4] != 0x2E || b[l - 3] != 0x77 || b[l - 2] != 0x61 || b[l - 1] != 0x76 {
            return Err(ErrorKind::InvalidArgument);
        }
        Ok(wav_encode(self.sample_rate, &self.samples))
    }
}

} // verus!
