//! Clip codec: the legacy raw sample dump (v0) and the length-prefixed
//! packet container (v1).
//!
//! v0 is a headerless big-endian dump of binary32 samples. v1 wraps
//! compressed packets: a 4-byte big-endian sample count, then a stream of
//! records, each a 2-byte big-endian length followed by that many packet
//! bytes. The compression of a frame into a packet and back is the Opus
//! coder's work and happens outside this module; the framing, the container
//! layout, and the reassembly of decoded frames are all here.

use vstd::prelude::*;
use crate::ErrorKind;
use crate::clip::{resampled_len, AudioClip};
use crate::sample::ZERO_BITS;

verus! {

/// The frame length used by the v1 codec at a coder rate: 20 ms of audio.
pub open spec fn frame_size_spec(rate: int) -> int {
    rate / 1000 * 20
}

/// The sample rates the packet coder accepts.
pub open spec fn supported_rate(rate: int) -> bool {
    rate == 8000 || rate == 12000 || rate == 16000 || rate == 24000 || rate == 48000
}

/// The v1 frame length in samples for a supported rate.
pub fn frame_size_for(rate: u32) -> (n: usize)
    requires
        supported_rate(rate as int),
    ensures
        n == frame_size_spec(rate as int),
        160 <= n <= 960,
{
    ((rate / 1000) * 20) as usize
}

/// A big-endian 32-bit read.
pub open spec fn be32_val(b0: u8, b1: u8, b2: u8, b3: u8) -> u32 {
    ((b0 as int) * 0x100_0000 + (b1 as int) * 0x1_0000 + (b2 as int) * 0x100 + (b3 as int)) as u32
}

/// A big-endian 32-bit write.
pub open spec fn be32_bytes(n: u32) -> Seq<u8> {
    seq![
        (n >> 24) as u8,
        ((n >> 16) & 0xFF) as u8,
        ((n >> 8) & 0xFF) as u8,
        (n & 0xFF) as u8,
    ]
}

pub proof fn lemma_be32_round_trip(n: u32)
    ensures
        be32_val(
            be32_bytes(n)[0],
            be32_bytes(n)[1],
            be32_bytes(n)[2],
            be32_bytes(n)[3],
        ) == n,
{
    assert((((n >> 24) as u8) as u64) * 0x100_0000 + ((((n >> 16) & 0xFF) as u8) as u64)
        * 0x1_0000 + ((((n >> 8) & 0xFF) as u8) as u64) * 0x100 + (((n & 0xFF) as u8) as u64)
        == n as u64) by (bit_vector);
}

/// The samples a v0 payload holds: each aligned 4-byte group read as one
/// big-endian sample, trailing bytes dropped.
pub open spec fn v0_decoded(b: Seq<u8>) -> Seq<u32> {
    Seq::new((b.len() / 4) as nat, |i: int| be32_val(b[4 * i], b[4 * i + 1], b[4 * i + 2], b[4 * i + 3]))
}

/// Decodes a v0 payload: each aligned 4-byte group is one big-endian
/// sample; trailing bytes that do not fill a group are dropped.
pub fn decode_v0(bytes: &Vec<u8>) -> (r: Vec<u32>)
    ensures
        r@ == v0_decoded(bytes@),
        r@.len() == bytes@.len() / 4,
        forall|i: int|
            0 <= i < r@.len() ==> r@[i] == be32_val(
                bytes@[4 * i],
                bytes@[4 * i + 1],
                bytes@[4 * i + 2],
                bytes@[4 * i + 3],
            ),
{
    let mut r: Vec<u32> = Vec::new();
    let len: usize = bytes.len();
    let n: usize = len / 4;
    let mut i: usize = 0;
    while i < n
        invariant
            len == bytes@.len(),
            n == bytes@.len() / 4,
            i <= n,
            r@.len() == i,
            forall|k: int|
                0 <= k < i ==> r@[k] == be32_val(
                    bytes@[4 * k],
                    bytes@[4 * k + 1],
                    bytes@[4 * k + 2],
                    bytes@[4 * k + 3],
                ),
        decreases n - i,
    {
        proof {
            vstd::arithmetic::div_mod::lemma_fundamental_div_mod(bytes@.len() as int, 4);
            assert(4 * (n as int) <= bytes@.len());
            assert(4 * (i as int) + 3 < bytes@.len());
        }
        let b0 = bytes[4 * i];
        let b1 = bytes[4 * i + 1];
        let b2 = bytes[4 * i + 2];
        let b3 = bytes[4 * i + 3];
        let v: u32 = (b0 as u32) * 0x100_0000 + (b1 as u32) * 0x1_0000 + (b2 as u32) * 0x100
            + (b3 as u32);
        r.push(v);
        i = i + 1;
    }
    proof {
        assert(r@ =~= v0_decoded(bytes@));
    }
    r
}

/// One v1 record: the packet's length as two big-endian bytes, then the
/// packet itself.
pub open spec fn record_bytes(p: Seq<u8>) -> Seq<u8> {
    seq![((p.len() as u16) >> 8) as u8, ((p.len() as u16) & 0xFF) as u8] + p
}

/// The v1 record stream for a packet sequence.
pub open spec fn build_records(pkts: Seq<Seq<u8>>) -> Seq<u8>
    decreases pkts.len(),
{
    if pkts.len() == 0 {
        Seq::empty()
    } else {
        record_bytes(pkts.first()) + build_records(pkts.drop_first())
    }
}

/// Parses a v1 record stream back into its packets; `None` on a stream
/// that ends inside a record.
pub open spec fn parse_records(b: Seq<u8>) -> Option<Seq<Seq<u8>>>
    decreases b.len(),
{
    if b.len() == 0 {
        Some(Seq::empty())
    } else if b.len() < 2 {
        None
    } else {
        let l = (b[0] as int) * 0x100 + (b[1] as int);
        if 2 + l > b.len() {
            None
        } else {
            match parse_records(b.skip(2 + l)) {
                Option::None => Option::<Seq<Seq<u8>>>::None,
                Option::Some(rest) => Option::Some(seq![b.subrange(2, 2 + l)] + rest),
            }
        }
    }
}

/// Parsing inverts building: the v1 record stream of any packets whose
/// lengths fit the two-byte prefix parses back to exactly those packets.
pub proof fn lemma_records_round_trip(pkts: Seq<Seq<u8>>)
    requires
        forall|p: int| 0 <= p < pkts.len() ==> #[trigger] pkts[p].len() <= 0xFFFF,
    ensures
        parse_records(build_records(pkts)) == Some(pkts),
    decreases pkts.len(),
{
    if pkts.len() == 0 {
        assert(parse_records(build_records(pkts)) =~~= Some(pkts));
    } else {
        let first = pkts.first();
        let rest = pkts.drop_first();
        let b = build_records(pkts);
        let l = first.len() as int;
        let n: u16 = first.len() as u16;
        assert((((n >> 8) as u8) as int) * 0x100 + (((n & 0xFF) as u8) as int) == n as int)
            by (bit_vector);
        assert(b[0] == ((n >> 8) as u8) && b[1] == ((n & 0xFF) as u8));
        assert((b[0] as int) * 0x100 + (b[1] as int) == l);
        assert(b.len() == 2 + l + build_records(rest).len());
        assert(b.subrange(2, 2 + l) =~= first);
        assert(b.skip(2 + l) =~= build_records(rest));
        lemma_records_round_trip(rest);
        assert(parse_records(b) =~~= Some(pkts));
    }
}

/// Assembles a v1 payload from a sample count and its coded packets.
/// Fails with an encoding error exactly when some packet is too long for
/// the two-byte length prefix.
pub fn encode_v1_container(num_samples: u32, packets: &Vec<Vec<u8>>) -> (r: Result<
    Vec<u8>,
    ErrorKind,
>)
    ensures
        match r {
            Ok(bytes) => {
                &&& forall|p: int|
                    0 <= p < packets@.len() ==> #[trigger] packets@[p]@.len() <= 0xFFFF
                &&& bytes@ == be32_bytes(num_samples) + build_records(
                    packets@.map_values(|v: Vec<u8>| v@),
                )
            },
            Err(e) => {
                &&& e == ErrorKind::Encode
                &&& exists|p: int|
                    0 <= p < packets@.len() && #[trigger] packets@[p]@.len() > 0xFFFF
            },
        },
{
    let ghost pk = packets@.map_values(|v: Vec<u8>| v@);
    let mut out: Vec<u8> = Vec::new();
    out.push((num_samples >> 24) as u8);
    proof {
        assert(((num_samples >> 16) & 0xFF) < 256 && ((num_samples >> 8) & 0xFF) < 256 && (
        num_samples & 0xFF) < 256) by (bit_vector);
    }
    out.push(((num_samples >> 16) & 0xFF) as u8);
    out.push(((num_samples >> 8) & 0xFF) as u8);
    out.push((num_samples & 0xFF) as u8);
    assert(out@ =~= be32_bytes(num_samples));

    let n = packets.len();
    let mut p: usize = 0;
    while p < n
        invariant
            n == packets@.len(),
            p <= n,
            pk == packets@.map_values(|v: Vec<u8>| v@),
            forall|q: int| 0 <= q < p ==> #[trigger] pk[q].len() <= 0xFFFF,
            out@ == be32_bytes(num_samples) + build_records(pk.take(p as int)),
        decreases n - p,
    {
        let pkt: &Vec<u8> = &packets[p];
        if pkt.len() > 0xFFFF {
            proof {
                assert(pk[p as int] == packets@[p as int]@);
            }
            return Err(ErrorKind::Encode);
        }
        let l: u16 = pkt.len() as u16;
        proof {
            assert((l >> 8) < 256 && (l & 0xFF) < 256) by (bit_vector);
        }
        out.push((l >> 8) as u8);
        out.push((l & 0xFF) as u8);
        let mut k: usize = 0;
        let ghost out_before = out@;
        while k < pkt.len()
            invariant
                k <= pkt@.len(),
                out@ == out_before + pkt@.take(k as int),
            decreases pkt@.len() - k,
        {
            out.push(pkt[k]);
            proof {
                assert(out@ =~= out_before + pkt@.take(k + 1));
            }
            k = k + 1;
        }
        proof {
            assert(pkt@.take(pkt@.len() as int) =~= pkt@);
            lemma_build_records_snoc(pk, p as int);
            assert(out@ =~= be32_bytes(num_samples) + build_records(pk.take(p + 1)));
        }
        p = p + 1;
    }
    proof {
        assert(pk.take(n as int) =~= pk);
        assert(forall|q: int|
            0 <= q < packets@.len() ==> #[trigger] packets@[q]@.len() == pk[q].len());
    }
    Ok(out)
}

/// Appending one packet to a prefix extends its record stream by one
/// record.
proof fn lemma_build_records_snoc(pk: Seq<Seq<u8>>, p: int)
    requires
        0 <= p < pk.len(),
    ensures
        build_records(pk.take(p + 1)) == build_records(pk.take(p)) + record_bytes(pk[p]),
    decreases p,
{
    if p == 0 {
        assert(pk.take(1).drop_first() =~= pk.take(0));
        assert(build_records(pk.take(1)) =~= record_bytes(pk[0]) + build_records(pk.take(0)));
        assert(build_records(pk.take(0)) =~= Seq::<u8>::empty());
        assert(build_records(pk.take(1)) =~= build_records(pk.take(0)) + record_bytes(pk[0]));
    } else {
        lemma_build_records_snoc(pk.drop_first(), p - 1);
        assert(pk.take(p + 1).drop_first() =~= pk.drop_first().take(p));
        assert(pk.take(p).drop_first() =~= pk.drop_first().take(p - 1));
        assert(pk.take(p + 1).first() == pk.first());
        assert(pk.take(p).first() == pk.first());
        assert(pk.drop_first()[p - 1] == pk[p]);
        assert(build_records(pk.take(p + 1)) =~= build_records(pk.take(p)) + record_bytes(pk[p]));
    }
}

/// Splits a v1 payload into its declared sample count and its packets.
/// Fails with a decoding error exactly when the payload is shorter than
/// its header or some record is cut short.
pub fn decode_v1_container(bytes: &Vec<u8>) -> (r: Result<(u32, Vec<Vec<u8>>), ErrorKind>)
    ensures
        match r {
            Ok(parts) => {
                &&& bytes@.len() >= 4
                &&& parts.0 == be32_val(bytes@[0], bytes@[1], bytes@[2], bytes@[3])
                &&& parse_records(bytes@.skip(4)) == Some(
                    parts.1@.map_values(|v: Vec<u8>| v@),
                )
            },
            Err(e) => {
                &&& e == ErrorKind::Decode
                &&& (bytes@.len() < 4 || parse_records(bytes@.skip(4)) is None)
            },
        },
{
    if bytes.len() < 4 {
        return Err(ErrorKind::Decode);
    }
    let n: u32 = (bytes[0] as u32) * 0x100_0000 + (bytes[1] as u32) * 0x1_0000 + (bytes[2] as u32)
        * 0x100 + (bytes[3] as u32);
    let mut pkts: Vec<Vec<u8>> = Vec::new();
    let mut i: usize = 4;
    let len = bytes.len();
    while i < len
        invariant
            4 <= i <= len,
            len == bytes@.len(),
            parse_records(bytes@.skip(4)) matches Some(all) ==> {
                &&& parse_records(bytes@.skip(i as int)) matches Some(rest)
                    && all =~~= pkts@.map_values(|v: Vec<u8>| v@) + rest
            },
            parse_records(bytes@.skip(4)) is None ==> parse_records(bytes@.skip(i as int)) is None,
        decreases len - i,
    {
        if len - i < 2 {
            proof {
                assert(bytes@.skip(i as int).len() == 1);
                assert(parse_records(bytes@.skip(i as int)) is None);
            }
            return Err(ErrorKind::Decode);
        }
        let l: usize = (bytes[i] as usize) * 0x100 + (bytes[i + 1] as usize);
        proof {
            let tail = bytes@.skip(i as int);
            assert(tail[0] == bytes@[i as int] && tail[1] == bytes@[i as int + 1]);
        }
        if l > len - i - 2 {
            proof {
                assert(parse_records(bytes@.skip(i as int)) is None);
            }
            return Err(ErrorKind::Decode);
        }
        let mut pkt: Vec<u8> = Vec::new();
        let start = i + 2;
        let mut k: usize = 0;
        while k < l
            invariant
                k <= l,
                start + l <= len == bytes@.len(),
                pkt@ == bytes@.subrange(start as int, start as int + k),
            decreases l - k,
        {
            pkt.push(bytes[start + k]);
            proof {
                assert(pkt@ =~= bytes@.subrange(start as int, start as int + k + 1));
            }
            k = k + 1;
        }
        proof {
            let tail = bytes@.skip(i as int);
            assert(tail.subrange(2, 2 + l as int) =~= bytes@.subrange(
                start as int,
                start as int + l as int,
            ));
            assert(tail.skip(2 + l as int) =~= bytes@.skip(start as int + l as int));
            if parse_records(bytes@.skip(4)) is Some {
                let prev = pkts@.map_values(|v: Vec<u8>| v@);
                assert((prev + seq![pkt@]) =~~= (pkts@.push(pkt)).map_values(
                    |v: Vec<u8>| v@,
                ));
            }
        }
        pkts.push(pkt);
        i = start + l;
    }
    proof {
        assert(bytes@.skip(len as int) =~= Seq::<u8>::empty());
        assert(parse_records(bytes@.skip(len as int)) == Some(Seq::<Seq<u8>>::empty()));
        // An exhausted stream parses as the empty packet list, so the
        // stream after the header cannot have been unparsable.
        assert(parse_records(bytes@.skip(4)) is Some);
        assert(parse_records(bytes@.skip(4)).unwrap() =~~= pkts@.map_values(|v: Vec<u8>| v@));
    }
    Ok((n, pkts))
}

/// Frame `j` of a buffer split into frames of `fs` samples: reads past the
/// end of the buffer are zero, so the last frame is zero-padded.
pub open spec fn frame_at(s: Seq<u32>, fs: int, j: int) -> Seq<u32> {
    Seq::new(fs as nat, |k: int| if j * fs + k < s.len() {
        s[j * fs + k]
    } else {
        ZERO_BITS
    })
}

/// The number of frames a buffer yields: its length divided by the frame
/// size, rounded up.
pub open spec fn frame_count(len: int, fs: int) -> int {
    (len + fs - 1) / fs
}

/// Splits a sample buffer into zero-padded frames of `fs` samples each.
pub fn chunk_frames(samples: &Vec<u32>, fs: usize) -> (r: Vec<Vec<u32>>)
    requires
        0 < fs <= 0x1_0000,
        samples@.len() <= 0xFFFF_FFFF,
    ensures
        r@.len() == frame_count(samples@.len() as int, fs as int),
        forall|j: int| 0 <= j < r@.len() ==> #[trigger] r@[j]@ == frame_at(
            samples@,
            fs as int,
            j,
        ),
{
    let len: usize = samples.len();
    proof {
        lemma_frame_count_le_len(len as int, fs as int);
    }
    let count: usize = (((len as u64) + (fs as u64) - 1) / (fs as u64)) as usize;
    let mut r: Vec<Vec<u32>> = Vec::new();
    let mut j: usize = 0;
    while j < count
        invariant
            len == samples@.len(),
            len <= 0xFFFF_FFFF,
            0 < fs <= 0x1_0000,
            count == frame_count(len as int, fs as int),
            count <= len + 1,
            j <= count,
            r@.len() == j,
            forall|q: int| 0 <= q < j ==> #[trigger] r@[q]@ == frame_at(
                samples@,
                fs as int,
                q,
            ),
        decreases count - j,
    {
        let mut frame: Vec<u32> = Vec::new();
        let mut k: usize = 0;
        proof {
            vstd::arithmetic::mul::lemma_mul_upper_bound(
                j as int,
                0xFFFF_FFFF,
                fs as int,
                0x1_0000,
            );
        }
        let base: u64 = (j as u64) * (fs as u64);
        while k < fs
            invariant
                len == samples@.len(),
                0 < fs <= 0x1_0000,
                base == j * fs,
                base <= 0xFFFF_FFFF * 0x1_0000,
                k <= fs,
                frame@.len() == k,
                forall|q: int| 0 <= q < k ==> frame@[q] == frame_at(samples@, fs as int, j as int)[q],
            decreases fs - k,
        {
            let idx: u64 = base + (k as u64);
            if idx < len as u64 {
                frame.push(samples[idx as usize]);
            } else {
                frame.push(ZERO_BITS);
            }
            k = k + 1;
        }
        proof {
            assert(frame@ =~= frame_at(samples@, fs as int, j as int));
        }
        r.push(frame);
        j = j + 1;
    }
    proof {
        vstd::arithmetic::div_mod::lemma_fundamental_div_mod((len + fs - 1) as int, fs as int);
    }
    r
}

/// A buffer never yields more frames than samples, except that an empty
/// buffer still yields no frame.
pub proof fn lemma_frame_count_le_len(len: int, fs: int)
    requires
        0 < fs,
        0 <= len,
    ensures
        0 <= frame_count(len, fs) <= len,
{
    vstd::arithmetic::div_mod::lemma_fundamental_div_mod_converse(
        len * fs + fs - 1,
        fs,
        len,
        fs - 1,
    );
    assert(len + fs - 1 <= len * fs + fs - 1) by (nonlinear_arith)
        requires
            0 <= len && 1 <= fs,
    ;
    vstd::arithmetic::div_mod::lemma_div_is_ordered(len + fs - 1, len * fs + fs - 1, fs);
    vstd::arithmetic::div_mod::lemma_div_is_ordered(0, len + fs - 1, fs);
}

/// Whether every decoded frame carries exactly `fs` samples: the decode
/// invariant of the v1 format.
pub open spec fn frames_sized(frames: Seq<Seq<u32>>, fs: int) -> bool {
    forall|j: int| 0 <= j < frames.len() ==> #[trigger] frames[j].len() == fs
}

/// Whether a frame sequence can reassemble a buffer of `num` declared
/// samples: the frames are all full, and only the last one may reach past
/// the declared count.
pub open spec fn assemble_ok(num: int, frames: Seq<Seq<u32>>, fs: int) -> bool {
    &&& frames_sized(frames, fs)
    &&& (frames.len() == 0 || (frames.len() - 1) * fs <= num)
}

/// The length of the reassembled buffer: every decoded sample, truncated
/// to the declared count.
pub open spec fn assemble_len(num: int, frames: Seq<Seq<u32>>, fs: int) -> int {
    if num <= frames.len() * fs {
        num
    } else {
        frames.len() * fs
    }
}

/// Reassembles decoded frames into a sample buffer of at most `num`
/// declared samples. Fails with a decoding error exactly when a frame has
/// the wrong size or a frame other than the last would start past the
/// declared count.
pub fn assemble_frames(num: usize, frames: &Vec<Vec<u32>>, fs: usize) -> (r: Result<
    Vec<u32>,
    ErrorKind,
>)
    requires
        0 < fs <= 0x1_0000,
        num <= 0xFFFF_FFFF,
        frames@.len() <= 0xFFFF_FFFF,
    ensures
        match r {
            Ok(v) => {
                &&& assemble_ok(num as int, frames@.map_values(|f: Vec<u32>| f@), fs as int)
                &&& v@.len() == assemble_len(
                    num as int,
                    frames@.map_values(|f: Vec<u32>| f@),
                    fs as int,
                )
                &&& forall|i: int| 0 <= i < v@.len() ==> v@[i] == frames@[i / (fs as int)]@[i % (
                fs as int)]
            },
            Err(e) => {
                &&& e == ErrorKind::Decode
                &&& !assemble_ok(num as int, frames@.map_values(|f: Vec<u32>| f@), fs as int)
            },
        },
{
    let ghost fm = frames@.map_values(|f: Vec<u32>| f@);
    let count: usize = frames.len();
    let mut out: Vec<u32> = Vec::new();
    let mut j: usize = 0;
    while j < count
        invariant
            count == frames@.len(),
            count <= 0xFFFF_FFFF,
            0 < fs <= 0x1_0000,
            num <= 0xFFFF_FFFF,
            fm == frames@.map_values(|f: Vec<u32>| f@),
            j <= count,
            forall|q: int| 0 <= q < j ==> #[trigger] fm[q].len() == fs,
            j > 0 ==> (j - 1) * fs <= num,
            out@.len() == if num <= j * fs {
                num as int
            } else {
                j * fs
            },
            forall|i: int| 0 <= i < out@.len() ==> out@[i] == fm[i / (fs as int)][i % (fs as int)],
        decreases count - j,
    {
        proof {
            vstd::arithmetic::mul::lemma_mul_upper_bound(
                j as int,
                0xFFFF_FFFF,
                fs as int,
                0x1_0000,
            );
        }
        if frames[j].len() != fs {
            proof {
                assert(fm[j as int] == frames@[j as int]@);
                assert(!frames_sized(fm, fs as int));
            }
            return Err(ErrorKind::Decode);
        }
        proof {
            assert(fm[j as int] == frames@[j as int]@);
        }
        let base: u64 = (j as u64) * (fs as u64);
        if base > num as u64 {
            proof {
                assert(fm[j as int].len() == fs);
                assert(!((count as int - 1) * fs <= num)) by (nonlinear_arith)
                    requires
                        j * fs > num,
                        (j as int) <= count as int - 1,
                        0 < fs,
                        0 <= num,
                ;
            }
            return Err(ErrorKind::Decode);
        }
        let mut k: usize = 0;
        while k < fs
            invariant
                count == frames@.len(),
                j < count,
                0 < fs <= 0x1_0000,
                num <= 0xFFFF_FFFF,
                fm == frames@.map_values(|f: Vec<u32>| f@),
                fm[j as int].len() == fs,
                base == j * fs,
                base <= num,
                k <= fs,
                out@.len() == if num <= j * fs + k {
                    num as int
                } else {
                    j * fs + k
                },
                forall|i: int| 0 <= i < out@.len() ==> out@[i] == fm[i / (fs as int)][i % (
                fs as int)],
            decreases fs - k,
        {
            let idx: u64 = base + (k as u64);
            if idx < num as u64 {
                proof {
                    vstd::arithmetic::div_mod::lemma_fundamental_div_mod_converse(
                        idx as int,
                        fs as int,
                        j as int,
                        k as int,
                    );
                }
                out.push(frames[j][k]);
            }
            k = k + 1;
        }
        proof {
            assert((j + 1) * (fs as int) == j * (fs as int) + fs) by (nonlinear_arith);
        }
        j = j + 1;
    }
    proof {
        assert(forall|q: int| 0 <= q < fm.len() ==> #[trigger] fm[q].len() == fs);
        assert(forall|q: int| 0 <= q < fm.len() ==> fm[q] == #[trigger] frames@[q]@);
        assert forall|i: int|
            0 <= i < out@.len() implies out@[i] == frames@[i / (fs as int)]@[i % (
        fs as int)] by {
            vstd::arithmetic::div_mod::lemma_mod_bound(i, fs as int);
            assert(0 <= i / (fs as int) < fm.len()) by (nonlinear_arith)
                requires
                    0 <= i < fm.len() * (fs as int),
                    0 < (fs as int),
            ;
            assert(out@[i] == fm[i / (fs as int)][i % (fs as int)]);
        }
    }
    Ok(out)
}

/// Codec round trip: frames cut from a buffer and handed back by the coder
/// at the same frame length always reassemble, and the reassembled buffer
/// has exactly the original sample count.
pub proof fn lemma_codec_round_trip_len(s: Seq<u32>, fs: int, decoded: Seq<Seq<u32>>)
    requires
        0 < fs,
        decoded.len() == frame_count(s.len() as int, fs),
        frames_sized(decoded, fs),
    ensures
        assemble_ok(s.len() as int, decoded, fs),
        assemble_len(s.len() as int, decoded, fs) == s.len(),
{
    let n = s.len() as int;
    let count = frame_count(n, fs);
    vstd::arithmetic::div_mod::lemma_fundamental_div_mod(n + fs - 1, fs);
    vstd::arithmetic::div_mod::lemma_mod_bound(n + fs - 1, fs);
    assert(count * fs == n + fs - 1 - ((n + fs - 1) % fs));
    assert(count * fs >= n);
    if count > 0 {
        assert((count - 1) * fs == count * fs - fs) by (nonlinear_arith);
        assert((count - 1) * fs <= n - 1);
    }
}

/// The v1 round trip, end to end: wrap any coder's packets for a clip's
/// frames into the container and parse them back out, hand each packet to
/// a coder that returns whole frames, and the reassembled buffer holds
/// exactly the original sample count.
pub proof fn lemma_v1_round_trip(s: Seq<u32>, fs: int, pkts: Seq<Seq<u8>>, decoded: Seq<Seq<u32>>)
    requires
        0 < fs,
        forall|p: int| 0 <= p < pkts.len() ==> #[trigger] pkts[p].len() <= 0xFFFF,
        decoded.len() == frame_count(s.len() as int, fs),
        frames_sized(decoded, fs),
    ensures
        parse_records(build_records(pkts)) == Some(pkts),
        assemble_ok(s.len() as int, decoded, fs),
        assemble_len(s.len() as int, decoded, fs) == s.len(),
{
    lemma_records_round_trip(pkts);
    lemma_codec_round_trip_len(s, fs, decoded);
}

impl AudioClip {
    /// The first half of the v1 encoder: picks the rate the packet coder
    /// will run at (resampling to 48 kHz when the clip's own rate is not a
    /// coder rate) and cuts the samples into zero-padded 20 ms frames.
    /// The coder then turns each frame into one packet, and
    /// `encode_v1_container` wraps the packets.
    pub fn encode_v1_frames(&self) -> (r: (u32, u32, Vec<Vec<u32>>))
        requires
            self.sample_rate > 0,
            self.samples@.len() <= 0xFFFF_FFFF,
            resampled_len(self.samples@.len() as int, self.sample_rate as int, 48000)
                <= 0xFFFF_FFFF,
        ensures
            supported_rate(r.0 as int),
            supported_rate(self.sample_rate as int) ==> {
                &&& r.0 == self.sample_rate
                &&& r.1 == self.samples@.len()
                &&& r.2@.len() == frame_count(
                    self.samples@.len() as int,
                    frame_size_spec(r.0 as int),
                )
                &&& forall|j: int| 0 <= j < r.2@.len() ==> #[trigger] r.2@[j]@ == frame_at(
                    self.samples@,
                    frame_size_spec(r.0 as int),
                    j,
                )
            },
            !supported_rate(self.sample_rate as int) ==> {
                let resampled = crate::clip::resampled_seq(
                    self.samples@,
                    self.sample_rate as int,
                    48000,
                );
                &&& r.0 == 48000
                &&& r.1 == resampled.len()
                &&& r.2@.len() == frame_count(resampled.len() as int, frame_size_spec(48000))
                &&& forall|j: int| 0 <= j < r.2@.len() ==> #[trigger] r.2@[j]@ == frame_at(
                    resampled,
                    frame_size_spec(48000),
                    j,
                )
            },
    {
        if self.sample_rate == 8000 || self.sample_rate == 12000 || self.sample_rate == 16000
            || self.sample_rate == 24000 || self.sample_rate == 48000 {
            let fs = frame_size_for(self.sample_rate);
            let frames = chunk_frames(&self.samples, fs);
            (self.sample_rate, self.samples.len() as u32, frames)
        } else {
            let resampled = self.resample(48000);
            let fs = frame_size_for(48000);
            let frames = chunk_frames(&resampled.samples, fs);
            let n = resampled.samples.len() as u32;
            (48000, n, frames)
        }
    }
}

} // verus!
