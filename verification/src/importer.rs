//! The importer's decisions.
//!
//! Probing a container, walking its packets and decoding them is the
//! media framework's work, driven by the host against the file; this
//! module decides what happens to each packet event and reduces decoded
//! interleaved audio to mono.

use vstd::prelude::*;
use crate::record::first_channel;

verus! {

/// What the format reader or decoder reported for one step of the packet
/// loop.
pub enum ImportEvent {
    /// A packet of this track arrived.
    Packet { track_id: u32 },
    /// The source ended.
    EndOfStream,
    /// The reader failed outright.
    ReadFailed,
    /// The packet arrived but did not decode.
    DecodeFailed,
    /// The decoder failed with something other than a decode error.
    DecoderBroke,
}

/// What the import loop does next.
#[derive(Clone, Copy, Debug, PartialEq, Eq, Structural)]
pub enum ImportAction {
    /// Decode this packet and take its audio.
    Decode,
    /// Drop this packet.
    Skip,
    /// End the loop and keep what was gathered.
    Finish,
    /// End the loop and report the failure.
    Fail,
}

/// Decides one step of the import loop: packets of other tracks are
/// skipped, a decode error on one packet is tolerated, the end of the
/// stream finishes the import, a broken decoder finishes it with what was
/// gathered, and a failing reader aborts it.
pub fn import_step(selected_track: u32, event: &ImportEvent) -> (r: ImportAction)
    ensures
        match event {
            ImportEvent::Packet { track_id } => r == (if track_id == selected_track {
                ImportAction::Decode
            } else {
                ImportAction::Skip
            }),
            ImportEvent::EndOfStream => r == ImportAction::Finish,
            ImportEvent::ReadFailed => r == ImportAction::Fail,
            ImportEvent::DecodeFailed => r == ImportAction::Skip,
            ImportEvent::DecoderBroke => r == ImportAction::Finish,
        },
{
    match event {
        ImportEvent::Packet { track_id } => {
            if *track_id == selected_track {
                ImportAction::Decode
            } else {
                ImportAction::Skip
            }
        },
        ImportEvent::EndOfStream => ImportAction::Finish,
        ImportEvent::ReadFailed => ImportAction::Fail,
        ImportEvent::DecodeFailed => ImportAction::Skip,
        ImportEvent::DecoderBroke => ImportAction::Finish,
    }
}

/// Reduces one decoded, interleaved buffer to mono by keeping channel
/// zero of every frame.
pub fn mono_from_interleaved(data: &Vec<u32>, channels: usize) -> (r: Vec<u32>)
    requires
        0 < channels <= 0x1_0000,
        data@.len() <= 0xFFFF_FFFF,
    ensures
        r@ == first_channel(data@, channels as int),
{
    let len = data.len();
    proof {
        crate::codec::lemma_frame_count_le_len(len as int, channels as int);
    }
    let count: usize = (((len as u64) + (channels as u64) - 1) / (channels as u64)) as usize;
    let mut r: Vec<u32> = Vec::new();
    let mut f: usize = 0;
    while f < count
        invariant
            0 < channels <= 0x1_0000,
            len == data@.len(),
            len <= 0xFFFF_FFFF,
            count == ((len + channels - 1) as int) / (channels as int),
            count <= len,
            f <= count,
            r@.len() == f,
            forall|q: int| 0 <= q < f ==> #[trigger] r@[q] == data@[q * channels],
        decreases count - f,
    {
        proof {
            vstd::arithmetic::mul::lemma_mul_upper_bound(
                f as int,
                0xFFFF_FFFF,
                channels as int,
                0x1_0000,
            );
            vstd::arithmetic::div_mod::lemma_fundamental_div_mod(
                (len + channels - 1) as int,
                channels as int,
            );
            vstd::arithmetic::div_mod::lemma_mod_bound(
                (len + channels - 1) as int,
                channels as int,
            );
            assert((f + 1) * (channels as int) <= count * (channels as int)) by (nonlinear_arith)
                requires
                    f + 1 <= count,
                    0 < channels,
            ;
            assert(f * (channels as int) + channels == (f + 1) * (channels as int))
                by (nonlinear_arith);
            assert((channels as int) * (count as int) == (count as int) * (channels as int))
                by (nonlinear_arith);
        }
        let idx: u64 = (f as u64) * (channels as u64);
        r.push(data[idx as usize]);
        f = f + 1;
    }
    proof {
        assert(r@ =~= first_channel(data@, channels as int));
    }
    r
}

} // verus!
