//! A personal voice-journal engine: capture, storage, playback and analysis
//! of named mono audio clips.
//!
//! Samples are carried throughout as raw binary32 bit patterns (`u32`), so
//! that the engine's logic is stated and verified over plain integers.

use vstd::prelude::*;

pub mod analyze;
pub mod clip;
pub mod codec;
pub mod db;
pub mod importer;
pub mod js_logger;
pub mod playback;
pub mod record;
pub mod sample;
pub mod spectrum;
pub mod ui;
pub mod wav;
pub mod waveform;

verus! {

/// The error kinds the engine surfaces to callers.
#[derive(Clone, Copy, Debug, PartialEq, Eq, Structural)]
pub enum ErrorKind {
    /// No clip matches the given name or id.
    NotFound,
    /// A duplicate name on save or rename.
    Conflict,
    /// Filesystem, device-open, or stream-build failure.
    Io,
    /// Codec, container, or text failure that makes a row unreadable.
    Decode,
    /// Codec failure while saving.
    Encode,
    /// A caller-supplied argument that the operation rejects.
    InvalidArgument,
    /// No default input or output device, or an unknown sample format.
    DeviceUnavailable,
    /// An unexpected invariant break.
    Internal,
}

/// The short description of each error kind.
pub open spec fn describe_spec(e: ErrorKind) -> Seq<char> {
    match e {
        ErrorKind::NotFound => "not found"@,
        ErrorKind::Conflict => "name conflict"@,
        ErrorKind::Io => "i/o failure"@,
        ErrorKind::Decode => "decode failure"@,
        ErrorKind::Encode => "encode failure"@,
        ErrorKind::InvalidArgument => "invalid argument"@,
        ErrorKind::DeviceUnavailable => "device unavailable"@,
        ErrorKind::Internal => "internal error"@,
    }
}

impl ErrorKind {
    /// A short description of the error kind.
    pub fn describe(&self) -> (r: &'static str)
        ensures
            r@ == describe_spec(*self),
    {
        match self {
            ErrorKind::NotFound => "not found",
            ErrorKind::Conflict => "name conflict",
            ErrorKind::Io => "i/o failure",
            ErrorKind::Decode => "decode failure",
            ErrorKind::Encode => "encode failure",
            ErrorKind::InvalidArgument => "invalid argument",
            ErrorKind::DeviceUnavailable => "device unavailable",
            ErrorKind::Internal => "internal error",
        }
    }
}

} // verus!
