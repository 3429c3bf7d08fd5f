//! Protocol faults reported by the framing and message codecs.

use vstd::prelude::*;

verus! {

/// A fault found while encoding or decoding a frame.
#[derive(Debug, Clone, Copy, PartialEq, Eq)]
pub enum ProtoError {
    /// The caller's buffer bound is smaller than the largest frame of the record type.
    BufferSize,
    /// The message codec rejected the payload; the byte says why.
    CodecError(u8),
    /// The trailing checksum byte does not match the checksum of the payload.
    CrcMismatch { calculated: u8, actual: u8 },
    /// The frame is too short to hold a checksum.
    BadLength { len: u8 },
    /// The frame breaks a framing rule; the byte says which.
    Invariant { kind: u8 },
}

impl ProtoError {
    /// The buffer bound is too small for the record type.
    pub fn buffer_size() -> (e: Self)
        ensures
            e == ProtoError::BufferSize,
    {
        ProtoError::BufferSize
    }

    /// The checksum that was computed is not the one in the frame.
    pub fn crc_mismatch(calculated: u8, actual: u8) -> (e: Self)
        ensures
            e == (ProtoError::CrcMismatch { calculated, actual }),
    {
        ProtoError::CrcMismatch { calculated, actual }
    }

    /// The length saturates at 255 so that the error still fits in one byte.
    pub fn bad_length(len: usize) -> (e: Self)
        ensures
            e == (ProtoError::BadLength { len: if len <= 255 { len as u8 } else { 255u8 } }),
    {
        if len <= 255 {
            ProtoError::BadLength { len: len as u8 }
        } else {
            ProtoError::BadLength { len: 255 }
        }
    }

    /// A framing rule was broken; `kind` says which one.
    pub fn invariant_violation(kind: u8) -> (e: Self)
        ensures
            e == (ProtoError::Invariant { kind }),
    {
        ProtoError::Invariant { kind }
    }
}

} // verus!
