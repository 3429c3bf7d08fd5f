//! Frames: a payload, its checksum byte, and for a byte stream the escape
//! encoding that keeps zero free to mark where a frame ends.

use crate::errors::ProtoError;
use crate::proto::{spec_cobs_max_length, WireSize};
use vstd::prelude::*;

verus! {

/// The CRC-8/BLUETOOTH checksum of `data`, as the `crc` crate computes it.
pub uninterp spec fn crc8_bluetooth(data: Seq<u8>) -> u8;

/// What the `cobs` crate writes for `source`: the escape encoding, without a
/// delimiter.
pub uninterp spec fn cobs_encoded(source: Seq<u8>) -> Seq<u8>;

/// What the `cobs` crate reads out of `encoded`, or `None` where it refuses it.
pub uninterp spec fn cobs_decoded(encoded: Seq<u8>) -> Option<Seq<u8>>;

/// Makes the error of `cobs::try_encode` known as a type whose inside is not
/// looked at.
#[verifier::external_type_specification]
#[verifier::external_body]
pub struct ExDestBufTooSmallError(cobs::DestBufTooSmallError);

/// Makes the error of `cobs::decode_in_place` known as a type whose inside
/// is not looked at.
#[verifier::external_type_specification]
#[verifier::external_body]
pub struct ExDecodeError(cobs::DecodeError);

/// Calls `crc::Crc::<u8>::checksum` with the CRC-8/BLUETOOTH parameters. The
/// contract only names the result: the same bytes give the same checksum.
#[verifier::external_body]
fn checksum(data: &[u8]) -> (c: u8)
    ensures
        c == crc8_bluetooth(data@),
{
    crc::Crc::<u8>::new(&crc::CRC_8_BLUETOOTH).checksum(data)
}

/// `dest` has room for the longest encoding of a source as long as `source`,
/// which is not empty.
pub open spec fn room_for(source: Seq<u8>, dest: Seq<u8>) -> bool {
    source.len() > 0 && dest.len() >= spec_cobs_max_length(source.len())
}

/// Calls `cobs::try_encode`. Where `dest` has room for the longest encoding of
/// a source of this length, the call succeeds and returns the length of the
/// encoding, which lies at the front of `dest`, holds no zero byte, is no
/// longer than that bound, and decodes to `source` again. Nothing is claimed
/// of a shorter `dest` but that its length stays.
#[verifier::external_body]
fn cobs_try_encode(source: &[u8], dest: &mut [u8]) -> (r: Result<usize, cobs::DestBufTooSmallError>)
    ensures
        final(dest)@.len() == old(dest)@.len(),
        room_for(source@, old(dest)@) ==> (r matches Ok(n) && n <= spec_cobs_max_length(
            source@.len(),
        ) && final(dest)@.subrange(0, n as int) == cobs_encoded(source@)),
        room_for(source@, old(dest)@) ==> (r matches Ok(n) && forall|i: int|
            0 <= i < n ==> #[trigger] final(dest)@[i] != 0),
        room_for(source@, old(dest)@) ==> (r matches Ok(n) && cobs_decoded(
            final(dest)@.subrange(0, n as int),
        ) == Some(source@)),
{
    cobs::try_encode(source, dest)
}

/// Calls `cobs::decode_in_place`. On success the decoded bytes lie at the
/// front of `buf` and their number is returned; what follows them is left
/// unspecified. The contract names the outcome: the same bytes decode alike.
#[verifier::external_body]
fn cobs_decode_in_place(buf: &mut [u8]) -> (r: Result<usize, cobs::DecodeError>)
    ensures
        final(buf)@.len() == old(buf)@.len(),
        match r {
            Ok(n) => n <= old(buf)@.len() && cobs_decoded(old(buf)@) == Some(
                final(buf)@.subrange(0, n as int),
            ),
            Err(_) => cobs_decoded(old(buf)@) is None,
        },
{
    cobs::decode_in_place(buf)
}

/// A payload followed by its checksum.
pub open spec fn cs_frame(payload: Seq<u8>) -> Seq<u8> {
    payload.push(crc8_bluetooth(payload))
}

/// The escaped checksummed frame, closed by the delimiter.
pub open spec fn wire_frame(payload: Seq<u8>) -> Seq<u8> {
    cobs_encoded(cs_frame(payload)).push(0u8)
}

/// The payload of a checksummed frame, or why the frame is refused.
pub open spec fn cs_unframe(frame: Seq<u8>) -> Result<Seq<u8>, ProtoError> {
    if frame.len() == 0 {
        Err(ProtoError::BadLength { len: 0 })
    } else if crc8_bluetooth(frame.drop_last()) != frame.last() {
        Err(
            ProtoError::CrcMismatch {
                calculated: crc8_bluetooth(frame.drop_last()),
                actual: frame.last(),
            },
        )
    } else {
        Ok(frame.drop_last())
    }
}

/// The payload of an escaped frame, or why the frame is refused.
pub open spec fn wire_unframe(frame: Seq<u8>) -> Result<Seq<u8>, ProtoError> {
    if frame.len() == 0 || frame.last() != 0 {
        Err(ProtoError::Invariant { kind: 5 })
    } else {
        match cobs_decoded(frame.drop_last()) {
            None => Err(ProtoError::Invariant { kind: 6 }),
            Some(inner) => cs_unframe(inner),
        }
    }
}

/// The record in a payload, or why the payload is refused.
pub open spec fn payload_decoded<D: WireSize>(payload: Seq<u8>) -> Result<D::V, ProtoError> {
    match D::parse(payload) {
        Ok((v, _)) => Ok(v),
        Err(code) => Err(ProtoError::CodecError(code)),
    }
}

/// The record in a checksummed frame, or why the frame is refused.
pub open spec fn cs_decoded<D: WireSize>(frame: Seq<u8>) -> Result<D::V, ProtoError> {
    match cs_unframe(frame) {
        Ok(payload) => payload_decoded::<D>(payload),
        Err(fault) => Err(fault),
    }
}

/// The record in an escaped frame, or why the frame is refused.
pub open spec fn wire_decoded<D: WireSize>(frame: Seq<u8>) -> Result<D::V, ProtoError> {
    match wire_unframe(frame) {
        Ok(payload) => payload_decoded::<D>(payload),
        Err(fault) => Err(fault),
    }
}

/// A frame of a byte stream holds one zero byte, its last.
pub open spec fn delimited(frame: Seq<u8>) -> bool {
    &&& frame.len() >= 1
    &&& frame.last() == 0
    &&& forall|i: int| 0 <= i < frame.len() - 1 ==> #[trigger] frame[i] != 0
}

/// Encodes `value` for a transport that frames messages itself: the payload
/// and its checksum. `N` is the caller's buffer bound.
pub fn cs_encode<S: WireSize, const N: usize>(value: &S) -> (r: Result<Vec<u8>, ProtoError>)
    ensures
        match r {
            Ok(frame) => {
                &&& N >= S::CS_MAX_SIZE
                &&& frame@ == cs_frame(S::payload(value@))
                &&& 2 <= frame@.len() <= S::CS_MAX_SIZE
                &&& cs_decoded::<S>(frame@) == Ok::<S::V, ProtoError>(value@)
                &&& S::fits(value@)
            },
            Err(fault) => N < S::CS_MAX_SIZE && fault == ProtoError::BufferSize,
        },
{
    if N < S::CS_MAX_SIZE {
        return Err(ProtoError::buffer_size());
    }
    let mut buf: Vec<u8> = Vec::new();
    value.encode(&mut buf);
    let ghost payload = buf@;
    proof {
        assert(payload =~= S::payload(value@));
        S::lemma_sizes();
        S::lemma_payload_len(value@);
        S::lemma_round_trip(value@, Seq::empty());
        assert(payload + Seq::<u8>::empty() =~= payload);
    }
    let crc = checksum(buf.as_slice());
    buf.push(crc);
    proof {
        assert(buf@.drop_last() =~= payload);
    }
    Ok(buf)
}

/// Encodes `value` for a byte stream: payload and checksum, escaped so that
/// no zero is left in them, then the zero that ends the frame.
pub fn wire_encode<S: WireSize, const N: usize>(value: &S) -> (r: Result<Vec<u8>, ProtoError>)
    ensures
        match r {
            Ok(frame) => {
                &&& N >= S::WIRE_MAX_SIZE
                &&& frame@ == wire_frame(S::payload(value@))
                &&& frame@.len() <= S::WIRE_MAX_SIZE
                &&& delimited(frame@)
                &&& wire_decoded::<S>(frame@) == Ok::<S::V, ProtoError>(value@)
            },
            Err(fault) => N < S::WIRE_MAX_SIZE && fault == ProtoError::BufferSize,
        },
{
    if N < S::WIRE_MAX_SIZE {
        return Err(ProtoError::buffer_size());
    }
    proof {
        S::lemma_sizes();
    }
    let buf = match cs_encode::<S, N>(value) {
        Ok(buf) => buf,
        Err(fault) => { return Err(fault); },
    };
    let mut frame: Vec<u8> = Vec::new();
    frame.resize(N, 0u8);
    proof {
        lemma_cobs_max_length_monotonic(buf@.len(), S::CS_MAX_SIZE as nat);
    }
    let used = match cobs_try_encode(buf.as_slice(), frame.as_mut_slice()) {
        Ok(used) => used,
        Err(_) => { return Err(ProtoError::invariant_violation(3)); },
    };
    frame.truncate(used);
    assert(frame@ =~= cobs_encoded(buf@));
    frame.push(0);
    proof {
        assert(frame@.drop_last() =~= cobs_encoded(buf@));
    }
    Ok(frame)
}

/// Decodes a checksummed frame. The buffer is left as it was.
pub fn cs_decode<D: WireSize>(buf: &mut [u8]) -> (r: Result<D, ProtoError>)
    ensures
        final(buf)@ == old(buf)@,
        match cs_decoded::<D>(old(buf)@) {
            Ok(v) => r matches Ok(d) && d@ == v && D::fits(v),
            Err(fault) => r matches Err(e) && e == fault,
        },
{
    let new_len = buf.len();
    if new_len == 0 {
        return Err(ProtoError::bad_length(new_len));
    }
    let actual_crc = buf[new_len - 1];
    let message: &[u8] = vstd::slice::slice_subrange(buf, 0, new_len - 1);
    assert(message@ =~= buf@.drop_last());
    let calc_crc = checksum(message);
    if actual_crc != calc_crc {
        Err(ProtoError::crc_mismatch(calc_crc, actual_crc))
    } else {
        assert(message@.skip(0) =~= message@);
        match D::decode(message, 0) {
            Ok((value, _)) => Ok(value),
            Err(code) => Err(ProtoError::CodecError(code)),
        }
    }
}

/// What decoding an escaped frame in place leaves in the buffer: a buffer
/// without the delimiter stays as it is; else the delimiter stays, and
/// where the escaping is sound the unescaped bytes lie at the front. The
/// bytes between them are left unspecified.
pub open spec fn unescaped_in_place(before: Seq<u8>, after: Seq<u8>) -> bool {
    &&& after.len() == before.len()
    &&& before.len() == 0 || before.last() != 0 ==> after =~= before
    &&& before.len() > 0 && before.last() == 0 ==> after.last() == 0
    &&& before.len() > 0 && before.last() == 0 ==> match cobs_decoded(before.drop_last()) {
        Some(inner) => inner.len() < after.len() && after.subrange(0, inner.len() as int)
            =~= inner,
        None => true,
    }
}

/// Decodes an escaped frame in place. The frame must end with the delimiter;
/// the unescaped bytes overwrite the front of the buffer.
pub fn wire_decode<D: WireSize>(buf: &mut [u8]) -> (r: Result<D, ProtoError>)
    ensures
        unescaped_in_place(old(buf)@, final(buf)@),
        match wire_decoded::<D>(old(buf)@) {
            Ok(v) => r matches Ok(d) && d@ == v && D::fits(v),
            Err(fault) => r matches Err(e) && e == fault,
        },
{
    let len = buf.len();
    if len == 0 || buf[len - 1] != 0 {
        return Err(ProtoError::invariant_violation(5));
    }
    let without_sentinel = len - 1;
    let (body, sentinel) = buf.split_at_mut(without_sentinel);
    assert(body@ =~= old(buf)@.drop_last());
    let new_len = match cobs_decode_in_place(body) {
        Ok(new_len) => new_len,
        Err(_) => { return Err(ProtoError::invariant_violation(6)); },
    };
    let (inner, _) = body.split_at_mut(new_len);
    cs_decode::<D>(inner)
}

/// A checksummed frame gives back the record it was made from, and is no
/// longer than the bound of its type.
pub proof fn lemma_cs_round_trip<S: WireSize>(v: S::V)
    requires
        S::fits(v),
    ensures
        cs_decoded::<S>(cs_frame(S::payload(v))) == Ok::<S::V, ProtoError>(v),
        cs_frame(S::payload(v)).len() <= S::CS_MAX_SIZE,
{
    let payload = S::payload(v);
    S::lemma_sizes();
    S::lemma_payload_len(v);
    S::lemma_round_trip(v, Seq::empty());
    assert(payload + Seq::<u8>::empty() =~= payload);
    assert(cs_frame(payload).drop_last() =~= payload);
}

/// The bound grows with the length.
proof fn lemma_cobs_max_length_monotonic(a: nat, b: nat)
    requires
        a <= b,
    ensures
        spec_cobs_max_length(a) <= spec_cobs_max_length(b),
{
}

} // verus!
