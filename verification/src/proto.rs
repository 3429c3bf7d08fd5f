//! The records that travel between host and keyboard, and their payloads.
//!
//! A payload is the record's fields in order: integers wider than a byte as
//! variable-length integers, bytes and byte arrays as they are, the variant
//! of a tagged record as a leading discriminant.

use crate::errors::ProtoError;
use crate::wire::{
    get_byte, get_tag, get_varint, lemma_limits, lemma_skip_skip, lemma_tag_round_trip,
    lemma_varint_fits, lemma_varint_len, lemma_varint_round_trip, put_varint, take_byte,
    take_bytes, take_tag, take_varint, varint, FAULT_BAD_VALUE, FAULT_UNEXPECTED_END,
    U16_LAST_MAX, U16_WIDTH, U32_LAST_MAX, U32_WIDTH,
};
use vstd::prelude::*;

verus! {

/// Number of payload bytes carried by one `Data` block.
pub const DATA_COUNT: usize = 8;

/// Rows of the key matrix of one half.
pub const NUM_ROWS: usize = 5;

/// Columns of the key matrix of one half.
pub const NUM_COLS: usize = 7;

/// Keys of one half.
pub const NUM_KEYS: usize = NUM_ROWS * NUM_COLS;

/// Most keys one update can name.
pub const MAX_KEYS: usize = 35;

/// Length bound of the escape encoding of `source_len` bytes.
pub open spec fn spec_cobs_max_length(source_len: nat) -> nat {
    source_len + source_len / 254 + if source_len % 254 > 0 {
        1nat
    } else {
        0nat
    }
}

/// Length bound of the escape encoding of `source_len` bytes: one more byte
/// for every 254, begun or full.
#[verifier::when_used_as_spec(spec_cobs_max_length_usize)]
pub fn cobs_max_length(source_len: usize) -> (n: usize)
    requires
        spec_cobs_max_length(source_len as nat) <= usize::MAX,
    ensures
        n == spec_cobs_max_length(source_len as nat),
{
    source_len + (source_len / 254) + if source_len % 254 > 0 {
        1
    } else {
        0
    }
}

/// The bound as a machine integer.
pub open spec fn spec_cobs_max_length_usize(source_len: usize) -> usize {
    spec_cobs_max_length(source_len as nat) as usize
}

/// A record with a payload, and the bounds that size every buffer for it.
pub trait WireSize: View + Sized {
    /// Bound on the length of an escaped frame, delimiter included.
    const WIRE_MAX_SIZE: usize;

    /// Bound on the length of a checksummed frame.
    const CS_MAX_SIZE: usize;

    /// Length of the longest payload.
    spec fn payload_max() -> nat;

    /// The payload that carries `v`.
    spec fn payload(v: Self::V) -> Seq<u8>;

    /// Holds of every value that a record of this type can take.
    spec fn fits(v: Self::V) -> bool;

    /// Reads one record from the front of `b`: the record and the number of
    /// bytes it took, or the fault code. What follows the record is ignored.
    spec fn parse(b: Seq<u8>) -> Result<(Self::V, nat), u8>;

    /// Appends the payload of `self` to `out`.
    fn encode(&self, out: &mut Vec<u8>)
        ensures
            final(out)@ == old(out)@ + Self::payload(self@),
            Self::fits(self@),
    ;

    /// Reads one record at `pos`: the record and the position after it.
    fn decode(buf: &[u8], pos: usize) -> (r: Result<(Self, usize), u8>)
        requires
            pos <= buf.len(),
        ensures
            match Self::parse(buf@.skip(pos as int)) {
                Ok((v, used)) => r matches Ok((d, next)) && d@ == v && next == pos + used && next
                    <= buf.len() && Self::fits(v),
                Err(code) => r matches Err(c) && c == code,
            },
    ;

    /// The two bounds follow from the longest payload.
    proof fn lemma_sizes()
        ensures
            Self::CS_MAX_SIZE == Self::payload_max() + 1,
            Self::WIRE_MAX_SIZE == spec_cobs_max_length(Self::payload_max() + 1) + 1,
    ;

    /// No payload is empty or longer than the longest.
    proof fn lemma_payload_len(v: Self::V)
        requires
            Self::fits(v),
        ensures
            1 <= Self::payload(v).len() <= Self::payload_max(),
    ;

    /// Reading a payload gives back the record, whatever follows it.
    proof fn lemma_round_trip(v: Self::V, rest: Seq<u8>)
        requires
            Self::fits(v),
        ensures
            Self::parse(Self::payload(v) + rest) == Ok::<(Self::V, nat), u8>(
                (v, Self::payload(v).len()),
            ),
    ;
}

/// Protocol revision.
#[derive(Debug, Clone, Copy, PartialEq, Eq)]
pub struct Version {
    pub major: u16,
    pub minor: u16,
}

impl Version {
    /// The revision this library speaks.
    pub fn current() -> (v: Version)
        ensures
            v.major == 0,
            v.minor == 0,
    {
        Version { major: 0, minor: 0 }
    }
}

/// What a command acknowledges.
#[derive(Debug, Clone, Copy, PartialEq, Eq)]
pub enum AckType {
    AckReset,
    AckUsbDfu,
    AckFlashFw,
}

impl View for AckType {
    type V = AckType;

    open spec fn view(&self) -> AckType {
        *self
    }
}

impl AckType {
    pub open spec fn tag(self) -> nat {
        match self {
            AckType::AckReset => 0,
            AckType::AckUsbDfu => 1,
            AckType::AckFlashFw => 2,
        }
    }
}

impl WireSize for AckType {
    const WIRE_MAX_SIZE: usize = 4;

    const CS_MAX_SIZE: usize = 2;

    open spec fn payload_max() -> nat {
        1
    }

    open spec fn payload(v: AckType) -> Seq<u8> {
        varint(v.tag())
    }

    open spec fn fits(v: AckType) -> bool {
        true
    }

    open spec fn parse(b: Seq<u8>) -> Result<(AckType, nat), u8> {
        match take_tag(b) {
            Err(code) => Err(code),
            Ok((tag, used)) => if tag == 0 {
                Ok((AckType::AckReset, used))
            } else if tag == 1 {
                Ok((AckType::AckUsbDfu, used))
            } else if tag == 2 {
                Ok((AckType::AckFlashFw, used))
            } else {
                Err(FAULT_BAD_VALUE)
            },
        }
    }

    fn encode(&self, out: &mut Vec<u8>) {
        match self {
            AckType::AckReset => put_varint(0, out),
            AckType::AckUsbDfu => put_varint(1, out),
            AckType::AckFlashFw => put_varint(2, out),
        }
    }

    fn decode(buf: &[u8], pos: usize) -> (r: Result<(Self, usize), u8>) {
        match get_tag(buf, pos) {
            Err(code) => Err(code),
            Ok((tag, next)) => if tag == 0 {
                Ok((AckType::AckReset, next))
            } else if tag == 1 {
                Ok((AckType::AckUsbDfu, next))
            } else if tag == 2 {
                Ok((AckType::AckFlashFw, next))
            } else {
                Err(FAULT_BAD_VALUE)
            },
        }
    }

    proof fn lemma_sizes() {
    }

    proof fn lemma_payload_len(v: AckType) {
        lemma_varint_len(v.tag());
    }

    proof fn lemma_round_trip(v: AckType, rest: Seq<u8>) {
        lemma_tag_round_trip(v.tag(), rest);
    }
}

impl View for ProtoError {
    type V = ProtoError;

    open spec fn view(&self) -> ProtoError {
        *self
    }
}

impl WireSize for ProtoError {
    const WIRE_MAX_SIZE: usize = 6;

    const CS_MAX_SIZE: usize = 4;

    open spec fn payload_max() -> nat {
        3
    }

    open spec fn payload(v: ProtoError) -> Seq<u8> {
        match v {
            ProtoError::BufferSize => varint(0),
            ProtoError::CodecError(code) => varint(1) + seq![code],
            ProtoError::CrcMismatch { calculated, actual } => varint(2) + seq![calculated, actual],
            ProtoError::BadLength { len } => varint(3) + seq![len],
            ProtoError::Invariant { kind } => varint(4) + seq![kind],
        }
    }

    open spec fn fits(v: ProtoError) -> bool {
        true
    }

    open spec fn parse(b: Seq<u8>) -> Result<(ProtoError, nat), u8> {
        match take_tag(b) {
            Err(code) => Err(code),
            Ok((tag, used)) => if tag == 0 {
                Ok((ProtoError::BufferSize, used))
            } else if tag == 1 {
                match take_byte(b.skip(used as int)) {
                    Err(code) => Err(code),
                    Ok((code, _)) => Ok((ProtoError::CodecError(code), used + 1)),
                }
            } else if tag == 2 {
                match take_bytes(b.skip(used as int), 2) {
                    Err(code) => Err(code),
                    Ok((pair, _)) => {
                        let (calculated, actual) = (pair[0], pair[1]);
                        Ok((ProtoError::CrcMismatch { calculated, actual }, used + 2))
                    },
                }
            } else if tag == 3 {
                match take_byte(b.skip(used as int)) {
                    Err(code) => Err(code),
                    Ok((len, _)) => Ok((ProtoError::BadLength { len }, used + 1)),
                }
            } else if tag == 4 {
                match take_byte(b.skip(used as int)) {
                    Err(code) => Err(code),
                    Ok((kind, _)) => Ok((ProtoError::Invariant { kind }, used + 1)),
                }
            } else {
                Err(FAULT_BAD_VALUE)
            },
        }
    }

    fn encode(&self, out: &mut Vec<u8>) {
        match self {
            ProtoError::BufferSize => put_varint(0, out),
            ProtoError::CodecError(code) => {
                put_varint(1, out);
                out.push(*code);
                assert(out@ =~= old(out)@ + (varint(1) + seq![*code]));
            },
            ProtoError::CrcMismatch { calculated, actual } => {
                put_varint(2, out);
                out.push(*calculated);
                out.push(*actual);
                assert(out@ =~= old(out)@ + (varint(2) + seq![*calculated, *actual]));
            },
            ProtoError::BadLength { len } => {
                put_varint(3, out);
                out.push(*len);
                assert(out@ =~= old(out)@ + (varint(3) + seq![*len]));
            },
            ProtoError::Invariant { kind } => {
                put_varint(4, out);
                out.push(*kind);
                assert(out@ =~= old(out)@ + (varint(4) + seq![*kind]));
            },
        }
    }

    fn decode(buf: &[u8], pos: usize) -> (r: Result<(Self, usize), u8>) {
        let (tag, next) = match get_tag(buf, pos) {
            Err(code) => { return Err(code); },
            Ok(found) => found,
        };
        proof {
            lemma_skip_skip(buf@, pos as int, next - pos);
        }
        if tag == 0 {
            Ok((ProtoError::BufferSize, next))
        } else if tag == 1 {
            match get_byte(buf, next) {
                Err(code) => Err(code),
                Ok((code, after)) => Ok((ProtoError::CodecError(code), after)),
            }
        } else if tag == 2 {
            if buf.len() - next < 2 {
                return Err(FAULT_UNEXPECTED_END);
            }
            let calculated = buf[next];
            let actual = buf[next + 1];
            Ok((ProtoError::CrcMismatch { calculated, actual }, next + 2))
        } else if tag == 3 {
            match get_byte(buf, next) {
                Err(code) => Err(code),
                Ok((len, after)) => Ok((ProtoError::BadLength { len }, after)),
            }
        } else if tag == 4 {
            match get_byte(buf, next) {
                Err(code) => Err(code),
                Ok((kind, after)) => Ok((ProtoError::Invariant { kind }, after)),
            }
        } else {
            Err(FAULT_BAD_VALUE)
        }
    }

    proof fn lemma_sizes() {
    }

    proof fn lemma_payload_len(v: ProtoError) {
        lemma_varint_len(0);
        lemma_varint_len(1);
        lemma_varint_len(2);
        lemma_varint_len(3);
        lemma_varint_len(4);
    }

    proof fn lemma_round_trip(v: ProtoError, rest: Seq<u8>) {
        match v {
            ProtoError::BufferSize => {
                lemma_tag_round_trip(0, rest);
            },
            ProtoError::CodecError(code) => {
                lemma_tag_round_trip(1, seq![code] + rest);
                assert(Self::payload(v) + rest =~= varint(1) + (seq![code] + rest));
            },
            ProtoError::CrcMismatch { calculated, actual } => {
                let fields = seq![calculated, actual];
                lemma_tag_round_trip(2, fields + rest);
                assert(Self::payload(v) + rest =~= varint(2) + (fields + rest));
                assert((fields + rest).subrange(0, 2) =~= fields);
            },
            ProtoError::BadLength { len } => {
                lemma_tag_round_trip(3, seq![len] + rest);
                assert(Self::payload(v) + rest =~= varint(3) + (seq![len] + rest));
            },
            ProtoError::Invariant { kind } => {
                lemma_tag_round_trip(4, seq![kind] + rest);
                assert(Self::payload(v) + rest =~= varint(4) + (seq![kind] + rest));
            },
        }
    }
}

/// Why a frame was refused.
#[derive(Debug, Clone, Copy, PartialEq, Eq)]
pub enum NackType {
    /// The command is not one the device expects now.
    Unexpected,
    /// The frame did not decode.
    PacketErr(ProtoError),
    /// More bytes arrived than the receive ring holds; the frame was dropped.
    BufferOverflow,
}

impl View for NackType {
    type V = NackType;

    open spec fn view(&self) -> NackType {
        *self
    }
}

impl WireSize for NackType {
    const WIRE_MAX_SIZE: usize = 7;

    const CS_MAX_SIZE: usize = 5;

    open spec fn payload_max() -> nat {
        4
    }

    open spec fn payload(v: NackType) -> Seq<u8> {
        match v {
            NackType::Unexpected => varint(0),
            NackType::PacketErr(fault) => varint(1) + ProtoError::payload(fault),
            NackType::BufferOverflow => varint(2),
        }
    }

    open spec fn fits(v: NackType) -> bool {
        true
    }

    open spec fn parse(b: Seq<u8>) -> Result<(NackType, nat), u8> {
        match take_tag(b) {
            Err(code) => Err(code),
            Ok((tag, used)) => if tag == 0 {
                Ok((NackType::Unexpected, used))
            } else if tag == 1 {
                match ProtoError::parse(b.skip(used as int)) {
                    Err(code) => Err(code),
                    Ok((fault, more)) => Ok((NackType::PacketErr(fault), used + more)),
                }
            } else if tag == 2 {
                Ok((NackType::BufferOverflow, used))
            } else {
                Err(FAULT_BAD_VALUE)
            },
        }
    }

    fn encode(&self, out: &mut Vec<u8>) {
        match self {
            NackType::Unexpected => put_varint(0, out),
            NackType::PacketErr(fault) => {
                put_varint(1, out);
                fault.encode(out);
                assert(out@ =~= old(out)@ + (varint(1) + ProtoError::payload(*fault)));
            },
            NackType::BufferOverflow => put_varint(2, out),
        }
    }

    fn decode(buf: &[u8], pos: usize) -> (r: Result<(Self, usize), u8>) {
        let (tag, next) = match get_tag(buf, pos) {
            Err(code) => { return Err(code); },
            Ok(found) => found,
        };
        proof {
            lemma_skip_skip(buf@, pos as int, next - pos);
        }
        if tag == 0 {
            Ok((NackType::Unexpected, next))
        } else if tag == 1 {
            match ProtoError::decode(buf, next) {
                Err(code) => Err(code),
                Ok((fault, after)) => Ok((NackType::PacketErr(fault), after)),
            }
        } else if tag == 2 {
            Ok((NackType::BufferOverflow, next))
        } else {
            Err(FAULT_BAD_VALUE)
        }
    }

    proof fn lemma_sizes() {
    }

    proof fn lemma_payload_len(v: NackType) {
        lemma_varint_len(0);
        lemma_varint_len(1);
        lemma_varint_len(2);
        if let NackType::PacketErr(fault) = v {
            ProtoError::lemma_payload_len(fault);
        }
    }

    proof fn lemma_round_trip(v: NackType, rest: Seq<u8>) {
        match v {
            NackType::Unexpected => {
                lemma_tag_round_trip(0, rest);
            },
            NackType::PacketErr(fault) => {
                let inner = ProtoError::payload(fault);
                lemma_tag_round_trip(1, inner + rest);
                assert(Self::payload(v) + rest =~= varint(1) + (inner + rest));
                ProtoError::lemma_round_trip(fault, rest);
            },
            NackType::BufferOverflow => {
                lemma_tag_round_trip(2, rest);
            },
        }
    }
}

/// The eight bytes of a `Data` block, taken from the front of `s`.
pub open spec fn data_block(s: Seq<u8>) -> [u8; DATA_COUNT] {
    [s[0], s[1], s[2], s[3], s[4], s[5], s[6], s[7]]
}

/// Reads the eight bytes of a `Data` block at `pos`.
fn get_block(buf: &[u8], pos: usize) -> (r: Result<([u8; DATA_COUNT], usize), u8>)
    requires
        pos <= buf.len(),
    ensures
        match take_bytes(buf@.skip(pos as int), DATA_COUNT as nat) {
            Ok((bytes, used)) => r == Ok::<([u8; DATA_COUNT], usize), u8>(
                (data_block(bytes), (pos + used) as usize),
            ) && pos + used <= buf.len(),
            Err(code) => r == Err::<([u8; DATA_COUNT], usize), u8>(code),
        },
{
    if buf.len() - pos < DATA_COUNT {
        return Err(FAULT_UNEXPECTED_END);
    }
    let block: [u8; DATA_COUNT] = [
        buf[pos],
        buf[pos + 1],
        buf[pos + 2],
        buf[pos + 3],
        buf[pos + 4],
        buf[pos + 5],
        buf[pos + 6],
        buf[pos + 7],
    ];
    assert(block =~= data_block(buf@.skip(pos as int).subrange(0, DATA_COUNT as int)));
    Ok((block, pos + DATA_COUNT))
}

/// Appends the eight bytes of a `Data` block to `out`.
fn put_block(block: &[u8; DATA_COUNT], out: &mut Vec<u8>)
    ensures
        final(out)@ == old(out)@ + block@,
{
    let mut i: usize = 0;
    while i < DATA_COUNT
        invariant
            i <= DATA_COUNT,
            out@ == old(out)@ + block@.subrange(0, i as int),
        decreases DATA_COUNT - i,
    {
        out.push(block[i]);
        assert(out@ =~= old(out)@ + block@.subrange(0, i + 1));
        i += 1;
    }
    assert(block@.subrange(0, DATA_COUNT as int) =~= block@);
}

proof fn lemma_block_round_trip(block: [u8; DATA_COUNT], rest: Seq<u8>)
    ensures
        take_bytes(block@ + rest, DATA_COUNT as nat) == Ok::<(Seq<u8>, nat), u8>(
            (block@, DATA_COUNT as nat),
        ),
        data_block(block@) == block,
{
    assert((block@ + rest).subrange(0, DATA_COUNT as int) =~= block@);
    assert(data_block(block@) =~= block);
}

/// A request, host to device.
#[allow(inconsistent_fields)]
#[derive(Debug, Clone, Copy, PartialEq, Eq)]
pub enum Command {
    /// Reset the controller.
    Reset,
    /// Restart into the vendor bootloader.
    UsbDfu,
    /// Announces a firmware image of `count` bytes, sent in the `Data` blocks that follow.
    FlashFw { count: u32 },
    /// Announces an echo of `count` bytes, sent in the `Data` blocks that follow.
    EchoMsg { count: u16 },
    /// One block of a stream that an earlier command announced.
    Data([u8; DATA_COUNT]),
}

impl View for Command {
    type V = Command;

    open spec fn view(&self) -> Command {
        *self
    }
}

impl WireSize for Command {
    const WIRE_MAX_SIZE: usize = 12;

    const CS_MAX_SIZE: usize = 10;

    open spec fn payload_max() -> nat {
        9
    }

    open spec fn payload(v: Command) -> Seq<u8> {
        match v {
            Command::Reset => varint(0),
            Command::UsbDfu => varint(1),
            Command::FlashFw { count } => varint(2) + varint(count as nat),
            Command::EchoMsg { count } => varint(3) + varint(count as nat),
            Command::Data(block) => varint(4) + block@,
        }
    }

    open spec fn fits(v: Command) -> bool {
        true
    }

    open spec fn parse(b: Seq<u8>) -> Result<(Command, nat), u8> {
        match take_tag(b) {
            Err(code) => Err(code),
            Ok((tag, used)) => if tag == 0 {
                Ok((Command::Reset, used))
            } else if tag == 1 {
                Ok((Command::UsbDfu, used))
            } else if tag == 2 {
                match take_varint(b.skip(used as int), U32_WIDTH as nat, U32_LAST_MAX as nat) {
                    Err(code) => Err(code),
                    Ok((count, more)) => Ok(
                        (Command::FlashFw { count: count as u32 }, used + more),
                    ),
                }
            } else if tag == 3 {
                match take_varint(b.skip(used as int), U16_WIDTH as nat, U16_LAST_MAX as nat) {
                    Err(code) => Err(code),
                    Ok((count, more)) => Ok(
                        (Command::EchoMsg { count: count as u16 }, used + more),
                    ),
                }
            } else if tag == 4 {
                match take_bytes(b.skip(used as int), DATA_COUNT as nat) {
                    Err(code) => Err(code),
                    Ok((bytes, more)) => Ok((Command::Data(data_block(bytes)), used + more)),
                }
            } else {
                Err(FAULT_BAD_VALUE)
            },
        }
    }

    fn encode(&self, out: &mut Vec<u8>) {
        match self {
            Command::Reset => put_varint(0, out),
            Command::UsbDfu => put_varint(1, out),
            Command::FlashFw { count } => {
                put_varint(2, out);
                put_varint(*count, out);
                assert(out@ =~= old(out)@ + (varint(2) + varint(*count as nat)));
            },
            Command::EchoMsg { count } => {
                put_varint(3, out);
                put_varint(*count as u32, out);
                assert(out@ =~= old(out)@ + (varint(3) + varint(*count as nat)));
            },
            Command::Data(block) => {
                put_varint(4, out);
                put_block(block, out);
                assert(out@ =~= old(out)@ + (varint(4) + block@));
            },
        }
    }

    fn decode(buf: &[u8], pos: usize) -> (r: Result<(Self, usize), u8>) {
        let (tag, next) = match get_tag(buf, pos) {
            Err(code) => { return Err(code); },
            Ok(found) => found,
        };
        proof {
            lemma_skip_skip(buf@, pos as int, next - pos);
            lemma_limits();
        }
        if tag == 0 {
            Ok((Command::Reset, next))
        } else if tag == 1 {
            Ok((Command::UsbDfu, next))
        } else if tag == 2 {
            match get_varint(buf, next, U32_WIDTH, U32_LAST_MAX) {
                Err(code) => Err(code),
                Ok((count, after)) => Ok((Command::FlashFw { count: count as u32 }, after)),
            }
        } else if tag == 3 {
            match get_varint(buf, next, U16_WIDTH, U16_LAST_MAX) {
                Err(code) => Err(code),
                Ok((count, after)) => Ok((Command::EchoMsg { count: count as u16 }, after)),
            }
        } else if tag == 4 {
            match get_block(buf, next) {
                Err(code) => Err(code),
                Ok((block, after)) => Ok((Command::Data(block), after)),
            }
        } else {
            Err(FAULT_BAD_VALUE)
        }
    }

    proof fn lemma_sizes() {
    }

    proof fn lemma_payload_len(v: Command) {
        lemma_limits();
        lemma_varint_len(0);
        lemma_varint_len(1);
        lemma_varint_len(2);
        lemma_varint_len(3);
        lemma_varint_len(4);
        match v {
            Command::FlashFw { count } => {
                lemma_varint_fits(count as nat, U32_WIDTH as nat, U32_LAST_MAX as nat);
            },
            Command::EchoMsg { count } => {
                lemma_varint_fits(count as nat, U16_WIDTH as nat, U16_LAST_MAX as nat);
            },
            _ => {},
        }
    }

    proof fn lemma_round_trip(v: Command, rest: Seq<u8>) {
        lemma_limits();
        match v {
            Command::Reset => {
                lemma_tag_round_trip(0, rest);
            },
            Command::UsbDfu => {
                lemma_tag_round_trip(1, rest);
            },
            Command::FlashFw { count } => {
                let field = varint(count as nat);
                lemma_tag_round_trip(2, field + rest);
                assert(Self::payload(v) + rest =~= varint(2) + (field + rest));
                lemma_varint_round_trip(count as nat, U32_WIDTH as nat, U32_LAST_MAX as nat, rest);
            },
            Command::EchoMsg { count } => {
                let field = varint(count as nat);
                lemma_tag_round_trip(3, field + rest);
                assert(Self::payload(v) + rest =~= varint(3) + (field + rest));
                lemma_varint_round_trip(count as nat, U16_WIDTH as nat, U16_LAST_MAX as nat, rest);
            },
            Command::Data(block) => {
                lemma_tag_round_trip(4, block@ + rest);
                assert(Self::payload(v) + rest =~= varint(4) + (block@ + rest));
                lemma_block_round_trip(block, rest);
            },
        }
    }
}

/// An answer, device to host.
#[derive(Debug, Clone, Copy, PartialEq, Eq)]
pub enum Response {
    /// The command was carried out.
    Ack(AckType),
    /// The frame was refused.
    Nack(NackType),
    /// Answers `Command::EchoMsg`: `count` bytes follow in `Data` blocks.
    EchoMsg { count: u16 },
    /// One block of a stream that an earlier response announced.
    Data([u8; DATA_COUNT]),
}

impl View for Response {
    type V = Response;

    open spec fn view(&self) -> Response {
        *self
    }
}

impl WireSize for Response {
    const WIRE_MAX_SIZE: usize = 12;

    const CS_MAX_SIZE: usize = 10;

    open spec fn payload_max() -> nat {
        9
    }

    open spec fn payload(v: Response) -> Seq<u8> {
        match v {
            Response::Ack(kind) => varint(0) + AckType::payload(kind),
            Response::Nack(kind) => varint(1) + NackType::payload(kind),
            Response::EchoMsg { count } => varint(2) + varint(count as nat),
            Response::Data(block) => varint(3) + block@,
        }
    }

    open spec fn fits(v: Response) -> bool {
        true
    }

    open spec fn parse(b: Seq<u8>) -> Result<(Response, nat), u8> {
        match take_tag(b) {
            Err(code) => Err(code),
            Ok((tag, used)) => if tag == 0 {
                match AckType::parse(b.skip(used as int)) {
                    Err(code) => Err(code),
                    Ok((kind, more)) => Ok((Response::Ack(kind), used + more)),
                }
            } else if tag == 1 {
                match NackType::parse(b.skip(used as int)) {
                    Err(code) => Err(code),
                    Ok((kind, more)) => Ok((Response::Nack(kind), used + more)),
                }
            } else if tag == 2 {
                match take_varint(b.skip(used as int), U16_WIDTH as nat, U16_LAST_MAX as nat) {
                    Err(code) => Err(code),
                    Ok((count, more)) => Ok(
                        (Response::EchoMsg { count: count as u16 }, used + more),
                    ),
                }
            } else if tag == 3 {
                match take_bytes(b.skip(used as int), DATA_COUNT as nat) {
                    Err(code) => Err(code),
                    Ok((bytes, more)) => Ok((Response::Data(data_block(bytes)), used + more)),
                }
            } else {
                Err(FAULT_BAD_VALUE)
            },
        }
    }

    fn encode(&self, out: &mut Vec<u8>) {
        match self {
            Response::Ack(kind) => {
                put_varint(0, out);
                kind.encode(out);
                assert(out@ =~= old(out)@ + (varint(0) + AckType::payload(*kind)));
            },
            Response::Nack(kind) => {
                put_varint(1, out);
                kind.encode(out);
                assert(out@ =~= old(out)@ + (varint(1) + NackType::payload(*kind)));
            },
            Response::EchoMsg { count } => {
                put_varint(2, out);
                put_varint(*count as u32, out);
                assert(out@ =~= old(out)@ + (varint(2) + varint(*count as nat)));
            },
            Response::Data(block) => {
                put_varint(3, out);
                put_block(block, out);
                assert(out@ =~= old(out)@ + (varint(3) + block@));
            },
        }
    }

    fn decode(buf: &[u8], pos: usize) -> (r: Result<(Self, usize), u8>) {
        let (tag, next) = match get_tag(buf, pos) {
            Err(code) => { return Err(code); },
            Ok(found) => found,
        };
        proof {
            lemma_skip_skip(buf@, pos as int, next - pos);
            lemma_limits();
        }
        if tag == 0 {
            match AckType::decode(buf, next) {
                Err(code) => Err(code),
                Ok((kind, after)) => Ok((Response::Ack(kind), after)),
            }
        } else if tag == 1 {
            match NackType::decode(buf, next) {
                Err(code) => Err(code),
                Ok((kind, after)) => Ok((Response::Nack(kind), after)),
            }
        } else if tag == 2 {
            match get_varint(buf, next, U16_WIDTH, U16_LAST_MAX) {
                Err(code) => Err(code),
                Ok((count, after)) => Ok((Response::EchoMsg { count: count as u16 }, after)),
            }
        } else if tag == 3 {
            match get_block(buf, next) {
                Err(code) => Err(code),
                Ok((block, after)) => Ok((Response::Data(block), after)),
            }
        } else {
            Err(FAULT_BAD_VALUE)
        }
    }

    proof fn lemma_sizes() {
    }

    proof fn lemma_payload_len(v: Response) {
        lemma_limits();
        lemma_varint_len(0);
        lemma_varint_len(1);
        lemma_varint_len(2);
        lemma_varint_len(3);
        match v {
            Response::Ack(kind) => {
                AckType::lemma_payload_len(kind);
            },
            Response::Nack(kind) => {
                NackType::lemma_payload_len(kind);
            },
            Response::EchoMsg { count } => {
                lemma_varint_fits(count as nat, U16_WIDTH as nat, U16_LAST_MAX as nat);
            },
            Response::Data(_) => {},
        }
    }

    proof fn lemma_round_trip(v: Response, rest: Seq<u8>) {
        lemma_limits();
        match v {
            Response::Ack(kind) => {
                let inner = AckType::payload(kind);
                lemma_tag_round_trip(0, inner + rest);
                assert(Self::payload(v) + rest =~= varint(0) + (inner + rest));
                AckType::lemma_round_trip(kind, rest);
            },
            Response::Nack(kind) => {
                let inner = NackType::payload(kind);
                lemma_tag_round_trip(1, inner + rest);
                assert(Self::payload(v) + rest =~= varint(1) + (inner + rest));
                NackType::lemma_round_trip(kind, rest);
            },
            Response::EchoMsg { count } => {
                let field = varint(count as nat);
                lemma_tag_round_trip(2, field + rest);
                assert(Self::payload(v) + rest =~= varint(2) + (field + rest));
                lemma_varint_round_trip(count as nat, U16_WIDTH as nat, U16_LAST_MAX as nat, rest);
            },
            Response::Data(block) => {
                lemma_tag_round_trip(3, block@ + rest);
                assert(Self::payload(v) + rest =~= varint(3) + (block@ + rest));
                lemma_block_round_trip(block, rest);
            },
        }
    }
}

} // verus!
