use picodox::errors::ProtoError;
use picodox::key_update::{KeyResponse, KeyUpdate};
use picodox::proto::{AckType, Command, NackType, Response, WireSize, DATA_COUNT};
use picodox::proto_impl::{cs_decode, cs_encode, wire_decode, wire_encode};
use std::fmt::Debug;

/// The host's way to frame a payload, written with the outside crates alone.
fn host_frame(payload: &[u8]) -> Vec<u8> {
    let crc = crc::Crc::<u8>::new(&crc::CRC_8_BLUETOOTH);
    let mut bytes = payload.to_vec();
    let sum = crc.checksum(&bytes);
    bytes.push(sum);
    let mut frame = cobs::encode_vec(&bytes);
    frame.push(0u8);
    frame
}

/// The host's way to take a frame apart, written with the outside crates alone.
fn host_unframe(frame: &[u8]) -> Vec<u8> {
    let mut read_buf = frame.to_vec();
    let end = read_buf.pop().expect("empty frame");
    assert_eq!(end, 0u8);
    let mut decoded = cobs::decode_vec(&read_buf).expect("illegal cobs");
    let actual = decoded.pop().expect("missing crc");
    let crc = crc::Crc::<u8>::new(&crc::CRC_8_BLUETOOTH);
    assert_eq!(crc.checksum(&decoded), actual);
    decoded
}

fn payload_of<T: WireSize>(value: &T) -> Vec<u8> {
    let mut out = Vec::new();
    value.encode(&mut out);
    out
}

fn ser<T: WireSize, const N: usize>(case: usize, value: &T, host_payload: &[u8]) -> Vec<u8> {
    match case {
        0 => host_frame(host_payload),
        1 => wire_encode::<T, N>(value).unwrap(),
        2 => cs_encode::<T, N>(value).unwrap(),
        _ => unreachable!(),
    }
}

fn des<T: WireSize + PartialEq + Debug>(case: usize, mut buffer: Vec<u8>, expect: &T) {
    match case {
        0 => {
            let payload = host_unframe(&buffer);
            let (value, used) = T::decode(&payload, 0).unwrap();
            assert_eq!(used, payload.len());
            assert_eq!(&value, expect);
        }
        1 => {
            let value: T = wire_decode(&mut buffer).unwrap();
            assert_eq!(&value, expect);
        }
        2 => {
            let value: T = cs_decode(&mut buffer).unwrap();
            assert_eq!(&value, expect);
        }
        _ => unreachable!(),
    }
}

fn round_trip<T: WireSize + PartialEq + Debug, const N: usize>(
    ser_idx: usize,
    des_idx: usize,
    cases: &[(T, Vec<u8>)],
) {
    for (case, host_payload) in cases {
        let buffer = ser::<T, N>(ser_idx, case, host_payload);
        assert!(buffer.len() > 0);
        des(des_idx, buffer, case);
    }
}

/// The sample commands, each with the payload that postcard writes for a
/// value of the same shape.
fn command_cases() -> Vec<(Command, Vec<u8>)> {
    vec![
        (
            Command::FlashFw { count: 10 },
            postcard::to_stdvec(&(2u32, 10u32)).unwrap(),
        ),
        (
            Command::Data([0, 0, 3, 4, 5, 6, 0, 0]),
            postcard::to_stdvec(&(4u32, [0u8, 0, 3, 4, 5, 6, 0, 0])).unwrap(),
        ),
        (
            Command::EchoMsg { count: 7 },
            postcard::to_stdvec(&(3u32, 7u16)).unwrap(),
        ),
    ]
}

fn response_cases() -> Vec<(Response, Vec<u8>)> {
    vec![
        (
            Response::EchoMsg { count: 128 },
            postcard::to_stdvec(&(2u32, 128u16)).unwrap(),
        ),
        (
            Response::Data([1, 2, 3, 4, 5, 6, 0, 0]),
            postcard::to_stdvec(&(3u32, [1u8, 2, 3, 4, 5, 6, 0, 0])).unwrap(),
        ),
        (
            Response::Nack(NackType::PacketErr(ProtoError::BufferSize)),
            postcard::to_stdvec(&(1u32, 1u32, 0u32)).unwrap(),
        ),
    ]
}

fn key_cases() -> Vec<(KeyResponse, Vec<u8>)> {
    vec![
        (
            KeyResponse::Response(Response::Ack(AckType::AckReset)),
            postcard::to_stdvec(&(0u32, 0u32, 0u32)).unwrap(),
        ),
        (
            KeyResponse::keys([8u8, 12u8, 1u8]),
            postcard::to_stdvec(&(1u32, vec![8u8, 12u8, 1u8])).unwrap(),
        ),
        (
            KeyResponse::no_keys(),
            postcard::to_stdvec(&(1u32, Vec::<u8>::new())).unwrap(),
        ),
    ]
}

#[test]
fn command_wire_cross() {
    for ser_idx in 0..=1 {
        for des_idx in 0..=1 {
            round_trip::<Command, { Command::WIRE_MAX_SIZE }>(ser_idx, des_idx, &command_cases())
        }
    }
}

#[test]
fn command_cs() {
    round_trip::<Command, { Command::CS_MAX_SIZE }>(2, 2, &command_cases())
}

#[test]
fn response_wire_cross() {
    for ser_idx in 0..=1 {
        for des_idx in 0..=1 {
            round_trip::<Response, { Response::WIRE_MAX_SIZE }>(
                ser_idx,
                des_idx,
                &response_cases(),
            )
        }
    }
}

#[test]
fn response_cs() {
    round_trip::<Response, { Response::CS_MAX_SIZE }>(2, 2, &response_cases())
}

#[test]
fn key_response_cs() {
    round_trip::<KeyResponse, { KeyResponse::CS_MAX_SIZE }>(2, 2, &key_cases())
}

#[test]
fn check_enum_size() {
    let short = Response::EchoMsg { count: 12 };
    let short_bytes = payload_of(&short);
    let long = Response::Data([1u8; DATA_COUNT]);
    let long_bytes = payload_of(&long);
    assert_eq!(short_bytes.len(), 2);
    assert_eq!(long_bytes.len(), 9);
}

#[test]
fn check_vec_size() {
    let mut short_vec = heapless::Vec::new();
    short_vec.push(1u8).unwrap();
    let short_bytes = payload_of(&KeyResponse::KeyUpdate(short_vec));

    let long_arr = [0u8; 10];
    let long_bytes = postcard::to_stdvec(&long_arr).expect("Cannot serialize long vec");

    // One byte for the discriminant, one for the length, and one for the data byte
    assert_eq!(short_bytes.len(), 3);
    assert_eq!(long_bytes.len(), 10);
}

#[test]
fn payloads_match_postcard() {
    for (value, expect) in command_cases() {
        assert_eq!(payload_of(&value), expect);
    }
    for (value, expect) in response_cases() {
        assert_eq!(payload_of(&value), expect);
    }
    for (value, expect) in key_cases() {
        assert_eq!(payload_of(&value), expect);
    }
    assert_eq!(
        payload_of(&Command::FlashFw { count: u32::MAX }),
        postcard::to_stdvec(&(2u32, u32::MAX)).unwrap()
    );
    assert_eq!(
        payload_of(&Command::EchoMsg { count: u16::MAX }),
        postcard::to_stdvec(&(3u32, u16::MAX)).unwrap()
    );
    let update = KeyUpdate::from_slice(&[3, 4, 5]).unwrap();
    assert_eq!(payload_of(&update), postcard::to_stdvec(&vec![3u8, 4, 5]).unwrap());
}

#[test]
fn frames_match_the_host_framing() {
    for (value, payload) in command_cases() {
        let frame = wire_encode::<Command, { Command::WIRE_MAX_SIZE }>(&value).unwrap();
        assert_eq!(frame, host_frame(&payload));
    }
    for (value, payload) in response_cases() {
        let frame = wire_encode::<Response, { Response::WIRE_MAX_SIZE }>(&value).unwrap();
        assert_eq!(frame, host_frame(&payload));
    }
}

#[test]
fn frame_bytes() {
    assert_eq!(
        wire_encode::<Command, 12>(&Command::Reset).unwrap(),
        vec![0x01, 0x01, 0x01, 0x00]
    );
    assert_eq!(cs_encode::<Command, 12>(&Command::Reset).unwrap(), vec![0x00, 0x00]);
    assert_eq!(
        wire_encode::<Command, 12>(&Command::UsbDfu).unwrap(),
        vec![0x03, 0x01, 0x6b, 0x00]
    );
    assert_eq!(
        wire_encode::<Command, 12>(&Command::EchoMsg { count: 3 }).unwrap(),
        vec![0x04, 0x03, 0x03, 0x63, 0x00]
    );
    assert_eq!(
        cs_encode::<Command, 10>(&Command::FlashFw { count: 10 }).unwrap(),
        vec![0x02, 0x0a, 0x8c]
    );
    assert_eq!(
        cs_encode::<Command, 10>(&Command::Data([0, 0, 3, 4, 5, 6, 0, 0])).unwrap(),
        vec![0x04, 0x00, 0x00, 0x03, 0x04, 0x05, 0x06, 0x00, 0x00, 0x56]
    );
    assert_eq!(
        wire_encode::<Command, 12>(&Command::Data([0, 0, 3, 4, 5, 6, 0, 0])).unwrap(),
        vec![0x02, 0x04, 0x01, 0x05, 0x03, 0x04, 0x05, 0x06, 0x01, 0x02, 0x56, 0x00]
    );
    assert_eq!(
        cs_encode::<KeyResponse, 38>(&KeyResponse::keys([8, 12, 1])).unwrap(),
        vec![0x01, 0x03, 0x08, 0x0c, 0x01, 0x7f]
    );
}

#[test]
fn frames_hold_one_zero() {
    for (value, _) in command_cases() {
        let frame = wire_encode::<Command, 12>(&value).unwrap();
        assert_eq!(frame.iter().position(|b| *b == 0), Some(frame.len() - 1));
    }
}

#[test]
fn size_bounds() {
    assert_eq!(picodox::proto::cobs_max_length(0), 0);
    assert_eq!(picodox::proto::cobs_max_length(1), 2);
    assert_eq!(picodox::proto::cobs_max_length(10), 11);
    assert_eq!(picodox::proto::cobs_max_length(254), 255);
    assert_eq!(picodox::proto::cobs_max_length(255), 257);
    assert_eq!(Command::CS_MAX_SIZE, 10);
    assert_eq!(Command::WIRE_MAX_SIZE, 12);
    assert_eq!(Response::CS_MAX_SIZE, 10);
    assert_eq!(Response::WIRE_MAX_SIZE, 12);
    assert_eq!(KeyUpdate::CS_MAX_SIZE, 37);
    assert_eq!(KeyUpdate::WIRE_MAX_SIZE, 39);
    assert_eq!(KeyResponse::CS_MAX_SIZE, 38);
    assert_eq!(KeyResponse::WIRE_MAX_SIZE, 40);
    assert_eq!(ProtoError::CS_MAX_SIZE, 4);
    assert_eq!(NackType::CS_MAX_SIZE, 5);
    assert_eq!(AckType::CS_MAX_SIZE, 2);

    // The longest values stay within the bounds.
    let longest = Command::Data([0xff; 8]);
    assert_eq!(cs_encode::<Command, 10>(&longest).unwrap().len(), 10);
    assert!(wire_encode::<Command, 12>(&longest).unwrap().len() <= 12);
    let full = KeyUpdate::from_slice(&[1u8; 35]).unwrap();
    assert_eq!(cs_encode::<KeyUpdate, 37>(&full).unwrap().len(), 37);
    assert!(wire_encode::<KeyUpdate, 39>(&full).unwrap().len() <= 39);
    let nack = Response::Nack(NackType::PacketErr(ProtoError::CrcMismatch {
        calculated: 0xff,
        actual: 0xfe,
    }));
    assert_eq!(payload_of(&nack).len(), 5);
}

#[test]
fn buffer_bound_too_small() {
    assert_eq!(cs_encode::<Command, 9>(&Command::Reset), Err(ProtoError::BufferSize));
    assert_eq!(wire_encode::<Command, 11>(&Command::Reset), Err(ProtoError::BufferSize));
    assert_eq!(ProtoError::buffer_size(), ProtoError::BufferSize);
    assert!(cs_encode::<Command, 10>(&Command::Reset).is_ok());
    assert!(wire_encode::<Command, 12>(&Command::Reset).is_ok());
}

#[test]
fn decode_faults() {
    // No delimiter at the end, or nothing at all.
    let mut buf = vec![0x01, 0x01, 0x01];
    assert_eq!(wire_decode::<Command>(&mut buf), Err(ProtoError::Invariant { kind: 5 }));
    assert_eq!(buf, vec![0x01, 0x01, 0x01]);
    let mut buf: Vec<u8> = vec![];
    assert_eq!(wire_decode::<Command>(&mut buf), Err(ProtoError::invariant_violation(5)));
    // A broken escape chain.
    let mut buf = vec![0x05, 0x01, 0x00];
    assert_eq!(wire_decode::<Command>(&mut buf), Err(ProtoError::Invariant { kind: 6 }));
    // Nothing left after unescaping.
    let mut buf = vec![0x01, 0x00];
    assert_eq!(wire_decode::<Command>(&mut buf), Err(ProtoError::BadLength { len: 0 }));
    let mut buf: Vec<u8> = vec![];
    assert_eq!(cs_decode::<Command>(&mut buf), Err(ProtoError::bad_length(0)));
    // A wrong checksum.
    let mut buf = vec![0x02, 0x0a, 0x8d];
    assert_eq!(
        cs_decode::<Command>(&mut buf),
        Err(ProtoError::crc_mismatch(0x8c, 0x8d))
    );
    assert_eq!(buf, vec![0x02, 0x0a, 0x8d]);
    // A payload that is no command: the codes are postcard's.
    let mut buf = host_frame(&[0x07]);
    assert_eq!(
        wire_decode::<Command>(&mut buf),
        Err(ProtoError::CodecError(postcard::Error::SerdeDeCustom as u8))
    );
    let mut buf = host_frame(&[0x04, 1, 2, 3]);
    assert_eq!(
        wire_decode::<Command>(&mut buf),
        Err(ProtoError::CodecError(postcard::Error::DeserializeUnexpectedEnd as u8))
    );
    let mut buf = host_frame(&[0x02, 0xff, 0xff, 0xff, 0xff, 0x10]);
    assert_eq!(
        wire_decode::<Command>(&mut buf),
        Err(ProtoError::CodecError(postcard::Error::DeserializeBadVarint as u8))
    );
    let mut buf = host_frame(&[0x03, 0xff, 0xff, 0x04]);
    assert_eq!(
        wire_decode::<Command>(&mut buf),
        Err(ProtoError::CodecError(postcard::Error::DeserializeBadVarint as u8))
    );
}

#[test]
fn bad_length_saturates() {
    assert_eq!(ProtoError::bad_length(7), ProtoError::BadLength { len: 7 });
    assert_eq!(ProtoError::bad_length(255), ProtoError::BadLength { len: 255 });
    assert_eq!(ProtoError::bad_length(256), ProtoError::BadLength { len: 255 });
    assert_eq!(ProtoError::bad_length(usize::MAX), ProtoError::BadLength { len: 255 });
}

#[test]
fn decoding_reads_what_postcard_reads() {
    // Redundant high groups and trailing bytes are accepted alike.
    let (value, used) = Command::decode(&[0x82, 0x00, 0x8a, 0x80, 0x00, 0x55], 0).unwrap();
    assert_eq!(value, Command::FlashFw { count: 10 });
    assert_eq!(used, 5);
    let host: (u32, u32) = postcard::from_bytes(&[0x82, 0x00, 0x8a, 0x80, 0x00, 0x55]).unwrap();
    assert_eq!(host, (2, 10));

    let (value, used) = Command::decode(&[0x02, 0xff, 0xff, 0xff, 0xff, 0x0f], 0).unwrap();
    assert_eq!(value, Command::FlashFw { count: u32::MAX });
    assert_eq!(used, 6);
    let (value, _) = Command::decode(&[0x03, 0xff, 0xff, 0x03], 0).unwrap();
    assert_eq!(value, Command::EchoMsg { count: u16::MAX });
}

#[test]
fn every_record_round_trips() {
    fn both<T: WireSize + PartialEq + Debug, const C: usize, const W: usize>(value: T) {
        let mut cs = cs_encode::<T, C>(&value).unwrap();
        assert!(cs.len() <= T::CS_MAX_SIZE);
        assert_eq!(cs_decode::<T>(&mut cs).as_ref(), Ok(&value));
        let mut wire = wire_encode::<T, W>(&value).unwrap();
        assert!(wire.len() <= T::WIRE_MAX_SIZE);
        assert_eq!(wire_decode::<T>(&mut wire).as_ref(), Ok(&value));
    }
    both::<_, 10, 12>(Command::Reset);
    both::<_, 10, 12>(Command::UsbDfu);
    both::<_, 10, 12>(Command::FlashFw { count: 0 });
    both::<_, 10, 12>(Command::FlashFw { count: 300 });
    both::<_, 10, 12>(Command::FlashFw { count: u32::MAX });
    both::<_, 10, 12>(Command::EchoMsg { count: 127 });
    both::<_, 10, 12>(Command::EchoMsg { count: 128 });
    both::<_, 10, 12>(Command::EchoMsg { count: u16::MAX });
    both::<_, 10, 12>(Command::Data([0; 8]));
    both::<_, 10, 12>(Command::Data([0xff; 8]));
    both::<_, 10, 12>(Response::Ack(AckType::AckReset));
    both::<_, 10, 12>(Response::Ack(AckType::AckUsbDfu));
    both::<_, 10, 12>(Response::Ack(AckType::AckFlashFw));
    both::<_, 10, 12>(Response::Nack(NackType::Unexpected));
    both::<_, 10, 12>(Response::Nack(NackType::BufferOverflow));
    both::<_, 10, 12>(Response::Nack(NackType::PacketErr(ProtoError::BufferSize)));
    both::<_, 10, 12>(Response::Nack(NackType::PacketErr(ProtoError::CodecError(14))));
    both::<_, 10, 12>(Response::Nack(NackType::PacketErr(ProtoError::CrcMismatch {
        calculated: 0,
        actual: 255,
    })));
    both::<_, 10, 12>(Response::Nack(NackType::PacketErr(ProtoError::BadLength { len: 0 })));
    both::<_, 10, 12>(Response::Nack(NackType::PacketErr(ProtoError::Invariant { kind: 6 })));
    both::<_, 10, 12>(Response::EchoMsg { count: 9 });
    both::<_, 10, 12>(Response::Data(*b"ABCDEFGH"));
    both::<_, 37, 39>(KeyUpdate::no_keys());
    both::<_, 37, 39>(KeyUpdate::from_slice(&[0, 34, 7]).unwrap());
    both::<_, 38, 40>(KeyResponse::no_keys());
    both::<_, 38, 40>(KeyResponse::keys([1, 2, 3, 4]));
    both::<_, 38, 40>(KeyResponse::Response(Response::Data([3; 8])));
}

#[test]
fn a_flipped_bit_is_caught() {
    // Every single bit of a checksummed frame.
    let frame = cs_encode::<Command, 10>(&Command::Data(*b"ABCDEFGH")).unwrap();
    for at in 0..frame.len() {
        for bit in 0..8 {
            let mut bad = frame.clone();
            bad[at] ^= 1 << bit;
            let outcome = cs_decode::<Command>(&mut bad);
            assert!(matches!(outcome, Err(ProtoError::CrcMismatch { .. })));
        }
    }
    // In an escaped frame a flipped bit may break the escaping instead; it
    // never goes unnoticed.
    let frame = wire_encode::<Command, 12>(&Command::Data(*b"ABCDEFGH")).unwrap();
    for at in 0..frame.len() - 1 {
        for bit in 0..8 {
            let mut bad = frame.clone();
            bad[at] ^= 1 << bit;
            assert!(wire_decode::<Command>(&mut bad).is_err());
        }
    }
}

#[test]
fn key_updates_are_bounded() {
    assert!(KeyUpdate::from_slice(&[0u8; 35]).is_some());
    assert!(KeyUpdate::from_slice(&[0u8; 36]).is_none());
    assert_eq!(KeyUpdate::from_slice(&[4, 5]).unwrap().locs(), &[4, 5]);
    assert_eq!(KeyUpdate::no_keys().locs(), &[] as &[u8]);
    // A list that claims more keys than there are is refused.
    let mut long = vec![36u8];
    long.extend_from_slice(&[1u8; 36]);
    assert_eq!(
        KeyUpdate::decode(&long, 0).err(),
        Some(postcard::Error::SerdeDeCustom as u8)
    );
    assert_eq!(
        KeyUpdate::decode(&long[..30], 0).err(),
        Some(postcard::Error::DeserializeUnexpectedEnd as u8)
    );
    assert_eq!(
        KeyUpdate::decode(&[3, 1, 2], 0).err(),
        Some(postcard::Error::DeserializeUnexpectedEnd as u8)
    );
}
