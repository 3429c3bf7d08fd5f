use picodox::errors::ProtoError;
use picodox::host::{
    data_blocks, dfu_poll, echo_commands, flash_commands, DfuPoll, EchoReceiver, HostError,
};
use picodox::proto::{AckType, Command, NackType, Response, WireSize};
use picodox::proto_impl::{wire_decode, wire_encode};
use picodox::serial::{
    chunks, packet_spans, reply_frame, step, Action, Packetizer, SerialIf, ServerState, Stream,
    MAX_PACKET_SIZE, RING_CAPACITY,
};

/// A device on the other end of a byte stream: what it sent and what else
/// it did.
struct Device {
    server: SerialIf,
    sent: Vec<Vec<u8>>,
    done: Vec<Action>,
}

fn device() -> Device {
    Device { server: SerialIf::new(), sent: Vec::new(), done: Vec::new() }
}

fn serve(device: &mut Device) {
    while let Some(actions) = device.server.poll() {
        for action in actions {
            match action {
                Action::Send(response) => device.sent.push(reply_frame(&response)),
                other => device.done.push(other),
            }
        }
    }
}

/// The bytes reach the device in packets of the endpoint's size.
fn receive(device: &mut Device, bytes: &[u8]) {
    for packet in bytes.chunks(MAX_PACKET_SIZE) {
        device.server.feed(packet);
        serve(device);
    }
}

fn frame_of(command: &Command) -> Vec<u8> {
    wire_encode::<Command, { Command::WIRE_MAX_SIZE }>(command).unwrap()
}

fn responses(device: &Device) -> Vec<Response> {
    device
        .sent
        .iter()
        .map(|frame| {
            let mut buf = frame.clone();
            wire_decode::<Response>(&mut buf).unwrap()
        })
        .collect()
}

fn block(text: &[u8]) -> [u8; 8] {
    let mut data = [0u8; 8];
    data[..text.len()].copy_from_slice(text);
    data
}

#[test]
fn echo_short() {
    let commands = echo_commands(b"abc").unwrap();
    assert_eq!(commands, vec![Command::EchoMsg { count: 3 }, Command::Data(block(b"abc"))]);

    let mut device = device();
    for command in &commands {
        receive(&mut device, &frame_of(command));
    }
    assert_eq!(
        responses(&device),
        vec![Response::EchoMsg { count: 3 }, Response::Data(*b"abc\0\0\0\0\0")]
    );
    assert!(device.done.is_empty());
    assert_eq!(device.server.state(), ServerState::Idle);

    let mut receiver = EchoReceiver::new();
    let mut done = false;
    for response in responses(&device) {
        done = receiver.on_response(response).unwrap();
    }
    assert!(done);
    assert_eq!(receiver.content(), b"abc");
}

#[test]
fn echo_spanning_two_chunks() {
    let commands = echo_commands(b"ABCDEFGHI").unwrap();
    assert_eq!(
        commands,
        vec![
            Command::EchoMsg { count: 9 },
            Command::Data(*b"ABCDEFGH"),
            Command::Data(*b"I\0\0\0\0\0\0\0"),
        ]
    );

    let mut device = device();
    let mut stream = Vec::new();
    for command in &commands {
        stream.extend_from_slice(&frame_of(command));
    }
    receive(&mut device, &stream);
    assert_eq!(
        responses(&device),
        vec![
            Response::EchoMsg { count: 9 },
            Response::Data(*b"ABCDEFGH"),
            Response::Data(*b"I\0\0\0\0\0\0\0"),
        ]
    );

    let mut receiver = EchoReceiver::new();
    let answers = responses(&device);
    assert_eq!(receiver.on_response(answers[0]), Ok(false));
    assert_eq!(receiver.on_response(answers[1]), Ok(false));
    assert_eq!(receiver.on_response(answers[2]), Ok(true));
    assert_eq!(receiver.content(), b"ABCDEFGHI");
}

#[test]
fn reset_is_acknowledged_before_the_device_goes_down() {
    let (state, actions) = step(ServerState::Idle, Ok(Command::Reset));
    assert_eq!(
        actions,
        vec![Action::Send(Response::Ack(AckType::AckReset)), Action::Shutdown, Action::Reset]
    );
    assert_eq!(state, ServerState::Halted);

    let mut device = device();
    receive(&mut device, &frame_of(&Command::Reset));
    assert_eq!(device.sent, vec![vec![0x01, 0x01, 0x01, 0x01, 0x00]]);
    assert_eq!(device.done, vec![Action::Shutdown, Action::Reset]);

    // The endpoint stays quiet afterwards.
    receive(&mut device, &frame_of(&Command::EchoMsg { count: 3 }));
    assert_eq!(device.sent.len(), 1);
    assert_eq!(device.server.state(), ServerState::Halted);
}

#[test]
fn bootloader_is_acknowledged_before_the_device_goes_down() {
    let (state, actions) = step(ServerState::Idle, Ok(Command::UsbDfu));
    assert_eq!(
        actions,
        vec![
            Action::Send(Response::Ack(AckType::AckUsbDfu)),
            Action::Shutdown,
            Action::Bootloader
        ]
    );
    assert_eq!(state, ServerState::Halted);
}

#[test]
fn dfu_times_out_after_five_seconds() {
    // A device that never shows up: the host looks every 100 ms.
    let mut elapsed = 0u64;
    let mut looks = 0;
    let outcome = loop {
        match dfu_poll(elapsed, false) {
            DfuPoll::Wait => {
                looks += 1;
                elapsed += 100;
            }
            other => break other,
        }
    };
    assert_eq!(outcome, DfuPoll::TimedOut);
    assert_eq!(elapsed, 5000);
    assert_eq!(looks, 50);

    assert_eq!(dfu_poll(0, true), DfuPoll::Found);
    assert_eq!(dfu_poll(4999, true), DfuPoll::Found);
    assert_eq!(dfu_poll(4999, false), DfuPoll::Wait);
    assert_eq!(dfu_poll(5000, true), DfuPoll::TimedOut);
}

#[test]
fn garbage_then_frame() {
    // The garbage ends with a delimiter of its own: the frame after it is served.
    let mut device = device();
    let garbage = vec![0xFFu8; 2 * MAX_PACKET_SIZE + 1];
    receive(&mut device, &garbage);
    assert!(device.sent.is_empty());
    receive(&mut device, &[0x00]);
    assert_eq!(responses(&device), vec![Response::Nack(NackType::BufferOverflow)]);
    receive(&mut device, &frame_of(&Command::Reset));
    assert_eq!(
        responses(&device),
        vec![Response::Nack(NackType::BufferOverflow), Response::Ack(AckType::AckReset)]
    );
}

#[test]
fn garbage_swallows_the_frame_it_runs_into() {
    // With no delimiter between them the frame ends the garbage and is lost with it.
    let mut device = device();
    let mut stream = vec![0xFFu8; 2 * MAX_PACKET_SIZE + 1];
    stream.extend_from_slice(&frame_of(&Command::Reset));
    receive(&mut device, &stream);
    assert_eq!(responses(&device), vec![Response::Nack(NackType::BufferOverflow)]);
    assert!(device.done.is_empty());

    // The next frame is served like any other.
    receive(&mut device, &frame_of(&Command::Reset));
    assert_eq!(
        responses(&device),
        vec![Response::Nack(NackType::BufferOverflow), Response::Ack(AckType::AckReset)]
    );
}

#[test]
fn overflow_nack_frame_bytes() {
    assert_eq!(
        reply_frame(&Response::Nack(NackType::BufferOverflow)),
        vec![0x04, 0x01, 0x02, 0x9c, 0x00]
    );
}

#[test]
fn frames_split_at_delimiters() {
    // Two frames in one packet, then a frame that arrives byte by byte.
    let mut p = Packetizer::new();
    let mut stream = frame_of(&Command::EchoMsg { count: 3 });
    stream.extend_from_slice(&frame_of(&Command::UsbDfu));
    p.feed(&stream);
    assert_eq!(p.poll(), Some(Ok(Command::EchoMsg { count: 3 })));
    assert_eq!(p.poll(), Some(Ok(Command::UsbDfu)));
    assert_eq!(p.poll(), None);

    let frame = frame_of(&Command::Data(*b"12345678"));
    for (at, byte) in frame.iter().enumerate() {
        p.feed(&[*byte]);
        if at + 1 < frame.len() {
            assert_eq!(p.poll(), None);
        }
    }
    assert_eq!(p.poll(), Some(Ok(Command::Data(*b"12345678"))));
    assert_eq!(p.poll(), None);
}

#[test]
fn garbage_between_frames_costs_one_nack() {
    let mut p = Packetizer::new();
    let mut stream = frame_of(&Command::Reset);
    stream.extend_from_slice(&[0x11, 0x22, 0x33, 0x00]);
    stream.extend_from_slice(&frame_of(&Command::UsbDfu));
    p.feed(&stream);
    assert_eq!(p.poll(), Some(Ok(Command::Reset)));
    assert!(matches!(p.poll(), Some(Err(NackType::PacketErr(_)))));
    assert_eq!(p.poll(), Some(Ok(Command::UsbDfu)));
    assert_eq!(p.poll(), None);
}

#[test]
fn ring_keeps_the_newest_bytes() {
    // 130 bytes into a ring of 128: the two oldest make way.
    let mut p = Packetizer::new();
    let mut bytes = vec![0x55u8; RING_CAPACITY + 2];
    bytes[0] = 0x00;
    bytes[1] = 0x00;
    p.feed(&bytes[..MAX_PACKET_SIZE]);
    // The two zeros are still there.
    assert!(matches!(p.poll(), Some(Err(NackType::PacketErr(_)))));
    assert!(matches!(p.poll(), Some(Err(NackType::PacketErr(_)))));
    assert_eq!(p.poll(), None);

    let mut q = Packetizer::new();
    q.feed(&bytes[..MAX_PACKET_SIZE]);
    q.feed(&bytes[MAX_PACKET_SIZE..2 * MAX_PACKET_SIZE]);
    q.feed(&bytes[2 * MAX_PACKET_SIZE..]);
    // The zeros were dropped with the oldest bytes: no frame ends.
    assert_eq!(q.poll(), None);
    q.feed(&[0x00]);
    assert_eq!(q.poll(), Some(Err(NackType::BufferOverflow)));
    assert_eq!(q.poll(), None);
}

#[test]
fn a_frame_that_fills_the_ring_is_not_lost() {
    let mut p = Packetizer::new();
    let mut bytes = vec![0x55u8; RING_CAPACITY];
    bytes[RING_CAPACITY - 1] = 0x00;
    p.feed(&bytes[..MAX_PACKET_SIZE]);
    p.feed(&bytes[MAX_PACKET_SIZE..]);
    assert_eq!(p.poll(), Some(Err(NackType::PacketErr(ProtoError::Invariant { kind: 6 }))));
    // One byte more and the frame counts as lost.
    let mut q = Packetizer::new();
    q.feed(&[0x55]);
    q.feed(&bytes[..MAX_PACKET_SIZE]);
    q.feed(&bytes[MAX_PACKET_SIZE..]);
    assert_eq!(q.poll(), Some(Err(NackType::BufferOverflow)));
}

#[test]
fn packet_faults_are_reported() {
    let cases: Vec<(Vec<u8>, ProtoError)> = vec![
        (vec![0x00], ProtoError::Invariant { kind: 6 }),
        (vec![0x01, 0x00], ProtoError::BadLength { len: 0 }),
        (vec![0x05, 0x01, 0x00], ProtoError::Invariant { kind: 6 }),
        (vec![0x01, 0x01, 0x00], ProtoError::CodecError(4)),
        (vec![0x02, 0x09, 0x00], ProtoError::CrcMismatch { calculated: 0, actual: 9 }),
    ];
    for (bytes, fault) in cases {
        let mut device = device();
        receive(&mut device, &bytes);
        assert_eq!(responses(&device), vec![Response::Nack(NackType::PacketErr(fault))]);
        assert_eq!(device.server.state(), ServerState::Idle);
    }
}

#[test]
fn data_without_announcement_is_unexpected() {
    let mut device = device();
    receive(&mut device, &frame_of(&Command::Data([1; 8])));
    assert_eq!(responses(&device), vec![Response::Nack(NackType::Unexpected)]);
}

#[test]
fn echo_session_counts_frames() {
    // 17 bytes are three frames; a frame that is no block uses one up.
    let (state, actions) = step(ServerState::Idle, Ok(Command::EchoMsg { count: 17 }));
    assert_eq!(actions, vec![Action::Send(Response::EchoMsg { count: 17 })]);
    assert_eq!(state, ServerState::Streaming { stream: Stream::Echo, left: 3 });

    let (state, actions) = step(state, Ok(Command::Data([7; 8])));
    assert_eq!(actions, vec![Action::Send(Response::Data([7; 8]))]);
    assert_eq!(state, ServerState::Streaming { stream: Stream::Echo, left: 2 });

    let (state, actions) = step(state, Ok(Command::Reset));
    assert_eq!(actions, vec![Action::Send(Response::Nack(NackType::Unexpected))]);
    assert_eq!(state, ServerState::Streaming { stream: Stream::Echo, left: 1 });

    let (state, actions) = step(state, Err(NackType::BufferOverflow));
    assert_eq!(actions, vec![Action::Send(Response::Nack(NackType::BufferOverflow))]);
    assert_eq!(state, ServerState::Idle);
}

#[test]
fn echo_of_nothing_has_no_blocks() {
    let (state, actions) = step(ServerState::Idle, Ok(Command::EchoMsg { count: 0 }));
    assert_eq!(actions, vec![Action::Send(Response::EchoMsg { count: 0 })]);
    assert_eq!(state, ServerState::Idle);
    assert_eq!(echo_commands(b"").unwrap(), vec![Command::EchoMsg { count: 0 }]);
    let mut receiver = EchoReceiver::new();
    assert_eq!(receiver.on_response(Response::EchoMsg { count: 0 }), Ok(true));
    assert_eq!(receiver.content(), b"");
}

#[test]
fn flash_session_hands_blocks_to_the_writer() {
    let commands = flash_commands(&[9u8; 12]).unwrap();
    assert_eq!(
        commands,
        vec![
            Command::FlashFw { count: 12 },
            Command::Data([9; 8]),
            Command::Data([9, 9, 9, 9, 0, 0, 0, 0]),
        ]
    );
    let mut device = device();
    for command in &commands {
        receive(&mut device, &frame_of(command));
    }
    assert_eq!(
        device.done,
        vec![
            Action::FlashBegin,
            Action::FlashWrite([9; 8]),
            Action::FlashWrite([9, 9, 9, 9, 0, 0, 0, 0]),
            Action::FlashFinish,
        ]
    );
    assert_eq!(responses(&device), vec![Response::Ack(AckType::AckFlashFw)]);
    assert_eq!(device.server.state(), ServerState::Idle);

    let (state, actions) = step(ServerState::Idle, Ok(Command::FlashFw { count: 0 }));
    assert_eq!(
        actions,
        vec![
            Action::FlashBegin,
            Action::FlashFinish,
            Action::Send(Response::Ack(AckType::AckFlashFw))
        ]
    );
    assert_eq!(state, ServerState::Idle);
}

#[test]
fn chunk_counts() {
    assert_eq!(chunks(0), 0);
    assert_eq!(chunks(1), 1);
    assert_eq!(chunks(8), 1);
    assert_eq!(chunks(9), 2);
    assert_eq!(chunks(16), 2);
    assert_eq!(chunks(u32::MAX), 536_870_912);
    assert_eq!(data_blocks(b"").len(), 0);
    assert_eq!(data_blocks(b"12345678"), vec![*b"12345678"]);
    assert_eq!(data_blocks(b"123456789"), vec![*b"12345678", *b"9\0\0\0\0\0\0\0"]);
}

#[test]
fn host_faults() {
    let long = vec![b'x'; 65536];
    assert_eq!(echo_commands(&long), Err(HostError::MessageTooLong));
    assert_eq!(echo_commands(&long[..65535]).unwrap().len(), 1 + 8192);

    let mut receiver = EchoReceiver::new();
    assert_eq!(
        receiver.on_response(Response::Nack(NackType::Unexpected)),
        Err(HostError::NackForEcho(NackType::Unexpected))
    );
    assert_eq!(
        receiver.on_response(Response::Data([0; 8])),
        Err(HostError::UnexpectedForEcho(Response::Data([0; 8])))
    );
    assert_eq!(receiver.on_response(Response::EchoMsg { count: 10 }), Ok(false));
    assert_eq!(
        receiver.on_response(Response::Nack(NackType::BufferOverflow)),
        Err(HostError::NackForData(NackType::BufferOverflow))
    );
    assert_eq!(
        receiver.on_response(Response::Ack(AckType::AckReset)),
        Err(HostError::UnexpectedForData(Response::Ack(AckType::AckReset)))
    );
    assert_eq!(receiver.on_response(Response::Data(*b"01234567")), Ok(false));
    assert_eq!(receiver.on_response(Response::Data(*b"89abcdef")), Ok(true));
    assert_eq!(receiver.content(), b"0123456789");
}

#[test]
fn packets_end_with_a_short_one() {
    assert_eq!(packet_spans(0), vec![(0, 0)]);
    assert_eq!(packet_spans(5), vec![(0, 5)]);
    assert_eq!(packet_spans(63), vec![(0, 63)]);
    assert_eq!(packet_spans(64), vec![(0, 64), (64, 64)]);
    assert_eq!(packet_spans(130), vec![(0, 64), (64, 128), (128, 130)]);
}
