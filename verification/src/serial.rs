//! The command server: frames out of the byte stream of the serial
//! endpoint, and what the device answers to each.

use crate::errors::ProtoError;
use crate::proto::{AckType, Command, NackType, Response, WireSize, DATA_COUNT};
use crate::proto_impl::{delimited, wire_decode, wire_decoded, wire_encode, wire_frame};
use vstd::prelude::*;

verus! {

/// Most bytes that one packet of the serial endpoint carries.
pub const MAX_PACKET_SIZE: usize = 64;

/// Bytes that the receive ring holds.
pub const RING_CAPACITY: usize = 128;

/// Bytes of the longest frame of a response.
pub const REPLY_MAX_SIZE: usize = 12;

/// Makes `circular_buffer::CircularBuffer` known as a type whose inside is
/// not looked at.
#[verifier::external_type_specification]
#[verifier::external_body]
#[verifier::reject_recursive_types(T)]
pub struct ExCircularBuffer<const N: usize, T>(circular_buffer::CircularBuffer<N, T>);

/// The bytes that the receive ring holds, oldest first.
pub uninterp spec fn ring_bytes(ring: circular_buffer::CircularBuffer<RING_CAPACITY, u8>) -> Seq<
    u8,
>;

/// The last `n` of `s`, or all of it where it has no more.
pub open spec fn keep_last(s: Seq<u8>, n: nat) -> Seq<u8> {
    if s.len() <= n {
        s
    } else {
        s.skip(s.len() - n)
    }
}

/// Calls `CircularBuffer::new`: an empty ring.
#[verifier::external_body]
fn ring_new() -> (ring: circular_buffer::CircularBuffer<RING_CAPACITY, u8>)
    ensures
        ring_bytes(ring) == Seq::<u8>::empty(),
{
    circular_buffer::CircularBuffer::new()
}

/// Calls `CircularBuffer::len`: the number of bytes held, never more than
/// the capacity.
#[verifier::external_body]
fn ring_len(ring: &circular_buffer::CircularBuffer<RING_CAPACITY, u8>) -> (n: usize)
    ensures
        n == ring_bytes(*ring).len(),
        n <= RING_CAPACITY,
{
    ring.len()
}

/// Calls `CircularBuffer::extend_from_slice`: the bytes are added at the
/// back, and where that is more than the ring holds, the oldest are dropped.
#[verifier::external_body]
fn ring_extend(ring: &mut circular_buffer::CircularBuffer<RING_CAPACITY, u8>, data: &[u8])
    ensures
        ring_bytes(*final(ring)) == keep_last(ring_bytes(*old(ring)) + data@, RING_CAPACITY as nat),
{
    ring.extend_from_slice(data)
}

/// Calls `CircularBuffer::make_contiguous`: the held bytes as one slice, in
/// order. What is written to the slice is what the ring holds afterwards.
#[verifier::external_body]
fn ring_make_contiguous(ring: &mut circular_buffer::CircularBuffer<RING_CAPACITY, u8>) -> (bytes:
    &mut [u8])
    ensures
        bytes@ == ring_bytes(*old(ring)),
        ring_bytes(*final(ring)) == final(bytes)@,
{
    ring.make_contiguous()
}

/// Calls `CircularBuffer::truncate_front`: only the newest `len` bytes
/// stay; a ring that holds no more than `len` stays as it is.
#[verifier::external_body]
fn ring_truncate_front(ring: &mut circular_buffer::CircularBuffer<RING_CAPACITY, u8>, len: usize)
    ensures
        ring_bytes(*final(ring)) == keep_last(ring_bytes(*old(ring)), len as nat),
{
    ring.truncate_front(len)
}

/// `at` is the place of the first zero byte of `s`.
pub open spec fn is_first_zero(s: Seq<u8>, at: int) -> bool {
    &&& 0 <= at < s.len()
    &&& s[at] == 0
    &&& forall|j: int| 0 <= j < at ==> s[j] != 0
}

/// The place of the first zero byte, or `None` where there is none.
pub open spec fn first_zero(s: Seq<u8>) -> Option<int> {
    if exists|i: int| 0 <= i < s.len() && s[i] == 0 {
        Some(choose|i: int| is_first_zero(s, i))
    } else {
        None
    }
}

/// A zero byte with none before it is the first.
pub proof fn lemma_first_zero(s: Seq<u8>, at: int)
    requires
        is_first_zero(s, at),
    ensures
        first_zero(s) == Some(at),
{
    let found = choose|i: int| is_first_zero(s, i);
    assert(is_first_zero(s, found));
    if found < at {
        assert(s[found] != 0);
    } else if at < found {
        assert(s[at] != 0);
    }
}

fn find_zero(bytes: &[u8]) -> (r: Option<usize>)
    ensures
        match r {
            Some(at) => first_zero(bytes@) == Some(at as int) && is_first_zero(bytes@, at as int),
            None => first_zero(bytes@) is None,
        },
{
    let mut i: usize = 0;
    while i < bytes.len()
        invariant
            i <= bytes.len(),
            forall|j: int| 0 <= j < i ==> bytes@[j] != 0,
        decreases bytes.len() - i,
    {
        if bytes[i] == 0 {
            proof {
                lemma_first_zero(bytes@, i as int);
            }
            return Some(i);
        }
        i += 1;
    }
    None
}

/// Takes frames out of the byte stream.
pub struct Packetizer {
    coms_buf: circular_buffer::CircularBuffer<RING_CAPACITY, u8>,
    lost_bytes: bool,
}

/// What a packetizer holds.
pub struct PacketizerView {
    /// The bytes received and not yet taken, oldest first.
    pub bytes: Seq<u8>,
    /// Bytes of the frame being received were dropped for want of room.
    pub lost: bool,
}

impl View for Packetizer {
    type V = PacketizerView;

    closed spec fn view(&self) -> PacketizerView {
        PacketizerView { bytes: ring_bytes(self.coms_buf), lost: self.lost_bytes }
    }
}

/// What a received frame gives: the command in it, or why there is none.
/// A frame that lost bytes is not looked at.
pub open spec fn frame_outcome(frame: Seq<u8>, lost: bool) -> Result<Command, NackType> {
    if lost {
        Err(NackType::BufferOverflow)
    } else {
        match wire_decoded::<Command>(frame) {
            Ok(command) => Ok(command),
            Err(fault) => Err(NackType::PacketErr(fault)),
        }
    }
}

impl PacketizerView {
    /// Nothing received, nothing lost.
    pub open spec fn clean() -> PacketizerView {
        PacketizerView { bytes: Seq::empty(), lost: false }
    }

    /// After the bytes of one packet came in.
    pub open spec fn fed(self, packet: Seq<u8>) -> PacketizerView {
        PacketizerView {
            bytes: keep_last(self.bytes + packet, RING_CAPACITY as nat),
            lost: self.lost || RING_CAPACITY - self.bytes.len() < packet.len(),
        }
    }

    /// What taking the first frame gives, if a whole one is there.
    pub open spec fn polled(self) -> Option<Result<Command, NackType>> {
        match first_zero(self.bytes) {
            None => None,
            Some(end) => Some(frame_outcome(self.bytes.take(end + 1), self.lost)),
        }
    }

    /// After the first frame was taken, if a whole one was there.
    pub open spec fn after_poll(self) -> PacketizerView {
        match first_zero(self.bytes) {
            None => self,
            Some(end) => PacketizerView { bytes: self.bytes.skip(end + 1), lost: false },
        }
    }
}

impl Packetizer {
    pub fn new() -> (p: Self)
        ensures
            p@.bytes == Seq::<u8>::empty(),
            !p@.lost,
    {
        Packetizer { coms_buf: ring_new(), lost_bytes: false }
    }

    /// Takes in the bytes of one packet. Where they are more than the ring
    /// has room for, the oldest bytes make way and the frame counts as lost.
    pub fn feed(&mut self, packet: &[u8])
        ensures
            final(self)@ == old(self)@.fed(packet@),
            final(self)@.bytes.len() <= RING_CAPACITY,
    {
        let open_cap = RING_CAPACITY - ring_len(&self.coms_buf);
        if open_cap < packet.len() {
            self.lost_bytes = true;
        }
        ring_extend(&mut self.coms_buf, packet);
    }

    /// Takes the first frame out of the ring, if a whole one is there:
    /// everything up to and with the first zero byte. Gives the command in
    /// it, or the reason why the frame is refused. With no zero byte in the
    /// ring nothing changes and more bytes are needed.
    pub fn poll(&mut self) -> (r: Option<Result<Command, NackType>>)
        ensures
            r == old(self)@.polled(),
            final(self)@ == old(self)@.after_poll(),
    {
        let ghost before = self@.bytes;
        let len = ring_len(&self.coms_buf);
        let contig = ring_make_contiguous(&mut self.coms_buf);
        let line_end = match find_zero(contig) {
            None => {
                return None;
            },
            Some(line_end) => line_end,
        };
        if self.lost_bytes {
            ring_truncate_front(&mut self.coms_buf, len - line_end - 1);
            self.lost_bytes = false;
            return Some(Err(NackType::BufferOverflow));
        }
        let (message_buf, rest) = contig.split_at_mut(line_end + 1);
        assert(message_buf@ =~= before.take(line_end + 1));
        let decoded = wire_decode::<Command>(message_buf);
        ring_truncate_front(&mut self.coms_buf, len - line_end - 1);
        assert(self@.bytes =~= before.skip(line_end + 1));
        match decoded {
            Ok(command) => Some(Ok(command)),
            Err(fault) => Some(Err(NackType::PacketErr(fault))),
        }
    }
}

/// A stream that starts with a whole frame is split behind that frame: the
/// frame is looked at alone, and what follows it stays for the next time.
pub proof fn lemma_poll_splits_at_delimiter(frame: Seq<u8>, rest: Seq<u8>, lost: bool)
    requires
        delimited(frame),
    ensures
        (PacketizerView { bytes: frame + rest, lost }).polled() == Some(frame_outcome(frame, lost)),
        (PacketizerView { bytes: frame + rest, lost }).after_poll() == (PacketizerView {
            bytes: rest,
            lost: false,
        }),
{
    let bytes = frame + rest;
    let end = frame.len() - 1;
    assert(is_first_zero(bytes, end)) by {
        assert(bytes[end] == frame[end]);
        assert forall|j: int| 0 <= j < end implies bytes[j] != 0 by {
            assert(bytes[j] == frame[j]);
        }
    }
    lemma_first_zero(bytes, end);
    assert(bytes.take(end + 1) =~= frame);
    assert(bytes.skip(end + 1) =~= rest);
}

/// A frame that fits the ring and comes in while nothing is held is taken
/// whole, and nothing is left behind.
pub proof fn lemma_clean_frame(frame: Seq<u8>)
    requires
        delimited(frame),
        frame.len() <= RING_CAPACITY,
    ensures
        PacketizerView::clean().fed(frame).polled() == Some(frame_outcome(frame, false)),
        PacketizerView::clean().fed(frame).after_poll() == PacketizerView::clean(),
{
    assert(Seq::<u8>::empty() + frame =~= frame);
    assert(frame + Seq::<u8>::empty() =~= frame);
    lemma_poll_splits_at_delimiter(frame, Seq::empty(), false);
}

/// More bytes than the ring holds, with no zero among them, cost the frame
/// that they run into: its delimiter is answered with `BufferOverflow`.
/// After that nothing is held and nothing counts as lost, so the frame that
/// comes next is taken like any other.
pub proof fn lemma_overflow_recovery(garbage: Seq<u8>, swallowed: Seq<u8>, next: Seq<u8>)
    requires
        garbage.len() > RING_CAPACITY,
        forall|i: int| 0 <= i < garbage.len() ==> garbage[i] != 0,
        delimited(swallowed),
        swallowed.len() <= RING_CAPACITY,
        delimited(next),
        next.len() <= RING_CAPACITY,
    ensures
        PacketizerView::clean().fed(garbage).polled() is None,
        PacketizerView::clean().fed(garbage).fed(swallowed).polled() == Some(
            Err::<Command, NackType>(NackType::BufferOverflow),
        ),
        PacketizerView::clean().fed(garbage).fed(swallowed).after_poll() == PacketizerView::clean(),
        PacketizerView::clean().fed(garbage).fed(swallowed).after_poll().fed(next).polled() == Some(
            frame_outcome(next, false),
        ),
{
    let full = PacketizerView::clean().fed(garbage);
    assert(Seq::<u8>::empty() + garbage =~= garbage);
    assert(full.lost);
    assert(full.bytes.len() == RING_CAPACITY);
    assert(forall|i: int| 0 <= i < full.bytes.len() ==> full.bytes[i] != 0);
    let mixed = full.fed(swallowed);
    let joined = full.bytes + swallowed;
    let cut = joined.len() - RING_CAPACITY;
    assert(mixed.bytes == joined.skip(cut));
    let head = mixed.bytes.take(mixed.bytes.len() - swallowed.len());
    assert(mixed.bytes =~= head + swallowed);
    let frame = head + swallowed;
    assert(delimited(frame)) by {
        assert(frame.last() == swallowed.last());
        assert forall|i: int| 0 <= i < frame.len() - 1 implies #[trigger] frame[i] != 0 by {
            if i < head.len() {
                assert(frame[i] == full.bytes[i + cut]);
            } else {
                assert(frame[i] == swallowed[i - head.len()]);
            }
        }
    }
    lemma_poll_splits_at_delimiter(frame, Seq::empty(), true);
    assert(frame + Seq::<u8>::empty() =~= frame);
    lemma_clean_frame(next);
}

/// What a stream of `Data` blocks is for.
#[derive(Debug, Clone, Copy, PartialEq, Eq)]
pub enum Stream {
    /// The blocks are sent back as they come.
    Echo,
    /// The blocks are a firmware image.
    Flash,
}

/// Where the server stands between two frames.
#[derive(Debug, Clone, Copy, PartialEq, Eq)]
pub enum ServerState {
    /// Any command may come.
    Idle,
    /// A command announced a stream; `left` of its frames are still to come.
    Streaming { stream: Stream, left: u32 },
    /// A reset was ordered; nothing is answered any more.
    Halted,
}

/// What the device is to do, in the order given.
#[derive(Debug, Clone, Copy, PartialEq, Eq)]
pub enum Action {
    /// Send this response to the host.
    Send(Response),
    /// Shut the USB device down and wait until it is off the bus.
    Shutdown,
    /// Reset the controller.
    Reset,
    /// Restart into the vendor bootloader.
    Bootloader,
    /// Open a firmware session.
    FlashBegin,
    /// Hand this block to the firmware session.
    FlashWrite([u8; DATA_COUNT]),
    /// Close the firmware session.
    FlashFinish,
}

/// What the receive path hands to the server for one frame.
pub type Event = Result<Command, NackType>;

/// Frames that carry `count` bytes, eight to a frame.
pub open spec fn spec_chunks(count: nat) -> nat {
    (count + 7) / 8
}

/// Frames that carry `count` bytes, eight to a frame.
#[verifier::when_used_as_spec(spec_chunks_u32)]
pub fn chunks(count: u32) -> (n: u32)
    ensures
        n == spec_chunks(count as nat),
{
    count / 8 + if count % 8 != 0 {
        1
    } else {
        0
    }
}

/// The number of frames as a machine integer.
pub open spec fn spec_chunks_u32(count: u32) -> u32 {
    spec_chunks(count as nat) as u32
}

/// What closes a firmware session: the session is closed, then acknowledged.
pub open spec fn flash_done() -> Seq<Action> {
    seq![Action::FlashFinish, Action::Send(Response::Ack(AckType::AckFlashFw))]
}

/// What one frame of a stream is answered with.
pub open spec fn stream_actions(stream: Stream, left: u32, event: Event) -> Seq<Action> {
    let answer = match event {
        Ok(Command::Data(block)) => match stream {
            Stream::Echo => Action::Send(Response::Data(block)),
            Stream::Flash => Action::FlashWrite(block),
        },
        Ok(_) => Action::Send(Response::Nack(NackType::Unexpected)),
        Err(reason) => Action::Send(Response::Nack(reason)),
    };
    if stream == Stream::Flash && left <= 1 {
        seq![answer] + flash_done()
    } else {
        seq![answer]
    }
}

/// What the device does on one frame.
pub open spec fn step_actions(state: ServerState, event: Event) -> Seq<Action> {
    match state {
        ServerState::Halted => Seq::empty(),
        ServerState::Streaming { stream, left } => stream_actions(stream, left, event),
        ServerState::Idle => match event {
            Err(reason) => seq![Action::Send(Response::Nack(reason))],
            Ok(Command::Reset) => seq![
                Action::Send(Response::Ack(AckType::AckReset)),
                Action::Shutdown,
                Action::Reset,
            ],
            Ok(Command::UsbDfu) => seq![
                Action::Send(Response::Ack(AckType::AckUsbDfu)),
                Action::Shutdown,
                Action::Bootloader,
            ],
            Ok(Command::EchoMsg { count }) => seq![Action::Send(Response::EchoMsg { count })],
            Ok(Command::FlashFw { count }) => if count == 0 {
                seq![Action::FlashBegin] + flash_done()
            } else {
                seq![Action::FlashBegin]
            },
            Ok(Command::Data(_)) => seq![Action::Send(Response::Nack(NackType::Unexpected))],
        },
    }
}

/// Where the server stands after one frame.
pub open spec fn step_state(state: ServerState, event: Event) -> ServerState {
    match state {
        ServerState::Halted => ServerState::Halted,
        ServerState::Streaming { stream, left } => if left <= 1 {
            ServerState::Idle
        } else {
            ServerState::Streaming { stream, left: (left - 1) as u32 }
        },
        ServerState::Idle => match event {
            Ok(Command::Reset) => ServerState::Halted,
            Ok(Command::UsbDfu) => ServerState::Halted,
            Ok(Command::EchoMsg { count }) => if count == 0 {
                ServerState::Idle
            } else {
                ServerState::Streaming { stream: Stream::Echo, left: chunks(count as u32) }
            },
            Ok(Command::FlashFw { count }) => if count == 0 {
                ServerState::Idle
            } else {
                ServerState::Streaming { stream: Stream::Flash, left: chunks(count) }
            },
            _ => ServerState::Idle,
        },
    }
}

/// What the device does on a run of frames.
pub open spec fn run_actions(state: ServerState, events: Seq<Event>) -> Seq<Action>
    decreases events.len(),
{
    if events.len() == 0 {
        Seq::empty()
    } else {
        step_actions(state, events[0]) + run_actions(step_state(state, events[0]), events.skip(1))
    }
}

/// Where the server stands after a run of frames.
pub open spec fn run_state(state: ServerState, events: Seq<Event>) -> ServerState
    decreases events.len(),
{
    if events.len() == 0 {
        state
    } else {
        run_state(step_state(state, events[0]), events.skip(1))
    }
}

/// The command server: the receive path and the state between frames.
pub struct SerialIf {
    packet: Packetizer,
    state: ServerState,
}

/// What a command server holds.
pub struct SerialIfView {
    pub packet: PacketizerView,
    pub state: ServerState,
}

impl View for SerialIf {
    type V = SerialIfView;

    closed spec fn view(&self) -> SerialIfView {
        SerialIfView { packet: self.packet@, state: self.state }
    }
}

/// What the server does on one frame, and where it stands afterwards.
pub fn step(state: ServerState, event: Event) -> (r: (ServerState, Vec<Action>))
    ensures
        r.0 == step_state(state, event),
        r.1@ == step_actions(state, event),
{
    let mut actions: Vec<Action> = Vec::new();
    match state {
        ServerState::Halted => (ServerState::Halted, actions),
        ServerState::Streaming { stream, left } => {
            let answer = match event {
                Ok(Command::Data(block)) => match stream {
                    Stream::Echo => Action::Send(Response::Data(block)),
                    Stream::Flash => Action::FlashWrite(block),
                },
                Ok(_) => Action::Send(Response::Nack(NackType::Unexpected)),
                Err(reason) => Action::Send(Response::Nack(reason)),
            };
            actions.push(answer);
            let last = left <= 1;
            if last {
                match stream {
                    Stream::Flash => {
                        actions.push(Action::FlashFinish);
                        actions.push(Action::Send(Response::Ack(AckType::AckFlashFw)));
                    },
                    Stream::Echo => {},
                }
            }
            assert(actions@ =~= stream_actions(stream, left, event));
            if last {
                (ServerState::Idle, actions)
            } else {
                (ServerState::Streaming { stream, left: left - 1 }, actions)
            }
        },
        ServerState::Idle => match event {
            Err(reason) => {
                actions.push(Action::Send(Response::Nack(reason)));
                assert(actions@ =~= step_actions(state, event));
                (ServerState::Idle, actions)
            },
            Ok(Command::Reset) => {
                actions.push(Action::Send(Response::Ack(AckType::AckReset)));
                actions.push(Action::Shutdown);
                actions.push(Action::Reset);
                assert(actions@ =~= step_actions(state, event));
                (ServerState::Halted, actions)
            },
            Ok(Command::UsbDfu) => {
                actions.push(Action::Send(Response::Ack(AckType::AckUsbDfu)));
                actions.push(Action::Shutdown);
                actions.push(Action::Bootloader);
                assert(actions@ =~= step_actions(state, event));
                (ServerState::Halted, actions)
            },
            Ok(Command::EchoMsg { count }) => {
                actions.push(Action::Send(Response::EchoMsg { count }));
                assert(actions@ =~= step_actions(state, event));
                if count == 0 {
                    (ServerState::Idle, actions)
                } else {
                    let left = chunks(count as u32);
                    (ServerState::Streaming { stream: Stream::Echo, left }, actions)
                }
            },
            Ok(Command::FlashFw { count }) => {
                actions.push(Action::FlashBegin);
                if count == 0 {
                    actions.push(Action::FlashFinish);
                    actions.push(Action::Send(Response::Ack(AckType::AckFlashFw)));
                    assert(actions@ =~= step_actions(state, event));
                    (ServerState::Idle, actions)
                } else {
                    assert(actions@ =~= step_actions(state, event));
                    (ServerState::Streaming { stream: Stream::Flash, left: chunks(count) }, actions)
                }
            },
            Ok(Command::Data(_)) => {
                actions.push(Action::Send(Response::Nack(NackType::Unexpected)));
                assert(actions@ =~= step_actions(state, event));
                (ServerState::Idle, actions)
            },
        },
    }
}

/// The frame that carries `response` to the host. The bound is the record
/// type's own, so encoding cannot fail; the three bytes that stand in for a
/// frame that did not encode are never sent.
pub fn reply_frame(response: &Response) -> (frame: Vec<u8>)
    ensures
        frame@ == wire_frame(Response::payload(*response)),
        frame@.len() <= Response::WIRE_MAX_SIZE,
        delimited(frame@),
        wire_decoded::<Response>(frame@) == Ok::<Response, ProtoError>(*response),
{
    proof {
        Response::lemma_sizes();
    }
    match wire_encode::<Response, REPLY_MAX_SIZE>(response) {
        Ok(buf) => buf,
        Err(_) => {
            let mut fallback: Vec<u8> = Vec::new();
            fallback.push(0xBE);
            fallback.push(0xEF);
            fallback.push(0x00);
            fallback
        },
    }
}

impl SerialIf {
    pub fn new() -> (server: Self)
        ensures
            server@.packet == PacketizerView::clean(),
            server@.state == ServerState::Idle,
    {
        SerialIf { packet: Packetizer::new(), state: ServerState::Idle }
    }

    /// Takes in the bytes of one packet of the serial endpoint.
    pub fn feed(&mut self, packet: &[u8])
        ensures
            final(self)@.packet == old(self)@.packet.fed(packet@),
            final(self)@.state == old(self)@.state,
    {
        self.packet.feed(packet);
    }

    /// Serves the first frame that is held, if a whole one is there: what
    /// the device is to do on it. `None` means that more bytes are needed.
    pub fn poll(&mut self) -> (r: Option<Vec<Action>>)
        ensures
            final(self)@.packet == old(self)@.packet.after_poll(),
            match old(self)@.packet.polled() {
                None => r is None && final(self)@.state == old(self)@.state,
                Some(event) => r matches Some(actions) && actions@ == step_actions(
                    old(self)@.state,
                    event,
                ) && final(self)@.state == step_state(old(self)@.state, event),
            },
    {
        match self.packet.poll() {
            None => None,
            Some(event) => {
                let (next, actions) = step(self.state, event);
                self.state = next;
                Some(actions)
            },
        }
    }

    /// Where the server stands.
    pub fn state(&self) -> (state: ServerState)
        ensures
            state == self@.state,
    {
        self.state
    }
}

/// The packets that carry `len` bytes over the endpoint, as where each
/// starts and ends: full packets as long as there are bytes for them, then
/// one with the rest. The last packet is never full, so that the host sees
/// where the transfer ends; it is empty where the bytes fill whole packets.
pub fn packet_spans(len: usize) -> (spans: Vec<(usize, usize)>)
    ensures
        spans@.len() == len / MAX_PACKET_SIZE + 1,
        forall|i: int|
            0 <= i < spans@.len() ==> (#[trigger] spans@[i]).0 == i * MAX_PACKET_SIZE && spans@[i].1
                == if i + 1 < spans@.len() {
                (i + 1) * MAX_PACKET_SIZE
            } else {
                len as int
            },
{
    let full = len / MAX_PACKET_SIZE;
    let mut spans: Vec<(usize, usize)> = Vec::new();
    let mut i: usize = 0;
    while i < full
        invariant
            i <= full,
            full == len / MAX_PACKET_SIZE,
            spans@.len() == i,
            forall|k: int|
                0 <= k < i ==> (#[trigger] spans@[k]).0 == k * MAX_PACKET_SIZE && spans@[k].1 == (k
                    + 1) * MAX_PACKET_SIZE,
        decreases full - i,
    {
        spans.push((i * MAX_PACKET_SIZE, (i + 1) * MAX_PACKET_SIZE));
        i += 1;
    }
    spans.push((full * MAX_PACKET_SIZE, len));
    spans
}

/// The frames of a run of `Data` blocks.
pub open spec fn data_events(blocks: Seq<[u8; DATA_COUNT]>) -> Seq<Event> {
    Seq::new(blocks.len(), |i: int| Ok::<Command, NackType>(Command::Data(blocks[i])))
}

/// The answers that send a run of blocks back.
pub open spec fn data_replies(blocks: Seq<[u8; DATA_COUNT]>) -> Seq<Action> {
    Seq::new(blocks.len(), |i: int| Action::Send(Response::Data(blocks[i])))
}

proof fn lemma_echo_stream(left: u32, blocks: Seq<[u8; DATA_COUNT]>)
    requires
        left == blocks.len(),
        left >= 1,
    ensures
        run_actions(
            ServerState::Streaming { stream: Stream::Echo, left },
            data_events(blocks),
        ) == data_replies(blocks),
        run_state(ServerState::Streaming { stream: Stream::Echo, left }, data_events(blocks))
            == ServerState::Idle,
    decreases blocks.len(),
{
    let state = ServerState::Streaming { stream: Stream::Echo, left };
    let events = data_events(blocks);
    let tail = blocks.skip(1);
    assert(events.skip(1) =~= data_events(tail));
    if left > 1 {
        lemma_echo_stream((left - 1) as u32, tail);
    } else {
        assert(run_actions(ServerState::Idle, data_events(tail)) =~= Seq::<Action>::empty());
        assert(run_state(ServerState::Idle, data_events(tail)) == ServerState::Idle);
    }
    assert(run_actions(state, events) =~= data_replies(blocks));
    assert(run_state(state, events) == run_state(step_state(state, events[0]), events.skip(1)));
}

/// An echo session: the announcement is answered once, then every block
/// comes back as it was sent, in order, and the server is idle again.
pub proof fn lemma_echo_session(count: u16, blocks: Seq<[u8; DATA_COUNT]>)
    requires
        blocks.len() == spec_chunks(count as nat),
    ensures
        run_actions(
            ServerState::Idle,
            seq![Ok::<Command, NackType>(Command::EchoMsg { count })] + data_events(blocks),
        ) == seq![Action::Send(Response::EchoMsg { count })] + data_replies(blocks),
        run_state(
            ServerState::Idle,
            seq![Ok::<Command, NackType>(Command::EchoMsg { count })] + data_events(blocks),
        ) == ServerState::Idle,
{
    let events = seq![Ok::<Command, NackType>(Command::EchoMsg { count })] + data_events(blocks);
    assert(events.skip(1) =~= data_events(blocks));
    let first = Ok::<Command, NackType>(Command::EchoMsg { count });
    assert(events[0] == first);
    assert(run_state(ServerState::Idle, events) == run_state(
        step_state(ServerState::Idle, first),
        events.skip(1),
    ));
    if count == 0 {
        assert(run_actions(ServerState::Idle, data_events(blocks)) =~= Seq::<Action>::empty());
        assert(data_replies(blocks) =~= Seq::<Action>::empty());
        assert(run_state(ServerState::Idle, data_events(blocks)) == ServerState::Idle);
    } else {
        lemma_echo_stream(chunks(count as u32), blocks);
    }
}

} // verus!
