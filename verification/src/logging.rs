//! The deferred logger: writers of any context put bytes into a ring, and
//! one task drains it to the log endpoint.

use crate::serial::MAX_PACKET_SIZE;
use vstd::prelude::*;

verus! {

/// Bytes that the log ring holds.
pub const LOG_CAPACITY: usize = 640;

/// The bytes that the log ring holds, oldest first.
pub uninterp spec fn log_bytes(ring: circular_buffer::CircularBuffer<LOG_CAPACITY, u8>) -> Seq<u8>;

/// Calls `CircularBuffer::new`: an empty ring.
#[verifier::external_body]
fn log_new() -> (ring: circular_buffer::CircularBuffer<LOG_CAPACITY, u8>)
    ensures
        log_bytes(ring) == Seq::<u8>::empty(),
{
    circular_buffer::CircularBuffer::new()
}

/// Calls `CircularBuffer::len`: the number of bytes held, never more than
/// the capacity.
#[verifier::external_body]
fn log_len(ring: &circular_buffer::CircularBuffer<LOG_CAPACITY, u8>) -> (n: usize)
    ensures
        n == log_bytes(*ring).len(),
        n <= LOG_CAPACITY,
{
    ring.len()
}

/// Calls `CircularBuffer::extend_from_slice`: the bytes are added at the
/// back, and where that is more than the ring holds, the oldest are dropped.
#[verifier::external_body]
fn log_extend(ring: &mut circular_buffer::CircularBuffer<LOG_CAPACITY, u8>, data: &[u8])
    ensures
        log_bytes(*final(ring)) == newest(log_bytes(*old(ring)) + data@),
{
    ring.extend_from_slice(data)
}

/// Calls `CircularBuffer::drain` on the oldest `count` bytes and collects
/// them in order; the ring keeps the rest. The call panics where the ring
/// holds fewer, so that is ruled out.
#[verifier::external_body]
fn log_drain(ring: &mut circular_buffer::CircularBuffer<LOG_CAPACITY, u8>, count: usize) -> (out:
    Vec<u8>)
    requires
        count <= log_bytes(*old(ring)).len(),
    ensures
        out@ == log_bytes(*old(ring)).take(count as int),
        log_bytes(*final(ring)) == log_bytes(*old(ring)).skip(count as int),
{
    ring.drain(..count).collect()
}

/// The newest bytes of `s` that the ring has room for.
pub open spec fn newest(s: Seq<u8>) -> Seq<u8> {
    if s.len() <= LOG_CAPACITY {
        s
    } else {
        s.skip(s.len() - LOG_CAPACITY)
    }
}

/// Bytes of the next packet to the log endpoint.
pub open spec fn packet_len(held: nat) -> nat {
    if held < MAX_PACKET_SIZE {
        held
    } else {
        MAX_PACKET_SIZE as nat
    }
}

/// The ring between the writers and the drain task.
pub struct LogRing {
    buf: circular_buffer::CircularBuffer<LOG_CAPACITY, u8>,
}

impl View for LogRing {
    type V = Seq<u8>;

    closed spec fn view(&self) -> Seq<u8> {
        log_bytes(self.buf)
    }
}

/// One packet for the log endpoint.
#[derive(Debug, PartialEq, Eq)]
pub struct LogPacket {
    /// The bytes to send; there may be none.
    pub bytes: Vec<u8>,
    /// Send an empty packet after this one, so that the host does not wait
    /// for more: the ring ran empty on a full packet.
    pub flush: bool,
}

impl LogRing {
    pub fn new() -> (ring: Self)
        ensures
            ring@ == Seq::<u8>::empty(),
    {
        LogRing { buf: log_new() }
    }

    /// Bytes held.
    pub fn len(&self) -> (n: usize)
        ensures
            n == self@.len(),
            n <= LOG_CAPACITY,
    {
        log_len(&self.buf)
    }

    /// Puts the bytes of a writer into the ring. Where the ring is full the
    /// oldest bytes make way. Says whether the drain task is to be woken:
    /// it is whenever the ring holds anything.
    pub fn write(&mut self, bytes: &[u8]) -> (wake: bool)
        ensures
            final(self)@ == newest(old(self)@ + bytes@),
            wake == (final(self)@.len() > 0),
    {
        log_extend(&mut self.buf, bytes);
        let fullness = log_len(&self.buf);
        fullness > 0
    }

    /// Takes the oldest bytes out of the ring, at most one packet of them,
    /// in the order in which they were written.
    pub fn take_packet(&mut self) -> (packet: LogPacket)
        ensures
            packet.bytes@ == old(self)@.take(packet_len(old(self)@.len()) as int),
            final(self)@ == old(self)@.skip(packet_len(old(self)@.len()) as int),
            packet.flush == (old(self)@.len() == MAX_PACKET_SIZE),
    {
        let held = log_len(&self.buf);
        let take_count = if held < MAX_PACKET_SIZE {
            held
        } else {
            MAX_PACKET_SIZE
        };
        let is_all = take_count == held;
        let bytes = log_drain(&mut self.buf, take_count);
        let is_empty = log_len(&self.buf) == 0;
        LogPacket { bytes, flush: is_all && take_count == MAX_PACKET_SIZE && is_empty }
    }
}

/// The lock of the logger: one record is written at a time.
#[derive(Debug, Clone, Copy, PartialEq, Eq)]
pub struct Logger {
    pub taken: bool,
}

impl Logger {
    pub fn new() -> (logger: Self)
        ensures
            !logger.taken,
    {
        Logger { taken: false }
    }

    /// A record is being written.
    pub fn is_taken(&self) -> (taken: bool)
        ensures
            taken == self.taken,
    {
        self.taken
    }

    /// Starts a record. A writer that starts one while another is being
    /// written has broken the logger's one rule; that case is ruled out.
    pub fn acquire(&mut self)
        requires
            !old(self).taken,
        ensures
            final(self).taken,
    {
        self.taken = true;
    }

    /// Ends the record.
    pub fn release(&mut self)
        ensures
            !final(self).taken,
    {
        self.taken = false;
    }
}

/// What was written is drained in the order in which it was written: as
/// long as nothing was dropped, a write followed by a drain hands out the
/// oldest bytes and keeps the rest.
pub proof fn lemma_log_fifo(held: Seq<u8>, written: Seq<u8>)
    requires
        held.len() + written.len() <= LOG_CAPACITY,
    ensures
        newest(held + written) == held + written,
        (held + written).take(packet_len((held + written).len()) as int) + (held + written).skip(
            packet_len((held + written).len()) as int,
        ) == held + written,
{
    let all = held + written;
    let n = packet_len(all.len()) as int;
    assert(all.take(n) + all.skip(n) =~= all);
}

} // verus!
