//! Buffers that outlive a crash: the panic message, and a trace of what
//! the executor did last.

use vstd::prelude::*;

verus! {

/// Bytes of the panic buffer and of the trace buffer.
pub const BUFFER_SIZE: usize = 1024;

/// The byte that marks where the trace ends.
pub const TRACE_END: u8 = 0x40;

/// The buffer that takes the panic message. It fills up once and does not
/// wrap.
pub struct PanicBuffer {
    buf: [u8; BUFFER_SIZE],
    offset: usize,
}

impl View for PanicBuffer {
    type V = Seq<u8>;

    /// The bytes written so far.
    closed spec fn view(&self) -> Seq<u8> {
        self.buf@.take(self.offset as int)
    }
}

impl PanicBuffer {
    #[verifier::type_invariant]
    spec fn well_formed(&self) -> bool {
        self.offset <= BUFFER_SIZE
    }

    pub fn new() -> (buffer: Self)
        ensures
            buffer@ == Seq::<u8>::empty(),
    {
        let buffer = PanicBuffer { buf: [0u8;BUFFER_SIZE], offset: 0 };
        assert(buffer@ =~= Seq::<u8>::empty());
        buffer
    }

    /// Adds `s` if there is room for all of it, and says whether there was.
    pub fn write_str(&mut self, s: &[u8]) -> (written: bool)
        ensures
            written == (old(self)@.len() + s@.len() <= BUFFER_SIZE),
            final(self)@ == if written {
                old(self)@ + s@
            } else {
                old(self)@
            },
    {
        proof {
            use_type_invariant(&*self);
        }
        if s.len() <= BUFFER_SIZE - self.offset {
            let ghost before = self@;
            let start = self.offset;
            let mut buf = self.buf;
            let mut i: usize = 0;
            while i < s.len()
                invariant
                    i <= s.len(),
                    start + s.len() <= BUFFER_SIZE,
                    buf@.take(start + i) == before + s@.take(i as int),
                decreases s.len() - i,
            {
                let ghost held = buf@.take(start + i);
                buf[start + i] = s[i];
                assert(buf@.take(start + i + 1) =~= held.push(s@[i as int]));
                assert(s@.take(i + 1) =~= s@.take(i as int).push(s@[i as int]));
                assert(buf@.take(start + i + 1) =~= before + s@.take(i + 1));
                i += 1;
            }
            assert(s@.take(s.len() as int) =~= s@);
            *self = PanicBuffer { buf, offset: start + s.len() };
            true
        } else {
            false
        }
    }

    /// The bytes written so far.
    pub fn bytes(&self) -> (bytes: &[u8])
        ensures
            bytes@ == self@,
    {
        proof {
            use_type_invariant(self);
        }
        vstd::slice::slice_subrange(self.buf.as_slice(), 0, self.offset)
    }
}

/// The ring with `s` written into it from place `at` on, wrapping at the end.
pub open spec fn ring_put(ring: Seq<u8>, at: int, s: Seq<u8>) -> Seq<u8>
    decreases s.len(),
{
    if s.len() == 0 {
        ring
    } else {
        ring_put(ring.update(at, s[0]), (at + 1) % BUFFER_SIZE as int, s.skip(1))
    }
}

/// The decimal digits of `n`.
pub open spec fn decimal(n: nat) -> Seq<u8>
    decreases n,
{
    if n < 10 {
        seq![(0x30 + n) as u8]
    } else {
        decimal(n / 10).push((0x30 + n % 10) as u8)
    }
}

/// What the executor did.
#[derive(Debug, Clone, Copy, PartialEq, Eq)]
pub enum TraceKind {
    TaskNew,
    TaskExecBegin,
    TaskExecEnd,
    TaskReadyBegin,
    ExecutorIdle,
}

impl TraceKind {
    /// The two letters that stand for the kind in a record.
    pub open spec fn spec_tag(self) -> (u8, u8) {
        match self {
            TraceKind::TaskNew => (0x4eu8, 0x54u8),
            TraceKind::TaskExecBegin => (0x54u8, 0x42u8),
            TraceKind::TaskExecEnd => (0x54u8, 0x45u8),
            TraceKind::TaskReadyBegin => (0x54u8, 0x52u8),
            TraceKind::ExecutorIdle => (0x45u8, 0x49u8),
        }
    }

    #[verifier::when_used_as_spec(spec_tag)]
    pub fn tag(self) -> (tag: (u8, u8))
        ensures
            tag == self.spec_tag(),
    {
        match self {
            TraceKind::TaskNew => (0x4e, 0x54),
            TraceKind::TaskExecBegin => (0x54, 0x42),
            TraceKind::TaskExecEnd => (0x54, 0x45),
            TraceKind::TaskReadyBegin => (0x54, 0x52),
            TraceKind::ExecutorIdle => (0x45, 0x49),
        }
    }
}

/// `{` tag `|exid:`
pub open spec fn record_head(kind: TraceKind) -> Seq<u8> {
    seq![0x7bu8, kind.spec_tag().0, kind.spec_tag().1, 0x7cu8] + seq![
        0x65u8,
        0x78u8,
        0x69u8,
        0x64u8,
        0x3au8,
    ]
}

/// `,tid:`
pub open spec fn record_task() -> Seq<u8> {
    seq![0x2cu8, 0x74u8, 0x69u8, 0x64u8, 0x3au8]
}

/// The text of a trace record, such as `{NT|exid:1,tid:2}` and a line feed.
pub open spec fn record_text(kind: TraceKind, executor_id: u32, task_id: Option<u32>) -> Seq<u8> {
    let task = match task_id {
        Some(id) => record_task() + decimal(id as nat),
        None => Seq::empty(),
    };
    record_head(kind) + decimal(executor_id as nat) + task + seq![0x7du8, 0x0au8]
}

/// Appends the decimal digits of `n`.
pub fn put_decimal(n: u32, out: &mut Vec<u8>)
    ensures
        final(out)@ == old(out)@ + decimal(n as nat),
    decreases n,
{
    if n >= 10 {
        put_decimal(n / 10, out);
    }
    out.push(0x30 + (n % 10) as u8);
    assert(out@ =~= old(out)@ + decimal(n as nat));
}

/// The text of a trace record.
pub fn record_bytes(kind: TraceKind, executor_id: u32, task_id: Option<u32>) -> (text: Vec<u8>)
    ensures
        text@ == record_text(kind, executor_id, task_id),
{
    let tag = kind.tag();
    let mut text: Vec<u8> = Vec::new();
    text.push(0x7b);
    text.push(tag.0);
    text.push(tag.1);
    text.push(0x7c);
    text.push(0x65);
    text.push(0x78);
    text.push(0x69);
    text.push(0x64);
    text.push(0x3a);
    assert(text@ =~= record_head(kind));
    put_decimal(executor_id, &mut text);
    match task_id {
        Some(id) => {
            let ghost before = text@;
            text.push(0x2c);
            text.push(0x74);
            text.push(0x69);
            text.push(0x64);
            text.push(0x3a);
            assert(text@ =~= before + record_task());
            put_decimal(id, &mut text);
            assert(text@ =~= before + (record_task() + decimal(id as nat)));
        },
        None => {
            assert(text@ =~= text@ + Seq::<u8>::empty());
        },
    }
    let ghost body = text@;
    text.push(0x7d);
    text.push(0x0a);
    assert(text@ =~= body + seq![0x7du8, 0x0au8]);
    text
}

/// What the trace buffer holds.
pub struct TraceView {
    /// All bytes of the ring.
    pub ring: Seq<u8>,
    /// Where the next record starts.
    pub offset: nat,
}

impl TraceView {
    /// After `s` was written: it lies in the ring from the old offset on,
    /// and the end mark stands behind it, where the next record will start.
    pub open spec fn written(self, s: Seq<u8>) -> TraceView {
        let end = (self.offset + s.len()) as int % BUFFER_SIZE as int;
        TraceView {
            ring: ring_put(self.ring, self.offset as int, s).update(end, TRACE_END),
            offset: end as nat,
        }
    }
}

/// The ring that takes the trace. It wraps, so that the newest records stay.
pub struct TraceBuffer {
    buf: [u8; BUFFER_SIZE],
    offset: usize,
}

impl View for TraceBuffer {
    type V = TraceView;

    closed spec fn view(&self) -> TraceView {
        TraceView { ring: self.buf@, offset: self.offset as nat }
    }
}

impl TraceBuffer {
    #[verifier::type_invariant]
    spec fn well_formed(&self) -> bool {
        self.offset < BUFFER_SIZE
    }

    pub fn new() -> (trace: Self)
        ensures
            trace@.offset == 0,
            trace@.ring.len() == BUFFER_SIZE,
            forall|i: int| 0 <= i < BUFFER_SIZE ==> #[trigger] trace@.ring[i] == 0,
    {
        TraceBuffer { buf: [0u8;BUFFER_SIZE], offset: 0 }
    }

    /// Writes `s` into the ring and sets the end mark behind it.
    pub fn write_str(&mut self, s: &[u8])
        ensures
            final(self)@ == old(self)@.written(s@),
    {
        proof {
            use_type_invariant(&*self);
        }
        let ghost start = self@;
        let mut buf = self.buf;
        let mut offset = self.offset;
        let mut i: usize = 0;
        assert(s@.skip(0) =~= s@);
        while i < s.len()
            invariant
                i <= s.len(),
                offset < BUFFER_SIZE,
                offset == (start.offset + i) % BUFFER_SIZE as int,
                ring_put(start.ring, start.offset as int, s@) == ring_put(
                    buf@,
                    offset as int,
                    s@.skip(i as int),
                ),
            decreases s.len() - i,
        {
            proof {
                assert(s@.skip(i as int).skip(1) =~= s@.skip(i + 1));
                assert(s@.skip(i as int)[0] == s@[i as int]);
            }
            buf[offset] = s[i];
            offset += 1;
            if offset == BUFFER_SIZE {
                offset = 0;
            }
            i += 1;
        }
        buf[offset] = TRACE_END;
        *self = TraceBuffer { buf, offset };
    }

    /// Writes the record of something the executor did.
    pub fn record(&mut self, kind: TraceKind, executor_id: u32, task_id: Option<u32>)
        ensures
            final(self)@ == old(self)@.written(record_text(kind, executor_id, task_id)),
    {
        let text = record_bytes(kind, executor_id, task_id);
        self.write_str(text.as_slice());
    }

    /// All bytes of the ring.
    pub fn bytes(&self) -> (bytes: &[u8; BUFFER_SIZE])
        ensures
            bytes@ == self@.ring,
    {
        &self.buf
    }
}

} // verus!
