//! The host's side of the protocol: what to send for a request, and what to
//! make of the answers.

use crate::proto::{Command, NackType, Response, DATA_COUNT};
use crate::serial::spec_chunks;
use vstd::prelude::*;

verus! {

/// Milliseconds that the host waits for the bootloader to show up.
pub const DFU_TIMEOUT_MS: u64 = 5000;

/// Milliseconds between two looks for the bootloader.
pub const DFU_POLL_MS: u64 = 100;

/// Milliseconds that one read from the serial port may take.
pub const SERIAL_TIMEOUT_MS: u64 = 100;

/// Why a request of the host fails.
#[derive(Debug, Clone, Copy, PartialEq, Eq)]
pub enum HostError {
    /// The message has more bytes than an echo can announce.
    MessageTooLong,
    /// The image has more bytes than an upload can announce.
    FirmwareTooLarge,
    /// The device refused a frame while the echo's announcement was awaited.
    NackForEcho(NackType),
    /// The device refused a frame while a block was awaited.
    NackForData(NackType),
    /// Another response came where the echo's announcement was awaited.
    UnexpectedForEcho(Response),
    /// Another response came where a block was awaited.
    UnexpectedForData(Response),
    /// The bootloader did not show up in time.
    BootloaderTimeout,
}

/// Byte `at` of `bytes`, or zero behind their end.
pub open spec fn byte_or_zero(bytes: Seq<u8>, at: int) -> u8 {
    if 0 <= at < bytes.len() {
        bytes[at]
    } else {
        0
    }
}

/// `blocks` carry `bytes`, eight to a block, the last one filled up with
/// zeros.
pub open spec fn carries(blocks: Seq<[u8; DATA_COUNT]>, bytes: Seq<u8>) -> bool {
    &&& blocks.len() == spec_chunks(bytes.len())
    &&& forall|i: int, j: int|
        0 <= i < blocks.len() && 0 <= j < DATA_COUNT ==> #[trigger] blocks[i]@[j] == byte_or_zero(
            bytes,
            i * DATA_COUNT + j,
        )
}

/// The bytes of a run of blocks, one after the other.
pub open spec fn joined(blocks: Seq<[u8; DATA_COUNT]>) -> Seq<u8> {
    Seq::new(
        blocks.len() * DATA_COUNT as nat,
        |k: int| blocks[k / DATA_COUNT as int]@[k % DATA_COUNT as int],
    )
}

/// Cuts `bytes` into blocks of eight.
pub fn data_blocks(bytes: &[u8]) -> (blocks: Vec<[u8; DATA_COUNT]>)
    ensures
        carries(blocks@, bytes@),
{
    let len = bytes.len();
    let count = len / DATA_COUNT + if len % DATA_COUNT != 0 {
        1
    } else {
        0
    };
    let mut blocks: Vec<[u8; DATA_COUNT]> = Vec::new();
    let mut i: usize = 0;
    while i < count
        invariant
            i <= count,
            len == bytes@.len(),
            count == spec_chunks(len as nat),
            blocks@.len() == i,
            forall|a: int, j: int|
                0 <= a < blocks@.len() && 0 <= j < DATA_COUNT ==> #[trigger] blocks@[a]@[j]
                    == byte_or_zero(bytes@, a * DATA_COUNT + j),
        decreases count - i,
    {
        let start = i * DATA_COUNT;
        let mut data = [0u8;DATA_COUNT];
        let mut j: usize = 0;
        while j < DATA_COUNT
            invariant
                j <= DATA_COUNT,
                start < len,
                len == bytes@.len(),
                forall|k: int|
                    0 <= k < j ==> #[trigger] data@[k] == byte_or_zero(bytes@, start + k),
                forall|k: int| j <= k < DATA_COUNT ==> #[trigger] data@[k] == 0,
            decreases DATA_COUNT - j,
        {
            if j < len - start {
                data[j] = bytes[start + j];
            }
            j += 1;
        }
        let ghost before = blocks@;
        blocks.push(data);
        assert forall|a: int, k: int|
            0 <= a < blocks@.len() && 0 <= k < DATA_COUNT implies #[trigger] blocks@[a]@[k]
            == byte_or_zero(bytes@, a * DATA_COUNT + k) by {
            if a < before.len() {
                assert(blocks@[a] == before[a]);
            }
        }
        i += 1;
    }
    blocks
}

/// The commands of a stream: the announcement, then one `Data` per block.
pub open spec fn stream_commands(head: Command, blocks: Seq<[u8; DATA_COUNT]>) -> Seq<Command> {
    seq![head] + Seq::new(blocks.len(), |i: int| Command::Data(blocks[i]))
}

fn stream_of(head: Command, bytes: &[u8]) -> (r: (Vec<Command>, Ghost<Seq<[u8; DATA_COUNT]>>))
    ensures
        carries(r.1@, bytes@),
        r.0@ == stream_commands(head, r.1@),
{
    let blocks = data_blocks(bytes);
    let mut commands: Vec<Command> = Vec::new();
    commands.push(head);
    let mut i: usize = 0;
    while i < blocks.len()
        invariant
            i <= blocks.len(),
            commands@ == stream_commands(head, blocks@.take(i as int)),
        decreases blocks.len() - i,
    {
        commands.push(Command::Data(blocks[i]));
        assert(commands@ =~= stream_commands(head, blocks@.take(i + 1)));
        i += 1;
    }
    assert(blocks@.take(blocks@.len() as int) =~= blocks@);
    (commands, Ghost(blocks@))
}

/// The commands that ask the device to echo `content`: the announcement of
/// its length, then its bytes in blocks.
pub fn echo_commands(content: &[u8]) -> (r: Result<Vec<Command>, HostError>)
    ensures
        match r {
            Ok(commands) => content@.len() <= u16::MAX && exists|blocks: Seq<[u8; DATA_COUNT]>|
                carries(blocks, content@) && #[trigger] stream_commands(
                    Command::EchoMsg { count: content@.len() as u16 },
                    blocks,
                ) == commands@,
            Err(fault) => content@.len() > u16::MAX && fault == HostError::MessageTooLong,
        },
{
    if content.len() > u16::MAX as usize {
        return Err(HostError::MessageTooLong);
    }
    let (commands, _) = stream_of(Command::EchoMsg { count: content.len() as u16 }, content);
    Ok(commands)
}

/// The commands that upload the image `firmware`: the announcement of its
/// length, then its bytes in blocks.
pub fn flash_commands(firmware: &[u8]) -> (r: Result<Vec<Command>, HostError>)
    ensures
        match r {
            Ok(commands) => firmware@.len() <= u32::MAX && exists|blocks: Seq<[u8; DATA_COUNT]>|
                carries(blocks, firmware@) && #[trigger] stream_commands(
                    Command::FlashFw { count: firmware@.len() as u32 },
                    blocks,
                ) == commands@,
            Err(fault) => firmware@.len() > u32::MAX && fault == HostError::FirmwareTooLarge,
        },
{
    if firmware.len() > u32::MAX as usize {
        return Err(HostError::FirmwareTooLarge);
    }
    let (commands, _) = stream_of(Command::FlashFw { count: firmware.len() as u32 }, firmware);
    Ok(commands)
}

/// How far the answers to an echo have come.
#[derive(Debug, Clone, Copy, PartialEq, Eq)]
pub enum EchoPhase {
    /// The announcement is awaited.
    AwaitHeader,
    /// Blocks are awaited.
    AwaitData,
    /// All bytes are there.
    Done,
}

/// What the receiver of an echo holds.
pub struct EchoView {
    pub phase: EchoPhase,
    /// Bytes that the device announced.
    pub count: nat,
    /// Bytes received so far.
    pub content: Seq<u8>,
}

impl EchoView {
    pub open spec fn start() -> EchoView {
        EchoView { phase: EchoPhase::AwaitHeader, count: 0, content: Seq::empty() }
    }

    pub open spec fn wf(self) -> bool {
        &&& self.count <= u16::MAX
        &&& self.content.len() <= self.count
        &&& self.phase == EchoPhase::AwaitData ==> self.content.len() < self.count
        &&& self.phase == EchoPhase::Done ==> self.content.len() == self.count
    }

    /// After the announcement of `count` bytes.
    pub open spec fn announced(count: u16) -> EchoView {
        EchoView {
            phase: if count == 0 {
                EchoPhase::Done
            } else {
                EchoPhase::AwaitData
            },
            count: count as nat,
            content: Seq::empty(),
        }
    }

    /// After one more block: as many of its bytes as are still missing are
    /// taken.
    pub open spec fn with_block(self, block: [u8; DATA_COUNT]) -> EchoView {
        let missing = self.count - self.content.len();
        let take = if missing < DATA_COUNT {
            missing
        } else {
            DATA_COUNT as int
        };
        let content = self.content + block@.take(take);
        EchoView {
            phase: if content.len() >= self.count {
                EchoPhase::Done
            } else {
                EchoPhase::AwaitData
            },
            count: self.count,
            content,
        }
    }

    /// After one response, or why the echo fails on it.
    pub open spec fn next(self, response: Response) -> Result<EchoView, HostError> {
        match self.phase {
            EchoPhase::AwaitHeader => match response {
                Response::EchoMsg { count } => Ok(EchoView::announced(count)),
                Response::Nack(reason) => Err(HostError::NackForEcho(reason)),
                other => Err(HostError::UnexpectedForEcho(other)),
            },
            EchoPhase::AwaitData => match response {
                Response::Data(block) => Ok(self.with_block(block)),
                Response::Nack(reason) => Err(HostError::NackForData(reason)),
                other => Err(HostError::UnexpectedForData(other)),
            },
            EchoPhase::Done => Ok(self),
        }
    }

    /// After a run of responses, or why the echo fails on one of them.
    pub open spec fn run(self, responses: Seq<Response>) -> Result<EchoView, HostError>
        decreases responses.len(),
    {
        if responses.len() == 0 {
            Ok(self)
        } else {
            match self.next(responses[0]) {
                Ok(then) => then.run(responses.skip(1)),
                Err(fault) => Err(fault),
            }
        }
    }
}

/// Puts the answers to an echo together.
pub struct EchoReceiver {
    phase: EchoPhase,
    count: usize,
    content: Vec<u8>,
}

impl View for EchoReceiver {
    type V = EchoView;

    closed spec fn view(&self) -> EchoView {
        EchoView { phase: self.phase, count: self.count as nat, content: self.content@ }
    }
}

impl EchoReceiver {
    #[verifier::type_invariant]
    spec fn well_formed(&self) -> bool {
        self@.wf()
    }

    pub fn new() -> (receiver: Self)
        ensures
            receiver@ == EchoView::start(),
    {
        EchoReceiver { phase: EchoPhase::AwaitHeader, count: 0, content: Vec::new() }
    }

    /// Takes one response. `Ok(true)` says that all bytes are there.
    pub fn on_response(&mut self, response: Response) -> (r: Result<bool, HostError>)
        ensures
            match old(self)@.next(response) {
                Ok(then) => final(self)@ == then && r == Ok::<bool, HostError>(
                    then.phase == EchoPhase::Done,
                ) && then.wf(),
                Err(fault) => final(self)@ == old(self)@ && r == Err::<bool, HostError>(fault),
            },
    {
        proof {
            use_type_invariant(&*self);
        }
        match self.phase {
            EchoPhase::AwaitHeader => match response {
                Response::EchoMsg { count } => {
                    let phase = if count == 0 {
                        EchoPhase::Done
                    } else {
                        EchoPhase::AwaitData
                    };
                    *self = EchoReceiver { phase, count: count as usize, content: Vec::new() };
                    Ok(count == 0)
                },
                Response::Nack(reason) => Err(HostError::NackForEcho(reason)),
                other => Err(HostError::UnexpectedForEcho(other)),
            },
            EchoPhase::AwaitData => match response {
                Response::Data(block) => {
                    let missing = self.count - self.content.len();
                    let copy_count = if missing < DATA_COUNT {
                        missing
                    } else {
                        DATA_COUNT
                    };
                    let mut content: Vec<u8> = Vec::new();
                    content.extend_from_slice(self.content.as_slice());
                    let mut j: usize = 0;
                    while j < copy_count
                        invariant
                            j <= copy_count <= DATA_COUNT,
                            content@ == self.content@ + block@.take(j as int),
                        decreases copy_count - j,
                    {
                        content.push(block[j]);
                        assert(content@ =~= self.content@ + block@.take(j + 1));
                        j += 1;
                    }
                    let done = content.len() >= self.count;
                    let phase = if done {
                        EchoPhase::Done
                    } else {
                        EchoPhase::AwaitData
                    };
                    *self = EchoReceiver { phase, count: self.count, content };
                    Ok(done)
                },
                Response::Nack(reason) => Err(HostError::NackForData(reason)),
                other => Err(HostError::UnexpectedForData(other)),
            },
            EchoPhase::Done => Ok(true),
        }
    }

    /// The bytes received so far.
    pub fn content(&self) -> (bytes: &[u8])
        ensures
            bytes@ == self@.content,
    {
        self.content.as_slice()
    }
}

/// What the host makes of one look for the bootloader.
#[derive(Debug, Clone, Copy, PartialEq, Eq)]
pub enum DfuPoll {
    /// The bootloader is there.
    Found,
    /// Look again after `DFU_POLL_MS`.
    Wait,
    /// Give up.
    TimedOut,
}

/// What to do `elapsed_ms` after the request, given whether the bootloader
/// was seen: looking ends with the time limit, and only a look made within
/// it counts.
pub fn dfu_poll(elapsed_ms: u64, connected: bool) -> (r: DfuPoll)
    ensures
        r == if elapsed_ms >= DFU_TIMEOUT_MS {
            DfuPoll::TimedOut
        } else if connected {
            DfuPoll::Found
        } else {
            DfuPoll::Wait
        },
{
    if elapsed_ms >= DFU_TIMEOUT_MS {
        DfuPoll::TimedOut
    } else if connected {
        DfuPoll::Found
    } else {
        DfuPoll::Wait
    }
}

/// The responses that send a run of blocks back.
pub open spec fn data_responses(blocks: Seq<[u8; DATA_COUNT]>) -> Seq<Response> {
    Seq::new(blocks.len(), |i: int| Response::Data(blocks[i]))
}

proof fn lemma_echo_blocks(v: EchoView, bytes: Seq<u8>, blocks: Seq<[u8; DATA_COUNT]>, done: int)
    requires
        carries(blocks, bytes),
        bytes.len() <= u16::MAX,
        0 <= done <= blocks.len(),
        v.count == bytes.len(),
        v.content == bytes.take(if done * DATA_COUNT < bytes.len() {
            done * DATA_COUNT
        } else {
            bytes.len() as int
        }),
        v.phase == if done == blocks.len() {
            EchoPhase::Done
        } else {
            EchoPhase::AwaitData
        },
    ensures
        v.run(data_responses(blocks.skip(done))) == Ok::<EchoView, HostError>(
            EchoView { phase: EchoPhase::Done, count: bytes.len(), content: bytes },
        ),
    decreases blocks.len() - done,
{
    let rest = data_responses(blocks.skip(done));
    if done == blocks.len() {
        assert(v.content =~= bytes);
    } else {
        let block = blocks[done];
        assert(rest[0] == Response::Data(block));
        let then = v.with_block(block);
        let have = done * DATA_COUNT;
        let missing = bytes.len() - have;
        let take = if missing < DATA_COUNT {
            missing
        } else {
            DATA_COUNT as int
        };
        assert(block@.take(take) =~= bytes.subrange(have, have + take)) by {
            assert forall|j: int| 0 <= j < take implies block@.take(take)[j] == bytes[have + j] by {
                assert(blocks[done]@[j] == byte_or_zero(bytes, done * DATA_COUNT + j));
            }
        }
        assert(then.content =~= bytes.take(have + take));
        assert(rest.skip(1) =~= data_responses(blocks.skip(done + 1)));
        lemma_echo_blocks(then, bytes, blocks, done + 1);
    }
}

/// The host gets back what it sent: when the device answers an echo of
/// `bytes` with the announcement and then the blocks that carry them, the
/// receiver ends with exactly those bytes.
pub proof fn lemma_echo_reconstructs(bytes: Seq<u8>, blocks: Seq<[u8; DATA_COUNT]>)
    requires
        carries(blocks, bytes),
        bytes.len() <= u16::MAX,
    ensures
        EchoView::start().run(
            seq![Response::EchoMsg { count: bytes.len() as u16 }] + data_responses(blocks),
        ) == Ok::<EchoView, HostError>(
            EchoView { phase: EchoPhase::Done, count: bytes.len(), content: bytes },
        ),
{
    let responses = seq![Response::EchoMsg { count: bytes.len() as u16 }] + data_responses(blocks);
    let after = EchoView::announced(bytes.len() as u16);
    assert(responses.skip(1) =~= data_responses(blocks));
    assert(blocks.skip(0) =~= blocks);
    assert(after.content =~= bytes.take(0));
    lemma_echo_blocks(after, bytes, blocks, 0);
}

} // verus!
