//! Firmware update on the device: the blocks of an image are gathered into
//! flash pages and handed to the writer.

use crate::proto::DATA_COUNT;
use vstd::prelude::*;

verus! {

/// Bytes of one flash page.
pub const FLASH_WRITE_BLOCK: usize = 4096;

/// One page to write, and where.
#[derive(Debug, Clone, Copy, PartialEq, Eq)]
pub struct FirmwareBlock {
    pub data: [u8; FLASH_WRITE_BLOCK],
    pub offset: u32,
}

/// What a session tells the writer.
#[derive(Debug, Clone, Copy, PartialEq, Eq)]
pub enum FirmwareCmd {
    Begin,
    Finish,
    Block(FirmwareBlock),
}

/// What a session holds.
pub struct FirmwareSessionView {
    /// Where the next page goes.
    pub offset: u32,
    /// The bytes gathered for the next page.
    pub pending: Seq<u8>,
}

/// A page's bytes: what was gathered, filled up with zeros.
pub open spec fn page_of(pending: Seq<u8>) -> Seq<u8> {
    Seq::new(
        FLASH_WRITE_BLOCK as nat,
        |i: int|
            if i < pending.len() {
                pending[i]
            } else {
                0u8
            },
    )
}

impl FirmwareSessionView {
    /// The page that is handed over when the gathered bytes are flushed.
    pub open spec fn page(self, block: FirmwareBlock) -> bool {
        block.offset == self.offset && block.data@ == page_of(self.pending)
    }

    /// After the gathered bytes were flushed.
    pub open spec fn flushed(self) -> FirmwareSessionView {
        FirmwareSessionView {
            offset: (self.offset + FLASH_WRITE_BLOCK) as u32,
            pending: Seq::empty(),
        }
    }

    /// The next page still lies within the address range.
    pub open spec fn has_room(self) -> bool {
        self.offset + FLASH_WRITE_BLOCK <= u32::MAX
    }

    /// A whole page is gathered.
    pub open spec fn full(self) -> bool {
        self.pending.len() == FLASH_WRITE_BLOCK
    }

    /// After a block of the image was taken: a full page is flushed first.
    pub open spec fn written(self, data: Seq<u8>) -> FirmwareSessionView {
        if self.full() {
            FirmwareSessionView { offset: self.flushed().offset, pending: data }
        } else {
            FirmwareSessionView { offset: self.offset, pending: self.pending + data }
        }
    }

    /// After the session was closed: what was gathered is flushed, if
    /// anything was.
    pub open spec fn finished(self) -> FirmwareSessionView {
        if self.pending.len() > 0 {
            self.flushed()
        } else {
            self
        }
    }
}

/// The bytes gathered for the next page, in order.
pub uninterp spec fn page_bytes(data: heapless::Vec<u8, FLASH_WRITE_BLOCK>) -> Seq<u8>;

/// Calls `heapless::Vec::new`: a vector that holds nothing.
#[verifier::external_body]
fn page_new() -> (data: heapless::Vec<u8, FLASH_WRITE_BLOCK>)
    ensures
        page_bytes(data) == Seq::<u8>::empty(),
{
    heapless::Vec::new()
}

/// Calls `heapless::Vec::extend_from_slice`: the bytes are added at the
/// back if there is room for all of them; if not, nothing changes and the
/// call fails. It does not panic.
#[verifier::external_body]
fn page_extend(data: &mut heapless::Vec<u8, FLASH_WRITE_BLOCK>, more: &[u8]) -> (r: Result<(), ()>)
    ensures
        match r {
            Ok(_) => page_bytes(*old(data)).len() + more@.len() <= FLASH_WRITE_BLOCK && page_bytes(
                *final(data),
            ) == page_bytes(*old(data)) + more@,
            Err(_) => page_bytes(*old(data)).len() + more@.len() > FLASH_WRITE_BLOCK && page_bytes(
                *final(data),
            ) == page_bytes(*old(data)),
        },
    no_unwind
{
    data.extend_from_slice(more)
}

/// Calls `heapless::Vec::clear`: the vector holds nothing afterwards. It
/// does not panic.
#[verifier::external_body]
fn page_clear(data: &mut heapless::Vec<u8, FLASH_WRITE_BLOCK>)
    ensures
        page_bytes(*final(data)) == Seq::<u8>::empty(),
    no_unwind
{
    data.clear()
}

/// Calls `heapless::Vec::as_slice`: the bytes the vector holds, which are
/// never more than its capacity.
#[verifier::external_body]
fn page_as_slice(data: &heapless::Vec<u8, FLASH_WRITE_BLOCK>) -> (bytes: &[u8])
    ensures
        bytes@ == page_bytes(*data),
        bytes@.len() <= FLASH_WRITE_BLOCK,
{
    data.as_slice()
}

/// One upload in progress.
pub struct FirmwareSession {
    offset: u32,
    data: heapless::Vec<u8, FLASH_WRITE_BLOCK>,
}

impl View for FirmwareSession {
    type V = FirmwareSessionView;

    closed spec fn view(&self) -> FirmwareSessionView {
        FirmwareSessionView { offset: self.offset, pending: page_bytes(self.data) }
    }
}

impl FirmwareSession {
    #[verifier::type_invariant]
    spec fn well_formed(&self) -> bool {
        page_bytes(self.data).len() % DATA_COUNT as nat == 0
    }

    /// A session whose first page goes to `initial_offset`.
    pub fn lock(initial_offset: u32) -> (session: Self)
        ensures
            session@.offset == initial_offset,
            session@.pending == Seq::<u8>::empty(),
    {
        FirmwareSession { offset: initial_offset, data: page_new() }
    }

    /// What opens the session with the writer.
    pub fn begin(&mut self) -> (cmd: FirmwareCmd)
        ensures
            cmd == FirmwareCmd::Begin,
            final(self)@ == old(self)@,
    {
        FirmwareCmd::Begin
    }

    /// The next page can be flushed.
    pub fn has_room(&self) -> (room: bool)
        ensures
            room == self@.has_room(),
    {
        self.offset <= u32::MAX - FLASH_WRITE_BLOCK as u32
    }

    /// Bytes gathered for the next page.
    pub fn pending_len(&self) -> (n: usize)
        ensures
            n == self@.pending.len(),
            n <= FLASH_WRITE_BLOCK,
            n % DATA_COUNT == 0,
    {
        proof {
            use_type_invariant(self);
        }
        page_as_slice(&self.data).len()
    }

    fn write_block(&mut self) -> (block: FirmwareBlock)
        requires
            old(self)@.has_room(),
        ensures
            old(self)@.page(block),
            final(self)@ == old(self)@.flushed(),
    {
        proof {
            use_type_invariant(&*self);
        }
        let mut fixed_size = [0u8;FLASH_WRITE_BLOCK];
        let gathered = page_as_slice(&self.data);
        let mut i: usize = 0;
        while i < gathered.len()
            invariant
                i <= gathered.len() <= FLASH_WRITE_BLOCK,
                forall|k: int| 0 <= k < i ==> #[trigger] fixed_size@[k] == gathered@[k],
                forall|k: int| i <= k < FLASH_WRITE_BLOCK ==> #[trigger] fixed_size@[k] == 0,
            decreases gathered.len() - i,
        {
            fixed_size[i] = gathered[i];
            i += 1;
        }
        let block = FirmwareBlock { data: fixed_size, offset: self.offset };
        assert(block.data@ =~= page_of(self@.pending));
        self.offset += FLASH_WRITE_BLOCK as u32;
        page_clear(&mut self.data);
        block
    }

    /// Closes the session: what was gathered is flushed, if anything was.
    /// The caller then tells the writer `Finish`.
    pub fn finish(&mut self) -> (page: Option<FirmwareBlock>)
        requires
            old(self)@.has_room(),
        ensures
            final(self)@ == old(self)@.finished(),
            match page {
                Some(block) => old(self)@.pending.len() > 0 && old(self)@.page(block),
                None => old(self)@.pending.len() == 0,
            },
    {
        if page_as_slice(&self.data).len() != 0 {
            Some(self.write_block())
        } else {
            None
        }
    }

    /// Takes one block of the image. A full page is flushed first.
    pub fn write(&mut self, data: &[u8; DATA_COUNT]) -> (page: Option<FirmwareBlock>)
        requires
            old(self)@.has_room(),
        ensures
            final(self)@ == old(self)@.written(data@),
            match page {
                Some(block) => old(self)@.full() && old(self)@.page(block),
                None => !old(self)@.full(),
            },
    {
        proof {
            use_type_invariant(&*self);
        }
        let page = if page_as_slice(&self.data).len() == FLASH_WRITE_BLOCK {
            Some(self.write_block())
        } else {
            None
        };
        let ghost before = self@.pending;
        assert(before.len() % 8 == 0 && before.len() < FLASH_WRITE_BLOCK);
        match page_extend(&mut self.data, data.as_slice()) {
            Ok(_) => {},
            Err(_) => vstd::pervasive::unreached(),
        }
        assert(self@.pending =~= before + data@);
        page
    }

    /// Moves on to another place in flash: what was gathered is flushed to
    /// where it belongs, if anything was, and the next page goes to `offset`.
    pub fn set_offset(&mut self, offset: u32) -> (page: Option<FirmwareBlock>)
        requires
            old(self)@.has_room(),
        ensures
            final(self)@.offset == offset,
            final(self)@.pending == Seq::<u8>::empty(),
            match page {
                Some(block) => old(self)@.pending.len() > 0 && old(self)@.page(block),
                None => old(self)@.pending.len() == 0,
            },
    {
        let page = if page_as_slice(&self.data).len() != 0 {
            Some(self.write_block())
        } else {
            None
        };
        proof {
            use_type_invariant(&*self);
        }
        self.offset = offset;
        assert(self@.pending =~= Seq::<u8>::empty());
        page
    }
}

/// What the writer is to do on a command.
#[derive(Debug, Clone, Copy, PartialEq, Eq)]
pub enum WriterOp {
    /// Make the update partition ready.
    Prepare,
    /// Write the page.
    Write(FirmwareBlock),
    /// Mark the image as the one to boot.
    MarkUpdated,
    /// The command has no place here and is only noted.
    Spurious,
}

/// The firmware writer: idle, or in the middle of an update.
#[derive(Debug, Clone, Copy, PartialEq, Eq)]
pub struct FirmwareRecvr {
    pub updating: bool,
}

/// What the writer does on a command.
pub open spec fn writer_op(updating: bool, cmd: FirmwareCmd) -> WriterOp {
    match cmd {
        FirmwareCmd::Begin => if updating {
            WriterOp::Spurious
        } else {
            WriterOp::Prepare
        },
        FirmwareCmd::Finish => if updating {
            WriterOp::MarkUpdated
        } else {
            WriterOp::Spurious
        },
        FirmwareCmd::Block(block) => if updating {
            WriterOp::Write(block)
        } else {
            WriterOp::Spurious
        },
    }
}

/// Whether the writer is in an update after a command.
pub open spec fn writer_updating(updating: bool, cmd: FirmwareCmd) -> bool {
    match cmd {
        FirmwareCmd::Begin => true,
        FirmwareCmd::Finish => false,
        FirmwareCmd::Block(_) => updating,
    }
}

impl FirmwareRecvr {
    pub fn new() -> (writer: Self)
        ensures
            !writer.updating,
    {
        FirmwareRecvr { updating: false }
    }

    /// Takes one command of a session.
    pub fn on_command(&mut self, cmd: FirmwareCmd) -> (op: WriterOp)
        ensures
            op == writer_op(old(self).updating, cmd),
            final(self).updating == writer_updating(old(self).updating, cmd),
    {
        match cmd {
            FirmwareCmd::Begin => {
                if self.updating {
                    WriterOp::Spurious
                } else {
                    self.updating = true;
                    WriterOp::Prepare
                }
            },
            FirmwareCmd::Finish => {
                if self.updating {
                    self.updating = false;
                    WriterOp::MarkUpdated
                } else {
                    WriterOp::Spurious
                }
            },
            FirmwareCmd::Block(block) => {
                if self.updating {
                    WriterOp::Write(block)
                } else {
                    WriterOp::Spurious
                }
            },
        }
    }
}

} // verus!
