//! The firmware container: 512-byte blocks, each naming where in flash its
//! payload belongs.

use vstd::bytes::{
    lemma_auto_spec_u32_to_from_le_bytes, spec_u32_from_le_bytes, spec_u32_to_le_bytes,
    u32_from_le_bytes, u32_to_le_bytes,
};
use vstd::prelude::*;
use vstd::slice::slice_subrange;

verus! {

/// The first magic number of a block, as its bytes.
pub const UF2_MAGIC_START0: [u8; 4] = [0x55, 0x46, 0x32, 0x0A];

/// The second magic number of a block, as its bytes.
pub const UF2_MAGIC_START1: [u8; 4] = [0x57, 0x51, 0x5D, 0x9E];

/// The closing magic number of a block, as its bytes.
pub const UF2_MAGIC_END: [u8; 4] = [0x30, 0x6F, 0xB1, 0x0A];

/// Bytes of the payload region of a block.
pub const UF2_PAYLOAD_LEN: usize = 476;

/// Bytes of a block.
pub const UF2_BLOCK_LEN: usize = 512;

/// Flag bit: the block is not meant for main flash.
pub const FLAG_NOT_MAIN_FLASH: u32 = 0x0000_0001;

/// Flag bit: the block belongs to a file container.
pub const FLAG_FILE_CONTAINER: u32 = 0x0000_1000;

/// Flag bit: the extra word is a family id.
pub const FLAG_FAMILY_ID_PRES: u32 = 0x0000_2000;

/// Flag bit: the payload region ends in a checksum.
pub const FLAG_CHECKSUM_PRES: u32 = 0x0000_4000;

/// Flag bit: extension tags follow the payload.
pub const FLAG_EXT_TAGS_PRES: u32 = 0x0000_8000;

/// Every flag bit that has a meaning.
pub const FLAG_ALL: u32 = 0x0000_F001;

/// The flag word holds no bit without a meaning.
pub open spec fn flags_known(bits: u32) -> bool {
    bits & !FLAG_ALL == 0
}

/// The flags of a block.
#[derive(Debug, Clone, Copy, PartialEq, Eq)]
pub struct Uf2Flags {
    bits: u32,
}

impl View for Uf2Flags {
    type V = u32;

    closed spec fn view(&self) -> u32 {
        self.bits
    }
}

impl Uf2Flags {
    #[verifier::type_invariant]
    spec fn known(&self) -> bool {
        flags_known(self.bits)
    }

    /// The flags of a flag word, or `None` where it holds an unknown bit.
    pub fn from_bits(bits: u32) -> (r: Option<Self>)
        ensures
            match r {
                Some(flags) => flags_known(bits) && flags@ == bits,
                None => !flags_known(bits),
            },
    {
        if bits & !FLAG_ALL == 0 {
            Some(Uf2Flags { bits })
        } else {
            None
        }
    }

    /// No flag is set.
    pub fn empty() -> (flags: Self)
        ensures
            flags@ == 0,
    {
        assert(flags_known(0)) by (bit_vector);
        Uf2Flags { bits: 0 }
    }

    /// Only the flag for blocks outside main flash is set.
    pub fn not_main_flash() -> (flags: Self)
        ensures
            flags@ == FLAG_NOT_MAIN_FLASH,
    {
        assert(flags_known(FLAG_NOT_MAIN_FLASH)) by (bit_vector);
        Uf2Flags { bits: FLAG_NOT_MAIN_FLASH }
    }

    /// The flag word.
    pub fn bits(&self) -> (bits: u32)
        ensures
            bits == self@,
            flags_known(bits),
    {
        proof {
            use_type_invariant(self);
        }
        self.bits
    }

    /// Every flag of `other` is set in `self`.
    pub fn contains(&self, other: Uf2Flags) -> (r: bool)
        ensures
            r == (self@ & other@ == other@),
    {
        self.bits & other.bits == other.bits
    }
}

/// Why a container is refused.
#[derive(Debug, Clone, Copy, PartialEq, Eq)]
pub enum Uf2Error {
    /// The length is no multiple of the block length.
    BadLength { len: usize },
    /// The first word of a block is not the first magic number.
    BadMagic0 { found: [u8; 4] },
    /// The second word of a block is not the second magic number.
    BadMagic1 { found: [u8; 4] },
    /// The last word of a block is not the closing magic number.
    BadMagic2 { found: [u8; 4] },
    /// The flag word holds an unknown bit.
    BadFlags { bits: u32 },
    /// The payload size is more than the payload region.
    BadPayloadSize { size: u32 },
}

/// What a block holds.
pub struct Uf2BlockView {
    pub flags: u32,
    pub target_addr: u32,
    pub payload_size: u32,
    pub block_num: u32,
    pub num_blocks: u32,
    pub extra_data: u32,
    /// The whole payload region, used or not.
    pub payload: Seq<u8>,
}

impl Uf2BlockView {
    /// Holds of every block.
    pub open spec fn wf(self) -> bool {
        &&& self.payload.len() == UF2_PAYLOAD_LEN
        &&& self.payload_size <= UF2_PAYLOAD_LEN
        &&& flags_known(self.flags)
    }

    /// The block is meant for main flash.
    pub open spec fn main_flash(self) -> bool {
        self.flags & FLAG_NOT_MAIN_FLASH != FLAG_NOT_MAIN_FLASH
    }

    /// The address after the last payload byte.
    pub open spec fn end_addr(self) -> int {
        self.target_addr + self.payload_size
    }

    /// The 512 bytes of the block.
    pub open spec fn bytes(self) -> Seq<u8> {
        UF2_MAGIC_START0@ + UF2_MAGIC_START1@ + spec_u32_to_le_bytes(self.flags)
            + spec_u32_to_le_bytes(self.target_addr) + spec_u32_to_le_bytes(self.payload_size)
            + spec_u32_to_le_bytes(self.block_num) + spec_u32_to_le_bytes(self.num_blocks)
            + spec_u32_to_le_bytes(self.extra_data) + self.payload + UF2_MAGIC_END@
    }
}

/// The four bytes at `at`.
pub open spec fn word_at(chunk: Seq<u8>, at: int) -> [u8; 4] {
    [chunk[at], chunk[at + 1], chunk[at + 2], chunk[at + 3]]
}

/// The little-endian number at `at`.
pub open spec fn u32_at(chunk: Seq<u8>, at: int) -> u32 {
    spec_u32_from_le_bytes(chunk.subrange(at, at + 4))
}

/// What the 512 bytes of a block say it holds.
pub open spec fn block_view(chunk: Seq<u8>) -> Uf2BlockView {
    Uf2BlockView {
        flags: u32_at(chunk, 8),
        target_addr: u32_at(chunk, 12),
        payload_size: u32_at(chunk, 16),
        block_num: u32_at(chunk, 20),
        num_blocks: u32_at(chunk, 24),
        extra_data: u32_at(chunk, 28),
        payload: chunk.subrange(32, 508),
    }
}

/// The first fault of a block, in the order in which a block is examined.
pub open spec fn block_fault(chunk: Seq<u8>) -> Option<Uf2Error> {
    if word_at(chunk, 0) != UF2_MAGIC_START0 {
        Some(Uf2Error::BadMagic0 { found: word_at(chunk, 0) })
    } else if word_at(chunk, 4) != UF2_MAGIC_START1 {
        Some(Uf2Error::BadMagic1 { found: word_at(chunk, 4) })
    } else if word_at(chunk, 508) != UF2_MAGIC_END {
        Some(Uf2Error::BadMagic2 { found: word_at(chunk, 508) })
    } else if !flags_known(u32_at(chunk, 8)) {
        Some(Uf2Error::BadFlags { bits: u32_at(chunk, 8) })
    } else if u32_at(chunk, 16) > UF2_PAYLOAD_LEN {
        Some(Uf2Error::BadPayloadSize { size: u32_at(chunk, 16) })
    } else {
        None
    }
}

/// The bytes of block `index` of a container.
pub open spec fn chunk_of(data: Seq<u8>, index: int) -> Seq<u8> {
    data.subrange(index * UF2_BLOCK_LEN, (index + 1) * UF2_BLOCK_LEN)
}

/// The first fault among the blocks from `from` on.
pub open spec fn first_fault(data: Seq<u8>, from: nat) -> Option<Uf2Error>
    decreases data.len() - from * UF2_BLOCK_LEN,
{
    if (from + 1) * UF2_BLOCK_LEN > data.len() {
        None
    } else {
        match block_fault(chunk_of(data, from as int)) {
            Some(fault) => Some(fault),
            None => first_fault(data, from + 1),
        }
    }
}

/// Why a container is refused, or `None` where it is not.
pub open spec fn container_fault(data: Seq<u8>) -> Option<Uf2Error> {
    if data.len() % UF2_BLOCK_LEN as nat != 0 {
        Some(Uf2Error::BadLength { len: data.len() as usize })
    } else {
        first_fault(data, 0)
    }
}

/// One block of a firmware container.
#[derive(Debug)]
pub struct Uf2Block {
    magic0: [u8; 4],
    magic1: [u8; 4],
    flags_data: u32,
    target_addr: u32,
    payload_size: u32,
    block_num: u32,
    num_blocks: u32,
    extra_data: u32,
    payload: [u8; UF2_PAYLOAD_LEN],
    magic2: [u8; 4],
}

impl View for Uf2Block {
    type V = Uf2BlockView;

    closed spec fn view(&self) -> Uf2BlockView {
        Uf2BlockView {
            flags: self.flags_data,
            target_addr: self.target_addr,
            payload_size: self.payload_size,
            block_num: self.block_num,
            num_blocks: self.num_blocks,
            extra_data: self.extra_data,
            payload: self.payload@,
        }
    }
}

fn read_word(chunk: &[u8], at: usize) -> (word: [u8; 4])
    requires
        at + 4 <= chunk.len(),
    ensures
        word == word_at(chunk@, at as int),
{
    let word: [u8; 4] = [chunk[at], chunk[at + 1], chunk[at + 2], chunk[at + 3]];
    assert(word =~= word_at(chunk@, at as int));
    word
}

fn read_u32(chunk: &[u8], at: usize) -> (x: u32)
    requires
        at + 4 <= chunk.len(),
    ensures
        x == u32_at(chunk@, at as int),
{
    u32_from_le_bytes(slice_subrange(chunk, at, at + 4))
}

fn same_word(a: &[u8; 4], b: &[u8; 4]) -> (same: bool)
    ensures
        same == (*a == *b),
{
    let same = a[0] == b[0] && a[1] == b[1] && a[2] == b[2] && a[3] == b[3];
    assert(same == (*a =~= *b));
    same
}

impl Uf2Block {
    #[verifier::type_invariant]
    spec fn well_formed(&self) -> bool {
        &&& self.magic0 == UF2_MAGIC_START0
        &&& self.magic1 == UF2_MAGIC_START1
        &&& self.magic2 == UF2_MAGIC_END
        &&& flags_known(self.flags_data)
        &&& self.payload_size <= UF2_PAYLOAD_LEN
    }

    /// A block that puts `payload` at `offset`; the rest of the payload
    /// region is zero.
    pub fn new(
        flags: Uf2Flags,
        offset: u32,
        payload: &[u8],
        block_num: u32,
        num_blocks: u32,
        extra_data: u32,
    ) -> (block: Self)
        requires
            payload@.len() <= UF2_PAYLOAD_LEN,
        ensures
            block@.wf(),
            block@.flags == flags@,
            block@.target_addr == offset,
            block@.payload_size == payload@.len(),
            block@.block_num == block_num,
            block@.num_blocks == num_blocks,
            block@.extra_data == extra_data,
            block@.payload == payload@ + Seq::new(
                (UF2_PAYLOAD_LEN - payload@.len()) as nat,
                |i: int| 0u8,
            ),
    {
        let payload_len = payload.len();
        let mut region = [0u8; UF2_PAYLOAD_LEN];
        let mut i: usize = 0;
        while i < payload_len
            invariant
                i <= payload_len,
                payload_len == payload@.len(),
                payload_len <= UF2_PAYLOAD_LEN,
                forall|k: int| 0 <= k < i ==> #[trigger] region@[k] == payload@[k],
                forall|k: int| i <= k < UF2_PAYLOAD_LEN ==> #[trigger] region@[k] == 0,
            decreases payload_len - i,
        {
            region[i] = payload[i];
            i += 1;
        }
        let block = Uf2Block {
            magic0: UF2_MAGIC_START0,
            magic1: UF2_MAGIC_START1,
            flags_data: flags.bits(),
            target_addr: offset,
            payload_size: payload_len as u32,
            block_num,
            num_blocks,
            extra_data,
            payload: region,
            magic2: UF2_MAGIC_END,
        };
        assert(block@.payload =~= payload@ + Seq::new(
            (UF2_PAYLOAD_LEN - payload@.len()) as nat,
            |i: int| 0u8,
        ));
        block
    }

    /// The flags of the block.
    pub fn get_flags(&self) -> (flags: Uf2Flags)
        ensures
            flags@ == self@.flags,
            self@.wf(),
    {
        proof {
            use_type_invariant(self);
        }
        match Uf2Flags::from_bits(self.flags_data) {
            Some(flags) => flags,
            None => vstd::pervasive::unreached(),
        }
    }

    /// The used part of the payload region.
    pub fn get_payload(&self) -> (payload: &[u8])
        ensures
            payload@ == self@.payload.subrange(0, self@.payload_size as int),
            self@.wf(),
    {
        proof {
            use_type_invariant(self);
        }
        slice_subrange(self.payload.as_slice(), 0, self.payload_size as usize)
    }

    /// The place of the block in its container.
    pub fn get_block_num(&self) -> (n: u32)
        ensures
            n == self@.block_num,
    {
        self.block_num
    }

    /// The extra word: a family id, a file size, or nothing.
    pub fn get_extra_data(&self) -> (x: u32)
        ensures
            x == self@.extra_data,
    {
        self.extra_data
    }

    /// The number of blocks that the container says it has.
    pub fn get_num_blocks(&self) -> (n: u32)
        ensures
            n == self@.num_blocks,
    {
        self.num_blocks
    }

    /// The payload's last address is one that exists.
    pub fn bounds_fit(&self) -> (fit: bool)
        ensures
            fit == (self@.end_addr() <= u32::MAX),
            self@.wf(),
    {
        proof {
            use_type_invariant(self);
        }
        self.payload_size <= u32::MAX - self.target_addr
    }

    /// The first address of the payload and the address after its last.
    pub fn get_bounds(&self) -> (bounds: (u32, u32))
        requires
            self@.end_addr() <= u32::MAX,
        ensures
            bounds.0 == self@.target_addr,
            bounds.1 == self@.end_addr(),
            self@.wf(),
    {
        proof {
            use_type_invariant(self);
        }
        (self.target_addr, self.target_addr + self.payload_size)
    }

    /// Reads the block in the 512 bytes of `chunk`.
    fn parse_block(chunk: &[u8]) -> (r: Result<Self, Uf2Error>)
        requires
            chunk@.len() == UF2_BLOCK_LEN,
        ensures
            match r {
                Ok(block) => block_fault(chunk@) is None && block@ == block_view(chunk@)
                    && block@.wf(),
                Err(fault) => block_fault(chunk@) == Some(fault),
            },
    {
        let magic0 = read_word(chunk, 0);
        if !same_word(&magic0, &UF2_MAGIC_START0) {
            return Err(Uf2Error::BadMagic0 { found: magic0 });
        }
        let magic1 = read_word(chunk, 4);
        if !same_word(&magic1, &UF2_MAGIC_START1) {
            return Err(Uf2Error::BadMagic1 { found: magic1 });
        }
        let magic2 = read_word(chunk, 508);
        if !same_word(&magic2, &UF2_MAGIC_END) {
            return Err(Uf2Error::BadMagic2 { found: magic2 });
        }
        let flags_data = read_u32(chunk, 8);
        if flags_data & !FLAG_ALL != 0 {
            return Err(Uf2Error::BadFlags { bits: flags_data });
        }
        let payload_size = read_u32(chunk, 16);
        if payload_size > UF2_PAYLOAD_LEN as u32 {
            return Err(Uf2Error::BadPayloadSize { size: payload_size });
        }
        let mut payload = [0u8; UF2_PAYLOAD_LEN];
        let mut i: usize = 0;
        while i < UF2_PAYLOAD_LEN
            invariant
                i <= UF2_PAYLOAD_LEN,
                chunk@.len() == UF2_BLOCK_LEN,
                forall|k: int| 0 <= k < i ==> #[trigger] payload@[k] == chunk@[32 + k],
            decreases UF2_PAYLOAD_LEN - i,
        {
            payload[i] = chunk[32 + i];
            i += 1;
        }
        let block = Uf2Block {
            magic0,
            magic1,
            flags_data,
            target_addr: read_u32(chunk, 12),
            payload_size,
            block_num: read_u32(chunk, 20),
            num_blocks: read_u32(chunk, 24),
            extra_data: read_u32(chunk, 28),
            payload,
            magic2,
        };
        assert(block@.payload =~= chunk@.subrange(32, 508));
        Ok(block)
    }

    /// Reads a container: its blocks in order, or the first fault.
    pub fn parse(data: &[u8]) -> (r: Result<Vec<Self>, Uf2Error>)
        ensures
            match r {
                Ok(blocks) => {
                    &&& container_fault(data@) is None
                    &&& blocks@.len() * UF2_BLOCK_LEN == data@.len()
                    &&& forall|i: int|
                        0 <= i < blocks@.len() ==> (#[trigger] blocks@[i])@ == block_view(
                            chunk_of(data@, i),
                        ) && blocks@[i]@.wf()
                },
                Err(fault) => container_fault(data@) == Some(fault),
            },
    {
        if data.len() % UF2_BLOCK_LEN != 0 {
            return Err(Uf2Error::BadLength { len: data.len() });
        }
        let count = data.len() / UF2_BLOCK_LEN;
        let mut blocks: Vec<Uf2Block> = Vec::new();
        let mut i: usize = 0;
        while i < count
            invariant
                i <= count,
                count * UF2_BLOCK_LEN == data.len(),
                blocks@.len() == i,
                first_fault(data@, 0) == first_fault(data@, i as nat),
                forall|k: int|
                    0 <= k < i ==> (#[trigger] blocks@[k])@ == block_view(chunk_of(data@, k))
                        && blocks@[k]@.wf(),
            decreases count - i,
        {
            assert((i + 1) * UF2_BLOCK_LEN <= count * UF2_BLOCK_LEN) by (nonlinear_arith)
                requires
                    i + 1 <= count,
            ;
            let chunk = slice_subrange(data, i * UF2_BLOCK_LEN, (i + 1) * UF2_BLOCK_LEN);
            assert(chunk@ == chunk_of(data@, i as int));
            match Uf2Block::parse_block(chunk) {
                Ok(block) => {
                    blocks.push(block);
                },
                Err(fault) => {
                    return Err(fault);
                },
            }
            i += 1;
        }
        Ok(blocks)
    }

    /// The 512 bytes of the block.
    pub fn to_bytes(&self) -> (bytes: Vec<u8>)
        ensures
            bytes@ == self@.bytes(),
            bytes@.len() == UF2_BLOCK_LEN,
    {
        proof {
            use_type_invariant(self);
            lemma_auto_spec_u32_to_from_le_bytes();
        }
        let mut bytes: Vec<u8> = Vec::new();
        bytes.extend_from_slice(self.magic0.as_slice());
        bytes.extend_from_slice(self.magic1.as_slice());
        bytes.extend_from_slice(u32_to_le_bytes(self.flags_data).as_slice());
        bytes.extend_from_slice(u32_to_le_bytes(self.target_addr).as_slice());
        bytes.extend_from_slice(u32_to_le_bytes(self.payload_size).as_slice());
        bytes.extend_from_slice(u32_to_le_bytes(self.block_num).as_slice());
        bytes.extend_from_slice(u32_to_le_bytes(self.num_blocks).as_slice());
        bytes.extend_from_slice(u32_to_le_bytes(self.extra_data).as_slice());
        bytes.extend_from_slice(self.payload.as_slice());
        bytes.extend_from_slice(self.magic2.as_slice());
        assert(self.magic0@ == UF2_MAGIC_START0@);
        assert(self.magic1@ == UF2_MAGIC_START1@);
        assert(self.magic2@ == UF2_MAGIC_END@);
        bytes
    }
}

/// What each block of a list holds.
pub open spec fn views_of(blocks: Seq<Uf2Block>) -> Seq<Uf2BlockView> {
    blocks.map_values(|block: Uf2Block| block@)
}

/// The runs of main flash that the blocks cover, as first address and
/// length: blocks are taken in order, those not meant for main flash are
/// passed over, and a block that starts where the run before it ends
/// lengthens that run.
pub open spec fn regions_of(blocks: Seq<Uf2BlockView>) -> Seq<(u32, u32)>
    decreases blocks.len(),
{
    if blocks.len() == 0 {
        Seq::empty()
    } else {
        let before = regions_of(blocks.drop_last());
        let block = blocks.last();
        if !block.main_flash() {
            before
        } else if before.len() > 0 && before.last().0 + before.last().1 == block.target_addr {
            before.drop_last().push(
                (before.last().0, (before.last().1 + block.payload_size) as u32),
            )
        } else {
            before.push((block.target_addr, block.payload_size))
        }
    }
}

/// The payload of every block ends at an address that exists.
pub open spec fn all_fit(blocks: Seq<Uf2Block>) -> bool {
    forall|i: int| 0 <= i < blocks.len() ==> (#[trigger] blocks[i])@.end_addr() <= u32::MAX
}

/// Every run ends at an address that exists.
pub open spec fn runs_fit(regions: Seq<(u32, u32)>) -> bool {
    forall|k: int| 0 <= k < regions.len() ==> (#[trigger] regions[k]).0 + regions[k].1 <= u32::MAX
}

/// The runs of main flash that the blocks of a container cover.
pub fn flash_regions(blocks: &[Uf2Block]) -> (regions: Vec<(u32, u32)>)
    requires
        all_fit(blocks@),
    ensures
        regions@ == regions_of(views_of(blocks@)),
        runs_fit(regions@),
{
    let ghost views = views_of(blocks@);
    let mut regions: Vec<(u32, u32)> = Vec::new();
    let mut i: usize = 0;
    while i < blocks.len()
        invariant
            i <= blocks.len(),
            views == views_of(blocks@),
            all_fit(blocks@),
            regions@ == regions_of(views.take(i as int)),
            runs_fit(regions@),
        decreases blocks.len() - i,
    {
        let block = &blocks[i];
        proof {
            assert(views.take(i + 1).drop_last() =~= views.take(i as int));
            assert(views.take(i + 1).last() == block@);
        }
        let bounds = block.get_bounds();
        if !block.get_flags().contains(Uf2Flags::not_main_flash()) {
            let size = bounds.1 - bounds.0;
            let count = regions.len();
            if count > 0 && regions[count - 1].0 + regions[count - 1].1 == bounds.0 {
                let last = regions[count - 1];
                regions.pop();
                regions.push((last.0, last.1 + size));
            } else {
                regions.push((bounds.0, size));
            }
        }
        i += 1;
    }
    assert(views.take(blocks@.len() as int) =~= views);
    regions
}

/// The bytes of a block say what the block holds, and hold no fault: reading
/// a block that was written gives it back.
pub proof fn lemma_block_round_trip(v: Uf2BlockView)
    requires
        v.wf(),
    ensures
        v.bytes().len() == UF2_BLOCK_LEN,
        block_fault(v.bytes()) is None,
        block_view(v.bytes()) == v,
{
    lemma_auto_spec_u32_to_from_le_bytes();
    let b = v.bytes();
    assert(b.len() == UF2_BLOCK_LEN);
    assert(word_at(b, 0) =~= UF2_MAGIC_START0);
    assert(word_at(b, 4) =~= UF2_MAGIC_START1);
    assert(word_at(b, 508) =~= UF2_MAGIC_END);
    assert(b.subrange(8, 12) =~= spec_u32_to_le_bytes(v.flags));
    assert(b.subrange(12, 16) =~= spec_u32_to_le_bytes(v.target_addr));
    assert(b.subrange(16, 20) =~= spec_u32_to_le_bytes(v.payload_size));
    assert(b.subrange(20, 24) =~= spec_u32_to_le_bytes(v.block_num));
    assert(b.subrange(24, 28) =~= spec_u32_to_le_bytes(v.num_blocks));
    assert(b.subrange(28, 32) =~= spec_u32_to_le_bytes(v.extra_data));
    assert(b.subrange(32, 508) =~= v.payload);
}

} // verus!
