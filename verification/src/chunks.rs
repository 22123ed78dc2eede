//! Memory chunks: one OS-backed arena per mapped span.
//!
//! A chunk is created the first time a size class's free list runs dry.
//! Its span holds the chunk's own header, then consecutive equal-size
//! blocks of that class carved at creation time; the carved blocks are the
//! contiguous run of arena handles the chunk records.

use vstd::prelude::*;

use crate::datablock::BLOCKHEADER;
use crate::list::Header;

verus! {

/// Span bytes reserved at the start of a mapped span for the chunk's own
/// header: the linkage fields and the chunk record.
pub const REGION_HEADER_SIZE: usize = 48;

/// How many blocks a fresh chunk of each class is sized for.  Smaller
/// classes get proportionally more blocks per chunk, so each span's live
/// payload roughly matches one to a few OS pages while the chunk header's
/// overhead stays amortized across many blocks.
pub const BLOCKS_PER_CHUNK_16: usize = 290;
pub const BLOCKS_PER_CHUNK_32: usize = 226;
pub const BLOCKS_PER_CHUNK_64: usize = 157;
pub const BLOCKS_PER_CHUNK_256: usize = 55;
pub const BLOCKS_PER_CHUNK_512: usize = 28;
pub const BLOCKS_PER_CHUNK_1024: usize = 14;

/// One OS-backed arena: its usable bytes, the payload size of the blocks
/// it was carved into, and the contiguous run of arena handles of those
/// blocks, in address order.
#[derive(Clone, Copy, PartialEq, Eq, Structural, Debug)]
pub struct MemoryChunk {
    /// Usable bytes in the span, excluding the chunk's own header.
    pub size: usize,
    /// Payload size of every block carved from this chunk: its size class.
    pub block_size: usize,
    /// Arena handle of the first block carved from this chunk.
    pub first_block: usize,
    /// How many blocks were carved from this chunk.
    pub n_blocks: usize,
}

impl Header<MemoryChunk> {
    /// The arena handle of the first block carved from this chunk.
    pub fn first(&self) -> (r: usize)
        ensures
            r == self.data.first_block,
    {
        self.data.first_block
    }

    /// Usable bytes in the span, excluding the chunk's own header.
    pub fn size(&self) -> (r: usize)
        ensures
            r == self.data.size,
    {
        self.data.size
    }

    /// Header plus usable bytes: the whole mapped span.
    pub fn total_size(&self) -> (r: usize)
        requires
            self.data.size + REGION_HEADER_SIZE <= usize::MAX,
        ensures
            r == REGION_HEADER_SIZE + self.data.size,
    {
        REGION_HEADER_SIZE + self.data.size
    }
}

/// The span length a region needs: the chunk header plus `count` blocks of
/// `block_size` payload each, rounded up to a whole number of pages.
pub open spec fn spec_region_len(count: int, block_size: int, page: int) -> int {
    let total = REGION_HEADER_SIZE + count * (BLOCKHEADER + block_size);
    total + spec_region_pad(count, block_size, page)
}

/// The rounding applied by `spec_region_len`.
pub open spec fn spec_region_pad(count: int, block_size: int, page: int) -> int {
    let total = REGION_HEADER_SIZE + count * (BLOCKHEADER + block_size);
    crate::alignment::spec_padding_needed(total, page)
}

/// The largest page size a region length is computed for; a source
/// reporting more than this cannot back a chunk.
pub const MAX_PAGE_SIZE: usize = 0x1000_0000;

/// Round a span total up to a whole number of pages.
fn round_to_pages(total: usize, page: usize) -> (r: usize)
    requires
        1 <= page <= MAX_PAGE_SIZE,
        total <= MAX_PAGE_SIZE,
    ensures
        r == total + crate::alignment::spec_padding_needed(total as int, page as int),
        (r as int) % (page as int) == 0,
        total <= r <= total + page,
{
    total + crate::alignment::padding_needed_for(total, page)
}

/// The span length for a fresh chunk of the 16-byte class.
pub fn region_len_16(page: usize) -> (r: usize)
    requires
        1 <= page <= MAX_PAGE_SIZE,
    ensures
        r == spec_region_len(BLOCKS_PER_CHUNK_16 as int, 16, page as int),
        (r as int) % (page as int) == 0,
        REGION_HEADER_SIZE + BLOCKS_PER_CHUNK_16 * (BLOCKHEADER + 16) <= r,
        r <= 2 * MAX_PAGE_SIZE,
{
    round_to_pages(REGION_HEADER_SIZE + BLOCKS_PER_CHUNK_16 * (BLOCKHEADER + 16), page)
}

/// The span length for a fresh chunk of the 32-byte class.
pub fn region_len_32(page: usize) -> (r: usize)
    requires
        1 <= page <= MAX_PAGE_SIZE,
    ensures
        r == spec_region_len(BLOCKS_PER_CHUNK_32 as int, 32, page as int),
        (r as int) % (page as int) == 0,
        REGION_HEADER_SIZE + BLOCKS_PER_CHUNK_32 * (BLOCKHEADER + 32) <= r,
        r <= 2 * MAX_PAGE_SIZE,
{
    round_to_pages(REGION_HEADER_SIZE + BLOCKS_PER_CHUNK_32 * (BLOCKHEADER + 32), page)
}

/// The span length for a fresh chunk of the 64-byte class.
pub fn region_len_64(page: usize) -> (r: usize)
    requires
        1 <= page <= MAX_PAGE_SIZE,
    ensures
        r == spec_region_len(BLOCKS_PER_CHUNK_64 as int, 64, page as int),
        (r as int) % (page as int) == 0,
        REGION_HEADER_SIZE + BLOCKS_PER_CHUNK_64 * (BLOCKHEADER + 64) <= r,
        r <= 2 * MAX_PAGE_SIZE,
{
    round_to_pages(REGION_HEADER_SIZE + BLOCKS_PER_CHUNK_64 * (BLOCKHEADER + 64), page)
}

/// The span length for a fresh chunk of the 256-byte class.
pub fn region_len_256(page: usize) -> (r: usize)
    requires
        1 <= page <= MAX_PAGE_SIZE,
    ensures
        r == spec_region_len(BLOCKS_PER_CHUNK_256 as int, 256, page as int),
        (r as int) % (page as int) == 0,
        REGION_HEADER_SIZE + BLOCKS_PER_CHUNK_256 * (BLOCKHEADER + 256) <= r,
        r <= 2 * MAX_PAGE_SIZE,
{
    round_to_pages(REGION_HEADER_SIZE + BLOCKS_PER_CHUNK_256 * (BLOCKHEADER + 256), page)
}

/// The span length for a fresh chunk of the 512-byte class.
pub fn region_len_512(page: usize) -> (r: usize)
    requires
        1 <= page <= MAX_PAGE_SIZE,
    ensures
        r == spec_region_len(BLOCKS_PER_CHUNK_512 as int, 512, page as int),
        (r as int) % (page as int) == 0,
        REGION_HEADER_SIZE + BLOCKS_PER_CHUNK_512 * (BLOCKHEADER + 512) <= r,
        r <= 2 * MAX_PAGE_SIZE,
{
    round_to_pages(REGION_HEADER_SIZE + BLOCKS_PER_CHUNK_512 * (BLOCKHEADER + 512), page)
}

/// The span length for a fresh chunk of the 1024-byte class.
pub fn region_len_1024(page: usize) -> (r: usize)
    requires
        1 <= page <= MAX_PAGE_SIZE,
    ensures
        r == spec_region_len(BLOCKS_PER_CHUNK_1024 as int, 1024, page as int),
        (r as int) % (page as int) == 0,
        REGION_HEADER_SIZE + BLOCKS_PER_CHUNK_1024 * (BLOCKHEADER + 1024) <= r,
        r <= 2 * MAX_PAGE_SIZE,
{
    round_to_pages(REGION_HEADER_SIZE + BLOCKS_PER_CHUNK_1024 * (BLOCKHEADER + 1024), page)
}

} // verus!
