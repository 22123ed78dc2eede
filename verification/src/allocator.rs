//! The allocator engine: the public allocate / deallocate / reallocate
//! surface.
//!
//! The engine owns one free list per size class, the list of all chunks,
//! the arena of block headers (a block's arena index is its stable
//! handle), and the table of indirect header slots written for
//! over-aligned payloads.  A request is routed to one of six strictly
//! tiered size classes; when a class's free list runs dry a fresh chunk
//! is acquired from the memory source and carved into blocks of that
//! class.  Well-formedness ([`Single_Allocator::wf`]) ties every piece
//! together: each chunk's blocks tile its span without overlap and
//! without overrunning it, chunk spans are mutually disjoint, free lists
//! hold exactly free blocks of their own class, and indirect slots point
//! at distinct in-use blocks.

use vstd::prelude::*;

use crate::alignment::lemma_align_padding_slot;
use crate::alignment::lemma_padding_needed;
use crate::alignment::minimum_block_size_for;
use crate::alignment::next_aligned;
use crate::alignment::spec_align_ok;
use crate::alignment::spec_minimum_block_size;
use crate::alignment::spec_next_align_padding;
use crate::chunks::region_len_1024;
use crate::chunks::region_len_16;
use crate::chunks::region_len_256;
use crate::chunks::region_len_32;
use crate::chunks::region_len_512;
use crate::chunks::region_len_64;
use crate::chunks::MemoryChunk;
use crate::chunks::MAX_PAGE_SIZE;
use crate::chunks::REGION_HEADER_SIZE;
use crate::datablock::Block;
use crate::datablock::BLOCKHEADER;
use crate::kernel_mem::Memory;
use crate::kernel_mem::POINTER_SIZE;
use crate::list::FreeList;
use crate::list::FreeListNode;
use crate::list::LinkedList;
use crate::list::Node;

verus! {

/// Why a request could not be served.
#[derive(Clone, Copy, PartialEq, Eq, Structural, Debug)]
pub enum AllocError {
    /// The memory source could not supply a new chunk.
    ExhaustedSource,
    /// The request, after minimum-block-size computation, exceeds the
    /// largest size class.
    UnsupportedSize,
}

/// Whether `cs` is the payload size of one of the six size classes.
pub open spec fn spec_is_class(cs: int) -> bool {
    ||| cs == 16
    ||| cs == 32
    ||| cs == 64
    ||| cs == 256
    ||| cs == 512
    ||| cs == 1024
}

/// The payload size of the class a minimum block size routes to, or 0
/// when the size exceeds the largest class.
pub open spec fn spec_class_payload(min: int) -> int {
    if min <= 16 {
        16
    } else if min <= 32 {
        32
    } else if min <= 64 {
        64
    } else if min <= 256 {
        256
    } else if min <= 512 {
        512
    } else if min <= 1024 {
        1024
    } else {
        0
    }
}

/// Route a minimum block size to its size class; sizes above the largest
/// class are unsupported and must fail fast.  Routing is a function of
/// the size alone: no engine state takes part.
pub fn class_payload_of(min: usize) -> (r: Option<usize>)
    ensures
        r is Some <==> min <= 1024,
        r matches Some(c) ==> c == spec_class_payload(min as int) && spec_is_class(c as int),
{
    if min <= 16 {
        Some(16)
    } else if min <= 32 {
        Some(32)
    } else if min <= 64 {
        Some(64)
    } else if min <= 256 {
        Some(256)
    } else if min <= 512 {
        Some(512)
    } else if min <= 1024 {
        Some(1024)
    } else {
        None
    }
}


/// The whole mutable state of the allocator: six per-class free lists,
/// the chunk list, the arena of block headers, and the indirect header
/// slots of currently live over-aligned payloads.  One instance is one
/// engine; every operation takes it by reference, and exactly one
/// mutator may be active at a time.
#[allow(non_camel_case_types)]
pub struct Single_Allocator {
    pub free_blocks_16: FreeList,
    pub free_blocks_32: FreeList,
    pub free_blocks_64: FreeList,
    pub free_blocks_256: FreeList,
    pub free_blocks_512: FreeList,
    pub free_blocks_1024: FreeList,
    pub chunks: LinkedList<MemoryChunk>,
    pub blocks: Vec<Node<Block>>,
    pub indirect: Vec<(usize, usize)>,
}

impl Single_Allocator {
    /// The free list of the class with payload size `cs`.
    pub open spec fn free_list_for(&self, cs: int) -> Seq<FreeListNode> {
        if cs == 16 {
            self.free_blocks_16@
        } else if cs == 32 {
            self.free_blocks_32@
        } else if cs == 64 {
            self.free_blocks_64@
        } else if cs == 256 {
            self.free_blocks_256@
        } else if cs == 512 {
            self.free_blocks_512@
        } else if cs == 1024 {
            self.free_blocks_1024@
        } else {
            Seq::empty()
        }
    }

    /// Block `i` of chunk `j` sits at its carved position: its header
    /// records the owning chunk and the class payload size, and its span
    /// address steps from the chunk's first block in whole block sizes.
    pub open spec fn block_slot_wf(&self, j: int, i: int) -> bool {
        let ch = self.chunks@[j];
        let d = ch.data;
        let b = self.blocks@[d.first_block + i];
        &&& b.data.memory_chunk == j
        &&& b.data.size == d.block_size
        &&& b.addr == ch.addr + REGION_HEADER_SIZE + i * (BLOCKHEADER + d.block_size)
    }

    /// Chunk `j` is well formed: carved maximally into at least one block
    /// of one class, with all carved blocks accounted for in the arena
    /// and the whole span in address range.
    pub open spec fn chunk_wf(&self, j: int) -> bool {
        let ch = self.chunks@[j];
        let d = ch.data;
        &&& spec_is_class(d.block_size as int)
        &&& 1 <= d.n_blocks
        &&& d.first_block + d.n_blocks <= self.blocks@.len()
        &&& d.n_blocks * (BLOCKHEADER + d.block_size) <= d.size
        &&& d.size < (d.n_blocks + 1) * (BLOCKHEADER + d.block_size)
        &&& 1 <= ch.addr
        &&& (ch.addr as int) % (POINTER_SIZE as int) == 0
        &&& ch.addr + REGION_HEADER_SIZE + d.size <= usize::MAX
        &&& forall|i: int| 0 <= i < d.n_blocks ==> #[trigger] self.block_slot_wf(j, i)
    }

    /// Every block's recorded owning chunk exists and counts the block
    /// among the ones it carved.
    pub open spec fn block_home_wf(&self, id: int) -> bool {
        let c = self.blocks@[id].data.memory_chunk as int;
        &&& c < self.chunks@.len()
        &&& self.chunks@[c].data.first_block <= id
        &&& id < self.chunks@[c].data.first_block + self.chunks@[c].data.n_blocks
    }

    /// See [`Self::block_home_wf`].
    pub open spec fn arena_wf(&self) -> bool {
        forall|id: int| 0 <= id < self.blocks@.len() ==> #[trigger] self.block_home_wf(id)
    }

    /// The mapped spans of two chunks do not overlap.
    pub open spec fn chunk_span_disjoint(&self, j1: int, j2: int) -> bool {
        let c1 = self.chunks@[j1];
        let c2 = self.chunks@[j2];
        ||| c1.addr + REGION_HEADER_SIZE + c1.data.size <= c2.addr
        ||| c2.addr + REGION_HEADER_SIZE + c2.data.size <= c1.addr
    }

    /// Entry `i` of the free list of class `cs` names a free block of
    /// exactly that class, and stands at the block's payload address.
    pub open spec fn free_node_wf(&self, cs: int, i: int) -> bool {
        let fl = self.free_list_for(cs);
        let id = fl[i].data as int;
        &&& id < self.blocks@.len()
        &&& self.blocks@[id].data.is_free
        &&& self.blocks@[id].data.size == cs
        &&& fl[i].addr == self.blocks@[id].addr + BLOCKHEADER
    }

    /// The free list of class `cs` holds valid entries, no block twice.
    pub open spec fn free_list_wf(&self, cs: int) -> bool {
        let fl = self.free_list_for(cs);
        &&& forall|i: int| 0 <= i < fl.len() ==> #[trigger] self.free_node_wf(cs, i)
        &&& forall|i1: int, i2: int|
            0 <= i1 < i2 < fl.len() ==> #[trigger] fl[i1].data != #[trigger] fl[i2].data
    }

    /// Indirect slot `i` records a live over-aligned payload: its key is
    /// the address handed to the caller, strictly inside the named
    /// in-use block's payload span, past room for the slot itself.
    pub open spec fn indirect_entry_wf(&self, i: int) -> bool {
        let a = self.indirect@[i].0 as int;
        let id = self.indirect@[i].1 as int;
        &&& id < self.blocks@.len()
        &&& !self.blocks@[id].data.is_free
        &&& self.blocks@[id].addr + BLOCKHEADER + POINTER_SIZE <= a
        &&& a <= self.blocks@[id].addr + BLOCKHEADER + self.blocks@[id].data.size
    }

    /// All indirect slots are valid, with distinct keys and distinct
    /// blocks.
    pub open spec fn indirect_wf(&self) -> bool {
        &&& forall|i: int| 0 <= i < self.indirect@.len() ==> #[trigger] self.indirect_entry_wf(i)
        &&& forall|i1: int, i2: int|
            0 <= i1 < i2 < self.indirect@.len()
                ==> (#[trigger] self.indirect@[i1]).0 != (#[trigger] self.indirect@[i2]).0
                && self.indirect@[i1].1 != self.indirect@[i2].1
    }

    /// The engine's whole invariant.
    pub open spec fn wf(&self) -> bool {
        &&& self.arena_wf()
        &&& forall|j: int| 0 <= j < self.chunks@.len() ==> #[trigger] self.chunk_wf(j)
        &&& forall|j1: int, j2: int|
            0 <= j1 < j2 < self.chunks@.len() ==> #[trigger] self.chunk_span_disjoint(j1, j2)
        &&& self.free_list_wf(16)
        &&& self.free_list_wf(32)
        &&& self.free_list_wf(64)
        &&& self.free_list_wf(256)
        &&& self.free_list_wf(512)
        &&& self.free_list_wf(1024)
        &&& self.indirect_wf()
    }

    /// An empty engine: no chunks, no blocks, every free list empty.
    pub fn new() -> (s: Self)
        ensures
            s.wf(),
            s.blocks@.len() == 0,
            s.chunks@.len() == 0,
            s.indirect@.len() == 0,
            forall|c: int| #[trigger] s.free_list_for(c).len() == 0,
    {
        Single_Allocator {
            free_blocks_16: FreeList::new(),
            free_blocks_32: FreeList::new(),
            free_blocks_64: FreeList::new(),
            free_blocks_256: FreeList::new(),
            free_blocks_512: FreeList::new(),
            free_blocks_1024: FreeList::new(),
            chunks: LinkedList::new(),
            blocks: Vec::new(),
            indirect: Vec::new(),
        }
    }
}

impl Single_Allocator {
    /// The block, if any, whose header lies one header width before
    /// `address`: the direct path for payloads of pointer-width or
    /// smaller alignment.
    pub open spec fn spec_direct_id(&self, address: int) -> Option<int> {
        if exists|id: int|
            0 <= id < self.blocks@.len() && (#[trigger] self.blocks@[id]).addr + BLOCKHEADER
                == address {
            Some(
                choose|id: int|
                    0 <= id < self.blocks@.len() && (#[trigger] self.blocks@[id]).addr
                        + BLOCKHEADER == address,
            )
        } else {
            None
        }
    }

    /// The indirect slot, if any, recorded for the over-aligned payload
    /// address `address`.
    pub open spec fn spec_indirect_pos(&self, address: int) -> Option<int> {
        if exists|i: int|
            0 <= i < self.indirect@.len() && (#[trigger] self.indirect@[i]).0 == address {
            Some(
                choose|i: int|
                    0 <= i < self.indirect@.len() && (#[trigger] self.indirect@[i]).0 == address,
            )
        } else {
            None
        }
    }

    /// The block a pointer resolves to: directly through the adjacent
    /// header when the alignment is at most the pointer width, and
    /// through the recorded indirect slot otherwise.
    pub open spec fn spec_resolve(&self, address: int, align: int) -> Option<int> {
        if align <= POINTER_SIZE {
            self.spec_direct_id(address)
        } else {
            match self.spec_indirect_pos(address) {
                Some(i) => Some(self.indirect@[i].1 as int),
                None => None,
            }
        }
    }

    /// How many blocks currently sit on the free list of the class with
    /// payload size `cs`; zero for a size that is no class.
    pub fn free_count(&self, cs: usize) -> (n: usize)
        ensures
            n == self.free_list_for(cs as int).len(),
    {
        if cs == 16 {
            self.free_blocks_16.len()
        } else if cs == 32 {
            self.free_blocks_32.len()
        } else if cs == 64 {
            self.free_blocks_64.len()
        } else if cs == 256 {
            self.free_blocks_256.len()
        } else if cs == 512 {
            self.free_blocks_512.len()
        } else if cs == 1024 {
            self.free_blocks_1024.len()
        } else {
            0
        }
    }

    /// The chunk that carved the block with arena handle `id`; a block's
    /// owning chunk never changes after chunk construction.
    pub fn memorychunk_of(&self, id: usize) -> (ch: &Node<MemoryChunk>)
        requires
            self.wf(),
            id < self.blocks@.len(),
        ensures
            *ch == self.chunks@[self.blocks@[id as int].data.memory_chunk as int],
    {
        proof {
            lemma_block_geometry(self, id as int);
        }
        self.chunks.get(self.blocks[id].data.memory_chunk)
    }

    /// Find the indirect slot recorded for `address`.
    fn indirect_pos_of(&self, address: usize) -> (r: Option<usize>)
        requires
            self.wf(),
        ensures
            r is Some <==> self.spec_indirect_pos(address as int) is Some,
            r matches Some(i) ==> self.spec_indirect_pos(address as int) == Some(i as int) && i
                < self.indirect@.len(),
    {
        let n = self.indirect.len();
        let mut i: usize = 0;
        while i < n
            invariant
                self.wf(),
                n == self.indirect@.len(),
                i <= n,
                forall|k: int| 0 <= k < i ==> (#[trigger] self.indirect@[k]).0 != address,
            decreases n - i,
        {
            if self.indirect[i].0 == address {
                proof {
                    let w = choose|k: int|
                        0 <= k < self.indirect@.len() && (#[trigger] self.indirect@[k]).0
                            == address;
                    if w != i as int {
                        if w < i as int {
                            assert(self.indirect@[w].0 != self.indirect@[i as int].0);
                        } else {
                            assert(self.indirect@[i as int].0 != self.indirect@[w].0);
                        }
                    }
                }
                return Some(i);
            }
            i = i + 1;
        }
        None
    }

    /// Resolve an over-aligned payload address through its indirect
    /// header slot.
    pub fn from_aligned_address(&self, address: usize) -> (r: Option<usize>)
        requires
            self.wf(),
        ensures
            r is Some <==> self.spec_indirect_pos(address as int) is Some,
            r matches Some(id) ==> self.spec_indirect_pos(address as int) matches Some(p)
                && self.indirect@[p].1 == id && id < self.blocks@.len(),
    {
        match self.indirect_pos_of(address) {
            Some(i) => {
                proof {
                    assert(self.indirect_entry_wf(i as int));
                }
                Some(self.indirect[i].1)
            },
            None => None,
        }
    }

    /// Resolve a pointer handed out by `allocate` back to its block: the
    /// dual path used consistently by allocate, deallocate and
    /// reallocate.
    pub fn from_allocated_pointer(&self, address: usize, align: usize) -> (r: Option<usize>)
        requires
            self.wf(),
            1 <= align,
        ensures
            r is Some <==> self.spec_resolve(address as int, align as int) is Some,
            r matches Some(id) ==> self.spec_resolve(address as int, align as int) == Some(
                id as int,
            ) && id < self.blocks@.len(),
    {
        if align <= POINTER_SIZE {
            let n = self.blocks.len();
            let mut id: usize = 0;
            while id < n
                invariant
                    self.wf(),
                    align <= POINTER_SIZE,
                    n == self.blocks@.len(),
                    id <= n,
                    forall|k: int|
                        0 <= k < id ==> (#[trigger] self.blocks@[k]).addr + BLOCKHEADER
                            != address,
                decreases n - id,
            {
                proof {
                    lemma_block_geometry(self, id as int);
                }
                let a = self.blocks[id].addr;
                if a + BLOCKHEADER == address {
                    proof {
                        assert(self.blocks@[id as int].addr + BLOCKHEADER == address);
                        assert(self.spec_direct_id(address as int) is Some);
                        let w = choose|k: int|
                            0 <= k < self.blocks@.len() && (#[trigger] self.blocks@[k]).addr
                                + BLOCKHEADER == address;
                        assert(self.blocks@[w].addr + BLOCKHEADER == address);
                        lemma_block_addr_unique(self, w, id as int);
                        assert(self.spec_direct_id(address as int) == Some(id as int));
                        assert(self.spec_resolve(address as int, align as int)
                            == self.spec_direct_id(address as int));
                        assert(self.spec_resolve(address as int, align as int) == Some(
                            id as int,
                        ));
                    }
                    return Some(id);
                }
                id = id + 1;
            }
            None
        } else {
            self.from_aligned_address(address)
        }
    }

    /// Take the head of the free list of class `cs`: the first-fit block
    /// within the class.  The block leaves the list and is marked used.
    fn take_class_head(&mut self, cs: usize) -> (id: usize)
        requires
            old(self).wf(),
            spec_is_class(cs as int),
            old(self).free_list_for(cs as int).len() > 0,
        ensures
            final(self).wf(),
            id == old(self).free_list_for(cs as int)[0].data,
            id < old(self).blocks@.len(),
            old(self).blocks@[id as int].data.is_free,
            final(self).blocks@ == old(self).blocks@.update(
                id as int,
                (Node {
                    addr: old(self).blocks@[id as int].addr,
                    data: (Block { is_free: false, ..old(self).blocks@[id as int].data }),
                }),
            ),
            final(self).free_list_for(cs as int) == old(self).free_list_for(cs as int).remove(0),
            forall|c: int|
                spec_is_class(c) && c != cs ==> final(self).free_list_for(c) == old(self).free_list_for(c),
            final(self).chunks@ == old(self).chunks@,
            final(self).indirect@ == old(self).indirect@,
            final(self).blocks@[id as int].data.size == cs,
            !final(self).blocks@[id as int].data.is_free,
            forall|i: int|
                0 <= i < final(self).indirect@.len() ==> (#[trigger] final(self).indirect@[i]).1
                    != id,
    {
        let ghost pre = *self;
        proof {
            assert(pre.free_node_wf(cs as int, 0));
        }
        let id = if cs <= 16 {
            self.free_blocks_16.remove_block(&mut self.blocks, 0)
        } else if cs <= 32 {
            self.free_blocks_32.remove_block(&mut self.blocks, 0)
        } else if cs <= 64 {
            self.free_blocks_64.remove_block(&mut self.blocks, 0)
        } else if cs <= 256 {
            self.free_blocks_256.remove_block(&mut self.blocks, 0)
        } else if cs <= 512 {
            self.free_blocks_512.remove_block(&mut self.blocks, 0)
        } else {
            self.free_blocks_1024.remove_block(&mut self.blocks, 0)
        };
        proof {
            lemma_take_class_head_wf(pre, *self, cs as int, id as int);
        }
        id
    }
}

/// Removing the head of a class's free list and marking the block used
/// preserves the engine invariant.
proof fn lemma_take_class_head_wf(pre: Single_Allocator, post: Single_Allocator, cs: int, id: int)
    requires
        pre.wf(),
        spec_is_class(cs),
        pre.free_list_for(cs).len() > 0,
        id == pre.free_list_for(cs)[0].data,
        post.blocks@ == pre.blocks@.update(
            id,
            (Node {
                addr: pre.blocks@[id].addr,
                data: (Block { is_free: false, ..pre.blocks@[id].data }),
            }),
        ),
        post.free_list_for(cs) == pre.free_list_for(cs).remove(0),
        forall|c: int| spec_is_class(c) && c != cs ==> post.free_list_for(c) == pre.free_list_for(c),
        post.chunks@ == pre.chunks@,
        post.indirect@ == pre.indirect@,
    ensures
        post.wf(),
        forall|i: int| 0 <= i < post.indirect@.len() ==> (#[trigger] post.indirect@[i]).1 != id,
{
    assert(pre.free_node_wf(cs, 0));
    assert(0 <= id < pre.blocks@.len());
    assert(pre.blocks@[id].data.is_free);
    // the arena keeps every field but the free flag
    assert forall|k: int| 0 <= k < post.blocks@.len() implies (#[trigger] post.blocks@[k]).addr
        == pre.blocks@[k].addr && post.blocks@[k].data.memory_chunk
        == pre.blocks@[k].data.memory_chunk && post.blocks@[k].data.size
        == pre.blocks@[k].data.size by {}
    assert forall|k: int| 0 <= k < post.blocks@.len() implies #[trigger] post.block_home_wf(k) by {
        assert(pre.block_home_wf(k));
    }
    assert forall|j: int| 0 <= j < post.chunks@.len() implies #[trigger] post.chunk_wf(j) by {
        assert(pre.chunk_wf(j));
        let d = post.chunks@[j].data;
        assert forall|i: int| 0 <= i < d.n_blocks implies #[trigger] post.block_slot_wf(j, i) by {
            assert(pre.block_slot_wf(j, i));
        }
    }
    assert forall|j1: int, j2: int| 0 <= j1 < j2 < post.chunks@.len() implies #[trigger] post
        .chunk_span_disjoint(j1, j2) by {
        assert(pre.chunk_span_disjoint(j1, j2));
    }
    assert forall|c: int| spec_is_class(c) implies post.free_list_wf(c) by {
        let fl = post.free_list_for(c);
        assert forall|i: int| 0 <= i < fl.len() implies #[trigger] post.free_node_wf(c, i) by {
            if c == cs {
                assert(pre.free_node_wf(cs, i + 1));
                assert(post.free_list_for(cs)[i] == pre.free_list_for(cs)[i + 1]);
                let id2 = pre.free_list_for(cs)[i + 1].data as int;
                assert(pre.free_list_for(cs)[0].data != pre.free_list_for(cs)[i + 1].data);
                assert(id2 != id);
            } else {
                assert(pre.free_node_wf(c, i));
                let id2 = pre.free_list_for(c)[i].data as int;
                assert(pre.blocks@[id2].data.size == c);
                assert(id2 != id);
            }
        }
        assert forall|i1: int, i2: int|
            0 <= i1 < i2 < fl.len() implies (#[trigger] fl[i1].data) != (#[trigger] fl[i2].data) by {
            if c == cs {
                assert(pre.free_list_for(cs)[i1 + 1].data != pre.free_list_for(cs)[i2 + 1].data);
                assert(fl[i1] == pre.free_list_for(cs)[i1 + 1]);
                assert(fl[i2] == pre.free_list_for(cs)[i2 + 1]);
            } else {
                assert(pre.free_list_for(c)[i1].data != pre.free_list_for(c)[i2].data);
            }
        }
    }
    assert(spec_is_class(16) && spec_is_class(32) && spec_is_class(64) && spec_is_class(256)
        && spec_is_class(512) && spec_is_class(1024));
    assert(post.free_list_wf(16) && post.free_list_wf(32) && post.free_list_wf(64)
        && post.free_list_wf(256) && post.free_list_wf(512) && post.free_list_wf(1024));
    assert forall|i: int| 0 <= i < post.indirect@.len() implies (#[trigger] post.indirect@[i]).1
        != id by {
        assert(pre.indirect_entry_wf(i));
    }
    assert forall|i: int| 0 <= i < post.indirect@.len() implies #[trigger] post.indirect_entry_wf(
        i,
    ) by {
        assert(pre.indirect_entry_wf(i));
    }
}

/// The span `[base, base + length)` can back a new chunk: a nonzero,
/// pointer-aligned base, an end within the address space, and no overlap
/// with any chunk the engine already owns.
pub open spec fn spec_span_ok(pre: Single_Allocator, base: int, length: int) -> bool {
    &&& 1 <= base
    &&& base % (POINTER_SIZE as int) == 0
    &&& base + length <= usize::MAX
    &&& forall|k: int|
        0 <= k < pre.chunks@.len() ==> base + length <= (#[trigger] pre.chunks@[k]).addr
            || pre.chunks@[k].addr + REGION_HEADER_SIZE + pre.chunks@[k].data.size <= base
}

/// What carving the span `[base, base + length)` into blocks of class
/// `cs` leaves behind: one new chunk over the span; its blocks appended
/// to the arena — equal, free, and consecutive in address order starting
/// immediately after the chunk header, as many as fit whole; one new
/// free list entry per carved block, in the same order, each standing at
/// its block's payload address; and nothing else moved.
pub open spec fn spec_carved(
    pre: Single_Allocator,
    post: Single_Allocator,
    cs: int,
    base: int,
    length: int,
) -> bool {
    let size = length - REGION_HEADER_SIZE;
    let tbs = BLOCKHEADER + cs;
    let j = pre.chunks@.len() as int;
    let first = pre.blocks@.len() as int;
    let flpre = pre.free_list_for(cs).len() as int;
    &&& post.chunks@.len() == j + 1
    &&& post.chunks@.subrange(0, j) == pre.chunks@
    &&& post.chunks@[j].addr == base
    &&& post.chunks@[j].data.size == size
    &&& post.chunks@[j].data.block_size == cs
    &&& post.chunks@[j].data.first_block == first
    &&& post.chunks@[j].data.n_blocks == size / tbs
    &&& post.blocks@.len() == first + size / tbs
    &&& post.blocks@.subrange(0, first) == pre.blocks@
    &&& forall|x: int|
        first <= x < post.blocks@.len() ==> (#[trigger] post.blocks@[x]).data.memory_chunk == j
            && post.blocks@[x].data.size == cs && post.blocks@[x].data.is_free
            && post.blocks@[x].addr == base + REGION_HEADER_SIZE + (x - first) * tbs
    &&& post.free_list_for(cs).len() == flpre + size / tbs
    &&& post.free_list_for(cs).subrange(0, flpre) == pre.free_list_for(cs)
    &&& forall|x: int|
        flpre <= x < post.free_list_for(cs).len() ==> (#[trigger] post.free_list_for(cs)[x]).data
            == first + (x - flpre) && post.free_list_for(cs)[x].addr == base
            + REGION_HEADER_SIZE + (x - flpre) * tbs + BLOCKHEADER
    &&& forall|c: int| spec_is_class(c) && c != cs ==> post.free_list_for(c) == pre.free_list_for(c)
    &&& post.indirect@ == pre.indirect@
}

impl Single_Allocator {
    /// Build a chunk of class `cs` on the span `[base, base + length)`
    /// the memory source handed back: validate the span, then carve it.
    /// Succeeds exactly when the span is usable — nonzero pointer-aligned
    /// base, end in range, disjoint from every live chunk — and otherwise
    /// reports exhaustion touching nothing: a span the engine cannot
    /// trust never enters its state.
    fn carve_chunk(&mut self, cs: usize, base: usize, length: usize) -> (r: Result<
        usize,
        AllocError,
    >)
        requires
            old(self).wf(),
            spec_is_class(cs as int),
            REGION_HEADER_SIZE + (BLOCKHEADER + cs) <= length,
            length <= 2 * MAX_PAGE_SIZE,
        ensures
            final(self).wf(),
            r is Ok <==> spec_span_ok(*old(self), base as int, length as int),
            r matches Err(e) ==> e == AllocError::ExhaustedSource && *final(self) == *old(self),
            r matches Ok(j) ==> j == old(self).chunks@.len() && spec_carved(
                *old(self),
                *final(self),
                cs as int,
                base as int,
                length as int,
            ),
    {
        if base == 0 || base % POINTER_SIZE != 0 || base > usize::MAX - length {
            return Err(AllocError::ExhaustedSource);
        }
        let n_chunks = self.chunks.len();
        let mut jj: usize = 0;
        let mut overlaps = false;
        while jj < n_chunks
            invariant
                old(self).wf(),
                *self == *old(self),
                n_chunks == self.chunks@.len(),
                jj <= n_chunks,
                1 <= base,
                (base as int) % (POINTER_SIZE as int) == 0,
                base <= usize::MAX - length,
                overlaps ==> !spec_span_ok(*old(self), base as int, length as int),
                !overlaps ==> forall|k: int|
                    0 <= k < jj ==> base + length <= (#[trigger] self.chunks@[k]).addr
                        || self.chunks@[k].addr + REGION_HEADER_SIZE + self.chunks@[k].data.size
                        <= base,
            decreases n_chunks - jj,
        {
            proof {
                assert(self.chunk_wf(jj as int));
            }
            let ch = self.chunks.get(jj);
            let ch_end = ch.addr + REGION_HEADER_SIZE + ch.data.size;
            if !(base + length <= ch.addr || ch_end <= base) {
                overlaps = true;
            }
            jj = jj + 1;
        }
        if overlaps {
            return Err(AllocError::ExhaustedSource);
        }
        let size = length - REGION_HEADER_SIZE;
        let tbs = BLOCKHEADER + cs;
        let count = size / tbs;
        proof {
            vstd::arithmetic::div_mod::lemma_fundamental_div_mod(size as int, tbs as int);
            vstd::arithmetic::div_mod::lemma_mod_division_less_than_divisor(
                size as int,
                tbs as int,
            );
            assert(count * tbs <= size < (count + 1) * tbs) by (nonlinear_arith)
                requires
                    size == tbs * (count as int) + (size as int) % (tbs as int),
                    0 <= (size as int) % (tbs as int) < tbs,
            ;
            assert(1 <= count) by (nonlinear_arith)
                requires
                    tbs <= size,
                    count * tbs <= size < (count + 1) * tbs,
                    0 < tbs,
            ;
        }
        let j_new = self.chunks.len();
        let first = self.blocks.len();
        let fl_len = self.free_count(cs);
        proof {
            assert(old(self).free_list_for(cs as int).len() == fl_len);
        }
        self.chunks.push(
            MemoryChunk { size, block_size: cs, first_block: first, n_blocks: count },
            base,
        );
        let mut i: usize = 0;
        let mut current: usize = base + REGION_HEADER_SIZE;
        while i < count
            invariant
                old(self).wf(),
                spec_is_class(cs as int),
                tbs == BLOCKHEADER + cs,
                i <= count,
                1 <= count,
                count == size / tbs,
                count * tbs <= size,
                size + REGION_HEADER_SIZE == length,
                base <= usize::MAX - length,
                1 <= base,
                (base as int) % (POINTER_SIZE as int) == 0,
                current == base + REGION_HEADER_SIZE + i * tbs,
                j_new == old(self).chunks@.len(),
                first == old(self).blocks@.len(),
                self.chunks@ == old(self).chunks@.push(
                    (Node {
                        addr: base,
                        data: (MemoryChunk {
                            size,
                            block_size: cs,
                            first_block: first,
                            n_blocks: count,
                        }),
                    }),
                ),
                self.blocks@.len() == first + i,
                self.blocks@.subrange(0, first as int) == old(self).blocks@,
                forall|x: int|
                    first <= x < first + i ==> (#[trigger] self.blocks@[x]).data.memory_chunk
                        == j_new && self.blocks@[x].data.size == cs
                        && self.blocks@[x].data.is_free && self.blocks@[x].addr == base
                        + REGION_HEADER_SIZE + (x - first) * tbs,
                self.free_list_for(cs as int).len() == old(self).free_list_for(cs as int).len()
                    + i,
                self.free_list_for(cs as int).subrange(
                    0,
                    old(self).free_list_for(cs as int).len() as int,
                ) == old(self).free_list_for(cs as int),
                forall|x: int|
                    old(self).free_list_for(cs as int).len() <= x < self.free_list_for(
                        cs as int,
                    ).len() ==> (#[trigger] self.free_list_for(cs as int)[x]).data == first + (x
                        - old(self).free_list_for(cs as int).len())
                        && self.free_list_for(cs as int)[x].addr == self.blocks@[first + (x - old(self).free_list_for(cs as int).len())].addr + BLOCKHEADER,
                forall|c: int|
                    spec_is_class(c) && c != cs ==> self.free_list_for(c) == old(self).free_list_for(c),
                self.indirect@ == old(self).indirect@,
            decreases count - i,
        {
            proof {
                assert((i + 1) * tbs <= count * tbs) by (nonlinear_arith)
                    requires
                        i + 1 <= count,
                        0 <= tbs,
                ;
                assert((i + 1) * tbs == i * tbs + tbs) by (nonlinear_arith);
            }
            let id = self.blocks.len();
            self.blocks.push(
                Node { addr: current, data: Block { memory_chunk: j_new, size: cs, is_free: true } },
            );
            let ghost bp = self.blocks@;
            let ghost flp = self.free_list_for(cs as int);
            if cs <= 16 {
                self.free_blocks_16.append_block(&mut self.blocks, id);
            } else if cs <= 32 {
                self.free_blocks_32.append_block(&mut self.blocks, id);
            } else if cs <= 64 {
                self.free_blocks_64.append_block(&mut self.blocks, id);
            } else if cs <= 256 {
                self.free_blocks_256.append_block(&mut self.blocks, id);
            } else if cs <= 512 {
                self.free_blocks_512.append_block(&mut self.blocks, id);
            } else {
                self.free_blocks_1024.append_block(&mut self.blocks, id);
            }
            proof {
                assert(self.blocks@ =~= bp);
                assert(self.free_list_for(cs as int) =~= flp.push(
                    (Node { addr: (bp[id as int].addr + BLOCKHEADER) as usize, data: id }),
                ));
                assert(self.blocks@.subrange(0, first as int) =~= old(self).blocks@);
                assert(self.free_list_for(cs as int).subrange(
                    0,
                    old(self).free_list_for(cs as int).len() as int,
                ) =~= old(self).free_list_for(cs as int));
            }
            current = current + tbs;
            i = i + 1;
        }
        proof {
            lemma_carve_wf(*old(self), *self, cs, base, length, size, count);
            assert(self.chunks@.subrange(0, j_new as int) =~= old(self).chunks@);
        }
        Ok(j_new)
    }

    /// Acquire a span from the memory source and build a chunk of class
    /// `cs` on it through `carve_chunk`.  Failure — the source refusing
    /// a span, reporting an unusable page size, or handing back a span
    /// the validation rejects — is reported as exhaustion and leaves the
    /// engine untouched; a rejected span is returned to the source.
    fn get_memory_chunk<M: Memory>(&mut self, cs: usize, source: &mut M) -> (r: Result<
        usize,
        AllocError,
    >)
        requires
            old(self).wf(),
            spec_is_class(cs as int),
        ensures
            final(self).wf(),
            r matches Err(e) ==> e == AllocError::ExhaustedSource && *final(self) == *old(self),
            r matches Ok(j) ==> {
                &&& j == old(self).chunks@.len()
                &&& final(self).chunks@.len() == j + 1
                &&& 1 <= final(self).chunks@[j as int].data.n_blocks
                &&& final(self).free_list_for(cs as int).len() > old(self).free_list_for(
                    cs as int,
                ).len()
                &&& spec_carved(
                    *old(self),
                    *final(self),
                    cs as int,
                    final(self).chunks@[j as int].addr as int,
                    REGION_HEADER_SIZE + final(self).chunks@[j as int].data.size,
                )
            },
    {
        let page = source.page_size();
        if page < 1 || page > MAX_PAGE_SIZE {
            return Err(AllocError::ExhaustedSource);
        }
        let length = if cs <= 16 {
            region_len_16(page)
        } else if cs <= 32 {
            region_len_32(page)
        } else if cs <= 64 {
            region_len_64(page)
        } else if cs <= 256 {
            region_len_256(page)
        } else if cs <= 512 {
            region_len_512(page)
        } else {
            region_len_1024(page)
        };
        let base = match source.get_mem(length) {
            Some(b) => b,
            None => {
                return Err(AllocError::ExhaustedSource);
            },
        };
        match self.carve_chunk(cs, base, length) {
            Ok(j) => {
                proof {
                    let size = (length - REGION_HEADER_SIZE) as int;
                    let tbs = (BLOCKHEADER + cs) as int;
                    vstd::arithmetic::div_mod::lemma_fundamental_div_mod(size, tbs);
                    vstd::arithmetic::div_mod::lemma_mod_division_less_than_divisor(size, tbs);
                    assert(1 <= size / tbs) by (nonlinear_arith)
                        requires
                            tbs <= size,
                            size == tbs * (size / tbs) + size % tbs,
                            0 <= size % tbs < tbs,
                            0 < tbs,
                    ;
                    assert(REGION_HEADER_SIZE + self.chunks@[j as int].data.size == length);
                }
                Ok(j)
            },
            Err(e) => {
                source.return_mem(base, length);
                Err(e)
            },
        }
    }
}

/// Carving a validated span into free blocks of one class preserves the
/// engine invariant.
proof fn lemma_carve_wf(
    pre: Single_Allocator,
    post: Single_Allocator,
    cs: usize,
    base: usize,
    length: usize,
    size: usize,
    count: usize,
)
    requires
        pre.wf(),
        spec_is_class(cs as int),
        pre.blocks@.len() <= usize::MAX,
        pre.chunks@.len() <= usize::MAX,
        pre.free_list_for(cs as int).len() <= usize::MAX,
        1 <= count,
        count * (BLOCKHEADER + cs) <= size < (count + 1) * (BLOCKHEADER + cs),
        1 <= base,
        (base as int) % (POINTER_SIZE as int) == 0,
        base <= usize::MAX - length,
        size + REGION_HEADER_SIZE == length,
        forall|k: int|
            0 <= k < pre.chunks@.len() ==> base + length <= (#[trigger] pre.chunks@[k]).addr
                || pre.chunks@[k].addr + REGION_HEADER_SIZE + pre.chunks@[k].data.size <= base,
        post.chunks@ == pre.chunks@.push(
            (Node {
                addr: base,
                data: (MemoryChunk {
                    size,
                    block_size: cs,
                    first_block: pre.blocks@.len() as usize,
                    n_blocks: count,
                }),
            }),
        ),
        post.blocks@.len() == pre.blocks@.len() + count,
        post.blocks@.subrange(0, pre.blocks@.len() as int) == pre.blocks@,
        forall|x: int|
            pre.blocks@.len() <= x < post.blocks@.len() ==> (#[trigger] post.blocks@[x])
                .data.memory_chunk == pre.chunks@.len() && post.blocks@[x].data.size == cs
                && post.blocks@[x].data.is_free && post.blocks@[x].addr == base
                + REGION_HEADER_SIZE + (x - pre.blocks@.len()) * (BLOCKHEADER + cs),
        post.free_list_for(cs as int).len() == pre.free_list_for(cs as int).len() + count,
        post.free_list_for(cs as int).subrange(0, pre.free_list_for(cs as int).len() as int)
            == pre.free_list_for(cs as int),
        forall|x: int|
            pre.free_list_for(cs as int).len() <= x < post.free_list_for(cs as int).len() ==> (
            #[trigger] post.free_list_for(cs as int)[x]).data == pre.blocks@.len() + (x
                - pre.free_list_for(cs as int).len()) && post.free_list_for(cs as int)[x].addr
                == post.blocks@[pre.blocks@.len() + (x - pre.free_list_for(
                cs as int,
            ).len())].addr + BLOCKHEADER,
        forall|c: int| spec_is_class(c) && c != cs ==> post.free_list_for(c) == pre.free_list_for(c),
        post.indirect@ == pre.indirect@,
    ensures
        post.wf(),
{
    let prelen = pre.blocks@.len() as int;
    let j_new = pre.chunks@.len() as int;
    let tbs = (BLOCKHEADER + cs) as int;
    assert forall|x: int| 0 <= x < prelen implies post.blocks@[x] == pre.blocks@[x] by {
        assert(post.blocks@.subrange(0, prelen)[x] == post.blocks@[x]);
    }
    assert forall|id: int| 0 <= id < post.blocks@.len() implies #[trigger] post.block_home_wf(
        id,
    ) by {
        if id < prelen {
            assert(pre.block_home_wf(id));
        } else {
            assert(post.chunks@[j_new].data.first_block == prelen);
        }
    }
    assert forall|j: int| 0 <= j < post.chunks@.len() implies #[trigger] post.chunk_wf(j) by {
        if j < j_new {
            assert(pre.chunk_wf(j));
            let d = post.chunks@[j].data;
            assert forall|i: int| 0 <= i < d.n_blocks implies #[trigger] post.block_slot_wf(
                j,
                i,
            ) by {
                assert(pre.block_slot_wf(j, i));
            }
        } else {
            assert(post.chunks@[j].data.first_block == prelen);
            let d = post.chunks@[j].data;
            assert forall|i: int| 0 <= i < d.n_blocks implies #[trigger] post.block_slot_wf(
                j,
                i,
            ) by {
                assert(post.blocks@[prelen + i].addr == base + REGION_HEADER_SIZE + i * tbs);
                assert(post.blocks@[prelen + i].data.memory_chunk == j_new);
                assert(post.blocks@[prelen + i].data.size == cs);
            }
        }
    }
    assert forall|j1: int, j2: int| 0 <= j1 < j2 < post.chunks@.len() implies #[trigger] post
        .chunk_span_disjoint(j1, j2) by {
        if j2 < j_new {
            assert(pre.chunk_span_disjoint(j1, j2));
        } else {
            assert(base + length <= pre.chunks@[j1].addr || pre.chunks@[j1].addr
                + REGION_HEADER_SIZE + pre.chunks@[j1].data.size <= base);
        }
    }
    let flpre = pre.free_list_for(cs as int);
    let flpost = post.free_list_for(cs as int);
    assert forall|x: int| 0 <= x < flpre.len() implies flpost[x] == flpre[x] by {
        assert(flpost.subrange(0, flpre.len() as int)[x] == flpost[x]);
    }
    assert forall|c: int| spec_is_class(c) implies post.free_list_wf(c) by {
        let fl = post.free_list_for(c);
        assert forall|i: int| 0 <= i < fl.len() implies #[trigger] post.free_node_wf(c, i) by {
            if c == cs {
                if i < flpre.len() {
                    assert(pre.free_node_wf(c, i));
                    let id2 = flpre[i].data as int;
                    assert(id2 < prelen);
                } else {
                    assert(fl[i].data == prelen + (i - flpre.len()));
                }
            } else {
                assert(pre.free_node_wf(c, i));
                let id2 = pre.free_list_for(c)[i].data as int;
                assert(id2 < prelen);
            }
        }
        assert forall|i1: int, i2: int|
            0 <= i1 < i2 < fl.len() implies (#[trigger] fl[i1].data) != (#[trigger] fl[i2].data) by {
            if c == cs {
                if i2 < flpre.len() {
                    assert(flpre[i1].data != flpre[i2].data);
                } else if i1 < flpre.len() {
                    assert(pre.free_node_wf(c, i1));
                    assert(flpre[i1].data < prelen);
                    assert(fl[i2].data >= prelen);
                }
            } else {
                assert(pre.free_list_for(c)[i1].data != pre.free_list_for(c)[i2].data);
            }
        }
    }
    assert(spec_is_class(16) && spec_is_class(32) && spec_is_class(64) && spec_is_class(256)
        && spec_is_class(512) && spec_is_class(1024));
    assert(post.free_list_wf(16) && post.free_list_wf(32) && post.free_list_wf(64)
        && post.free_list_wf(256) && post.free_list_wf(512) && post.free_list_wf(1024));
    assert forall|i: int| 0 <= i < post.indirect@.len() implies #[trigger] post.indirect_entry_wf(
        i,
    ) by {
        assert(pre.indirect_entry_wf(i));
        let id2 = pre.indirect@[i].1 as int;
        assert(id2 < prelen);
    }
}

/// The block `id` witnesses a successful allocation of (`size`, `align`)
/// that returned address `a` with usable length `u`: the block is in
/// use, belongs to the routed class, and `a` and `u` carve its payload —
/// directly after the header for an ordinary alignment, behind recorded
/// alignment padding and an indirect slot for an over-aligned one.
pub open spec fn spec_alloc_witness(
    pre: Single_Allocator,
    post: Single_Allocator,
    size: int,
    align: int,
    a: int,
    u: int,
    id: int,
) -> bool {
    let cs = spec_class_payload(spec_minimum_block_size(size, align));
    let payload = post.blocks@[id].addr + BLOCKHEADER;
    &&& 0 <= id < post.blocks@.len()
    &&& id <= usize::MAX
    &&& (id < pre.blocks@.len() ==> pre.blocks@[id].data.is_free)
    &&& !post.blocks@[id].data.is_free
    &&& post.blocks@[id].data.size == cs
    &&& post.blocks@[id].data.memory_chunk < post.chunks@.len()
    &&& payload <= a
    &&& a + u == payload + cs
    &&& (align <= POINTER_SIZE ==> a == payload && u == cs && post.indirect@ == pre.indirect@
        && (forall|i: int|
        0 <= i < post.indirect@.len() ==> (#[trigger] post.indirect@[i]).1 != id))
    &&& (align > POINTER_SIZE ==> a == payload + spec_next_align_padding(payload, align)
        && post.indirect@ == pre.indirect@.push(((a as usize, id as usize))))
}

/// See [`spec_alloc_witness`]: some block witnesses the allocation.
pub open spec fn spec_allocated_block(
    pre: Single_Allocator,
    post: Single_Allocator,
    size: int,
    align: int,
    a: int,
    u: int,
) -> bool {
    exists|id: int| #[trigger] spec_alloc_witness(pre, post, size, align, a, u, id)
}

/// What an allocation leaves untouched: every other class's free list,
/// and every pre-existing block's identity — an in-use block entirely so.
pub open spec fn spec_allocate_frame(
    pre: Single_Allocator,
    post: Single_Allocator,
    cs: int,
) -> bool {
    &&& pre.blocks@.len() <= post.blocks@.len()
    &&& forall|i: int|
        0 <= i < pre.blocks@.len() ==> (#[trigger] post.blocks@[i]).addr == pre.blocks@[i].addr
            && post.blocks@[i].data.memory_chunk == pre.blocks@[i].data.memory_chunk
            && post.blocks@[i].data.size == pre.blocks@[i].data.size && (!pre.blocks@[i]
            .data.is_free ==> post.blocks@[i] == pre.blocks@[i])
    &&& pre.chunks@.len() <= post.chunks@.len()
    &&& post.chunks@.subrange(0, pre.chunks@.len() as int) == pre.chunks@
    &&& forall|c: int| spec_is_class(c) && c != cs ==> post.free_list_for(c) == pre.free_list_for(c)
}

/// Recording one more indirect slot for a fresh in-use block preserves
/// the engine invariant.
proof fn lemma_add_padding_wf(pre: Single_Allocator, post: Single_Allocator, id: int, a: usize)
    requires
        pre.wf(),
        0 <= id < pre.blocks@.len(),
        id <= usize::MAX,
        !pre.blocks@[id].data.is_free,
        pre.blocks@[id].addr + BLOCKHEADER + POINTER_SIZE <= a,
        a <= pre.blocks@[id].addr + BLOCKHEADER + pre.blocks@[id].data.size,
        forall|i: int| 0 <= i < pre.indirect@.len() ==> (#[trigger] pre.indirect@[i]).1 != id,
        post.blocks@ == pre.blocks@,
        post.chunks@ == pre.chunks@,
        forall|c: int| #[trigger] post.free_list_for(c) == pre.free_list_for(c),
        post.indirect@ == pre.indirect@.push(((a, id as usize))),
    ensures
        post.wf(),
{
    assert forall|k: int| 0 <= k < post.blocks@.len() implies #[trigger] post.block_home_wf(k) by {
        assert(pre.block_home_wf(k));
    }
    assert forall|j: int| 0 <= j < post.chunks@.len() implies #[trigger] post.chunk_wf(j) by {
        assert(pre.chunk_wf(j));
        let d = post.chunks@[j].data;
        assert forall|i: int| 0 <= i < d.n_blocks implies #[trigger] post.block_slot_wf(j, i) by {
            assert(pre.block_slot_wf(j, i));
        }
    }
    assert forall|j1: int, j2: int| 0 <= j1 < j2 < post.chunks@.len() implies #[trigger] post
        .chunk_span_disjoint(j1, j2) by {
        assert(pre.chunk_span_disjoint(j1, j2));
    }
    assert forall|c: int| spec_is_class(c) implies post.free_list_wf(c) by {
        let fl = post.free_list_for(c);
        assert(fl == pre.free_list_for(c));
        assert forall|i: int| 0 <= i < fl.len() implies #[trigger] post.free_node_wf(c, i) by {
            assert(pre.free_node_wf(c, i));
        }
        assert forall|i1: int, i2: int|
            0 <= i1 < i2 < fl.len() implies (#[trigger] fl[i1].data) != (#[trigger] fl[i2].data) by {
            assert(pre.free_list_for(c)[i1].data != pre.free_list_for(c)[i2].data);
        }
    }
    assert(spec_is_class(16) && spec_is_class(32) && spec_is_class(64) && spec_is_class(256)
        && spec_is_class(512) && spec_is_class(1024));
    assert(post.free_list_wf(16) && post.free_list_wf(32) && post.free_list_wf(64)
        && post.free_list_wf(256) && post.free_list_wf(512) && post.free_list_wf(1024));
    let n = pre.indirect@.len() as int;
    assert forall|i: int| 0 <= i < post.indirect@.len() implies #[trigger] post.indirect_entry_wf(
        i,
    ) by {
        if i < n {
            assert(pre.indirect_entry_wf(i));
        }
    }
    assert forall|i1: int, i2: int|
        0 <= i1 < i2 < post.indirect@.len() implies (#[trigger] post.indirect@[i1]).0 != (
    #[trigger] post.indirect@[i2]).0 && post.indirect@[i1].1 != post.indirect@[i2].1 by {
        if i2 < n {
            assert(pre.indirect@[i1].0 != pre.indirect@[i2].0);
            assert(pre.indirect@[i1].1 != pre.indirect@[i2].1);
        } else {
            assert(pre.indirect_entry_wf(i1));
            let id1 = pre.indirect@[i1].1 as int;
            assert(id1 != id);
            lemma_blocks_disjoint(&pre, id1, id);
        }
    }
}

/// Freeing one in-use block onto the free list of its recorded size
/// preserves the engine invariant.
proof fn lemma_deallocate_wf(pre: Single_Allocator, post: Single_Allocator, id: int)
    requires
        pre.wf(),
        0 <= id < pre.blocks@.len(),
        id <= usize::MAX,
        !pre.blocks@[id].data.is_free,
        spec_is_class(pre.blocks@[id].data.size as int),
        post.blocks@ == pre.blocks@.update(
            id,
            (Node {
                addr: pre.blocks@[id].addr,
                data: (Block { is_free: true, ..pre.blocks@[id].data }),
            }),
        ),
        post.free_list_for(pre.blocks@[id].data.size as int) == pre.free_list_for(
            pre.blocks@[id].data.size as int,
        ).push(
            (Node {
                addr: (pre.blocks@[id].addr + BLOCKHEADER) as usize,
                data: id as usize,
            }),
        ),
        forall|c: int|
            spec_is_class(c) && c != pre.blocks@[id].data.size ==> post.free_list_for(c)
                == pre.free_list_for(c),
        post.chunks@ == pre.chunks@,
        (post.indirect@ == pre.indirect@ && (forall|i: int|
            0 <= i < pre.indirect@.len() ==> (#[trigger] pre.indirect@[i]).1 != id)) || (
        exists|p: int|
            0 <= p < pre.indirect@.len() && (#[trigger] pre.indirect@[p]).1 == id
                && post.indirect@ == pre.indirect@.remove(p)),
        pre.blocks@[id].addr + BLOCKHEADER <= usize::MAX,
    ensures
        post.wf(),
{
    let cs = pre.blocks@[id].data.size as int;
    assert forall|k: int| 0 <= k < post.blocks@.len() implies #[trigger] post.block_home_wf(k) by {
        assert(pre.block_home_wf(k));
    }
    assert forall|j: int| 0 <= j < post.chunks@.len() implies #[trigger] post.chunk_wf(j) by {
        assert(pre.chunk_wf(j));
        let d = post.chunks@[j].data;
        assert forall|i: int| 0 <= i < d.n_blocks implies #[trigger] post.block_slot_wf(j, i) by {
            assert(pre.block_slot_wf(j, i));
        }
    }
    assert forall|j1: int, j2: int| 0 <= j1 < j2 < post.chunks@.len() implies #[trigger] post
        .chunk_span_disjoint(j1, j2) by {
        assert(pre.chunk_span_disjoint(j1, j2));
    }
    assert forall|c: int| spec_is_class(c) implies post.free_list_wf(c) by {
        let fl = post.free_list_for(c);
        assert forall|i: int| 0 <= i < fl.len() implies #[trigger] post.free_node_wf(c, i) by {
            if c == cs && i == fl.len() - 1 {
                assert(fl[i].data == id);
            } else {
                assert(pre.free_node_wf(c, i));
                let id2 = pre.free_list_for(c)[i].data as int;
                assert(pre.blocks@[id2].data.is_free);
                assert(id2 != id);
            }
        }
        assert forall|i1: int, i2: int|
            0 <= i1 < i2 < fl.len() implies (#[trigger] fl[i1].data) != (#[trigger] fl[i2].data) by {
            if c == cs && i2 == fl.len() - 1 {
                assert(pre.free_node_wf(c, i1));
                let id1 = pre.free_list_for(c)[i1].data as int;
                assert(pre.blocks@[id1].data.is_free);
                assert(id1 != id);
            } else {
                assert(pre.free_list_for(c)[i1].data != pre.free_list_for(c)[i2].data);
            }
        }
    }
    assert(spec_is_class(16) && spec_is_class(32) && spec_is_class(64) && spec_is_class(256)
        && spec_is_class(512) && spec_is_class(1024));
    assert(post.free_list_wf(16) && post.free_list_wf(32) && post.free_list_wf(64)
        && post.free_list_wf(256) && post.free_list_wf(512) && post.free_list_wf(1024));
    if post.indirect@ == pre.indirect@ && (forall|i: int|
        0 <= i < pre.indirect@.len() ==> (#[trigger] pre.indirect@[i]).1 != id) {
        assert forall|i: int| 0 <= i < post.indirect@.len() implies #[trigger] post
            .indirect_entry_wf(i) by {
            assert(pre.indirect_entry_wf(i));
            assert(pre.indirect@[i].1 != id);
        }
        assert forall|i1: int, i2: int|
            0 <= i1 < i2 < post.indirect@.len() implies (#[trigger] post.indirect@[i1]).0 != (
        #[trigger] post.indirect@[i2]).0 && post.indirect@[i1].1 != post.indirect@[i2].1 by {
            assert(pre.indirect@[i1].0 != pre.indirect@[i2].0);
            assert(pre.indirect@[i1].1 != pre.indirect@[i2].1);
        }
    } else {
        let p = choose|p: int|
            0 <= p < pre.indirect@.len() && (#[trigger] pre.indirect@[p]).1 == id && post.indirect@
                == pre.indirect@.remove(p);
        assert forall|k: int| 0 <= k < post.indirect@.len() implies post.indirect@[k] == (if k < p {
            pre.indirect@[k]
        } else {
            pre.indirect@[k + 1]
        }) by {}
        assert forall|i: int| 0 <= i < post.indirect@.len() implies #[trigger] post
            .indirect_entry_wf(i) by {
            let i0 = if i < p {
                i
            } else {
                i + 1
            };
            assert(pre.indirect_entry_wf(i0));
            if i0 < p {
                assert(pre.indirect@[i0].1 != pre.indirect@[p].1);
            } else if i0 > p {
                assert(pre.indirect@[p].1 != pre.indirect@[i0].1);
            }
        }
        assert forall|i1: int, i2: int|
            0 <= i1 < i2 < post.indirect@.len() implies (#[trigger] post.indirect@[i1]).0 != (
        #[trigger] post.indirect@[i2]).0 && post.indirect@[i1].1 != post.indirect@[i2].1 by {
            let k1 = if i1 < p {
                i1
            } else {
                i1 + 1
            };
            let k2 = if i2 < p {
                i2
            } else {
                i2 + 1
            };
            assert(pre.indirect@[k1].0 != pre.indirect@[k2].0);
            assert(pre.indirect@[k1].1 != pre.indirect@[k2].1);
        }
    }
}

/// The geometry facts a single block inherits from its chunk: its span
/// lies inside the chunk's usable span, fits in the address space, and
/// starts at a pointer-aligned address.
pub proof fn lemma_block_geometry(a: &Single_Allocator, id: int)
    requires
        a.wf(),
        0 <= id < a.blocks@.len(),
    ensures
        spec_is_class(a.blocks@[id].data.size as int),
        a.blocks@[id].data.memory_chunk < a.chunks@.len(),
        ({
            let ch = a.chunks@[a.blocks@[id].data.memory_chunk as int];
            &&& ch.addr + REGION_HEADER_SIZE <= a.blocks@[id].addr
            &&& a.blocks@[id].addr + BLOCKHEADER + a.blocks@[id].data.size
                <= ch.addr + REGION_HEADER_SIZE + ch.data.size
        }),
        a.blocks@[id].addr + BLOCKHEADER + a.blocks@[id].data.size <= usize::MAX,
        POINTER_SIZE <= a.blocks@[id].addr,
        (a.blocks@[id].addr as int) % (POINTER_SIZE as int) == 0,
{
    assert(a.block_home_wf(id));
    let j = a.blocks@[id].data.memory_chunk as int;
    assert(a.chunk_wf(j));
    let ch = a.chunks@[j];
    let d = ch.data;
    let i = id - d.first_block;
    assert(a.block_slot_wf(j, i));
    let tbs = BLOCKHEADER + d.block_size;
    assert(0 <= i * tbs) by (nonlinear_arith)
        requires
            0 <= i,
            0 <= tbs,
    ;
    assert((i + 1) * tbs <= d.n_blocks * tbs) by (nonlinear_arith)
        requires
            i + 1 <= d.n_blocks,
            0 <= tbs,
    ;
    assert((i + 1) * tbs == i * tbs + tbs) by (nonlinear_arith);
    assert((a.blocks@[id].addr as int) % (POINTER_SIZE as int) == 0) by {
        let p = POINTER_SIZE as int;
        assert(tbs % p == 0);
        assert((i * tbs) % p == 0) by {
            let t = tbs / p;
            vstd::arithmetic::div_mod::lemma_fundamental_div_mod(tbs, p);
            assert(i * tbs == p * (i * t)) by (nonlinear_arith)
                requires
                    tbs == p * t,
            ;
            vstd::arithmetic::div_mod::lemma_mod_multiples_basic(i * t, p);
            assert(p * (i * t) == (i * t) * p) by (nonlinear_arith);
        }
        assert((ch.addr + REGION_HEADER_SIZE + i * tbs) % p == 0) by {
            let base = ch.addr + REGION_HEADER_SIZE;
            assert(base % p == 0) by {
                vstd::arithmetic::div_mod::lemma_add_mod_noop(ch.addr as int, REGION_HEADER_SIZE as int, p);
            }
            vstd::arithmetic::div_mod::lemma_add_mod_noop(base, i * tbs, p);
        }
    }
}

/// Two distinct blocks occupy disjoint spans: within one chunk the carved
/// positions step apart by whole block sizes, and across chunks the
/// chunks' own spans are disjoint.
pub proof fn lemma_blocks_disjoint(a: &Single_Allocator, id1: int, id2: int)
    requires
        a.wf(),
        0 <= id1 < a.blocks@.len(),
        0 <= id2 < a.blocks@.len(),
        id1 != id2,
    ensures
        a.blocks@[id1].addr + BLOCKHEADER + a.blocks@[id1].data.size <= a.blocks@[id2].addr
            || a.blocks@[id2].addr + BLOCKHEADER + a.blocks@[id2].data.size <= a.blocks@[id1].addr,
{
    lemma_block_geometry(a, id1);
    lemma_block_geometry(a, id2);
    assert(a.block_home_wf(id1));
    assert(a.block_home_wf(id2));
    let j1 = a.blocks@[id1].data.memory_chunk as int;
    let j2 = a.blocks@[id2].data.memory_chunk as int;
    assert(a.chunk_wf(j1));
    assert(a.chunk_wf(j2));
    if j1 == j2 {
        let d = a.chunks@[j1].data;
        let i1 = id1 - d.first_block;
        let i2 = id2 - d.first_block;
        assert(a.block_slot_wf(j1, i1));
        assert(a.block_slot_wf(j1, i2));
        let tbs = BLOCKHEADER + d.block_size;
        if i1 < i2 {
            assert((i1 + 1) * tbs <= i2 * tbs) by (nonlinear_arith)
                requires
                    i1 + 1 <= i2,
                    0 <= tbs,
            ;
            assert((i1 + 1) * tbs == i1 * tbs + tbs) by (nonlinear_arith);
        } else {
            assert((i2 + 1) * tbs <= i1 * tbs) by (nonlinear_arith)
                requires
                    i2 + 1 <= i1,
                    0 <= tbs,
            ;
            assert((i2 + 1) * tbs == i2 * tbs + tbs) by (nonlinear_arith);
        }
    } else {
        if j1 < j2 {
            assert(a.chunk_span_disjoint(j1, j2));
        } else {
            assert(a.chunk_span_disjoint(j2, j1));
        }
    }
}

impl Single_Allocator {
    /// The first available block of the class the minimum block size
    /// `size` routes to: first-fit within the class, no search beyond
    /// the list's head.
    fn find_block(&self, size: usize) -> (r: Option<usize>)
        requires
            self.wf(),
            size <= 1024,
        ensures
            ({
                let cs = spec_class_payload(size as int);
                &&& (r is Some <==> self.free_list_for(cs).len() > 0)
                &&& (r matches Some(id) ==> self.free_list_for(cs).len() > 0 && id
                    == self.free_list_for(cs)[0].data)
            }),
    {
        if size <= 16 {
            if self.free_blocks_16.len() > 0 {
                Some(crate::list::Header::<Block>::from_free_node(self.free_blocks_16.get(0)))
            } else {
                None
            }
        } else if size <= 32 {
            if self.free_blocks_32.len() > 0 {
                Some(crate::list::Header::<Block>::from_free_node(self.free_blocks_32.get(0)))
            } else {
                None
            }
        } else if size <= 64 {
            if self.free_blocks_64.len() > 0 {
                Some(crate::list::Header::<Block>::from_free_node(self.free_blocks_64.get(0)))
            } else {
                None
            }
        } else if size <= 256 {
            if self.free_blocks_256.len() > 0 {
                Some(crate::list::Header::<Block>::from_free_node(self.free_blocks_256.get(0)))
            } else {
                None
            }
        } else if size <= 512 {
            if self.free_blocks_512.len() > 0 {
                Some(crate::list::Header::<Block>::from_free_node(self.free_blocks_512.get(0)))
            } else {
                None
            }
        } else {
            if self.free_blocks_1024.len() > 0 {
                Some(crate::list::Header::<Block>::from_free_node(self.free_blocks_1024.get(0)))
            } else {
                None
            }
        }
    }

    /// Turn the in-use block `id` into the caller-visible pointer: for a
    /// pointer-width alignment the payload itself; for a larger one the
    /// next aligned address inside the payload, with the indirect header
    /// slot recorded for it and the usable length reduced by the padding
    /// consumed.
    fn add_padding(&mut self, id: usize, align: usize) -> (r: (usize, usize))
        requires
            old(self).wf(),
            spec_align_ok(align as int),
            id < old(self).blocks@.len(),
            !old(self).blocks@[id as int].data.is_free,
            align <= old(self).blocks@[id as int].data.size,
            forall|i: int|
                0 <= i < old(self).indirect@.len() ==> (#[trigger] old(self).indirect@[i]).1 != id,
        ensures
            final(self).wf(),
            final(self).blocks@ == old(self).blocks@,
            final(self).chunks@ == old(self).chunks@,
            forall|c: int| #[trigger] final(self).free_list_for(c) == old(self).free_list_for(c),
            (r.0 as int) % (align as int) == 0,
            ({
                let payload = old(self).blocks@[id as int].addr + BLOCKHEADER;
                let csz = old(self).blocks@[id as int].data.size;
                &&& payload <= r.0
                &&& r.0 + r.1 == payload + csz
                &&& (align <= POINTER_SIZE ==> r.0 == payload && r.1 == csz && final(self).indirect@ == old(self).indirect@)
                &&& (align > POINTER_SIZE ==> r.0 == payload + spec_next_align_padding(
                    payload as int,
                    align as int,
                ) && r.1 >= csz - align && final(self).indirect@ == old(self).indirect@.push(
                    ((r.0, id)),
                ))
            }),
    {
        let ghost pre = *self;
        proof {
            lemma_block_geometry(&pre, id as int);
        }
        let payload = self.blocks[id].addr + BLOCKHEADER;
        proof {
            vstd::arithmetic::div_mod::lemma_add_mod_noop(
                self.blocks@[id as int].addr as int,
                BLOCKHEADER as int,
                POINTER_SIZE as int,
            );
            assert((payload as int) % (POINTER_SIZE as int) == 0);
        }
        if align <= POINTER_SIZE {
            proof {
                crate::alignment::lemma_pointer_align_divides(payload as int, align as int);
            }
            return (payload, self.blocks[id].data.size);
        }
        let na = next_aligned(payload, align);
        proof {
            lemma_align_padding_slot(payload as int, align as int);
        }
        let usable = self.blocks[id].data.size - na.1;
        self.indirect.push((na.0, id));
        proof {
            lemma_add_padding_wf(pre, *self, id as int, na.0);
        }
        (na.0, usable)
    }

    /// Serve an allocation of `size` bytes at alignment `align`: route
    /// the request to its size class, take the first free block of that
    /// class — carving a fresh chunk from the memory source if the class
    /// is dry — and hand back an aligned address with its usable length.
    /// A request beyond the largest class fails fast with
    /// `UnsupportedSize`, touching nothing; a request the source cannot
    /// back fails with `ExhaustedSource`, touching nothing.
    pub fn allocate<M: Memory>(&mut self, size: usize, align: usize, source: &mut M) -> (r: Result<
        (usize, usize),
        AllocError,
    >)
        requires
            old(self).wf(),
            spec_align_ok(align as int),
        ensures
            final(self).wf(),
            (spec_minimum_block_size(size as int, align as int) > 1024 <==> r == Err::<
                (usize, usize),
                AllocError,
            >(AllocError::UnsupportedSize)),
            r is Err ==> *final(self) == *old(self),
            ({
                let min = spec_minimum_block_size(size as int, align as int);
                let cs = spec_class_payload(min);
                &&& (min <= 1024 && old(self).free_list_for(cs).len() > 0 ==> r is Ok)
                &&& (min <= 1024 && r is Err ==> r == Err::<(usize, usize), AllocError>(
                    AllocError::ExhaustedSource,
                ) && old(self).free_list_for(cs).len() == 0)
                &&& (r matches Ok(p) ==> {
                    &&& (p.0 as int) % (align as int) == 0
                    &&& p.1 >= size
                    &&& p.1 <= cs
                    &&& spec_allocated_block(
                        *old(self),
                        *final(self),
                        size as int,
                        align as int,
                        p.0 as int,
                        p.1 as int,
                    )
                    &&& spec_allocate_frame(*old(self), *final(self), cs)
                    &&& (old(self).free_list_for(cs).len() > 0 ==> final(self).chunks@ == old(self).chunks@ && final(self).free_list_for(cs) == old(self).free_list_for(
                        cs,
                    ).remove(0) && final(self).blocks@ == old(self).blocks@.update(
                        old(self).free_list_for(cs)[0].data as int,
                        (Node {
                            addr: old(self).blocks@[old(self).free_list_for(cs)[0].data as int].addr,
                            data: (Block {
                                is_free: false,
                                ..old(self).blocks@[old(self).free_list_for(cs)[0].data as int].data
                            }),
                        }),
                    ))
                    &&& (old(self).free_list_for(cs).len() == 0 ==> final(self).chunks@.len()
                        == old(self).chunks@.len() + 1 && spec_alloc_witness(
                        *old(self),
                        *final(self),
                        size as int,
                        align as int,
                        p.0 as int,
                        p.1 as int,
                        old(self).blocks@.len() as int,
                    ))
                })
            }),
    {
        if size > 1024 || align > 1024 {
            proof {
                lemma_padding_needed(size as int, POINTER_SIZE as int);
            }
            return Err(AllocError::UnsupportedSize);
        }
        let min = minimum_block_size_for(size, align);
        let cs = match class_payload_of(min) {
            Some(c) => c,
            None => {
                return Err(AllocError::UnsupportedSize);
            },
        };
        let ghost pre = *self;
        let found = self.find_block(min);
        if found.is_none() {
            match self.get_memory_chunk(cs, source) {
                Ok(_) => {},
                Err(e) => {
                    return Err(e);
                },
            }
        }
        proof {
            assert(self.free_list_for(cs as int).len() > 0);
        }
        let ghost mid = *self;
        let id = self.take_class_head(cs);
        proof {
            lemma_padding_needed(size as int, POINTER_SIZE as int);
            if align > POINTER_SIZE {
                assert(align <= min);
            }
            assert(align <= cs);
        }
        let pr = self.add_padding(id, align);
        proof {
            lemma_block_geometry(self, id as int);
            let min = spec_minimum_block_size(size as int, align as int);
            assert(min <= cs);
            assert(size <= min);
            if align > POINTER_SIZE {
                assert(pr.1 >= cs - align);
                assert(pr.1 >= size);
            } else {
                assert(pr.1 == cs);
            }
            if id < pre.blocks@.len() {
                assert(pre.blocks@[id as int].data.is_free);
            }
            if pre.free_list_for(cs as int).len() == 0 {
                assert(mid.free_list_for(cs as int)[0].data == pre.blocks@.len());
                assert(id == pre.blocks@.len());
            }
            assert(self.chunks@.subrange(0, pre.chunks@.len() as int) =~= pre.chunks@);
            assert(spec_alloc_witness(
                pre,
                *self,
                size as int,
                align as int,
                pr.0 as int,
                pr.1 as int,
                id as int,
            ));
        }
        Ok((pr.0, pr.1))
    }

    /// Give the block behind a pointer previously returned by `allocate`
    /// back to the allocator: the block is resolved through the same
    /// dual path allocation used, then joins the free list matching its
    /// recorded size.  The caller passes the layout the block was
    /// allocated with; a pointer or layout that no live allocation
    /// produced is outside this contract.
    pub fn deallocate(&mut self, address: usize, _size: usize, align: usize)
        requires
            old(self).wf(),
            spec_align_ok(align as int),
            old(self).spec_resolve(address as int, align as int) is Some,
            old(self).spec_resolve(address as int, align as int) matches Some(id) ==> !old(self).blocks@[id].data.is_free && (align <= POINTER_SIZE ==> forall|i: int|
                0 <= i < old(self).indirect@.len() ==> (#[trigger] old(self).indirect@[i]).1
                    != id),
        ensures
            final(self).wf(),
            old(self).spec_resolve(address as int, align as int) matches Some(id) ==> {
                let cs = old(self).blocks@[id].data.size as int;
                &&& final(self).blocks@ == old(self).blocks@.update(
                    id,
                    (Node {
                        addr: old(self).blocks@[id].addr,
                        data: (Block { is_free: true, ..old(self).blocks@[id].data }),
                    }),
                )
                &&& final(self).free_list_for(cs) == old(self).free_list_for(cs).push(
                    (Node {
                        addr: (old(self).blocks@[id].addr + BLOCKHEADER) as usize,
                        data: id as usize,
                    }),
                )
                &&& forall|c: int|
                    spec_is_class(c) && c != cs ==> final(self).free_list_for(c) == old(self).free_list_for(c)
                &&& final(self).chunks@ == old(self).chunks@
                &&& (align <= POINTER_SIZE ==> final(self).indirect@ == old(self).indirect@)
                &&& (align > POINTER_SIZE ==> (old(self).spec_indirect_pos(address as int)
                    matches Some(p) && final(self).indirect@ == old(self).indirect@.remove(p)))
            },
    {
        let ghost pre = *self;
        let id: usize;
        if align <= POINTER_SIZE {
            id = match self.from_allocated_pointer(address, align) {
                Some(i) => i,
                None => {
                    proof {
                        assert(false);
                    }
                    0
                },
            };
        } else {
            let pos = match self.indirect_pos_of(address) {
                Some(p) => p,
                None => {
                    proof {
                        assert(false);
                    }
                    0
                },
            };
            id = self.indirect[pos].1;
            proof {
                assert(pre.indirect_entry_wf(pos as int));
            }
            self.indirect.remove(pos);
        }
        proof {
            lemma_block_geometry(&pre, id as int);
        }
        let cs = self.blocks[id].data.size;
        if cs <= 16 {
            self.free_blocks_16.append_block(&mut self.blocks, id);
        } else if cs <= 32 {
            self.free_blocks_32.append_block(&mut self.blocks, id);
        } else if cs <= 64 {
            self.free_blocks_64.append_block(&mut self.blocks, id);
        } else if cs <= 256 {
            self.free_blocks_256.append_block(&mut self.blocks, id);
        } else if cs <= 512 {
            self.free_blocks_512.append_block(&mut self.blocks, id);
        } else {
            self.free_blocks_1024.append_block(&mut self.blocks, id);
        }
        proof {
            lemma_deallocate_wf(pre, *self, id as int);
        }
    }
}

/// One relocation request: the live pointer, the layout it was allocated
/// with, and the layout it should move to.
pub struct Reallocator {
    pub addr: usize,
    pub new_size: usize,
    pub new_align: usize,
    pub old_size: usize,
    pub old_align: usize,
}

impl Reallocator {
    /// Describe a relocation of the allocation at `addr` from its old
    /// layout to a new one.
    pub fn new(addr: usize, new_size: usize, new_align: usize, old_size: usize, old_align: usize)
        -> (s: Self)
        ensures
            s == (Reallocator { addr, new_size, new_align, old_size, old_align }),
    {
        Reallocator { addr, new_size, new_align, old_size, old_align }
    }

    /// How many payload bytes move: the smaller of the two sizes — only
    /// that many are valid in both the old and the new block.
    pub fn size(&self) -> (r: usize)
        ensures
            r == if self.old_size < self.new_size {
                self.old_size
            } else {
                self.new_size
            },
    {
        if self.old_size < self.new_size {
            self.old_size
        } else {
            self.new_size
        }
    }
}

impl Single_Allocator {
    /// Relocate a live allocation: allocate a block for the new layout,
    /// then free the old block.  Returns the new address, its usable
    /// length, and how many payload bytes the caller must copy from the
    /// old address to the new one — the smaller of the two sizes.  The
    /// old payload bytes are not touched by the engine, so the copy may
    /// happen after this call, before the old block is reused.
    pub fn reallocate<M: Memory>(&mut self, realloc: &Reallocator, source: &mut M) -> (r: Result<
        (usize, usize, usize),
        AllocError,
    >)
        requires
            old(self).wf(),
            spec_align_ok(realloc.new_align as int),
            spec_align_ok(realloc.old_align as int),
            old(self).spec_resolve(realloc.addr as int, realloc.old_align as int) is Some,
            old(self).spec_resolve(realloc.addr as int, realloc.old_align as int) matches Some(id)
                ==> !old(self).blocks@[id].data.is_free && (realloc.old_align <= POINTER_SIZE
                ==> forall|i: int|
                0 <= i < old(self).indirect@.len() ==> (#[trigger] old(self).indirect@[i]).1
                    != id),
        ensures
            final(self).wf(),
            (spec_minimum_block_size(realloc.new_size as int, realloc.new_align as int) > 1024
                <==> r == Err::<(usize, usize, usize), AllocError>(AllocError::UnsupportedSize)),
            r is Err ==> *final(self) == *old(self),
            ({
                let minn = spec_minimum_block_size(
                    realloc.new_size as int,
                    realloc.new_align as int,
                );
                minn <= 1024 && old(self).free_list_for(spec_class_payload(minn)).len() > 0
                    ==> r is Ok
            }),
            r matches Ok(p) ==> {
                &&& p.2 == if realloc.old_size < realloc.new_size {
                    realloc.old_size as int
                } else {
                    realloc.new_size as int
                }
                &&& (p.0 as int) % (realloc.new_align as int) == 0
                &&& p.1 >= realloc.new_size
                &&& p.0 != realloc.addr
                &&& (old(self).spec_resolve(realloc.addr as int, realloc.old_align as int)
                    matches Some(id) ==> final(self).blocks@[id].data.is_free && (exists|k: int|
                    0 <= k < final(self).free_list_for(
                        old(self).blocks@[id].data.size as int,
                    ).len() && (#[trigger] final(self).free_list_for(
                        old(self).blocks@[id].data.size as int,
                    )[k]).data == id))
            },
    {
        self.realloc_move(realloc, source)
    }

    /// The allocate-new, copy, free-old strategy behind `reallocate`.
    fn realloc_move<M: Memory>(&mut self, realloc: &Reallocator, source: &mut M) -> (r: Result<
        (usize, usize, usize),
        AllocError,
    >)
        requires
            old(self).wf(),
            spec_align_ok(realloc.new_align as int),
            spec_align_ok(realloc.old_align as int),
            old(self).spec_resolve(realloc.addr as int, realloc.old_align as int) is Some,
            old(self).spec_resolve(realloc.addr as int, realloc.old_align as int) matches Some(id)
                ==> !old(self).blocks@[id].data.is_free && (realloc.old_align <= POINTER_SIZE
                ==> forall|i: int|
                0 <= i < old(self).indirect@.len() ==> (#[trigger] old(self).indirect@[i]).1
                    != id),
        ensures
            final(self).wf(),
            (spec_minimum_block_size(realloc.new_size as int, realloc.new_align as int) > 1024
                <==> r == Err::<(usize, usize, usize), AllocError>(AllocError::UnsupportedSize)),
            r is Err ==> *final(self) == *old(self),
            ({
                let minn = spec_minimum_block_size(
                    realloc.new_size as int,
                    realloc.new_align as int,
                );
                minn <= 1024 && old(self).free_list_for(spec_class_payload(minn)).len() > 0
                    ==> r is Ok
            }),
            r matches Ok(p) ==> {
                &&& p.2 == if realloc.old_size < realloc.new_size {
                    realloc.old_size as int
                } else {
                    realloc.new_size as int
                }
                &&& (p.0 as int) % (realloc.new_align as int) == 0
                &&& p.1 >= realloc.new_size
                &&& p.0 != realloc.addr
                &&& (old(self).spec_resolve(realloc.addr as int, realloc.old_align as int)
                    matches Some(id) ==> final(self).blocks@[id].data.is_free && (exists|k: int|
                    0 <= k < final(self).free_list_for(
                        old(self).blocks@[id].data.size as int,
                    ).len() && (#[trigger] final(self).free_list_for(
                        old(self).blocks@[id].data.size as int,
                    )[k]).data == id))
            },
    {
        let ghost pre = *self;
        let ghost id_old = pre.spec_resolve(
            realloc.addr as int,
            realloc.old_align as int,
        )->Some_0;
        let p = match self.allocate(realloc.new_size, realloc.new_align, source) {
            Ok(p) => p,
            Err(e) => {
                return Err(e);
            },
        };
        let copy = realloc.size();
        let nblocks = self.blocks.len();
        let ghost mid = *self;
        proof {
            lemma_resolve_stable(pre, mid, realloc, p.0 as int, p.1 as int, id_old);
        }
        self.deallocate(realloc.addr, realloc.old_size, realloc.old_align);
        proof {
            assert(mid.spec_resolve(realloc.addr as int, realloc.old_align as int) == Some(
                id_old,
            ));
            assert(self.blocks@ == mid.blocks@.update(
                id_old,
                (Node {
                    addr: mid.blocks@[id_old].addr,
                    data: (Block { is_free: true, ..mid.blocks@[id_old].data }),
                }),
            ));
            assert(self.blocks@[id_old].data.is_free);
            assert(mid.blocks@[id_old] == pre.blocks@[id_old]);
            let csold = pre.blocks@[id_old].data.size as int;
            let fl = self.free_list_for(csold);
            assert(fl == mid.free_list_for(csold).push(
                (Node {
                    addr: (mid.blocks@[id_old].addr + BLOCKHEADER) as usize,
                    data: id_old as usize,
                }),
            ));
            assert(id_old < nblocks);
            assert(fl[fl.len() - 1].data == id_old);
        }
        Ok((p.0, p.1, copy))
    }
}

/// After an allocation, a live pointer of the old state still resolves
/// to the same in-use block, and the fresh address lies in a different
/// block's payload than the old pointer, so the two addresses differ.
proof fn lemma_resolve_stable(
    pre: Single_Allocator,
    mid: Single_Allocator,
    realloc: &Reallocator,
    a: int,
    u: int,
    id_old: int,
)
    requires
        pre.wf(),
        mid.wf(),
        spec_align_ok(realloc.old_align as int),
        spec_align_ok(realloc.new_align as int),
        pre.spec_resolve(realloc.addr as int, realloc.old_align as int) == Some(id_old),
        !pre.blocks@[id_old].data.is_free,
        0 <= u,
        realloc.old_align <= POINTER_SIZE ==> forall|i: int|
            0 <= i < pre.indirect@.len() ==> (#[trigger] pre.indirect@[i]).1 != id_old,
        spec_allocated_block(
            pre,
            mid,
            realloc.new_size as int,
            realloc.new_align as int,
            a,
            u,
        ),
        spec_allocate_frame(
            pre,
            mid,
            spec_class_payload(
                spec_minimum_block_size(realloc.new_size as int, realloc.new_align as int),
            ),
        ),
    ensures
        mid.spec_resolve(realloc.addr as int, realloc.old_align as int) == Some(id_old),
        0 <= id_old < mid.blocks@.len(),
        id_old < pre.blocks@.len(),
        !mid.blocks@[id_old].data.is_free,
        realloc.old_align <= POINTER_SIZE ==> forall|i: int|
            0 <= i < mid.indirect@.len() ==> (#[trigger] mid.indirect@[i]).1 != id_old,
        a != realloc.addr,
{
    let q = realloc.addr as int;
    let oa = realloc.old_align as int;
    // the old pointer's block exists: its resolution says so
    if oa <= POINTER_SIZE {
        let w = choose|k: int|
            0 <= k < pre.blocks@.len() && (#[trigger] pre.blocks@[k]).addr + BLOCKHEADER == q;
        assert(w == id_old);
    } else {
        let p0 = choose|i: int|
            0 <= i < pre.indirect@.len() && (#[trigger] pre.indirect@[i]).0 == q;
        assert(pre.indirect_entry_wf(p0));
        assert(pre.indirect@[p0].1 == id_old);
    }
    assert(0 <= id_old < pre.blocks@.len());
    let id_new = choose|id: int|
        #[trigger] spec_alloc_witness(
            pre,
            mid,
            realloc.new_size as int,
            realloc.new_align as int,
            a,
            u,
            id,
        );
    assert(spec_alloc_witness(
        pre,
        mid,
        realloc.new_size as int,
        realloc.new_align as int,
        a,
        u,
        id_new,
    ));
    assert(mid.blocks@[id_old] == pre.blocks@[id_old]);
    assert(id_new != id_old);
    // the old pointer still resolves to the old block
    if oa <= POINTER_SIZE {
        assert(pre.blocks@[id_old].addr + BLOCKHEADER == q);
        assert(mid.blocks@[id_old].addr + BLOCKHEADER == q);
        assert(mid.spec_direct_id(q) is Some);
        let w = choose|k: int|
            0 <= k < mid.blocks@.len() && (#[trigger] mid.blocks@[k]).addr + BLOCKHEADER == q;
        lemma_block_addr_unique(&mid, w, id_old);
        assert forall|i: int|
            0 <= i < mid.indirect@.len() implies (#[trigger] mid.indirect@[i]).1 != id_old by {
            if realloc.new_align <= POINTER_SIZE {
                assert(mid.indirect@[i].1 != id_old);
            } else {
                if i < pre.indirect@.len() {
                    assert(pre.indirect@[i].1 != id_old);
                } else {
                    assert(mid.indirect@[i].1 == id_new as usize);
                    assert((id_new as usize) as int == id_new);
                }
            }
        }
    } else {
        let p0 = choose|i: int|
            0 <= i < pre.indirect@.len() && (#[trigger] pre.indirect@[i]).0 == q;
        assert(pre.indirect@[p0].1 == id_old);
        assert(mid.indirect@[p0] == pre.indirect@[p0]);
        assert(mid.spec_indirect_pos(q) is Some);
        let p1 = choose|i: int|
            0 <= i < mid.indirect@.len() && (#[trigger] mid.indirect@[i]).0 == q;
        if p1 != p0 {
            if p1 < p0 {
                assert(mid.indirect@[p1].0 != mid.indirect@[p0].0);
            } else {
                assert(mid.indirect@[p0].0 != mid.indirect@[p1].0);
            }
        }
        assert(mid.spec_resolve(q, oa) == Some(id_old));
    }
    // the fresh address lies in the new block's payload, the old pointer
    // in the old block's; their spans are disjoint
    lemma_blocks_disjoint(&mid, id_old, id_new);
    let cs = spec_class_payload(
        spec_minimum_block_size(realloc.new_size as int, realloc.new_align as int),
    );
    assert(mid.blocks@[id_new].addr + BLOCKHEADER <= a <= mid.blocks@[id_new].addr + BLOCKHEADER
        + cs);
    if oa <= POINTER_SIZE {
        assert(q == mid.blocks@[id_old].addr + BLOCKHEADER);
    } else {
        let p0 = choose|i: int|
            0 <= i < pre.indirect@.len() && (#[trigger] pre.indirect@[i]).0 == q;
        assert(pre.indirect_entry_wf(p0));
    }
    assert(a != q);
}

/// Routing a layout to its size class reads no engine state: two
/// successful allocations of the same layout, served by any two engines
/// in any two states, land in blocks of the same recorded size.
pub proof fn lemma_class_routing_stable(
    pre1: Single_Allocator,
    post1: Single_Allocator,
    pre2: Single_Allocator,
    post2: Single_Allocator,
    size: int,
    align: int,
    a1: int,
    u1: int,
    a2: int,
    u2: int,
)
    requires
        spec_allocated_block(pre1, post1, size, align, a1, u1),
        spec_allocated_block(pre2, post2, size, align, a2, u2),
    ensures
        ({
            let id1 = choose|id: int|
                #[trigger] spec_alloc_witness(pre1, post1, size, align, a1, u1, id);
            let id2 = choose|id: int|
                #[trigger] spec_alloc_witness(pre2, post2, size, align, a2, u2, id);
            post1.blocks@[id1].data.size == post2.blocks@[id2].data.size
        }),
{
    let id1 = choose|id: int| #[trigger] spec_alloc_witness(pre1, post1, size, align, a1, u1, id);
    let id2 = choose|id: int| #[trigger] spec_alloc_witness(pre2, post2, size, align, a2, u2, id);
    assert(spec_alloc_witness(pre1, post1, size, align, a1, u1, id1));
    assert(spec_alloc_witness(pre2, post2, size, align, a2, u2, id2));
}

/// Round trip: the block taken by an allocation records exactly the
/// payload size of the class its layout routes to.  `deallocate` files a
/// block by its recorded size, so freeing the block puts it back on the
/// very list a fresh allocation of an equal-class layout is served from,
/// where it may be reused.
pub proof fn lemma_round_trip_class(
    pre: Single_Allocator,
    post: Single_Allocator,
    size: int,
    align: int,
    a: int,
    u: int,
)
    requires
        spec_allocated_block(pre, post, size, align, a, u),
    ensures
        ({
            let id = choose|id: int|
                #[trigger] spec_alloc_witness(pre, post, size, align, a, u, id);
            post.blocks@[id].data.size == spec_class_payload(
                spec_minimum_block_size(size, align),
            )
        }),
{
    let id = choose|id: int| #[trigger] spec_alloc_witness(pre, post, size, align, a, u, id);
    assert(spec_alloc_witness(pre, post, size, align, a, u, id));
}

/// For every chunk: the blocks carved from it account for at most its
/// usable size — their total sizes sum to `n_blocks` times the class's
/// whole block size, with only an undersized remainder unused — they
/// are consecutive in address order, the first starting immediately
/// after the chunk's own header, every span lies within the acquired
/// region, and no two of their spans overlap.
pub proof fn lemma_chunk_carving_sound(a: &Single_Allocator, j: int)
    requires
        a.wf(),
        0 <= j < a.chunks@.len(),
    ensures
        ({
            let d = a.chunks@[j].data;
            &&& d.n_blocks * (BLOCKHEADER + d.block_size) <= d.size
            &&& d.size - d.n_blocks * (BLOCKHEADER + d.block_size) < BLOCKHEADER + d.block_size
        }),
        a.blocks@[a.chunks@[j].data.first_block as int].addr == a.chunks@[j].addr
            + REGION_HEADER_SIZE,
        forall|i: int|
            a.chunks@[j].data.first_block <= i < a.chunks@[j].data.first_block
                + a.chunks@[j].data.n_blocks - 1 ==> (#[trigger] a.blocks@[i + 1]).addr == (
            #[trigger] a.blocks@[i]).addr + BLOCKHEADER + a.blocks@[i].data.size,
        forall|i: int|
            a.chunks@[j].data.first_block <= i < a.chunks@[j].data.first_block
                + a.chunks@[j].data.n_blocks ==> a.chunks@[j].addr + REGION_HEADER_SIZE <= (
            #[trigger] a.blocks@[i]).addr && a.blocks@[i].addr + BLOCKHEADER
                + a.blocks@[i].data.size <= a.chunks@[j].addr + REGION_HEADER_SIZE
                + a.chunks@[j].data.size,
        forall|i1: int, i2: int|
            a.chunks@[j].data.first_block <= i1 < i2 < a.chunks@[j].data.first_block
                + a.chunks@[j].data.n_blocks ==> (#[trigger] a.blocks@[i1]).addr + BLOCKHEADER
                + a.blocks@[i1].data.size <= (#[trigger] a.blocks@[i2]).addr,
{
    assert(a.chunk_wf(j));
    let d = a.chunks@[j].data;
    assert(d.size < (d.n_blocks + 1) * (BLOCKHEADER + d.block_size));
    assert((d.n_blocks + 1) * (BLOCKHEADER + d.block_size) == d.n_blocks * (BLOCKHEADER
        + d.block_size) + (BLOCKHEADER + d.block_size)) by (nonlinear_arith);
    assert(a.block_slot_wf(j, 0));
    assert forall|i: int|
        d.first_block <= i < d.first_block + d.n_blocks - 1 implies (#[trigger] a.blocks@[i + 1])
        .addr == (#[trigger] a.blocks@[i]).addr + BLOCKHEADER + a.blocks@[i].data.size by {
        let k = i - d.first_block;
        assert(a.block_slot_wf(j, k));
        assert(a.block_slot_wf(j, k + 1));
        let tbs = (BLOCKHEADER + d.block_size) as int;
        assert((k + 1) * tbs == k * tbs + tbs) by (nonlinear_arith);
    }
    assert forall|i: int|
        d.first_block <= i < d.first_block + d.n_blocks implies a.chunks@[j].addr
        + REGION_HEADER_SIZE <= (#[trigger] a.blocks@[i]).addr && a.blocks@[i].addr + BLOCKHEADER
        + a.blocks@[i].data.size <= a.chunks@[j].addr + REGION_HEADER_SIZE
        + a.chunks@[j].data.size by {
        assert(a.block_slot_wf(j, i - d.first_block));
        lemma_block_geometry(a, i);
    }
    assert forall|i1: int, i2: int|
        d.first_block <= i1 < i2 < d.first_block + d.n_blocks implies (#[trigger] a.blocks@[i1])
        .addr + BLOCKHEADER + a.blocks@[i1].data.size <= (#[trigger] a.blocks@[i2]).addr by {
        assert(a.block_slot_wf(j, i1 - d.first_block));
        assert(a.block_slot_wf(j, i2 - d.first_block));
        let k1 = i1 - d.first_block;
        let k2 = i2 - d.first_block;
        let tbs = (BLOCKHEADER + d.block_size) as int;
        assert((k1 + 1) * tbs <= k2 * tbs) by (nonlinear_arith)
            requires
                k1 + 1 <= k2,
                0 <= tbs,
        ;
        assert((k1 + 1) * tbs == k1 * tbs + tbs) by (nonlinear_arith);
    }
}

/// Reuse after a round trip: an allocation served from a class's free
/// list takes the block at the list's head and returns an address inside
/// that block's payload.  When a preceding deallocate left a sole free
/// block in the class — its push put it at the head — that very block is
/// the one handed out again.
pub proof fn lemma_sole_free_block_reused(
    pre: Single_Allocator,
    post: Single_Allocator,
    size: int,
    align: int,
    a: int,
    u: int,
)
    requires
        pre.wf(),
        0 <= u,
        spec_allocated_block(pre, post, size, align, a, u),
        pre.free_list_for(spec_class_payload(spec_minimum_block_size(size, align))).len() > 0,
        post.blocks@ == pre.blocks@.update(
            pre.free_list_for(spec_class_payload(spec_minimum_block_size(size, align)))[0].data
                as int,
            (Node {
                addr: pre.blocks@[pre.free_list_for(
                    spec_class_payload(spec_minimum_block_size(size, align)),
                )[0].data as int].addr,
                data: (Block {
                    is_free: false,
                    ..pre.blocks@[pre.free_list_for(
                        spec_class_payload(spec_minimum_block_size(size, align)),
                    )[0].data as int].data
                }),
            }),
        ),
    ensures
        ({
            let head = pre.free_list_for(
                spec_class_payload(spec_minimum_block_size(size, align)),
            )[0].data as int;
            &&& pre.blocks@[head].addr + BLOCKHEADER <= a
            &&& a + u <= pre.blocks@[head].addr + BLOCKHEADER + pre.blocks@[head].data.size
        }),
{
    let cs = spec_class_payload(spec_minimum_block_size(size, align));
    assert(pre.free_node_wf(cs, 0));
    let head = pre.free_list_for(cs)[0].data as int;
    let id = choose|id: int| #[trigger] spec_alloc_witness(pre, post, size, align, a, u, id);
    assert(spec_alloc_witness(pre, post, size, align, a, u, id));
    assert(id < pre.blocks@.len());
    if id != head {
        assert(post.blocks@[id] == pre.blocks@[id]);
    }
    assert(id == head);
}

/// A block is determined by its header address: distinct blocks have
/// distinct span addresses.
pub proof fn lemma_block_addr_unique(a: &Single_Allocator, id1: int, id2: int)
    requires
        a.wf(),
        0 <= id1 < a.blocks@.len(),
        0 <= id2 < a.blocks@.len(),
        a.blocks@[id1].addr == a.blocks@[id2].addr,
    ensures
        id1 == id2,
{
    if id1 != id2 {
        lemma_blocks_disjoint(a, id1, id2);
    }
}

} // verus!

