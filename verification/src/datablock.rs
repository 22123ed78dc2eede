//! The per-allocation block record.
//!
//! A block is one allocation unit carved from a chunk: a header's worth of
//! reserved span bytes followed by the payload handed to a caller.  The
//! header's contents — the payload size, the free/used state and the
//! back-reference to the owning chunk — are kept in a [`Block`] record held
//! in the engine's arena; the record's slot index is the block's stable
//! handle, and the node that carries it records the span address the header
//! occupies.

use vstd::prelude::*;

use crate::list::Header;
use crate::list::Node;

verus! {

/// Span bytes reserved immediately before every payload for the block
/// header: the two linkage fields and the block record itself.
pub const BLOCKHEADER: usize = 40;

/// The smallest payload a block may have: large enough to host one free
/// list node inside the payload while the block sits on a free list.
pub const MIN_BLOCK_SIZE: usize = 16;

/// The header contents of one block.
#[derive(Clone, Copy, PartialEq, Eq, Structural, Debug)]
pub struct Block {
    /// Index of the owning chunk in the engine's chunk list; set when the
    /// chunk is carved and never reassigned.
    pub memory_chunk: usize,
    /// Usable payload size of this block in bytes, excluding the header.
    pub size: usize,
    /// Whether the block currently sits on a free list.
    pub is_free: bool,
}

impl Header<Block> {
    /// The arena handle a free list node refers to.
    pub fn from_free_node(node: &Node<usize>) -> (id: usize)
        ensures
            id == node.data,
    {
        node.data
    }

    /// Mark the block free: it is entering a free list.
    pub fn let_free(&mut self)
        ensures
            final(self).data == (Block { is_free: true, ..old(self).data }),
            final(self).addr == old(self).addr,
    {
        self.data.is_free = true;
    }

    /// Mark the block used: it has been handed to a caller.
    pub fn not_free(&mut self)
        ensures
            final(self).data == (Block { is_free: false, ..old(self).data }),
            final(self).addr == old(self).addr,
    {
        self.data.is_free = false;
    }

    /// Whether the block currently sits on a free list.
    pub fn is_free(&self) -> (r: bool)
        ensures
            r == self.data.is_free,
    {
        self.data.is_free
    }

    /// The usable payload size of this block, excluding the header.
    pub fn size(&self) -> (r: usize)
        ensures
            r == self.data.size,
    {
        self.data.size
    }

    /// Header plus payload: the span bytes the whole block occupies, the
    /// unit used when a chunk is carved into blocks.
    pub fn total_size(&self) -> (r: usize)
        requires
            self.data.size + BLOCKHEADER <= usize::MAX,
        ensures
            r == BLOCKHEADER + self.data.size,
    {
        BLOCKHEADER + self.data.size
    }
}

} // verus!
