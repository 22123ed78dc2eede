//! Ordered index lists.
//!
//! The allocator threads three relationships through its state: the list of
//! all chunks, each chunk's blocks in address order, and one free list per
//! size class.  Membership and order are kept here as owned indexed state
//! rather than as pointers threaded through the managed spans; each node
//! still records the span address it stands for.  The list supports push at
//! the tail, removal at a given position, and forward iteration.

use vstd::prelude::*;

use crate::datablock::Block;
use crate::datablock::BLOCKHEADER;

verus! {

/// One list record: the data it carries and the span address it stands at.
#[derive(Clone, Copy, PartialEq, Eq, Structural, Debug)]
pub struct Node<T> {
    pub addr: usize,
    pub data: T,
}

/// A node that carries block or chunk metadata is the object's header: the
/// metadata kept just before the object's usable bytes in its span.
pub type Header<T> = Node<T>;

impl Header<Block> {
    /// The header address for a payload address: the header occupies the
    /// span bytes immediately before the bytes handed to the caller.
    pub fn from_ptr(ptr: usize) -> (r: usize)
        requires
            BLOCKHEADER <= ptr,
        ensures
            r == ptr - BLOCKHEADER,
    {
        ptr - BLOCKHEADER
    }
}

/// A generic ordered list addressed by position.
pub struct LinkedList<T> {
    pub nodes: Vec<Node<T>>,
}

impl<T> View for LinkedList<T> {
    type V = Seq<Node<T>>;

    open spec fn view(&self) -> Seq<Node<T>> {
        self.nodes@
    }
}

/// A forward cursor over list positions.
pub struct Iterators {
    pub current: usize,
    pub len: usize,
}

impl Iterators {
    /// The next position, or `None` when the cursor is exhausted.
    pub fn next_index(&mut self) -> (r: Option<usize>)
        ensures
            old(self).current < old(self).len ==> r == Some(old(self).current)
                && final(self).current == old(self).current + 1
                && final(self).len == old(self).len,
            old(self).current >= old(self).len ==> r is None
                && final(self).current == old(self).current
                && final(self).len == old(self).len,
    {
        if self.current < self.len {
            let i = self.current;
            self.current = self.current + 1;
            Some(i)
        } else {
            None
        }
    }
}

impl<T> LinkedList<T> {
    /// An empty list.
    pub fn new() -> (s: Self)
        ensures
            s@ == Seq::<Node<T>>::empty(),
    {
        LinkedList { nodes: Vec::new() }
    }

    /// How many nodes the list holds.
    pub fn len(&self) -> (n: usize)
        ensures
            n == self@.len(),
    {
        self.nodes.len()
    }

    /// Append a node carrying `data`, standing at span address `address`,
    /// at the tail; the returned position stays valid until a node at an
    /// earlier position is removed.
    pub fn push(&mut self, data: T, address: usize) -> (idx: usize)
        ensures
            final(self)@ == old(self)@.push((Node { addr: address, data })),
            idx == old(self)@.len(),
    {
        let idx = self.nodes.len();
        self.nodes.push(Node { addr: address, data });
        idx
    }

    /// Remove the node at position `idx`; later nodes shift one position
    /// towards the head.
    pub fn remove(&mut self, idx: usize) -> (n: Node<T>)
        requires
            idx < old(self)@.len(),
        ensures
            n == old(self)@[idx as int],
            final(self)@ == old(self)@.remove(idx as int),
    {
        self.nodes.remove(idx)
    }

    /// The node at position `idx`.
    pub fn get(&self, idx: usize) -> (n: &Node<T>)
        requires
            idx < self@.len(),
        ensures
            *n == self@[idx as int],
    {
        &self.nodes[idx]
    }

    /// A cursor over the list's positions, head to tail.
    pub fn iter(&self) -> (it: Iterators)
        ensures
            it.current == 0,
            it.len == self@.len(),
    {
        Iterators { current: 0, len: self.nodes.len() }
    }
}

/// A free list node carries the arena handle of the free block it stands
/// for, and stands at the block's payload address: a free block's payload
/// bytes are what hosts its linkage in the managed span.
pub type FreeListNode = Node<usize>;

/// One size class's list of currently unused blocks.
pub type FreeList = LinkedList<usize>;

impl FreeList {
    /// Put the block with arena handle `id` on this free list and mark it
    /// free; it enters at the tail.
    pub fn append_block(&mut self, blocks: &mut Vec<Node<Block>>, id: usize)
        requires
            id < old(blocks)@.len(),
            old(blocks)@[id as int].addr + BLOCKHEADER <= usize::MAX,
        ensures
            final(blocks)@ == old(blocks)@.update(
                id as int,
                (Node {
                    addr: old(blocks)@[id as int].addr,
                    data: (Block { is_free: true, ..old(blocks)@[id as int].data }),
                }),
            ),
            final(self)@ == old(self)@.push((Node {
                addr: (old(blocks)@[id as int].addr + BLOCKHEADER) as usize,
                data: id,
            })),
    {
        let payload: usize = blocks[id].addr + BLOCKHEADER;
        blocks[id].data.is_free = true;
        self.push(id, payload);
    }

    /// Take the block at position `pos` off this free list and mark it
    /// used; its arena handle is returned.
    pub fn remove_block(&mut self, blocks: &mut Vec<Node<Block>>, pos: usize) -> (id: usize)
        requires
            pos < old(self)@.len(),
            old(self)@[pos as int].data < old(blocks)@.len(),
        ensures
            id == old(self)@[pos as int].data,
            final(self)@ == old(self)@.remove(pos as int),
            final(blocks)@ == old(blocks)@.update(
                id as int,
                (Node {
                    addr: old(blocks)@[id as int].addr,
                    data: (Block { is_free: false, ..old(blocks)@[id as int].data }),
                }),
            ),
    {
        let node = self.remove(pos);
        let id = node.data;
        blocks[id].data.is_free = false;
        id
    }

    /// A cursor over this free list's positions.
    pub fn iter_blocks(&self) -> (it: Iterators)
        ensures
            it.current == 0,
            it.len == self@.len(),
    {
        self.iter()
    }
}

} // verus!
