//! The boundary to the OS memory source.
//!
//! The engine consumes page-aligned spans through the narrow [`Memory`]
//! capability and is otherwise agnostic to how memory is obtained.  Nothing
//! is assumed of an implementation: the engine validates every address the
//! source hands back before building a chunk on it, so a misbehaving source
//! can only make an allocation fail, never break an invariant.

use vstd::prelude::*;

verus! {

/// The width in bytes of a pointer, and the grain of all block layout
/// arithmetic: payload sizes are padded to a multiple of it, and the
/// indirect header slot for an over-aligned payload occupies exactly one
/// pointer width just before the returned address.
pub const POINTER_SIZE: usize = 8;

/// A span address that may be absent: what an acquisition hands back.
pub type Pointer = Option<usize>;

/// A source of page-aligned memory spans, typically the OS mapping
/// interface.  An embedder implements this for the platform it runs on.
///
/// `get_mem` is handed a length that is already a multiple of the page
/// size and returns the base address of a fresh span, or `None` when the
/// OS cannot supply one.  `return_mem` gives a span back.  No contract is
/// stated here: the allocator engine checks at run time that a returned
/// base is nonzero, pointer-aligned, in range, and disjoint from every
/// chunk it already owns, and reports failure otherwise.
pub trait Memory {
    /// Acquire a span of `length` bytes; `length` is a multiple of the
    /// page size reported by `page_size`.
    fn get_mem(&mut self, length: usize) -> Pointer;

    /// Release a span previously acquired at `address` with `length` bytes.
    fn return_mem(&mut self, address: usize, length: usize);

    /// The page size every acquired span's length must be a multiple of.
    fn page_size(&mut self) -> usize;
}

} // verus!
