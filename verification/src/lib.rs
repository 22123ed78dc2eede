//! A size-classed free-list memory allocator engine.
//!
//! The engine services allocate / deallocate / reallocate requests against
//! page-aligned memory spans obtained from an abstract OS memory source.
//! Every structure the allocator maintains — the per-span chunk directory,
//! the arena of block headers, the per-class free lists and the indirection
//! slots for over-aligned payloads — is held as explicit indexed state, and
//! all span addresses are tracked arithmetically, so the whole bookkeeping
//! core is verified: returned addresses satisfy the requested alignment,
//! carved blocks never overlap and never exceed their chunk, and routing of
//! a request to its size class is exact.

pub mod alignment;
pub mod allocator;
pub mod chunks;
pub mod datablock;
pub mod kernel_mem;
pub mod list;
