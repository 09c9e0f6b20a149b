//! A fixed-slot allocator over a contiguous shared byte region.
//!
//! The crate partitions a flat byte span into equal-sized slots, one per
//! record, and hands slots out first-fit.  The byte span itself is held by
//! [`region::Region`], which offers bounds-checked reads and writes at byte
//! offsets; [`memory_handler::MemoryHandler`] keeps the slot table and turns
//! the span into a pool of independently allocatable records.  The OS-level
//! primitives that create, map and unlink a shared-memory segment are not
//! part of this crate's logic; [`posix_shmem_api`] only computes the words
//! those primitives are called with.

pub mod memory_handler;
pub mod posix_shmem_api;
pub mod region;
