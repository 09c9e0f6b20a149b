//! Protection and mapping words for the OS shared-memory primitives.
//!
//! The syscall glue that opens, maps and unlinks a region lives outside this
//! crate; what is verified here is the computation of the flag words that
//! glue passes on: the protection word for a mapping request and the
//! sharing-mode word.

use vstd::prelude::*;

verus! {

/// Protection requested for a mapped region.
#[derive(Clone, Copy, Debug, PartialEq, Eq, Structural)]
pub enum ShmemProt {
    /// The mapping may only be read.
    ProtRead,
    /// The mapping may be read and written.
    ProtReadWrite,
}

impl ShmemProt {
    /// The protection word a mapping call expects: read-only is 1,
    /// read-write is 3 (read | write).
    pub open spec fn spec_value(&self) -> i32 {
        match *self {
            ShmemProt::ProtRead => 1,
            ShmemProt::ProtReadWrite => 3,
        }
    }

    pub fn value(&self) -> (v: i32)
        ensures
            v == self.spec_value(),
    {
        match *self {
            ShmemProt::ProtRead => 1,
            ShmemProt::ProtReadWrite => 3,
        }
    }
}

/// Sharing mode requested for a mapped region.
#[derive(Clone, Copy, Debug, PartialEq, Eq, Structural)]
pub enum ShmemFlags {
    /// Writes through the mapping are visible to other mappings of the
    /// same region.
    MapShared,
}

impl ShmemFlags {
    /// The flag word a mapping call expects: shared mapping is 1.
    pub open spec fn spec_value(&self) -> i32 {
        match *self {
            ShmemFlags::MapShared => 1,
        }
    }

    pub fn value(&self) -> (v: i32)
        ensures
            v == self.spec_value(),
    {
        match *self {
            ShmemFlags::MapShared => 1,
        }
    }
}

} // verus!
