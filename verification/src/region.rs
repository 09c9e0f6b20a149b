//! The region handle: a contiguous byte span with bounds-checked access.

use vstd::prelude::*;
use crate::memory_handler::MemoryError;

verus! {

/// A contiguous span of bytes of fixed length.
///
/// All access goes through the bounds-checked accessors: a read outside
/// the span reports "nothing present" (`None`), a write outside the span
/// is a reportable failure that leaves the span untouched.  The length
/// never changes after construction.
pub struct Region {
    bytes: Vec<u8>,
}

impl View for Region {
    type V = Seq<u8>;

    closed spec fn view(&self) -> Seq<u8> {
        self.bytes@
    }
}

impl Region {
    /// A zero-filled region of `length` bytes.
    pub fn new(length: usize) -> (r: Region)
        ensures
            r@.len() == length,
            forall|k: int| 0 <= k < length ==> r@[k] == 0u8,
    {
        let mut bytes: Vec<u8> = Vec::new();
        while bytes.len() < length
            invariant
                bytes@.len() <= length,
                forall|k: int| 0 <= k < bytes@.len() ==> bytes@[k] == 0u8,
            decreases length - bytes@.len(),
        {
            bytes.push(0u8);
        }
        Region { bytes }
    }

    /// Total byte length of the span.
    pub fn len(&self) -> (n: usize)
        ensures
            n == self@.len(),
    {
        self.bytes.len()
    }

    /// A copy of the `size` bytes starting at `offset`, or `None` when the
    /// requested range does not lie within the span.
    pub fn read_from_offset(&self, offset: usize, size: usize) -> (r: Option<Vec<u8>>)
        ensures
            r is Some <==> offset + size <= self@.len(),
            r is Some ==> r->0@ == self@.subrange(offset as int, offset as int + size as int),
    {
        if offset <= self.bytes.len() && size <= self.bytes.len() - offset {
            let mut out: Vec<u8> = Vec::new();
            let mut k: usize = 0;
            while k < size
                invariant
                    k <= size,
                    offset + size <= self.bytes@.len(),
                    self.bytes@.len() <= usize::MAX,
                    out@.len() == k,
                    forall|j: int| 0 <= j < k ==> out@[j] == self.bytes@[offset + j],
                decreases size - k,
            {
                out.push(self.bytes[offset + k]);
                k += 1;
            }
            proof {
                assert(out@ =~= self@.subrange(offset as int, offset as int + size as int));
            }
            Some(out)
        } else {
            None
        }
    }

    /// Overwrite the bytes at `offset` with `data`.  Succeeds exactly when
    /// the written range lies within the span; on failure the span is left
    /// unchanged and an out-of-bounds write error is reported.
    pub fn write_to_offset(&mut self, offset: usize, data: &Vec<u8>) -> (r: Result<(), MemoryError>)
        ensures
            final(self)@.len() == old(self)@.len(),
            r is Ok <==> offset + data@.len() <= old(self)@.len(),
            r is Ok ==> forall|k: int|
                0 <= k < final(self)@.len() ==> final(self)@[k] == (if offset <= k
                    < offset + data@.len() {
                    data@[k - offset]
                } else {
                    old(self)@[k]
                }),
            r is Err ==> r->Err_0 == MemoryError::WriteFailed && final(self)@ == old(self)@,
    {
        if offset <= self.bytes.len() && data.len() <= self.bytes.len() - offset {
            let mut k: usize = 0;
            while k < data.len()
                invariant
                    k <= data@.len(),
                    offset + data@.len() <= self.bytes@.len(),
                    self.bytes@.len() <= usize::MAX,
                    self.bytes@.len() == old(self)@.len(),
                    forall|j: int| 0 <= j < k ==> self.bytes@[offset + j] == data@[j],
                    forall|m: int|
                        0 <= m < self.bytes@.len() && !(offset <= m < offset + k)
                            ==> self.bytes@[m] == old(self)@[m],
                decreases data@.len() - k,
            {
                self.bytes[offset + k] = data[k];
                k += 1;
            }
            Ok(())
        } else {
            Err(MemoryError::WriteFailed)
        }
    }
}

} // verus!
