//! The slot allocator: fixed-size, offset-addressed records in a region.
//!
//! [`MemoryHandler`] partitions a byte span of `total` bytes into
//! `total / record_size` contiguous slots of `record_size` bytes each and
//! keeps one bookkeeping entry per slot.  Allocation is first-fit: the
//! free slot with the lowest offset wins.  Release is strict: only an
//! occupied slot can be released, and releasing it hands back a copy of
//! the bytes stored there.

use vstd::prelude::*;
use vstd::arithmetic::div_mod::{
    lemma_div_by_multiple, lemma_div_pos_is_pos, lemma_fundamental_div_mod, lemma_mod_bound,
};
use vstd::arithmetic::mul::{
    lemma_mul_inequality, lemma_mul_is_commutative, lemma_mul_is_distributive_add_other_way,
    lemma_mul_nonnegative,
};
use crate::posix_shmem_api::ShmemProt;
use crate::region::Region;

verus! {

/// Every failure the allocator and the region glue can report.
///
/// The region-lifecycle variants (`CreateShmFailed`, `TruncateShmFailed`,
/// `MapShmFailed`) are produced by the OS glue that opens and maps a
/// segment; the allocator itself only produces `WriteFailed`,
/// `NoSpaceLeft`, `ReadFailed` and `InvalidOffset`.
#[derive(Clone, Copy, Debug, PartialEq, Eq, Structural)]
pub enum MemoryError {
    /// Creating or opening the backing segment failed.
    CreateShmFailed,
    /// Sizing the backing segment failed.
    TruncateShmFailed,
    /// Mapping the backing segment failed.
    MapShmFailed,
    /// A write was out of bounds, or a record had the wrong size.
    WriteFailed,
    /// Every slot is occupied.
    NoSpaceLeft,
    /// A read that should have produced a value reported nothing present.
    ReadFailed,
    /// No occupied slot starts at the given offset.
    InvalidOffset,
}

/// Access mode requested for the mapped region.
#[derive(Clone, Copy, Debug, PartialEq, Eq, Structural)]
pub enum Access {
    ReadOnly,
    ReadWrite,
}

impl Access {
    /// The protection this access mode asks of a mapping call.
    pub open spec fn spec_prot_flag(&self) -> ShmemProt {
        match *self {
            Access::ReadOnly => ShmemProt::ProtRead,
            Access::ReadWrite => ShmemProt::ProtReadWrite,
        }
    }

    pub fn get_prot_flag(&self) -> (p: ShmemProt)
        ensures
            p == self.spec_prot_flag(),
    {
        match *self {
            Access::ReadOnly => ShmemProt::ProtRead,
            Access::ReadWrite => ShmemProt::ProtReadWrite,
        }
    }
}

/// One slot of the table: the byte offset where it starts and whether it
/// is currently free.
#[derive(Clone, Copy, Debug)]
pub struct MemInternalState {
    pub start: usize,
    pub free: bool,
}

/// Some slot of the table is free.
pub open spec fn has_free(slots: Seq<MemInternalState>) -> bool {
    exists|i: int| 0 <= i < slots.len() && (#[trigger] slots[i]).free
}

/// Slot `i` is the free slot with the lowest index (and, starts being
/// increasing, the lowest offset).
pub open spec fn is_first_free(slots: Seq<MemInternalState>, i: int) -> bool {
    &&& 0 <= i < slots.len()
    &&& slots[i].free
    &&& forall|j: int| 0 <= j < i ==> !(#[trigger] slots[j]).free
}

/// The index of the first free slot: the one an allocation takes.  Only
/// meaningful when some slot is free.
pub open spec fn first_free_index(slots: Seq<MemInternalState>) -> int
    decreases slots.len(),
{
    if slots.len() == 0 {
        0
    } else if slots[0].free {
        0
    } else {
        1 + first_free_index(slots.drop_first())
    }
}

/// Some occupied slot starts at byte offset `from`.
pub open spec fn has_occupied_at(slots: Seq<MemInternalState>, from: int) -> bool {
    exists|i: int|
        0 <= i < slots.len() && (#[trigger] slots[i]).start == from && !slots[i].free
}

/// How many slots of the table are free.
pub open spec fn num_free(slots: Seq<MemInternalState>) -> nat
    decreases slots.len(),
{
    if slots.len() == 0 {
        0
    } else {
        (if slots[0].free {
            1nat
        } else {
            0nat
        }) + num_free(slots.drop_first())
    }
}

/// The slot allocator over a byte span.
///
/// The record size is fixed at construction for the whole lifetime of the
/// allocator; records are passed as byte vectors of exactly that length,
/// so a mismatched size is rejected at the call site instead of being
/// trusted.
pub struct MemoryHandler {
    shared_mem: Region,
    total_size: usize,
    record_size: usize,
    offsets: Vec<MemInternalState>,
}

impl MemoryHandler {
    /// The bytes of the underlying span.
    pub closed spec fn mem(&self) -> Seq<u8> {
        self.shared_mem@
    }

    /// The slot table, in ascending offset order.
    pub closed spec fn slots(&self) -> Seq<MemInternalState> {
        self.offsets@
    }

    /// Total byte length of the span.
    pub closed spec fn total_len(&self) -> int {
        self.total_size as int
    }

    /// Byte length of one record.
    pub closed spec fn rec_size(&self) -> int {
        self.record_size as int
    }

    /// Well-formedness: the span has the stated length, and slot `i`
    /// starts at byte offset `i * rec_size`, so the table never holds
    /// more than `total_len / rec_size` entries.
    pub open spec fn wf(&self) -> bool {
        &&& 0 < self.rec_size()
        &&& self.mem().len() == self.total_len()
        &&& self.slots().len() <= self.total_len() / self.rec_size()
        &&& forall|i: int|
            0 <= i < self.slots().len() ==> (#[trigger] self.slots()[i]).start == i
                * self.rec_size()
    }

    /// The bytes currently stored in slot `i`.
    pub open spec fn stored_at(&self, i: int) -> Seq<u8> {
        self.mem().subrange(i * self.rec_size(), i * self.rec_size() + self.rec_size())
    }
}

/// The transition a successful allocation makes: slot `i` is the first
/// free slot, the record bytes land at its offset `off`, the slot becomes
/// occupied, and nothing else changes.
pub open spec fn alloc_ok(
    pre: MemoryHandler,
    post: MemoryHandler,
    obj: Seq<u8>,
    off: int,
    i: int,
) -> bool {
    &&& is_first_free(pre.slots(), i)
    &&& off == pre.slots()[i].start
    &&& obj.len() == pre.rec_size()
    &&& post.total_len() == pre.total_len()
    &&& post.rec_size() == pre.rec_size()
    &&& post.slots().len() == pre.slots().len()
    &&& post.slots()[i].start == pre.slots()[i].start
    &&& !post.slots()[i].free
    &&& forall|j: int|
        0 <= j < pre.slots().len() && j != i ==> post.slots()[j] == #[trigger] pre.slots()[j]
    &&& post.mem().len() == pre.mem().len()
    &&& post.stored_at(i) == obj
    &&& forall|k: int|
        0 <= k < pre.mem().len() && !(off <= k < off + pre.rec_size())
            ==> post.mem()[k] == #[trigger] pre.mem()[k]
}

/// The transition a successful release makes: slot `i` is the occupied
/// slot starting at `off`, its stored bytes come out, the slot becomes
/// free, and nothing else changes — the span's bytes in particular.
pub open spec fn release_ok(
    pre: MemoryHandler,
    post: MemoryHandler,
    off: int,
    out: Seq<u8>,
    i: int,
) -> bool {
    &&& 0 <= i < pre.slots().len()
    &&& pre.slots()[i].start == off
    &&& !pre.slots()[i].free
    &&& out == pre.stored_at(i)
    &&& post.total_len() == pre.total_len()
    &&& post.rec_size() == pre.rec_size()
    &&& post.slots().len() == pre.slots().len()
    &&& post.slots()[i].start == pre.slots()[i].start
    &&& post.slots()[i].free
    &&& forall|j: int|
        0 <= j < pre.slots().len() && j != i ==> post.slots()[j] == #[trigger] pre.slots()[j]
    &&& post.mem() == pre.mem()
}

/// The first free slot in the sense of `is_first_free` is the slot
/// `first_free_index` names.
proof fn lemma_first_free_index_is(slots: Seq<MemInternalState>, i: int)
    requires
        is_first_free(slots, i),
    ensures
        first_free_index(slots) == i,
    decreases i,
{
    if i > 0 {
        assert(!slots[0].free);
        assert forall|j: int| 0 <= j < i - 1 implies !(#[trigger] slots.drop_first()[j]).free by {
            assert(!slots[j + 1].free);
        }
        assert(is_first_free(slots.drop_first(), i - 1));
        lemma_first_free_index_is(slots.drop_first(), i - 1);
    }
}

/// Slot `i` of a table of `count` slots of `r` bytes each lies entirely
/// within a span of `l` bytes.
proof fn lemma_slot_range(i: int, count: int, r: int, l: int)
    requires
        0 <= i < count,
        count <= l / r,
        0 < r,
        0 <= l,
    ensures
        0 <= i * r,
        (i + 1) * r == i * r + r,
        i * r + r <= l,
{
    lemma_mul_nonnegative(i, r);
    lemma_mul_is_distributive_add_other_way(r, i, 1);
    lemma_mul_inequality(i + 1, l / r, r);
    lemma_fundamental_div_mod(l, r);
    lemma_mod_bound(l, r);
    lemma_mul_is_commutative(l / r, r);
}

impl MemoryHandler {
    /// A fresh allocator over a zero-filled span of `size` bytes that
    /// stores records of `record_size` bytes.  The slot table starts
    /// empty; `create_memory` builds it.
    pub fn new(size: usize, record_size: usize) -> (r: MemoryHandler)
        requires
            0 < record_size,
        ensures
            r.wf(),
            r.total_len() == size,
            r.rec_size() == record_size,
            r.slots().len() == 0,
            r.mem() == Seq::new(size as nat, |k: int| 0u8),
    {
        let shared_mem = Region::new(size);
        proof {
            lemma_div_pos_is_pos(size as int, record_size as int);
            assert(shared_mem@ =~= Seq::new(size as nat, |k: int| 0u8));
        }
        MemoryHandler { shared_mem, total_size: size, record_size, offsets: Vec::new() }
    }

    /// Partition the span into `total_len / rec_size` contiguous slots
    /// of `rec_size` bytes each, starting at offset 0, all free.
    ///
    /// Calling it again does not fail: it resets the table, so every
    /// slot is free again afterwards.  The span's bytes are untouched.
    pub fn create_memory(&mut self) -> (r: Result<(), MemoryError>)
        requires
            old(self).wf(),
        ensures
            final(self).wf(),
            r is Ok,
            final(self).total_len() == old(self).total_len(),
            final(self).rec_size() == old(self).rec_size(),
            final(self).mem() == old(self).mem(),
            final(self).slots().len() == old(self).total_len() / old(self).rec_size(),
            forall|i: int|
                0 <= i < final(self).slots().len() ==> (#[trigger] final(self).slots()[i]).start
                    == i * final(self).rec_size() && final(self).slots()[i].free,
    {
        let count: usize = self.total_size / self.record_size;
        self.offsets = Vec::new();
        let mut i: usize = 0;
        let mut off: usize = 0;
        while i < count
            invariant
                i <= count,
                0 < self.record_size,
                self.record_size == old(self).record_size,
                self.total_size == old(self).total_size,
                self.shared_mem == old(self).shared_mem,
                self.shared_mem@.len() == self.total_size,
                count == self.total_size / self.record_size,
                off == i * self.record_size,
                self.offsets@.len() == i,
                forall|j: int|
                    0 <= j < i ==> (#[trigger] self.offsets@[j]).start == j * self.record_size
                        && self.offsets@[j].free,
            decreases count - i,
        {
            proof {
                lemma_slot_range(
                    i as int,
                    count as int,
                    self.record_size as int,
                    self.total_size as int,
                );
            }
            self.offsets.push(MemInternalState { start: off, free: true });
            off = off + self.record_size;
            i = i + 1;
        }
        Ok(())
    }

    /// Allocate: copy `obj` into the free slot with the lowest offset,
    /// mark that slot occupied and return its byte offset.
    ///
    /// Fails with `WriteFailed` when `obj` is not exactly one record
    /// long, and with `NoSpaceLeft` when every slot is occupied; a
    /// failed call leaves the allocator and the span unchanged.
    pub fn write(&mut self, obj: Vec<u8>) -> (r: Result<usize, MemoryError>)
        requires
            old(self).wf(),
        ensures
            final(self).wf(),
            r is Ok <==> obj@.len() == old(self).rec_size() && has_free(old(self).slots()),
            r == Err::<usize, MemoryError>(MemoryError::WriteFailed) <==> obj@.len() != old(
                self,
            ).rec_size(),
            r == Err::<usize, MemoryError>(MemoryError::NoSpaceLeft) <==> obj@.len() == old(
                self,
            ).rec_size() && !has_free(old(self).slots()),
            r is Err ==> *final(self) == *old(self),
            r is Ok ==> alloc_ok(
                *old(self),
                *final(self),
                obj@,
                r->Ok_0 as int,
                first_free_index(old(self).slots()),
            ),
    {
        if obj.len() != self.record_size {
            return Err(MemoryError::WriteFailed);
        }
        let mut i: usize = 0;
        while i < self.offsets.len()
            invariant
                *self == *old(self),
                old(self).wf(),
                obj@.len() == old(self).rec_size(),
                i <= self.offsets@.len(),
                forall|j: int| 0 <= j < i ==> !(#[trigger] self.offsets@[j]).free,
            decreases self.offsets@.len() - i,
        {
            if self.offsets[i].free {
                let start = self.offsets[i].start;
                proof {
                    lemma_slot_range(
                        i as int,
                        self.offsets@.len() as int,
                        self.record_size as int,
                        self.total_size as int,
                    );
                }
                let res = self.shared_mem.write_to_offset(start, &obj);
                proof {
                    assert(res is Ok);
                }
                self.offsets[i] = MemInternalState { start: start, free: false };
                proof {
                    assert(self.stored_at(i as int) =~= obj@);
                    lemma_first_free_index_is(old(self).slots(), i as int);
                    assert(alloc_ok(*old(self), *self, obj@, start as int, i as int));
                }
                return Ok(start);
            }
            i += 1;
        }
        Err(MemoryError::NoSpaceLeft)
    }

    /// Release: free the occupied slot that starts at byte offset `from`
    /// and return a copy of the record stored there.
    ///
    /// Release is strict, not idempotent: when no slot starts at `from`,
    /// and equally when the slot there is already free, the call fails
    /// with `InvalidOffset` and changes nothing.
    pub fn read(&mut self, from: usize) -> (r: Result<Vec<u8>, MemoryError>)
        requires
            old(self).wf(),
        ensures
            final(self).wf(),
            r is Ok <==> has_occupied_at(old(self).slots(), from as int),
            r is Err ==> r->Err_0 == MemoryError::InvalidOffset && *final(self) == *old(self),
            r is Ok ==> release_ok(
                *old(self),
                *final(self),
                from as int,
                r->Ok_0@,
                from as int / old(self).rec_size(),
            ),
    {
        let mut i: usize = 0;
        while i < self.offsets.len()
            invariant
                *self == *old(self),
                old(self).wf(),
                i <= self.offsets@.len(),
                forall|j: int| 0 <= j < i ==> (#[trigger] self.offsets@[j]).start != from,
            decreases self.offsets@.len() - i,
        {
            if self.offsets[i].start == from {
                if self.offsets[i].free {
                    proof {
                        lemma_matching_slot_unique(*old(self), from as int, i as int);
                    }
                    return Err(MemoryError::InvalidOffset);
                }
                proof {
                    lemma_slot_range(
                        i as int,
                        self.offsets@.len() as int,
                        self.record_size as int,
                        self.total_size as int,
                    );
                }
                let got = self.shared_mem.read_from_offset(from, self.record_size);
                let bytes = got.unwrap();
                self.offsets[i] = MemInternalState { start: from, free: true };
                proof {
                    assert(bytes@ =~= old(self).stored_at(i as int));
                    assert(from == i as int * old(self).rec_size());
                    lemma_mul_is_commutative(i as int, old(self).rec_size());
                    lemma_div_by_multiple(i as int, old(self).rec_size());
                    assert(from as int / old(self).rec_size() == i as int);
                    assert(release_ok(*old(self), *self, from as int, bytes@, i as int));
                }
                return Ok(bytes);
            }
            i += 1;
        }
        Err(MemoryError::InvalidOffset)
    }
}

/// In a well-formed table, `i` is the only slot index whose start is
/// `from` once slot `i` starts there: starts are the multiples of the
/// record size, which are distinct.
proof fn lemma_matching_slot_unique(h: MemoryHandler, from: int, i: int)
    requires
        h.wf(),
        0 <= i < h.slots().len(),
        h.slots()[i].start == from,
    ensures
        forall|j: int|
            0 <= j < h.slots().len() && (#[trigger] h.slots()[j]).start == from ==> j == i,
        h.slots()[i].free ==> !has_occupied_at(h.slots(), from),
{
    let r = h.rec_size();
    assert forall|j: int|
        0 <= j < h.slots().len() && (#[trigger] h.slots()[j]).start == from implies j == i by {
        assert(h.slots()[j].start == j * r);
        assert(h.slots()[i].start == i * r);
        assert(j == i) by (nonlinear_arith)
            requires
                j * r == i * r,
                0 < r,
        ;
    }
}

/// Law (partition): in a well-formed allocator every slot lies entirely
/// within the span, and distinct slots occupy disjoint byte ranges.
pub proof fn lemma_partition_disjoint(h: MemoryHandler)
    requires
        h.wf(),
    ensures
        forall|i: int|
            0 <= i < h.slots().len() ==> 0 <= (#[trigger] h.slots()[i]).start && h.slots()[i].start
                + h.rec_size() <= h.total_len(),
        forall|i: int, j: int|
            0 <= i < h.slots().len() && 0 <= j < h.slots().len() && i != j ==> (
            #[trigger] h.slots()[i]).start + h.rec_size() <= (#[trigger] h.slots()[j]).start
                || h.slots()[j].start + h.rec_size() <= h.slots()[i].start,
{
    let r = h.rec_size();
    let l = h.total_len();
    let n = h.slots().len() as int;
    assert forall|i: int|
        0 <= i < n implies 0 <= (#[trigger] h.slots()[i]).start && h.slots()[i].start + r
        <= l by {
        lemma_slot_range(i, n, r, l);
    }
    assert forall|i: int, j: int|
        0 <= i < n && 0 <= j < n && i != j implies (#[trigger] h.slots()[i]).start + r <= (
    #[trigger] h.slots()[j]).start || h.slots()[j].start + r <= h.slots()[i].start by {
        if i < j {
            lemma_slot_range(i, n, r, l);
            lemma_mul_inequality(i + 1, j, r);
        } else {
            lemma_slot_range(j, n, r, l);
            lemma_mul_inequality(j + 1, i, r);
        }
    }
}

/// Law (round trip): releasing the offset a successful allocation
/// returned hands back exactly the allocated bytes, and leaves that very
/// slot free again.
pub proof fn lemma_allocate_release_round_trip(
    pre: MemoryHandler,
    mid: MemoryHandler,
    post: MemoryHandler,
    obj: Seq<u8>,
    off: int,
    out: Seq<u8>,
    i: int,
    j: int,
)
    requires
        pre.wf(),
        alloc_ok(pre, mid, obj, off, i),
        release_ok(mid, post, off, out, j),
    ensures
        j == i,
        out == obj,
        post.slots()[i].free,
{
    let r = pre.rec_size();
    assert(pre.slots()[i].start == i * r);
    if j != i {
        assert(mid.slots()[j] == pre.slots()[j]);
        assert(pre.slots()[j].start == j * r);
        assert(j == i) by (nonlinear_arith)
            requires
                j * r == i * r,
                0 < r,
        ;
    }
}

/// Counting helper: replacing one slot changes the number of free slots
/// by exactly the difference the replaced entry makes.
proof fn lemma_num_free_update(slots: Seq<MemInternalState>, i: int, v: MemInternalState)
    requires
        0 <= i < slots.len(),
    ensures
        num_free(slots.update(i, v)) + (if slots[i].free {
            1nat
        } else {
            0nat
        }) == num_free(slots) + (if v.free {
            1nat
        } else {
            0nat
        }),
    decreases slots.len(),
{
    let updated = slots.update(i, v);
    if i == 0 {
        assert(updated.drop_first() =~= slots.drop_first());
    } else {
        assert(updated.drop_first() =~= slots.drop_first().update(i - 1, v));
        lemma_num_free_update(slots.drop_first(), i - 1, v);
    }
}

/// Law (exhaustion, step): a successful allocation reduces the number of
/// free slots by exactly one.
pub proof fn lemma_allocate_decreases_free(
    pre: MemoryHandler,
    post: MemoryHandler,
    obj: Seq<u8>,
    off: int,
    i: int,
)
    requires
        alloc_ok(pre, post, obj, off, i),
    ensures
        num_free(post.slots()) + 1 == num_free(pre.slots()),
{
    assert(post.slots() =~= pre.slots().update(i, post.slots()[i]));
    lemma_num_free_update(pre.slots(), i, post.slots()[i]);
}

/// Law (exhaustion, end): a table has no free slot exactly when its free
/// count is zero — and then `write`'s contract forces `NoSpaceLeft`.
pub proof fn lemma_no_free_slots(slots: Seq<MemInternalState>)
    ensures
        num_free(slots) == 0 <==> !has_free(slots),
    decreases slots.len(),
{
    if slots.len() > 0 {
        lemma_no_free_slots(slots.drop_first());
        assert(has_free(slots) <==> slots[0].free || has_free(slots.drop_first())) by {
            if has_free(slots.drop_first()) {
                let w = choose|w: int|
                    0 <= w < slots.drop_first().len() && (#[trigger] slots.drop_first()[w]).free;
                assert(slots[w + 1].free);
            }
            if has_free(slots) && !slots[0].free {
                let w = choose|w: int| 0 <= w < slots.len() && (#[trigger] slots[w]).free;
                assert(slots.drop_first()[w - 1].free);
            }
        }
    }
}

/// Law (exhaustion, start): a table whose slots are all free — as
/// `create_memory` leaves it — has as many free slots as slots.
pub proof fn lemma_all_free_count(slots: Seq<MemInternalState>)
    requires
        forall|i: int| 0 <= i < slots.len() ==> (#[trigger] slots[i]).free,
    ensures
        num_free(slots) == slots.len(),
    decreases slots.len(),
{
    if slots.len() > 0 {
        assert forall|i: int|
            0 <= i < slots.drop_first().len() implies (#[trigger] slots.drop_first()[i]).free by {
            assert(slots[i + 1].free);
        }
        lemma_all_free_count(slots.drop_first());
    }
}

} // verus!
