//! The allocation discipline of a metadata region and what follows from it.
//!
//! A region is well formed when its free list is a proper chain of distinct
//! slots below the bump cursor and its allocation count is the number of
//! slots that the cursor has handed out and that are not on the list.  The
//! lemmas here show that formatting establishes this, that the slot protocols
//! keep it, and what it means for the indices they return.

use crate::cuda::CudaIpcHandle;
use crate::lifecycle::Action;
use crate::meta::BufferMeta;
use crate::meta_region::{MetaRegionHeader, RegionView, VERSION};
use crate::protocol::{AllocOutcome, FreeOutcome, EMPTY};
use crate::storage::StorageType;
use vstd::prelude::*;
use vstd::set_lib::lemma_len_subset;

verus! {

impl RegionView {
    /// `list` is the free list of the region: its slots are distinct and
    /// below the bump cursor, `free_head` names the first, every slot links
    /// to the next, and the last link ends the list.
    pub open spec fn chain(self, list: Seq<u32>) -> bool {
        &&& list.no_duplicates()
        &&& forall|k: int| 0 <= k < list.len() ==> #[trigger] list[k] < self.header.next_id
        &&& self.header.free_head == (if list.len() == 0 {
            EMPTY
        } else {
            list[0]
        })
        &&& forall|k: int|
            0 <= k < list.len() ==> self.records[(#[trigger] list[k]) as int].next_free == (if k
                + 1 < list.len() {
                list[k + 1]
            } else {
                EMPTY
            })
    }

    /// The free list of the region, head first.
    pub open spec fn free_list(self) -> Seq<u32> {
        choose|list: Seq<u32>| self.chain(list)
    }

    /// The region is well formed: it holds its records, the bump cursor has
    /// not passed the capacity, the free list is a proper chain, and the
    /// allocation count is what the cursor handed out less what is free.
    pub open spec fn wf(self) -> bool {
        &&& self.structural()
        &&& self.header.next_id <= self.header.capacity
        &&& self.chain(self.free_list())
        &&& self.header.allocated + self.free_list().len() == self.header.next_id
    }

    /// Slot `index` holds a live allocation: the cursor has handed it out
    /// and it is not on the free list.
    pub open spec fn is_live(self, index: u32) -> bool {
        index < self.header.next_id && !self.free_list().contains(index)
    }

    /// The slots that hold a live allocation.
    pub open spec fn live(self) -> Set<u32> {
        Set::new(|index: u32| self.is_live(index))
    }
}

/// The slots below `n` that `list` does not name.
spec fn unlisted(n: u32, list: Seq<u32>) -> Set<u32> {
    Set::new(|i: u32| i < n && !list.contains(i))
}

proof fn lemma_below_count(n: u32)
    ensures
        unlisted(n, Seq::empty()).finite(),
        unlisted(n, Seq::empty()).len() == n,
    decreases n,
{
    if n == 0 {
        assert(unlisted(n, Seq::empty()) =~= Set::empty());
    } else {
        let m = (n - 1) as u32;
        lemma_below_count(m);
        assert(unlisted(n, Seq::empty()) =~= unlisted(m, Seq::empty()).insert(m));
    }
}

proof fn lemma_unlisted_count(n: u32, list: Seq<u32>)
    requires
        list.no_duplicates(),
        forall|k: int| 0 <= k < list.len() ==> #[trigger] list[k] < n,
    ensures
        unlisted(n, list).finite(),
        unlisted(n, list).len() + list.len() == n,
    decreases list.len(),
{
    if list.len() == 0 {
        lemma_below_count(n);
        assert(list =~= Seq::empty());
    } else {
        let rest = list.drop_last();
        let x = list.last();
        lemma_unlisted_count(n, rest);
        assert(!rest.contains(x)) by {
            if rest.contains(x) {
                let k = choose|k: int| 0 <= k < rest.len() && rest[k] == x;
                assert(list[k] == list[list.len() - 1]);
            }
        }
        assert(forall|i: u32| list.contains(i) <==> rest.contains(i) || i == x) by {
            assert forall|i: u32| list.contains(i) implies rest.contains(i) || i == x by {
                let k = choose|k: int| 0 <= k < list.len() && list[k] == i;
                if k < rest.len() {
                    assert(rest[k] == i);
                }
            }
            assert forall|i: u32| rest.contains(i) || i == x implies list.contains(i) by {
                if i == x {
                    assert(list[list.len() - 1] == i);
                } else {
                    let k = choose|k: int| 0 <= k < rest.len() && rest[k] == i;
                    assert(list[k] == i);
                }
            }
        }
        assert(list[list.len() - 1] < n);
        assert(unlisted(n, list).subset_of(unlisted(n, rest)));
        lemma_len_subset(unlisted(n, list), unlisted(n, rest));
        assert(unlisted(n, rest) =~= unlisted(n, list).insert(x));
    }
}

proof fn lemma_chain_prefix(v: RegionView, a: Seq<u32>, b: Seq<u32>, k: int)
    requires
        v.chain(a),
        v.chain(b),
        0 <= k < a.len(),
    ensures
        k < b.len(),
        a[k] == b[k],
    decreases k,
{
    if k == 0 {
        assert(a[0] < v.header.next_id);
    } else {
        lemma_chain_prefix(v, a, b, k - 1);
        assert(a[k] < v.header.next_id);
        assert(v.records[a[k - 1] as int].next_free == a[k]);
        assert(v.records[b[k - 1] as int].next_free == a[k]);
    }
}

/// A region has one free list at most: a chain is the free list.
pub proof fn lemma_chain_is_free_list(v: RegionView, list: Seq<u32>)
    requires
        v.chain(list),
    ensures
        v.free_list() == list,
{
    let other = v.free_list();
    assert(v.chain(other));
    if list.len() > 0 {
        lemma_chain_prefix(v, list, other, list.len() - 1);
    }
    if other.len() > 0 {
        lemma_chain_prefix(v, other, list, other.len() - 1);
    }
    assert forall|k: int| 0 <= k < list.len() implies list[k] == other[k] by {
        lemma_chain_prefix(v, list, other, k);
    }
    assert(list =~= other);
}

/// A freshly formatted region is well formed and holds no live allocation.
pub proof fn lemma_fresh_is_wf(v: RegionView, capacity: u32)
    requires
        v.is_fresh(capacity),
    ensures
        v.wf(),
        v.free_list() == Seq::<u32>::empty(),
        v.live() == Set::<u32>::empty(),
{
    let none = Seq::<u32>::empty();
    assert(v.chain(none));
    lemma_chain_is_free_list(v, none);
    assert(v.live() =~= Set::<u32>::empty());
}

/// In a well-formed region of capacity C, `allocated` is the number of slots
/// that hold a live allocation, and it is at most C.
pub proof fn lemma_allocated_counts_live(v: RegionView)
    requires
        v.wf(),
    ensures
        v.live().finite(),
        v.header.allocated == v.live().len(),
        v.header.allocated <= v.header.capacity,
{
    lemma_unlisted_count(v.header.next_id, v.free_list());
    assert(v.live() =~= unlisted(v.header.next_id, v.free_list()));
}

/// An allocation keeps a region well formed.  It cannot meet a broken free
/// list.  When it returns a slot, the slot is below the capacity, held no
/// live allocation before and is the one slot that holds one more after;
/// when the region is full, nothing changes.  The free list afterwards is
/// the list without its head, or the empty list it was.
pub proof fn lemma_alloc_keeps_wf(v: RegionView)
    requires
        v.wf(),
    ensures
        v.after_alloc().wf(),
        v.header.free_head == EMPTY <==> v.free_list().len() == 0,
        v.after_alloc().free_list() == (if v.free_list().len() > 0 {
            v.free_list().drop_first()
        } else {
            v.free_list()
        }),
        v.header.allocated < v.header.capacity ==> v.alloc_outcome() is Slot
            && v.after_alloc().header.allocated == v.header.allocated + 1,
        match v.alloc_outcome() {
            AllocOutcome::Slot(index) => {
                &&& index < v.header.capacity
                &&& !v.is_live(index)
                &&& v.after_alloc().live() == v.live().insert(index)
            },
            AllocOutcome::Full => v.after_alloc() == v,
            AllocOutcome::NotFound(_) => false,
        },
{
    let list = v.free_list();
    let w = v.after_alloc();
    lemma_allocated_counts_live(v);
    if v.header.free_head != EMPTY {
        assert(list.len() > 0);
        let head = list[0];
        assert(head < v.header.next_id);
        let rest = list.drop_first();
        assert(w.chain(rest)) by {
            assert forall|k: int| 0 <= k < rest.len() implies w.records[(#[trigger] rest[k]) as int].next_free
                == (if k + 1 < rest.len() {
                rest[k + 1]
            } else {
                EMPTY
            }) by {
                assert(rest[k] == list[k + 1]);
            }
            assert forall|k: int| 0 <= k < rest.len() implies #[trigger] rest[k]
                < w.header.next_id by {
                assert(rest[k] == list[k + 1]);
            }
            assert(rest.no_duplicates()) by {
                assert forall|i: int, j: int|
                    0 <= i < rest.len() && 0 <= j < rest.len() && i != j implies rest[i]
                    != rest[j] by {
                    assert(rest[i] == list[i + 1]);
                    assert(rest[j] == list[j + 1]);
                }
            }
            assert(v.records[list[0] as int].next_free == (if 1 < list.len() {
                list[1]
            } else {
                EMPTY
            }));
            if rest.len() > 0 {
                assert(rest[0] == list[1]);
            }
        }
        lemma_chain_is_free_list(w, rest);
        assert(!rest.contains(head)) by {
            if rest.contains(head) {
                let k = choose|k: int| 0 <= k < rest.len() && rest[k] == head;
                assert(list[k + 1] == list[0]);
            }
        }
        assert(list.contains(head));
        assert(forall|i: u32| list.contains(i) <==> rest.contains(i) || i == head) by {
            assert forall|i: u32| list.contains(i) implies rest.contains(i) || i == head by {
                let k = choose|k: int| 0 <= k < list.len() && list[k] == i;
                if k > 0 {
                    assert(rest[k - 1] == i);
                }
            }
            assert forall|i: u32| rest.contains(i) implies list.contains(i) by {
                let k = choose|k: int| 0 <= k < rest.len() && rest[k] == i;
                assert(list[k + 1] == i);
            }
        }
        assert(w.live() =~= v.live().insert(head));
    } else {
        assert(list.len() == 0) by {
            if list.len() > 0 {
                assert(list[0] < v.header.next_id);
            }
        }
        if v.header.next_id < v.header.capacity {
            assert(w.chain(list));
            lemma_chain_is_free_list(w, list);
            assert(w.live() =~= v.live().insert(v.header.next_id));
        }
    }
}

/// Releasing a slot that holds a live allocation keeps a region well
/// formed, and the slot is the one slot that holds a live allocation no
/// more.  The free list afterwards is the slot in front of the list as it
/// was.
pub proof fn lemma_free_keeps_wf(v: RegionView, index: u32)
    requires
        v.wf(),
        v.is_live(index),
    ensures
        v.free_outcome(index) == FreeOutcome::Freed,
        v.after_free(index).wf(),
        v.after_free(index).free_list() == seq![index] + v.free_list(),
        v.after_free(index).header.allocated == v.header.allocated - 1,
        v.after_free(index).live() == v.live().remove(index),
{
    let list = v.free_list();
    let w = v.after_free(index);
    let longer = seq![index] + list;
    lemma_allocated_counts_live(v);
    assert(v.live().contains(index));
    assert(v.live().len() > 0) by {
        if v.live().len() == 0 {
            assert(v.live() =~= Set::empty());
        }
    }
    assert(w.chain(longer)) by {
        assert(longer.no_duplicates()) by {
            assert forall|i: int, j: int|
                0 <= i < longer.len() && 0 <= j < longer.len() && i != j implies longer[i]
                != longer[j] by {
                if i > 0 {
                    assert(longer[i] == list[i - 1]);
                }
                if j > 0 {
                    assert(longer[j] == list[j - 1]);
                }
            }
        }
        assert forall|k: int| 0 <= k < longer.len() implies #[trigger] longer[k]
            < w.header.next_id by {
            if k > 0 {
                assert(longer[k] == list[k - 1]);
            }
        }
        assert forall|k: int| 0 <= k < longer.len() implies w.records[(#[trigger] longer[k]) as int].next_free
            == (if k + 1 < longer.len() {
            longer[k + 1]
        } else {
            EMPTY
        }) by {
            if k > 0 {
                assert(longer[k] == list[k - 1]);
                assert(list[k - 1] != index);
                if k + 1 < longer.len() {
                    assert(longer[k + 1] == list[k]);
                }
            } else {
                if list.len() > 0 {
                    assert(longer[1] == list[0]);
                }
            }
        }
    }
    lemma_chain_is_free_list(w, longer);
    assert(forall|i: u32| longer.contains(i) <==> list.contains(i) || i == index) by {
        assert forall|i: u32| longer.contains(i) implies list.contains(i) || i == index by {
            let k = choose|k: int| 0 <= k < longer.len() && longer[k] == i;
            if k > 0 {
                assert(list[k - 1] == i);
            }
        }
        assert forall|i: u32| list.contains(i) || i == index implies longer.contains(i) by {
            if i == index {
                assert(longer[0] == i);
            } else {
                let k = choose|k: int| 0 <= k < list.len() && list[k] == i;
                assert(longer[k + 1] == i);
            }
        }
    }
    assert(w.live() =~= v.live().remove(index));
}

/// Writing a record keeps a region well formed, and its live allocations
/// the same, as long as the record's free-list link is left alone.
pub proof fn lemma_record_write_keeps_wf(v: RegionView, index: u32, record: BufferMeta)
    requires
        v.wf(),
        index < v.header.capacity,
        record.next_free == v.records[index as int].next_free,
    ensures
        v.with_record(index, record).wf(),
        v.with_record(index, record).free_list() == v.free_list(),
        v.with_record(index, record).live() == v.live(),
{
    let w = v.with_record(index, record);
    assert(w.chain(v.free_list()));
    lemma_chain_is_free_list(w, v.free_list());
    assert(w.live() =~= v.live());
}

/// Two allocations in a row never return the same slot: a slot is handed
/// out again only after it was released.
pub proof fn lemma_alloc_twice_distinct(v: RegionView, first: u32, second: u32)
    requires
        v.wf(),
        v.alloc_outcome() == AllocOutcome::Slot(first),
        v.after_alloc().alloc_outcome() == AllocOutcome::Slot(second),
    ensures
        first != second,
{
    lemma_alloc_keeps_wf(v);
    lemma_alloc_keeps_wf(v.after_alloc());
    assert(v.after_alloc().live().contains(first));
}

/// A slot that holds a live allocation keeps it through any allocation and
/// through the release of any other slot that holds one.
pub proof fn lemma_live_until_freed(v: RegionView, index: u32, other: u32)
    requires
        v.wf(),
        v.is_live(index),
    ensures
        v.after_alloc().is_live(index),
        v.alloc_outcome() != AllocOutcome::Slot(index),
        other != index && v.is_live(other) ==> v.after_free(other).is_live(index),
{
    lemma_alloc_keeps_wf(v);
    assert(v.live().contains(index));
    assert(v.after_alloc().live().contains(index));
    if other != index && v.is_live(other) {
        lemma_free_keeps_wf(v, other);
        assert(v.after_free(other).live().contains(index));
    }
}

/// With the bump cursor at the capacity and no slot free, an allocation
/// reports a full region and leaves the region, the cursor with it, as it
/// was.
pub proof fn lemma_full_alloc_fails(v: RegionView)
    requires
        v.header.next_id == v.header.capacity,
        v.header.free_head == EMPTY,
    ensures
        v.alloc_outcome() == AllocOutcome::Full,
        v.after_alloc() == v,
{
}

/// Recycling is last in, first out: the allocation that follows the release
/// of a slot returns that slot, before any bump, and leaves the bump cursor
/// where it was.
pub proof fn lemma_free_then_alloc(v: RegionView, index: u32)
    requires
        v.structural(),
        index < v.header.capacity,
    ensures
        v.after_free(index).alloc_outcome() == AllocOutcome::Slot(index),
        v.after_free(index).after_alloc().header.next_id == v.header.next_id,
        v.after_free(index).after_alloc().header.free_head == v.header.free_head,
        v.after_free(index).after_alloc().header.allocated == v.header.allocated,
{
}

/// An allocation never returns an index outside the region, well formed or
/// not.
pub proof fn lemma_alloc_in_range(v: RegionView)
    ensures
        v.alloc_outcome() matches AllocOutcome::Slot(index) ==> index < v.header.capacity,
{
}

/// Setting a reference count keeps a region well formed and its live
/// allocations the same.
pub proof fn lemma_ref_count_keeps_wf(v: RegionView, index: u32, count: i32)
    requires
        v.wf(),
        index < v.header.capacity,
    ensures
        v.with_ref_count(index, count).wf(),
        v.with_ref_count(index, count).live() == v.live(),
{
    lemma_record_write_keeps_wf(
        v,
        index,
        BufferMeta { ref_count: count, ..v.records[index as int] },
    );
}

/// Every action of a pool operation that works on a record, and all work on
/// the memory of the buffers, keeps a region well formed and its live
/// allocations the same.
pub proof fn lemma_record_action_keeps_wf(v: RegionView, action: Action)
    requires
        v.wf(),
        v.has_target(action),
        !(action is Word),
    ensures
        v.after_action(action).wf(),
        v.after_action(action).live() == v.live(),
{
    match action {
        Action::Count { index, op } => {
            lemma_ref_count_keeps_wf(v, index, op.leaves(v.ref_count(index)));
        },
        Action::WriteRecord { index, kind, device, length } => {
            lemma_record_write_keeps_wf(
                v,
                index,
                RegionView::new_record(v.records[index as int], index, kind, device, length),
            );
        },
        Action::WriteHandle { index, handle } => {
            lemma_record_write_keeps_wf(
                v,
                index,
                BufferMeta { cuda_ipc_handle: handle.reserved, ..v.records[index as int] },
            );
        },
        _ => {},
    }
}

/// An acquisition keeps a region well formed.  When it finds a slot, that
/// slot is the one slot that holds a live allocation more; when it finds
/// none, nothing changes.
pub proof fn lemma_acquire_keeps_wf(v: RegionView, size: u64, device: u8, handle: CudaIpcHandle)
    requires
        v.wf(),
    ensures
        v.after_acquire_cpu(size).wf(),
        v.after_acquire_cuda(size, device, handle).wf(),
        match v.alloc_outcome() {
            AllocOutcome::Slot(index) => {
                &&& !v.is_live(index)
                &&& v.after_acquire_cpu(size).live() == v.live().insert(index)
                &&& v.after_acquire_cuda(size, device, handle).live() == v.live().insert(index)
            },
            _ => v.after_acquire_cpu(size) == v && v.after_acquire_cuda(size, device, handle)
                == v,
        },
{
    lemma_alloc_keeps_wf(v);
    if let AllocOutcome::Slot(index) = v.alloc_outcome() {
        let w = v.after_alloc();
        let host = RegionView::new_record(v.records[index as int], index, StorageType::Cpu, 0, size);
        lemma_record_write_keeps_wf(w, index, host);
        let shared = BufferMeta {
            cuda_ipc_handle: handle.reserved,
            ..RegionView::new_record(
                v.records[index as int],
                index,
                StorageType::Cuda,
                device,
                size,
            )
        };
        lemma_record_write_keeps_wf(w, index, shared);
    }
}

/// An attempt to reclaim a slot that holds a live allocation keeps a region
/// well formed: the slot holds a live allocation no more if its count was
/// zero or less, and nothing changes if it was above.
pub proof fn lemma_try_release_keeps_wf(v: RegionView, index: u32)
    requires
        v.wf(),
        v.is_live(index),
    ensures
        v.after_try_release(index).wf(),
        v.after_try_release(index).live() == (if v.ref_count(index) <= 0 {
            v.live().remove(index)
        } else {
            v.live()
        }),
{
    if v.ref_count(index) <= 0 {
        lemma_free_keeps_wf(v, index);
    }
}

/// A region that was formatted by this crate is accepted when it is
/// attached to, and would not be under any other version.
pub proof fn lemma_fresh_region_is_accepted(v: RegionView, capacity: u32, other: u32)
    requires
        v.is_fresh(capacity),
    ensures
        v.header.accepted(),
        other != VERSION ==> !(MetaRegionHeader { version: other, ..v.header }).accepted(),
{
}

/// The bump cursor never falls and never passes the capacity: an allocation
/// leaves it where it was or one further, and nothing else moves it.
pub proof fn lemma_cursor_never_falls(v: RegionView, index: u32, action: Action)
    requires
        v.header.next_id <= v.header.capacity,
        !(action is Word),
    ensures
        v.header.next_id <= v.after_alloc().header.next_id <= v.header.capacity,
        v.after_alloc().header.next_id <= v.header.next_id + 1,
        v.after_free(index).header.next_id == v.header.next_id,
        v.after_action(action).header.next_id == v.header.next_id,
{
}

/// Acquiring host buffers one after the other keeps a region well formed.
pub proof fn lemma_preallocate_keeps_wf(v: RegionView, size: u64, n: nat)
    requires
        v.wf(),
    ensures
        v.after_preallocate(size, n).0.wf(),
    decreases n,
{
    if n > 0 && v.alloc_outcome() is Slot {
        lemma_acquire_keeps_wf(v, size, 0, arbitrary::<CudaIpcHandle>());
        lemma_preallocate_keeps_wf(v.after_acquire_cpu(size), size, (n - 1) as nat);
    }
}

/// Acquiring device buffers one after the other keeps a region well formed.
pub proof fn lemma_preallocate_cuda_keeps_wf(
    v: RegionView,
    size: u64,
    device: u8,
    handles: Seq<CudaIpcHandle>,
)
    requires
        v.wf(),
    ensures
        v.after_preallocate_cuda(size, device, handles).0.wf(),
    decreases handles.len(),
{
    if handles.len() > 0 && v.alloc_outcome() is Slot {
        lemma_acquire_keeps_wf(v, size, device, handles[0]);
        lemma_preallocate_cuda_keeps_wf(
            v.after_acquire_cuda(size, device, handles[0]),
            size,
            device,
            handles.drop_first(),
        );
    }
}

/// In a well-formed region with room for `n` more allocations, acquiring
/// `n` host buffers one after the other acquires `n` different slots.  None
/// of them held a live allocation before; each holds one after, with a
/// reference count of one, host storage and the size asked for.  The slots
/// that held a live allocation before hold it still, with their records as
/// they were, and the allocation count has risen by `n`.
pub proof fn lemma_preallocate_acquires_all(v: RegionView, size: u64, n: nat)
    requires
        v.wf(),
        v.header.allocated + n <= v.header.capacity,
    ensures
        ({
            let (w, got) = v.after_preallocate(size, n);
            &&& got.len() == n
            &&& got.no_duplicates()
            &&& w.wf()
            &&& w.header.capacity == v.header.capacity
            &&& w.header.allocated == v.header.allocated + n
            &&& forall|k: int|
                0 <= k < n ==> {
                    let slot = #[trigger] got[k];
                    &&& slot < v.header.capacity
                    &&& !v.is_live(slot)
                    &&& w.is_live(slot)
                    &&& w.ref_count(slot) == 1
                    &&& w.records[slot as int] == RegionView::new_record(
                        v.records[slot as int],
                        slot,
                        StorageType::Cpu,
                        0,
                        size,
                    )
                }
            &&& forall|slot: u32| #[trigger]
                v.is_live(slot) ==> w.is_live(slot) && w.records[slot as int]
                    == v.records[slot as int]
            &&& forall|slot: u32|
                slot < v.header.capacity && !got.contains(slot) ==> #[trigger] w.records[slot as int]
                    == v.records[slot as int]
        }),
    decreases n,
{
    if n > 0 {
        lemma_alloc_keeps_wf(v);
        lemma_acquire_keeps_wf(v, size, 0, arbitrary::<CudaIpcHandle>());
        let first = v.alloc_outcome()->Slot_0;
        let v1 = v.after_acquire_cpu(size);
        let m = (n - 1) as nat;
        lemma_preallocate_acquires_all(v1, size, m);
        let (w, rest) = v1.after_preallocate(size, m);
        let got = v.after_preallocate(size, n).1;
        assert(got == seq![first] + rest);
        assert(v1.live().contains(first));
        assert(v1.is_live(first));
        assert forall|slot: u32| v.is_live(slot) implies v1.is_live(slot) by {
            assert(v.live().contains(slot));
            assert(v1.live().contains(slot));
        }
        assert forall|slot: u32| v1.is_live(slot) && slot != first implies v.is_live(slot) by {
            assert(v1.live().contains(slot));
            assert(v.live().contains(slot));
        }
        assert(!rest.contains(first)) by {
            if rest.contains(first) {
                let k = choose|k: int| 0 <= k < rest.len() && rest[k] == first;
                assert(!v1.is_live(rest[k]));
            }
        }
        assert(got.no_duplicates()) by {
            assert forall|i: int, j: int|
                0 <= i < got.len() && 0 <= j < got.len() && i != j implies got[i] != got[j] by {
                if i > 0 {
                    assert(got[i] == rest[i - 1]);
                    assert(rest.contains(rest[i - 1]));
                }
                if j > 0 {
                    assert(got[j] == rest[j - 1]);
                    assert(rest.contains(rest[j - 1]));
                }
            }
        }
        assert forall|k: int| 0 <= k < n implies {
            let slot = #[trigger] got[k];
            &&& slot < v.header.capacity
            &&& !v.is_live(slot)
            &&& w.is_live(slot)
            &&& w.ref_count(slot) == 1
            &&& w.records[slot as int] == RegionView::new_record(
                v.records[slot as int],
                slot,
                StorageType::Cpu,
                0,
                size,
            )
        } by {
            if k > 0 {
                assert(got[k] == rest[k - 1]);
                let slot = rest[k - 1];
                assert(rest.contains(slot));
                assert(slot != first);
                assert(v1.records[slot as int] == v.records[slot as int]);
            }
        }
        assert forall|slot: u32| #[trigger] v.is_live(slot) implies w.is_live(slot)
            && w.records[slot as int] == v.records[slot as int] by {
            assert(v1.is_live(slot));
            assert(slot != first);
        }
        assert forall|slot: u32|
            slot < v.header.capacity && !got.contains(slot) implies #[trigger] w.records[slot as int]
            == v.records[slot as int] by {
            assert(got[0] == first);
            assert(slot != first);
            assert(!rest.contains(slot)) by {
                if rest.contains(slot) {
                    let k = choose|k: int| 0 <= k < rest.len() && rest[k] == slot;
                    assert(got[k + 1] == slot);
                }
            }
        }
    }
}

} // verus!
