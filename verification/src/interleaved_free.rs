//! Releases that run side by side.
//!
//! Several parties may release slots of one region at the same time, each
//! its own.  Each of them runs the release protocol of [`crate::protocol`],
//! and their atomic operations reach the region in some order, one at a
//! time.  This module describes such a run and shows that every one of them
//! ends well: when all parties are through, the region is well formed, the
//! released slots hold a live allocation no more, and nothing else has
//! changed but the links of the released slots.

use crate::discipline::{lemma_allocated_counts_live, lemma_chain_is_free_list};
use crate::interleaved_alloc::{alone, Turn};
use crate::meta::BufferMeta;
use crate::meta_region::{free_progress, free_rank, lemma_free_step, RegionView};
use crate::protocol::{
    free_first, free_then, Cell, CellOp, CellReply, FreeOutcome, FreeState, MemOrder, Step, EMPTY,
};
use vstd::prelude::*;
use vstd::set_lib::lemma_len_subset;

verus! {

/// Several releases on one region: the region as it stands, for each party
/// the slot it releases, and the step its release has come to.
pub struct Releasers {
    pub region: RegionView,
    pub slots: Seq<u32>,
    pub parties: Seq<Step<FreeState, FreeOutcome>>,
}

impl Releasers {
    /// One party for each of `slots` sets out to release its slot of
    /// `region`.
    pub open spec fn start(region: RegionView, slots: Seq<u32>) -> Releasers {
        Releasers {
            region,
            slots,
            parties: Seq::new(slots.len(), |p: int| free_first(slots[p], region.header.capacity)),
        }
    }

    /// The run after one more turn.  The party's operation is performed on
    /// the region as it stands and the party goes on with the reply.  A turn
    /// of a party that is through, or of no party, changes nothing.
    pub open spec fn turn(self, t: Turn) -> Releasers {
        if 0 <= t.party < self.parties.len() {
            match self.parties[t.party] {
                Step::Done(_) => self,
                Step::Run { state, op } => {
                    let fails = t.lost && op is CompareExchange;
                    let reply = if fails {
                        CellReply { done: false, value: self.region.cell(op.target()) }
                    } else {
                        self.region.reply(op)
                    };
                    let region = if fails {
                        self.region
                    } else {
                        self.region.after(op)
                    };
                    Releasers {
                        region,
                        parties: self.parties.update(
                            t.party,
                            free_then(state, reply, self.slots[t.party]),
                        ),
                        ..self
                    }
                },
            }
        } else {
            self
        }
    }

    /// The run after all turns of `schedule`, first to last.
    pub open spec fn run(self, schedule: Seq<Turn>) -> Releasers
        decreases schedule.len(),
    {
        if schedule.len() == 0 {
            self
        } else {
            self.run(schedule.drop_last()).turn(schedule.last())
        }
    }

    /// Every party is through.
    pub open spec fn quiescent(self) -> bool {
        forall|p: int| 0 <= p < self.parties.len() ==> (#[trigger] self.parties[p]) is Done
    }
}

/// The slots are ones that parties can release side by side: each holds a
/// live allocation, and no two parties release the same.
pub open spec fn releasable(region: RegionView, slots: Seq<u32>) -> bool {
    &&& slots.no_duplicates()
    &&& forall|p: int| 0 <= p < slots.len() ==> region.is_live(#[trigger] slots[p])
}

/// The record is `before` but for its free-list link.
pub open spec fn same_but_link(before: BufferMeta, after: BufferMeta) -> bool {
    after == (BufferMeta { next_free: after.next_free, ..before })
}

/// The party's slot is on the free list.
spec fn published(step: Step<FreeState, FreeOutcome>) -> bool {
    match step {
        Step::Run { state: FreeState::Count, .. } => true,
        Step::Done(FreeOutcome::Freed) => true,
        _ => false,
    }
}

/// How many parties have their slot on the free list and the allocation
/// count still to lower.
spec fn counting(parties: Seq<Step<FreeState, FreeOutcome>>) -> nat
    decreases parties.len(),
{
    if parties.len() == 0 {
        0
    } else {
        counting(parties.drop_last()) + (if parties.last() matches Step::Run {
            state: FreeState::Count,
            ..
        } {
            1nat
        } else {
            0nat
        })
    }
}

proof fn lemma_counting_update(
    parties: Seq<Step<FreeState, FreeOutcome>>,
    p: int,
    step: Step<FreeState, FreeOutcome>,
)
    requires
        0 <= p < parties.len(),
    ensures
        counting(parties.update(p, step)) + (if parties[p] matches Step::Run {
            state: FreeState::Count,
            ..
        } {
            1nat
        } else {
            0nat
        }) == counting(parties) + (if step matches Step::Run { state: FreeState::Count, .. } {
            1nat
        } else {
            0nat
        }),
    decreases parties.len(),
{
    if p == parties.len() - 1 {
        assert(parties.update(p, step).drop_last() =~= parties.drop_last());
    } else {
        lemma_counting_update(parties.drop_last(), p, step);
        assert(parties.update(p, step).drop_last() =~= parties.drop_last().update(p, step));
    }
}

proof fn lemma_counting_none(parties: Seq<Step<FreeState, FreeOutcome>>)
    requires
        forall|p: int|
            0 <= p < parties.len() ==> !((#[trigger] parties[p]) matches Step::Run {
                state: FreeState::Count,
                ..
            }),
    ensures
        counting(parties) == 0,
    decreases parties.len(),
{
    if parties.len() > 0 {
        assert forall|p: int| 0 <= p < parties.drop_last().len() implies !((
        #[trigger] parties.drop_last()[p]) matches Step::Run { state: FreeState::Count, .. }) by {
            assert(parties.drop_last()[p] == parties[p]);
        }
        lemma_counting_none(parties.drop_last());
    }
}

/// The free list of a run that has put `fresh` on the list it started with,
/// newest first.
spec fn listed(init: RegionView, fresh: Seq<u32>) -> Seq<u32> {
    fresh + init.free_list()
}

/// The region is what a run that has published `fresh` leaves of the region
/// it started from.
spec fn region_ok(init: RegionView, sys: Releasers, fresh: Seq<u32>) -> bool {
    let all = listed(init, fresh);
    let h = sys.region.header;
    let h0 = init.header;
    &&& h.capacity == h0.capacity
    &&& h.magic == h0.magic
    &&& h.version == h0.version
    &&& h.waiters == h0.waiters
    &&& h.next_id == h0.next_id
    &&& h.free_head == (if all.len() > 0 {
        all[0]
    } else {
        EMPTY
    })
    &&& fresh.len() <= h0.allocated
    &&& h.allocated == h0.allocated - fresh.len() + counting(sys.parties)
    &&& sys.region.records.len() == init.records.len()
    &&& forall|i: int|
        0 <= i < init.records.len() ==> same_but_link(
            init.records[i],
            #[trigger] sys.region.records[i],
        )
    &&& forall|i: int|
        0 <= i < all.len() ==> sys.region.records[(#[trigger] all[i]) as int].next_free == (if i
            + 1 < all.len() {
            all[i + 1]
        } else {
            EMPTY
        })
}

/// The slots on the list are those of the parties that have published
/// theirs, each once.
spec fn fresh_ok(init: RegionView, sys: Releasers, fresh: Seq<u32>) -> bool {
    &&& fresh.no_duplicates()
    &&& forall|i: int| 0 <= i < fresh.len() ==> init.is_live(#[trigger] fresh[i])
    &&& forall|i: int| 0 <= i < fresh.len() ==> sys.slots.contains(#[trigger] fresh[i])
    &&& forall|p: int|
        0 <= p < sys.parties.len() ==> (published(#[trigger] sys.parties[p]) <==> fresh.contains(
            sys.slots[p],
        ))
}

/// The party stands where a run can have brought it.
spec fn party_ok(sys: Releasers, p: int) -> bool {
    let slot = sys.slots[p];
    match sys.parties[p] {
        Step::Done(outcome) => outcome == FreeOutcome::Freed,
        Step::Run { state, op } => match state {
            FreeState::Head => op == (CellOp::Load {
                cell: Cell::FreeHead,
                order: MemOrder::Acquire,
            }),
            FreeState::Link { head } => op == (CellOp::Store {
                cell: Cell::NextFree(slot),
                value: head,
                order: MemOrder::Release,
            }),
            FreeState::Swing => op == (CellOp::CompareExchange {
                cell: Cell::FreeHead,
                current: sys.region.records[slot as int].next_free,
                new: slot,
                success: MemOrder::AcqRel,
                failure: MemOrder::Acquire,
            }),
            FreeState::Count => op == (CellOp::FetchSub {
                cell: Cell::Allocated,
                value: 1,
                order: MemOrder::SeqCst,
            }),
        },
    }
}

spec fn parties_ok(sys: Releasers) -> bool {
    forall|p: int| 0 <= p < sys.parties.len() ==> #[trigger] party_ok(sys, p)
}

/// What holds at every point of a run that started from `init`, when the
/// slots of `fresh` have been put on the free list.
spec fn holds(init: RegionView, sys: Releasers, fresh: Seq<u32>) -> bool {
    &&& sys.slots.len() == sys.parties.len()
    &&& releasable(init, sys.slots)
    &&& region_ok(init, sys, fresh)
    &&& fresh_ok(init, sys, fresh)
    &&& parties_ok(sys)
}

/// The slots on the list after the turn.
spec fn fresh_after(sys: Releasers, t: Turn, fresh: Seq<u32>) -> Seq<u32> {
    if 0 <= t.party < sys.parties.len() && !t.lost && (sys.parties[t.party] matches Step::Run {
        state: FreeState::Swing,
        op,
    } && sys.region.header.free_head == op->CompareExchange_current) {
        seq![sys.slots[t.party]] + fresh
    } else {
        fresh
    }
}

/// Slots that hold a live allocation are no more than the allocation count
/// says, however many of them are picked.
proof fn lemma_live_slots_bound(init: RegionView, picked: Seq<u32>)
    requires
        init.wf(),
        picked.no_duplicates(),
        forall|i: int| 0 <= i < picked.len() ==> init.is_live(#[trigger] picked[i]),
    ensures
        picked.len() <= init.header.allocated,
{
    lemma_allocated_counts_live(init);
    picked.unique_seq_to_set();
    assert(picked.to_set().subset_of(init.live())) by {
        assert forall|x: u32| picked.to_set().contains(x) implies init.live().contains(x) by {
            let i = choose|i: int| 0 <= i < picked.len() && picked[i] == x;
            assert(init.is_live(picked[i]));
        }
    }
    lemma_len_subset(picked.to_set(), init.live());
}

/// A slot that holds a live allocation is below the capacity and not on
/// the free list.
proof fn lemma_live_is_unlisted(init: RegionView, slot: u32)
    requires
        init.wf(),
        init.is_live(slot),
    ensures
        slot < init.header.capacity,
        !init.free_list().contains(slot),
        slot != EMPTY,
{
}

/// An unpublished party's slot is nowhere on the list.
#[verifier::rlimit(50)]
proof fn lemma_unpublished_is_unlisted(init: RegionView, sys: Releasers, fresh: Seq<u32>, p: int)
    requires
        init.wf(),
        holds(init, sys, fresh),
        0 <= p < sys.parties.len(),
        !published(sys.parties[p]),
    ensures
        !listed(init, fresh).contains(sys.slots[p]),
        sys.slots[p] < init.header.capacity,
{
    let slot = sys.slots[p];
    let all = listed(init, fresh);
    lemma_live_is_unlisted(init, slot);
    if all.contains(slot) {
        let i = choose|i: int| 0 <= i < all.len() && all[i] == slot;
        if i < fresh.len() {
            assert(fresh[i] == slot);
            assert(fresh.contains(slot));
        } else {
            assert(init.free_list()[i - fresh.len()] == slot);
            assert(init.free_list().contains(slot));
        }
    }
}

/// One turn keeps the region what a run leaves of it.
#[verifier::rlimit(50)]
proof fn lemma_turn_keeps_region(init: RegionView, sys: Releasers, t: Turn, fresh: Seq<u32>)
    requires
        init.wf(),
        holds(init, sys, fresh),
    ensures
        region_ok(init, sys.turn(t), fresh_after(sys, t, fresh)),
        fresh_after(sys, t, fresh).len() <= fresh.len() + 1,
{
    let next = sys.turn(t);
    let p = t.party;
    let all = listed(init, fresh);
    let fresh2 = fresh_after(sys, t, fresh);
    let all2 = listed(init, fresh2);
    if 0 <= p < sys.parties.len() && sys.parties[p] is Run {
        let slot = sys.slots[p];
        let state = sys.parties[p]->state;
        let op = sys.parties[p]->op;
        assert(party_ok(sys, p));
        lemma_counting_update(sys.parties, p, next.parties[p]);
        assert(init.is_live(sys.slots[p]));
        lemma_live_is_unlisted(init, slot);
        match state {
            FreeState::Head => {},
            FreeState::Link { head } => {
                lemma_unpublished_is_unlisted(init, sys, fresh, p);
                assert forall|i: int| 0 <= i < all.len() implies next.region.records[(
                #[trigger] all[i]) as int].next_free == (if i + 1 < all.len() {
                    all[i + 1]
                } else {
                    EMPTY
                }) by {
                    assert(all.contains(all[i]));
                    assert(all[i] != slot);
                }
                assert forall|i: int| 0 <= i < init.records.len() implies same_but_link(
                    init.records[i],
                    #[trigger] next.region.records[i],
                ) by {
                    assert(same_but_link(init.records[i], sys.region.records[i]));
                }
            },
            FreeState::Swing => {
                if fresh2.len() == fresh.len() + 1 {
                    lemma_unpublished_is_unlisted(init, sys, fresh, p);
                    assert(all2 =~= seq![slot] + all);
                    assert(fresh2.no_duplicates()) by {
                        assert forall|i: int, j: int|
                            0 <= i < fresh2.len() && 0 <= j < fresh2.len() && i
                                != j implies fresh2[i] != fresh2[j] by {
                            if i > 0 {
                                assert(fresh2[i] == fresh[i - 1]);
                                assert(fresh.contains(fresh[i - 1]));
                                assert(all[i - 1] == fresh[i - 1]);
                                assert(all.contains(fresh[i - 1]));
                            }
                            if j > 0 {
                                assert(fresh2[j] == fresh[j - 1]);
                                assert(fresh.contains(fresh[j - 1]));
                                assert(all[j - 1] == fresh[j - 1]);
                                assert(all.contains(fresh[j - 1]));
                            }
                        }
                    }
                    assert forall|i: int| 0 <= i < fresh2.len() implies init.is_live(
                        #[trigger] fresh2[i],
                    ) by {
                        if i > 0 {
                            assert(fresh2[i] == fresh[i - 1]);
                        }
                    }
                    lemma_live_slots_bound(init, fresh2);
                    assert forall|i: int| 0 <= i < all2.len() implies next.region.records[(
                    #[trigger] all2[i]) as int].next_free == (if i + 1 < all2.len() {
                        all2[i + 1]
                    } else {
                        EMPTY
                    }) by {
                        if i > 0 {
                            assert(all2[i] == all[i - 1]);
                            if i + 1 < all2.len() {
                                assert(all2[i + 1] == all[i]);
                            }
                        } else {
                            if all.len() > 0 {
                                assert(all2[1] == all[0]);
                            }
                        }
                    }
                }
            },
            FreeState::Count => {
                assert(counting(sys.parties) >= 1);
            },
        }
    }
}

/// One turn keeps the list the slots of the parties that have published
/// theirs, and leaves every party where a run can have brought it.
#[verifier::rlimit(50)]
proof fn lemma_turn_keeps_parties(init: RegionView, sys: Releasers, t: Turn, fresh: Seq<u32>)
    requires
        init.wf(),
        holds(init, sys, fresh),
    ensures
        fresh_ok(init, sys.turn(t), fresh_after(sys, t, fresh)),
        parties_ok(sys.turn(t)),
        sys.turn(t).slots == sys.slots,
        sys.turn(t).parties.len() == sys.parties.len(),
{
    let next = sys.turn(t);
    let p = t.party;
    let all = listed(init, fresh);
    let fresh2 = fresh_after(sys, t, fresh);
    if 0 <= p < sys.parties.len() && sys.parties[p] is Run {
        let slot = sys.slots[p];
        let state = sys.parties[p]->state;
        assert(party_ok(sys, p));
        assert(init.is_live(sys.slots[p]));
        lemma_live_is_unlisted(init, slot);
        let grows = fresh2.len() == fresh.len() + 1;
        if grows {
            lemma_unpublished_is_unlisted(init, sys, fresh, p);
            assert(!fresh.contains(slot)) by {
                if fresh.contains(slot) {
                    let i = choose|i: int| 0 <= i < fresh.len() && fresh[i] == slot;
                    assert(all[i] == slot);
                }
            }
            assert(fresh2.no_duplicates()) by {
                assert forall|i: int, j: int|
                    0 <= i < fresh2.len() && 0 <= j < fresh2.len() && i != j implies fresh2[i]
                    != fresh2[j] by {
                    if i > 0 {
                        assert(fresh2[i] == fresh[i - 1]);
                        assert(fresh.contains(fresh[i - 1]));
                    }
                    if j > 0 {
                        assert(fresh2[j] == fresh[j - 1]);
                        assert(fresh.contains(fresh[j - 1]));
                    }
                }
            }
            assert forall|i: int| 0 <= i < fresh2.len() implies init.is_live(
                #[trigger] fresh2[i],
            ) by {
                if i > 0 {
                    assert(fresh2[i] == fresh[i - 1]);
                }
            }
            assert forall|i: int| 0 <= i < fresh2.len() implies sys.slots.contains(
                #[trigger] fresh2[i],
            ) by {
                if i > 0 {
                    assert(fresh2[i] == fresh[i - 1]);
                } else {
                    assert(sys.slots[p] == fresh2[0]);
                }
            }
            assert(fresh2[0] == slot);
        }
        assert forall|q: int| 0 <= q < next.parties.len() implies (published(
            #[trigger] next.parties[q],
        ) <==> fresh2.contains(sys.slots[q])) by {
            assert(published(sys.parties[q]) <==> fresh.contains(sys.slots[q]));
            if grows {
                assert(forall|x: u32| fresh2.contains(x) <==> fresh.contains(x) || x == slot) by {
                    assert forall|x: u32| fresh2.contains(x) implies fresh.contains(x) || x
                        == slot by {
                        let i = choose|i: int| 0 <= i < fresh2.len() && fresh2[i] == x;
                        if i > 0 {
                            assert(fresh[i - 1] == x);
                        }
                    }
                    assert forall|x: u32| fresh.contains(x) || x == slot implies fresh2.contains(
                        x,
                    ) by {
                        if x == slot {
                            assert(fresh2[0] == x);
                        } else {
                            let i = choose|i: int| 0 <= i < fresh.len() && fresh[i] == x;
                            assert(fresh2[i + 1] == x);
                        }
                    }
                }
            }
            if q != p {
                assert(next.parties[q] == sys.parties[q]);
                assert(sys.slots[q] != sys.slots[p]);
            }
        }
        assert forall|q: int| 0 <= q < next.parties.len() implies #[trigger] party_ok(next, q) by {
            assert(party_ok(sys, q));
            if q != p {
                assert(next.parties[q] == sys.parties[q]);
                assert(sys.slots[q] != sys.slots[p]);
                assert(init.is_live(sys.slots[q]));
                lemma_live_is_unlisted(init, sys.slots[q]);
            }
        }
    }
}

/// What holds of a run holds after any schedule.
#[verifier::rlimit(50)]
proof fn lemma_run_keeps(init: RegionView, slots: Seq<u32>, schedule: Seq<Turn>) -> (fresh: Seq<
    u32,
>)
    requires
        init.wf(),
        releasable(init, slots),
    ensures
        holds(init, Releasers::start(init, slots).run(schedule), fresh),
        Releasers::start(init, slots).run(schedule).slots == slots,
    decreases schedule.len(),
{
    let first = Releasers::start(init, slots);
    if schedule.len() == 0 {
        let none = Seq::<u32>::empty();
        assert(listed(init, none) =~= init.free_list());
        assert forall|p: int| 0 <= p < first.parties.len() implies !((
        #[trigger] first.parties[p]) matches Step::Run { state: FreeState::Count, .. }) by {
            assert(init.is_live(slots[p]));
        }
        lemma_counting_none(first.parties);
        assert forall|p: int| 0 <= p < first.parties.len() implies #[trigger] party_ok(
            first,
            p,
        ) by {
            assert(init.is_live(slots[p]));
        }
        assert forall|p: int| 0 <= p < first.parties.len() implies (published(
            #[trigger] first.parties[p],
        ) <==> none.contains(first.slots[p])) by {
            assert(init.is_live(slots[p]));
        }
        none
    } else {
        let fresh = lemma_run_keeps(init, slots, schedule.drop_last());
        let sys = first.run(schedule.drop_last());
        let t = schedule.last();
        lemma_turn_keeps_region(init, sys, t, fresh);
        lemma_turn_keeps_parties(init, sys, t, fresh);
        fresh_after(sys, t, fresh)
    }
}

/// However the operations of releases of different slots that hold a live
/// allocation fall between each other on a well-formed region: when all
/// parties are through, every one of them has released its slot, the region
/// is well formed again, the slots that hold a live allocation are those
/// that did before less the released ones, and no record has changed but in
/// its link.
#[verifier::rlimit(50)]
pub proof fn lemma_interleaved_releases_end_well(
    init: RegionView,
    slots: Seq<u32>,
    schedule: Seq<Turn>,
)
    requires
        init.wf(),
        releasable(init, slots),
        Releasers::start(init, slots).run(schedule).quiescent(),
    ensures
        ({
            let sys = Releasers::start(init, slots).run(schedule);
            &&& sys.region.wf()
            &&& forall|p: int|
                0 <= p < slots.len() ==> #[trigger] sys.parties[p] == Step::<
                    FreeState,
                    FreeOutcome,
                >::Done(FreeOutcome::Freed)
            &&& forall|index: u32| #[trigger]
                sys.region.is_live(index) <==> init.is_live(index) && !slots.contains(index)
            &&& forall|i: int|
                0 <= i < init.records.len() ==> same_but_link(
                    init.records[i],
                    #[trigger] sys.region.records[i],
                )
        }),
{
    let sys = Releasers::start(init, slots).run(schedule);
    let fresh = lemma_run_keeps(init, slots, schedule);
    let all = listed(init, fresh);
    let list = init.free_list();
    assert forall|p: int| 0 <= p < sys.parties.len() implies !((
    #[trigger] sys.parties[p]) matches Step::Run { state: FreeState::Count, .. }) by {
        assert(sys.parties[p] is Done);
    }
    lemma_counting_none(sys.parties);
    assert forall|p: int| 0 <= p < slots.len() implies #[trigger] sys.parties[p] == Step::<
        FreeState,
        FreeOutcome,
    >::Done(FreeOutcome::Freed) by {
        assert(party_ok(sys, p));
        assert(sys.parties[p] is Done);
    }
    assert(sys.region.chain(all)) by {
        assert forall|i: int| 0 <= i < all.len() implies #[trigger] all[i]
            < sys.region.header.next_id by {
            if i < fresh.len() {
                assert(init.is_live(fresh[i]));
            } else {
                assert(all[i] == list[i - fresh.len()]);
            }
        }
        assert forall|i: int, j: int|
            0 <= i < all.len() && 0 <= j < all.len() && i != j implies all[i] != all[j] by {
            if i < fresh.len() {
                assert(init.is_live(fresh[i]));
                if j >= fresh.len() {
                    assert(all[j] == list[j - fresh.len()]);
                    assert(list.contains(all[j]));
                }
            } else {
                assert(all[i] == list[i - fresh.len()]);
                if j < fresh.len() {
                    assert(init.is_live(fresh[j]));
                    assert(list.contains(all[i]));
                } else {
                    assert(all[j] == list[j - fresh.len()]);
                }
            }
        }
    }
    lemma_chain_is_free_list(sys.region, all);
    assert forall|index: u32| #[trigger]
        sys.region.is_live(index) <==> init.is_live(index) && !slots.contains(index) by {
        if slots.contains(index) {
            let p = choose|p: int| 0 <= p < slots.len() && slots[p] == index;
            assert(published(sys.parties[p]));
            assert(fresh.contains(index));
            let i = choose|i: int| 0 <= i < fresh.len() && fresh[i] == index;
            assert(all[i] == index);
            assert(all.contains(index));
        }
        if all.contains(index) {
            let i = choose|i: int| 0 <= i < all.len() && all[i] == index;
            if i < fresh.len() {
                assert(fresh[i] == index);
                assert(fresh.contains(index));
                assert(init.is_live(fresh[i]));
            } else {
                assert(list[i - fresh.len()] == index);
                assert(list.contains(index));
            }
        }
        if list.contains(index) {
            let j = choose|j: int| 0 <= j < list.len() && list[j] == index;
            assert(all[fresh.len() + j] == index);
            assert(all.contains(index));
        }
        if fresh.contains(index) {
            // Only slots of parties are put on the list.
            let i = choose|i: int| 0 <= i < fresh.len() && fresh[i] == index;
            assert(sys.slots.contains(fresh[i]));
        }
    }
}

proof fn lemma_alone_progress(init: RegionView, slot: u32, n: nat)
    requires
        init.structural(),
    ensures
        ({
            let sys = Releasers::start(init, seq![slot]).run(alone(n));
            &&& sys.parties.len() == 1
            &&& sys.slots == seq![slot]
            &&& free_progress(init, sys.region, slot, sys.parties[0])
            &&& free_rank(sys.parties[0]) + n <= 4 || sys.parties[0] is Done
        }),
    decreases n,
{
    if n > 0 {
        lemma_alone_progress(init, slot, (n - 1) as nat);
        assert(alone(n).drop_last() =~= alone((n - 1) as nat));
        let sys = Releasers::start(init, seq![slot]).run(alone((n - 1) as nat));
        if let Step::Run { state, op } = sys.parties[0] {
            lemma_free_step(init, sys.region, slot, state, op);
        }
    }
}

/// A party that releases a slot with nobody beside it is through after four
/// turns, and the run comes to what the release is stated to do: the result
/// is the outcome of the release and the region is the region after it.
pub proof fn lemma_alone_is_sequential(init: RegionView, slot: u32)
    requires
        init.structural(),
    ensures
        ({
            let sys = Releasers::start(init, seq![slot]).run(alone(4));
            &&& sys.quiescent()
            &&& sys.parties[0] == Step::<FreeState, FreeOutcome>::Done(init.free_outcome(slot))
            &&& sys.region == init.after_free(slot)
        }),
{
    lemma_alone_progress(init, slot, 4);
}

} // verus!
