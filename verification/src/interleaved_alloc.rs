//! Allocations that run side by side.
//!
//! Several parties, in one process or in many, may allocate from one region
//! at the same time.  Each of them runs the allocation protocol of
//! [`crate::protocol`], and their atomic operations reach the region in some
//! order, one at a time.  This module describes such a run and shows what
//! holds of every one of them: no slot is handed out twice, no slot is
//! handed out that held a live allocation, and when all parties have their
//! result the region is well formed again.
//!
//! A release that runs between the operations of an allocation is not
//! covered: the exchange of an allocation cannot tell the head it read from
//! the same slot released anew.

use crate::discipline::lemma_chain_is_free_list;
use crate::meta_region::{alloc_progress, alloc_rank, lemma_alloc_step, RegionView};
use crate::protocol::{
    alloc_first, alloc_then, AllocOutcome, AllocState, Cell, CellOp, CellReply, MemOrder, Step,
    EMPTY,
};
use vstd::prelude::*;

verus! {

/// Several allocations on one region: the region as it stands, and for each
/// party the step its allocation has come to.
pub struct Allocators {
    pub region: RegionView,
    pub parties: Seq<Step<AllocState, AllocOutcome>>,
}

/// One turn of a run: which party's operation reaches the region next, and
/// whether an exchange, being weak, is lost without cause.
pub struct Turn {
    pub party: int,
    pub lost: bool,
}

impl Allocators {
    /// `n` parties set out to allocate from `region`.
    pub open spec fn start(region: RegionView, n: nat) -> Allocators {
        Allocators { region, parties: Seq::new(n, |p: int| alloc_first()) }
    }

    /// The run after one more turn.  The party's operation is performed on
    /// the region as it stands and the party goes on with the reply.  A turn
    /// of a party that has its result, or of no party, changes nothing.
    pub open spec fn turn(self, t: Turn) -> Allocators {
        if 0 <= t.party < self.parties.len() {
            match self.parties[t.party] {
                Step::Done(_) => self,
                Step::Run { state, op } => {
                    let fails = t.lost && op is CompareExchange;
                    let reply = if fails {
                        CellReply { done: false, value: self.region.cell(op.target()) }
                    } else {
                        self.region.reply(op)
                    };
                    let region = if fails {
                        self.region
                    } else {
                        self.region.after(op)
                    };
                    Allocators {
                        region,
                        parties: self.parties.update(
                            t.party,
                            alloc_then(state, reply, self.region.header.capacity),
                        ),
                    }
                },
            }
        } else {
            self
        }
    }

    /// The run after all turns of `schedule`, first to last.
    pub open spec fn run(self, schedule: Seq<Turn>) -> Allocators
        decreases schedule.len(),
    {
        if schedule.len() == 0 {
            self
        } else {
            self.run(schedule.drop_last()).turn(schedule.last())
        }
    }

    /// The slot that party `p` was handed, once it has one.
    pub open spec fn slot(self, p: int) -> Option<u32> {
        match self.parties[p] {
            Step::Done(AllocOutcome::Slot(index)) => Some(index),
            _ => None,
        }
    }

    /// Every party has its result.
    pub open spec fn quiescent(self) -> bool {
        forall|p: int| 0 <= p < self.parties.len() ==> (#[trigger] self.parties[p]) is Done
    }
}

/// What is counted among the parties.
enum Kind {
    /// Parties that owe the bump cursor a decrement.
    Undoing,
    /// Parties that have won a slot, counted or not.
    Won,
    /// Parties that were handed a slot.
    Handed,
}

/// The slot the party has won, if any.
spec fn won(step: Step<AllocState, AllocOutcome>) -> Option<u32> {
    match step {
        Step::Done(AllocOutcome::Slot(index)) => Some(index),
        Step::Run { state: AllocState::Count { index }, .. } => Some(index),
        _ => None,
    }
}

spec fn is_kind(step: Step<AllocState, AllocOutcome>, kind: Kind) -> bool {
    match kind {
        Kind::Undoing => step matches Step::Run { state: AllocState::Undo, .. },
        Kind::Won => won(step) is Some,
        Kind::Handed => step matches Step::Done(AllocOutcome::Slot(_)),
    }
}

/// How many parties are of the kind.
spec fn tally(parties: Seq<Step<AllocState, AllocOutcome>>, kind: Kind) -> nat
    decreases parties.len(),
{
    if parties.len() == 0 {
        0
    } else {
        tally(parties.drop_last(), kind) + (if is_kind(parties.last(), kind) {
            1nat
        } else {
            0nat
        })
    }
}

proof fn lemma_tally_update(
    parties: Seq<Step<AllocState, AllocOutcome>>,
    kind: Kind,
    p: int,
    step: Step<AllocState, AllocOutcome>,
)
    requires
        0 <= p < parties.len(),
    ensures
        tally(parties.update(p, step), kind) + (if is_kind(parties[p], kind) {
            1nat
        } else {
            0nat
        }) == tally(parties, kind) + (if is_kind(step, kind) {
            1nat
        } else {
            0nat
        }),
        tally(parties, kind) <= parties.len(),
    decreases parties.len(),
{
    lemma_tally_bound(parties, kind);
    if p == parties.len() - 1 {
        assert(parties.update(p, step).drop_last() =~= parties.drop_last());
    } else {
        lemma_tally_update(parties.drop_last(), kind, p, step);
        assert(parties.update(p, step).drop_last() =~= parties.drop_last().update(p, step));
    }
}

proof fn lemma_tally_bound(parties: Seq<Step<AllocState, AllocOutcome>>, kind: Kind)
    ensures
        tally(parties, kind) <= parties.len(),
    decreases parties.len(),
{
    if parties.len() > 0 {
        lemma_tally_bound(parties.drop_last(), kind);
    }
}

proof fn lemma_tally_none(parties: Seq<Step<AllocState, AllocOutcome>>, kind: Kind)
    requires
        forall|p: int| 0 <= p < parties.len() ==> !is_kind(#[trigger] parties[p], kind),
    ensures
        tally(parties, kind) == 0,
    decreases parties.len(),
{
    if parties.len() > 0 {
        assert forall|p: int| 0 <= p < parties.drop_last().len() implies !is_kind(
            #[trigger] parties.drop_last()[p],
            kind,
        ) by {
            assert(parties.drop_last()[p] == parties[p]);
        }
        lemma_tally_none(parties.drop_last(), kind);
    }
}

proof fn lemma_tally_same(parties: Seq<Step<AllocState, AllocOutcome>>, one: Kind, other: Kind)
    requires
        forall|p: int|
            0 <= p < parties.len() ==> is_kind(#[trigger] parties[p], one) == is_kind(
                parties[p],
                other,
            ),
    ensures
        tally(parties, one) == tally(parties, other),
    decreases parties.len(),
{
    if parties.len() > 0 {
        assert forall|p: int| 0 <= p < parties.drop_last().len() implies is_kind(
            #[trigger] parties.drop_last()[p],
            one,
        ) == is_kind(parties.drop_last()[p], other) by {
            assert(parties.drop_last()[p] == parties[p]);
        }
        lemma_tally_same(parties.drop_last(), one, other);
    }
}

/// The region a run starts from is well formed.  What follows from that is
/// drawn out one fact at a time by the lemmas below.
#[verifier::opaque]
spec fn sound(init: RegionView) -> bool {
    init.wf()
}

proof fn lemma_sound_header(init: RegionView)
    requires
        sound(init),
    ensures
        init.structural(),
        init.header.next_id <= init.header.capacity,
        init.header.allocated + init.free_list().len() == init.header.next_id,
        init.header.free_head == (if init.free_list().len() > 0 {
            init.free_list()[0]
        } else {
            EMPTY
        }),
{
    reveal(sound);
}

proof fn lemma_sound_at(init: RegionView, j: int)
    requires
        sound(init),
        0 <= j < init.free_list().len(),
    ensures
        init.free_list()[j] < init.header.next_id,
        init.header.next_id <= init.header.capacity,
        init.records[init.free_list()[j] as int].next_free == (if j + 1
            < init.free_list().len() {
            init.free_list()[j + 1]
        } else {
            EMPTY
        }),
{
    reveal(sound);
}

proof fn lemma_sound_distinct(init: RegionView, i: int, j: int)
    requires
        sound(init),
        0 <= i < init.free_list().len(),
        0 <= j < init.free_list().len(),
        i != j,
    ensures
        init.free_list()[i] != init.free_list()[j],
{
    reveal(sound);
}

/// Slot `index` is one of the first `k` slots of the free list that the run
/// started with.
#[verifier::opaque]
spec fn popped(init: RegionView, index: u32, k: nat) -> bool {
    exists|j: int| 0 <= j < k && j < init.free_list().len() && init.free_list()[j] == index
}

proof fn lemma_popped_intro(init: RegionView, j: int, k: nat)
    requires
        0 <= j < k,
        j < init.free_list().len(),
    ensures
        popped(init, init.free_list()[j], k),
{
    reveal(popped);
}

proof fn lemma_popped_elim(init: RegionView, index: u32, k: nat) -> (j: int)
    requires
        popped(init, index, k),
    ensures
        0 <= j < k,
        j < init.free_list().len(),
        init.free_list()[j] == index,
{
    reveal(popped);
    choose|j: int| 0 <= j < k && j < init.free_list().len() && init.free_list()[j] == index
}

/// Slot `index` is one that the run has given away: one of the first `k`
/// slots of the free list it started with, or one of the `b` slots above
/// the bump cursor it started with.
spec fn given(init: RegionView, index: u32, k: nat, b: nat) -> bool {
    popped(init, index, k) || init.header.next_id <= index < init.header.next_id + b
}

/// The party stands where a run can have brought it.
spec fn party_ok(init: RegionView, step: Step<AllocState, AllocOutcome>, k: nat, b: nat) -> bool {
    let capacity = init.header.capacity;
    match step {
        Step::Done(AllocOutcome::Slot(index)) => given(init, index, k, b),
        Step::Done(AllocOutcome::Full) => true,
        Step::Done(AllocOutcome::NotFound(_)) => false,
        Step::Run { state, op } => match state {
            AllocState::Head => step == alloc_first(),
            AllocState::Next { head } => head < capacity && op == (CellOp::Load {
                cell: Cell::NextFree(head),
                order: MemOrder::Acquire,
            }),
            AllocState::Swing { head } => head < capacity && op == (CellOp::CompareExchange {
                cell: Cell::FreeHead,
                current: head,
                new: init.records[head as int].next_free,
                success: MemOrder::AcqRel,
                failure: MemOrder::Acquire,
            }),
            AllocState::Bump => op == (CellOp::FetchAdd {
                cell: Cell::NextId,
                value: 1,
                order: MemOrder::SeqCst,
            }),
            AllocState::Undo => op == (CellOp::FetchSub {
                cell: Cell::NextId,
                value: 1,
                order: MemOrder::SeqCst,
            }),
            AllocState::Count { index } => given(init, index, k, b) && op == (CellOp::FetchAdd {
                cell: Cell::Allocated,
                value: 1,
                order: MemOrder::SeqCst,
            }),
        },
    }
}

/// The region is what a run that has popped `k` slots and bumped `b` leaves
/// of the region it started from.
spec fn region_ok(init: RegionView, sys: Allocators, k: nat, b: nat) -> bool {
    let list = init.free_list();
    let h = sys.region.header;
    let h0 = init.header;
    let undoing = tally(sys.parties, Kind::Undoing);
    &&& sys.region.records == init.records
    &&& h.capacity == h0.capacity
    &&& h.magic == h0.magic
    &&& h.version == h0.version
    &&& h.waiters == h0.waiters
    &&& k <= list.len()
    &&& h.free_head == (if k < list.len() {
        list[k as int]
    } else {
        EMPTY
    })
    &&& h0.next_id + b <= h0.capacity
    &&& h.next_id == h0.next_id + b + undoing
    &&& (undoing > 0 ==> h0.next_id + b == h0.capacity)
    &&& h.allocated == h0.allocated + tally(sys.parties, Kind::Handed)
    &&& tally(sys.parties, Kind::Won) == k + b
}

/// Every party stands where a run can have brought it.
spec fn parties_ok(init: RegionView, sys: Allocators, k: nat, b: nat) -> bool {
    forall|p: int| 0 <= p < sys.parties.len() ==> party_ok(init, #[trigger] sys.parties[p], k, b)
}

/// No two parties have won the same slot.
spec fn distinct(sys: Allocators) -> bool {
    forall|p: int, q: int|
        0 <= p < sys.parties.len() && 0 <= q < sys.parties.len() && p != q && won(
            sys.parties[p],
        ) is Some ==> won(#[trigger] sys.parties[p]) != won(#[trigger] sys.parties[q])
}

/// Party `p` has won slot `index`.
spec fn holds_slot(sys: Allocators, p: int, index: u32) -> bool {
    0 <= p < sys.parties.len() && won(sys.parties[p]) == Some(index)
}

/// Every slot that was given away is in the hands of a party.
spec fn all_held(init: RegionView, sys: Allocators, k: nat, b: nat) -> bool {
    forall|index: u32| #[trigger]
        given(init, index, k, b) ==> exists|p: int| holds_slot(sys, p, index)
}

/// What holds at every point of a run that started from `init`, when `k`
/// slots have been popped from the free list and `b` have been bumped.
spec fn holds(init: RegionView, sys: Allocators, k: nat, b: nat) -> bool {
    &&& region_ok(init, sys, k, b)
    &&& parties_ok(init, sys, k, b)
    &&& distinct(sys)
    &&& all_held(init, sys, k, b)
}

/// The turn pops a slot from the free list.
spec fn pops(sys: Allocators, t: Turn) -> bool {
    0 <= t.party < sys.parties.len() && !t.lost && (sys.parties[t.party] matches Step::Run {
        state: AllocState::Swing { head },
        ..
    } && sys.region.header.free_head == head)
}

/// The turn wins a slot from the bump cursor.
spec fn bumps(sys: Allocators, t: Turn) -> bool {
    0 <= t.party < sys.parties.len() && (sys.parties[t.party] matches Step::Run {
        state: AllocState::Bump,
        ..
    }) && sys.region.header.next_id < sys.region.header.capacity
}

/// How many slots are popped after the turn.
spec fn popped_after(sys: Allocators, t: Turn, k: nat) -> nat {
    if pops(sys, t) {
        k + 1
    } else {
        k
    }
}

/// How many slots are bumped after the turn.
spec fn bumped_after(sys: Allocators, t: Turn, b: nat) -> nat {
    if bumps(sys, t) {
        b + 1
    } else {
        b
    }
}

proof fn lemma_given_grows(init: RegionView, index: u32, k: nat, b: nat, k2: nat, b2: nat)
    requires
        given(init, index, k, b),
        k <= k2,
        b <= b2,
    ensures
        given(init, index, k2, b2),
{
    if popped(init, index, k) {
        let j = lemma_popped_elim(init, index, k);
        lemma_popped_intro(init, j, k2);
    }
}

proof fn lemma_party_ok_grows(
    init: RegionView,
    step: Step<AllocState, AllocOutcome>,
    k: nat,
    b: nat,
    k2: nat,
    b2: nat,
)
    requires
        party_ok(init, step, k, b),
        k <= k2,
        b <= b2,
    ensures
        party_ok(init, step, k2, b2),
{
    if won(step) is Some {
        lemma_given_grows(init, won(step)->0, k, b, k2, b2);
    }
}

/// A slot that was given away is below the capacity and held no live
/// allocation when the run started.
proof fn lemma_given_was_free(init: RegionView, index: u32, k: nat, b: nat)
    requires
        sound(init),
        given(init, index, k, b),
        init.header.next_id + b <= init.header.capacity,
    ensures
        index < init.header.capacity,
        !init.is_live(index),
{
    if popped(init, index, k) {
        let j = lemma_popped_elim(init, index, k);
        lemma_sound_at(init, j);
        assert(init.free_list().contains(index));
    }
}

/// A slot that was given away after `k` pops and `b` bumps was given away
/// before, or it is the one that came last.
proof fn lemma_given_last(init: RegionView, index: u32, k: nat, b: nat, pop: bool)
    requires
        if pop {
            given(init, index, k + 1, b) && k < init.free_list().len()
        } else {
            given(init, index, k, b + 1)
        },
    ensures
        given(init, index, k, b) || index == (if pop {
            init.free_list()[k as int]
        } else {
            (init.header.next_id + b) as u32
        }),
{
    if pop && popped(init, index, k + 1) {
        let j = lemma_popped_elim(init, index, k + 1);
        if j < k {
            lemma_popped_intro(init, j, k);
        }
    }
}

/// The next slot of the free list, and the next above the bump cursor, has
/// not been given away.
proof fn lemma_next_not_given(init: RegionView, k: nat, b: nat, pop: bool)
    requires
        sound(init),
        init.header.next_id + b <= init.header.capacity,
        pop ==> k < init.free_list().len(),
        !pop ==> init.header.next_id + b < init.header.capacity,
    ensures
        !given(
            init,
            if pop {
                init.free_list()[k as int]
            } else {
                (init.header.next_id + b) as u32
            },
            k,
            b,
        ),
{
    let index = if pop {
        init.free_list()[k as int]
    } else {
        (init.header.next_id + b) as u32
    };
    if pop {
        lemma_sound_at(init, k as int);
    }
    if popped(init, index, k) {
        let j = lemma_popped_elim(init, index, k);
        lemma_sound_at(init, j);
        if pop {
            lemma_sound_distinct(init, j, k as int);
        }
    }
}

/// What a turn of party `t.party` comes to.  A turn that pops finds the
/// next slot of the free list at the head and leaves its link there; a turn
/// that bumps finds nobody owing the cursor a decrement.  Either way the
/// party has won the slot.  Any other turn leaves the party with what it
/// had won.  No turn touches another party.
#[verifier::rlimit(50)]
proof fn lemma_turn_gives(init: RegionView, sys: Allocators, t: Turn, k: nat, b: nat)
    requires
        sound(init),
        region_ok(init, sys, k, b),
        party_ok(init, sys.parties[t.party], k, b),
        0 <= t.party < sys.parties.len(),
    ensures
        sys.turn(t).parties.len() == sys.parties.len(),
        sys.turn(t).parties =~= sys.parties.update(t.party, sys.turn(t).parties[t.party]),
        !(pops(sys, t) && bumps(sys, t)),
        pops(sys, t) ==> k < init.free_list().len() && won(sys.turn(t).parties[t.party])
            == Some(init.free_list()[k as int]) && won(sys.parties[t.party]) is None,
        bumps(sys, t) ==> tally(sys.parties, Kind::Undoing) == 0 && init.header.next_id + b
            < init.header.capacity && won(sys.turn(t).parties[t.party]) == Some(
            (init.header.next_id + b) as u32,
        ) && won(sys.parties[t.party]) is None,
        !pops(sys, t) && !bumps(sys, t) ==> won(sys.turn(t).parties[t.party]) == won(
            sys.parties[t.party],
        ),
{
    lemma_sound_header(init);
    if pops(sys, t) {
        assert(k < init.free_list().len());
    }
}

/// One turn keeps the region what a run leaves of it.
#[verifier::rlimit(50)]
proof fn lemma_turn_keeps_region(init: RegionView, sys: Allocators, t: Turn, k: nat, b: nat)
    requires
        sound(init),
        init.header.capacity + sys.parties.len() <= u32::MAX,
        region_ok(init, sys, k, b),
        parties_ok(init, sys, k, b),
    ensures
        region_ok(init, sys.turn(t), popped_after(sys, t, k), bumped_after(sys, t, b)),
{
    let next = sys.turn(t);
    let p = t.party;
    if 0 <= p < sys.parties.len() && sys.parties[p] is Run {
        let state = sys.parties[p]->state;
        let step = next.parties[p];
        assert(party_ok(init, sys.parties[p], k, b));
        lemma_turn_gives(init, sys, t, k, b);
        lemma_sound_header(init);
        lemma_tally_update(sys.parties, Kind::Undoing, p, step);
        lemma_tally_update(sys.parties, Kind::Won, p, step);
        lemma_tally_update(sys.parties, Kind::Handed, p, step);
        lemma_tally_bound(next.parties, Kind::Undoing);
        lemma_tally_bound(next.parties, Kind::Handed);
        lemma_tally_bound(next.parties, Kind::Won);
        let undoing = tally(sys.parties, Kind::Undoing);
        let next_id = sys.region.header.next_id;
        if pops(sys, t) {
            lemma_sound_at(init, k as int);
        }
        match state {
            AllocState::Bump => {
                assert(next.region.header.next_id == next_id + 1);
            },
            AllocState::Undo => {
                assert(undoing >= 1);
                assert(next.region.header.next_id == next_id - 1);
            },
            AllocState::Count { .. } => {
                assert(next.region.header.allocated == sys.region.header.allocated + 1);
            },
            _ => {},
        }
    }
}

/// One turn leaves every party where a run can have brought it.
#[verifier::rlimit(50)]
proof fn lemma_turn_keeps_parties(init: RegionView, sys: Allocators, t: Turn, k: nat, b: nat)
    requires
        sound(init),
        region_ok(init, sys, k, b),
        parties_ok(init, sys, k, b),
    ensures
        parties_ok(init, sys.turn(t), popped_after(sys, t, k), bumped_after(sys, t, b)),
{
    let list = init.free_list();
    let next = sys.turn(t);
    let p = t.party;
    let k2 = popped_after(sys, t, k);
    let b2 = bumped_after(sys, t, b);
    if 0 <= p < sys.parties.len() && sys.parties[p] is Run {
        let state = sys.parties[p]->state;
        assert(party_ok(init, sys.parties[p], k, b));
        lemma_turn_gives(init, sys, t, k, b);
        lemma_sound_header(init);
        if state is Head && k < list.len() {
            lemma_sound_at(init, k as int);
        }
        if pops(sys, t) {
            lemma_popped_intro(init, k as int, k2);
        }
        if state is Count {
            lemma_given_grows(init, state->Count_index, k, b, k2, b2);
        }
        assert(party_ok(init, next.parties[p], k2, b2));
        assert forall|q: int| 0 <= q < next.parties.len() implies party_ok(
            init,
            #[trigger] next.parties[q],
            k2,
            b2,
        ) by {
            if q != p {
                assert(party_ok(init, sys.parties[q], k, b));
                lemma_party_ok_grows(init, sys.parties[q], k, b, k2, b2);
            }
        }
    }
}

/// One turn leaves no slot with two parties.
#[verifier::rlimit(50)]
proof fn lemma_turn_keeps_distinct(init: RegionView, sys: Allocators, t: Turn, k: nat, b: nat)
    requires
        sound(init),
        region_ok(init, sys, k, b),
        parties_ok(init, sys, k, b),
        distinct(sys),
    ensures
        distinct(sys.turn(t)),
{
    let next = sys.turn(t);
    let p = t.party;
    if 0 <= p < sys.parties.len() && sys.parties[p] is Run {
        assert(party_ok(init, sys.parties[p], k, b));
        lemma_turn_gives(init, sys, t, k, b);
        let gives = pops(sys, t) || bumps(sys, t);
        if gives {
            lemma_next_not_given(init, k, b, pops(sys, t));
        }
        assert forall|q: int, r: int|
            0 <= q < next.parties.len() && 0 <= r < next.parties.len() && q != r && won(
                next.parties[q],
            ) is Some implies won(#[trigger] next.parties[q]) != won(
            #[trigger] next.parties[r],
        ) by {
            if won(next.parties[r]) is Some {
                if q == p || r == p {
                    let other = if q == p {
                        r
                    } else {
                        q
                    };
                    assert(next.parties[other] == sys.parties[other]);
                    if gives {
                        assert(party_ok(init, sys.parties[other], k, b));
                        assert(given(init, won(sys.parties[other])->0, k, b));
                    } else {
                        assert(won(next.parties[p]) == won(sys.parties[p]));
                        if q == p {
                            assert(won(sys.parties[p]) != won(sys.parties[r]));
                        } else {
                            assert(won(sys.parties[q]) != won(sys.parties[p]));
                        }
                    }
                } else {
                    assert(next.parties[q] == sys.parties[q]);
                    assert(next.parties[r] == sys.parties[r]);
                    assert(won(sys.parties[q]) != won(sys.parties[r]));
                }
            }
        }
    }
}

/// One turn leaves every slot that was given away in the hands of a party.
#[verifier::rlimit(50)]
proof fn lemma_turn_keeps_held(init: RegionView, sys: Allocators, t: Turn, k: nat, b: nat)
    requires
        sound(init),
        region_ok(init, sys, k, b),
        parties_ok(init, sys, k, b),
        all_held(init, sys, k, b),
    ensures
        all_held(init, sys.turn(t), popped_after(sys, t, k), bumped_after(sys, t, b)),
{
    let next = sys.turn(t);
    let p = t.party;
    let k2 = popped_after(sys, t, k);
    let b2 = bumped_after(sys, t, b);
    if 0 <= p < sys.parties.len() && sys.parties[p] is Run {
        assert(party_ok(init, sys.parties[p], k, b));
        lemma_turn_gives(init, sys, t, k, b);
        assert forall|index: u32| #[trigger] given(init, index, k2, b2) implies exists|q: int|
            holds_slot(next, q, index) by {
            if pops(sys, t) || bumps(sys, t) {
                lemma_given_last(init, index, k, b, pops(sys, t));
            }
            if given(init, index, k, b) {
                let q = choose|q: int| holds_slot(sys, q, index);
                if q == p {
                    assert(holds_slot(next, p, index));
                } else {
                    assert(next.parties[q] == sys.parties[q]);
                    assert(holds_slot(next, q, index));
                }
            } else {
                assert(holds_slot(next, p, index));
            }
        }
    }
}

/// What holds of a run holds after any schedule.
#[verifier::rlimit(50)]
proof fn lemma_run_keeps(init: RegionView, n: nat, schedule: Seq<Turn>) -> (kb: (nat, nat))
    requires
        sound(init),
        init.header.capacity + n <= u32::MAX,
    ensures
        holds(init, Allocators::start(init, n).run(schedule), kb.0, kb.1),
        Allocators::start(init, n).run(schedule).parties.len() == n,
    decreases schedule.len(),
{
    let first = Allocators::start(init, n);
    if schedule.len() == 0 {
        lemma_sound_header(init);
        lemma_tally_none(first.parties, Kind::Undoing);
        lemma_tally_none(first.parties, Kind::Won);
        lemma_tally_none(first.parties, Kind::Handed);
        assert(all_held(init, first, 0, 0)) by {
            assert forall|index: u32| #[trigger] given(init, index, 0, 0) implies exists|p: int|
                holds_slot(first, p, index) by {
                let j = lemma_popped_elim(init, index, 0);
            }
        }
        (0, 0)
    } else {
        let (k, b) = lemma_run_keeps(init, n, schedule.drop_last());
        let sys = first.run(schedule.drop_last());
        let t = schedule.last();
        lemma_turn_keeps_region(init, sys, t, k, b);
        lemma_turn_keeps_parties(init, sys, t, k, b);
        lemma_turn_keeps_distinct(init, sys, t, k, b);
        lemma_turn_keeps_held(init, sys, t, k, b);
        (popped_after(sys, t, k), bumped_after(sys, t, b))
    }
}

/// However the operations of `n` allocations on a well-formed region fall
/// between each other, no two of them are handed the same slot, every slot
/// handed out is below the capacity and held no live allocation before, and
/// no allocation meets a broken free list.
#[verifier::rlimit(50)]
pub proof fn lemma_interleaved_allocations_are_distinct(
    init: RegionView,
    n: nat,
    schedule: Seq<Turn>,
    p: int,
    q: int,
)
    requires
        init.wf(),
        init.header.capacity + n <= u32::MAX,
        0 <= p < n,
        0 <= q < n,
    ensures
        ({
            let sys = Allocators::start(init, n).run(schedule);
            &&& sys.parties.len() == n
            &&& !(sys.parties[p] matches Step::Done(AllocOutcome::NotFound(_)))
            &&& sys.slot(p) matches Some(index) ==> index < init.header.capacity && !init.is_live(
                index,
            )
            &&& p != q && sys.slot(p) is Some ==> sys.slot(p) != sys.slot(q)
        }),
{
    assert(sound(init)) by {
        reveal(sound);
    }
    let sys = Allocators::start(init, n).run(schedule);
    let kb = lemma_run_keeps(init, n, schedule);
    assert(party_ok(init, sys.parties[p], kb.0, kb.1));
    if sys.slot(p) is Some {
        lemma_given_was_free(init, sys.slot(p)->0, kb.0, kb.1);
        assert(won(sys.parties[p]) == sys.slot(p));
        if p != q {
            assert(won(sys.parties[p]) != won(sys.parties[q]));
        }
    }
}

/// When `n` allocations that ran side by side on a well-formed region all
/// have their result, the region is well formed again, and the slots that
/// hold a live allocation are those that did before and those that were
/// handed out.
#[verifier::rlimit(50)]
pub proof fn lemma_interleaved_allocations_end_well(init: RegionView, n: nat, schedule: Seq<Turn>)
    requires
        init.wf(),
        init.header.capacity + n <= u32::MAX,
        Allocators::start(init, n).run(schedule).quiescent(),
    ensures
        ({
            let sys = Allocators::start(init, n).run(schedule);
            &&& sys.region.wf()
            &&& forall|index: u32| #[trigger]
                sys.region.is_live(index) <==> init.is_live(index) || exists|p: int|
                    0 <= p < n && sys.slot(p) == Some(index)
        }),
{
    assert(sound(init)) by {
        reveal(sound);
    }
    let sys = Allocators::start(init, n).run(schedule);
    let (k, b) = lemma_run_keeps(init, n, schedule);
    lemma_quiescent_counts(init, sys, k, b);
    lemma_quiescent_is_wf(init, sys.region, k, b);
    assert forall|index: u32| #[trigger]
        sys.region.is_live(index) <==> init.is_live(index) || exists|p: int|
            0 <= p < n && sys.slot(p) == Some(index) by {
        lemma_live_after_run(init, sys, k, b, index);
    }
}

/// Once every party has its result, nobody owes the cursor a decrement and
/// every slot that was won is counted.
proof fn lemma_quiescent_counts(init: RegionView, sys: Allocators, k: nat, b: nat)
    requires
        sound(init),
        region_ok(init, sys, k, b),
        sys.quiescent(),
    ensures
        sys.region.header.next_id == init.header.next_id + b,
        sys.region.header.allocated + init.free_list().len() - k == sys.region.header.next_id,
{
    lemma_sound_header(init);
    assert forall|p: int| 0 <= p < sys.parties.len() implies !is_kind(
        #[trigger] sys.parties[p],
        Kind::Undoing,
    ) by {
        assert(sys.parties[p] is Done);
    }
    lemma_tally_none(sys.parties, Kind::Undoing);
    assert forall|p: int| 0 <= p < sys.parties.len() implies is_kind(
        #[trigger] sys.parties[p],
        Kind::Won,
    ) == is_kind(sys.parties[p], Kind::Handed) by {
        assert(sys.parties[p] is Done);
    }
    lemma_tally_same(sys.parties, Kind::Won, Kind::Handed);
}

/// A region that differs from a well-formed one by `k` slots popped from
/// the free list and `b` slots bumped, all of them counted, is well formed,
/// and its free list is the rest of the list.
#[verifier::rlimit(50)]
proof fn lemma_quiescent_is_wf(init: RegionView, now: RegionView, k: nat, b: nat)
    requires
        sound(init),
        now.records == init.records,
        now.header.capacity == init.header.capacity,
        k <= init.free_list().len(),
        now.header.free_head == (if k < init.free_list().len() {
            init.free_list()[k as int]
        } else {
            EMPTY
        }),
        now.header.next_id == init.header.next_id + b,
        now.header.next_id <= init.header.capacity,
        now.header.allocated + init.free_list().len() - k == now.header.next_id,
    ensures
        now.wf(),
        now.free_list() == init.free_list().subrange(k as int, init.free_list().len() as int),
{
    let list = init.free_list();
    let rest = list.subrange(k as int, list.len() as int);
    lemma_sound_header(init);
    assert(now.chain(rest)) by {
        assert forall|i: int| 0 <= i < rest.len() implies #[trigger] rest[i]
            < now.header.next_id by {
            lemma_sound_at(init, k + i);
        }
        assert forall|i: int, j: int|
            0 <= i < rest.len() && 0 <= j < rest.len() && i != j implies rest[i] != rest[j] by {
            lemma_sound_distinct(init, k + i, k + j);
        }
        assert forall|i: int| 0 <= i < rest.len() implies now.records[(
        #[trigger] rest[i]) as int].next_free == (if i + 1 < rest.len() {
            rest[i + 1]
        } else {
            EMPTY
        }) by {
            lemma_sound_at(init, k + i);
        }
    }
    lemma_chain_is_free_list(now, rest);
}

/// A slot is on the rest of the free list just when it is on the list and
/// was not popped.
#[verifier::rlimit(50)]
proof fn lemma_rest(init: RegionView, index: u32, k: nat)
    requires
        sound(init),
        k <= init.free_list().len(),
    ensures
        init.free_list().subrange(k as int, init.free_list().len() as int).contains(index) <==> (
        init.free_list().contains(index) && !popped(init, index, k)),
{
    let list = init.free_list();
    let rest = list.subrange(k as int, list.len() as int);
    if rest.contains(index) {
        let i = choose|i: int| 0 <= i < rest.len() && rest[i] == index;
        assert(list[k + i] == index);
        if popped(init, index, k) {
            let j = lemma_popped_elim(init, index, k);
            lemma_sound_distinct(init, j, k + i);
        }
    }
    if list.contains(index) && !popped(init, index, k) {
        let j = choose|j: int| 0 <= j < list.len() && list[j] == index;
        if j < k {
            lemma_popped_intro(init, j, k);
        } else {
            assert(rest[j - k] == index);
        }
    }
}

#[verifier::rlimit(50)]
proof fn lemma_live_after_run(init: RegionView, sys: Allocators, k: nat, b: nat, index: u32)
    requires
        sound(init),
        holds(init, sys, k, b),
        sys.quiescent(),
        sys.region.free_list() == init.free_list().subrange(
            k as int,
            init.free_list().len() as int,
        ),
        sys.region.header.next_id == init.header.next_id + b,
    ensures
        sys.region.is_live(index) <==> init.is_live(index) || exists|p: int|
            0 <= p < sys.parties.len() && sys.slot(p) == Some(index),
{
    let list = init.free_list();
    lemma_rest(init, index, k);
    lemma_sound_header(init);
    // What is on the list lies below the cursor the run started with.
    if list.contains(index) {
        let j = choose|j: int| 0 <= j < list.len() && list[j] == index;
        lemma_sound_at(init, j);
    }
    if popped(init, index, k) {
        let j = lemma_popped_elim(init, index, k);
        assert(list.contains(index));
        lemma_sound_at(init, j);
    }
    // Who holds a slot was given it.
    if exists|p: int| 0 <= p < sys.parties.len() && sys.slot(p) == Some(index) {
        let p = choose|p: int| 0 <= p < sys.parties.len() && sys.slot(p) == Some(index);
        assert(party_ok(init, sys.parties[p], k, b));
        assert(given(init, index, k, b));
        assert(sys.region.is_live(index));
    }
    if init.is_live(index) {
        assert(sys.region.is_live(index));
    }
    if sys.region.is_live(index) && !init.is_live(index) {
        // The slot was given away, so somebody holds it.
        assert(given(init, index, k, b));
        let p = choose|p: int| holds_slot(sys, p, index);
        assert(sys.parties[p] is Done);
        assert(0 <= p < sys.parties.len() && sys.slot(p) == Some(index));
    }
}

/// The schedule of one party that takes `n` turns and loses no exchange
/// without cause.
pub open spec fn alone(n: nat) -> Seq<Turn> {
    Seq::new(n, |i: int| Turn { party: 0, lost: false })
}

proof fn lemma_alone_progress(init: RegionView, n: nat)
    requires
        init.structural(),
    ensures
        ({
            let sys = Allocators::start(init, 1).run(alone(n));
            &&& sys.parties.len() == 1
            &&& alloc_progress(init, sys.region, sys.parties[0])
            &&& alloc_rank(sys.parties[0]) + n <= 4 || sys.parties[0] is Done
        }),
    decreases n,
{
    if n > 0 {
        lemma_alone_progress(init, (n - 1) as nat);
        assert(alone(n).drop_last() =~= alone((n - 1) as nat));
        let sys = Allocators::start(init, 1).run(alone((n - 1) as nat));
        if let Step::Run { state, op } = sys.parties[0] {
            lemma_alloc_step(init, sys.region, state, op);
        }
    }
}

/// A party that allocates with nobody beside it has its result after four
/// turns, and the run comes to what the allocation is stated to do: the
/// result is the outcome of the allocation and the region is the region
/// after it.
pub proof fn lemma_alone_is_sequential(init: RegionView)
    requires
        init.structural(),
    ensures
        ({
            let sys = Allocators::start(init, 1).run(alone(4));
            &&& sys.quiescent()
            &&& sys.parties[0] == Step::<AllocState, AllocOutcome>::Done(init.alloc_outcome())
            &&& sys.region == init.after_alloc()
        }),
{
    lemma_alone_progress(init, 4);
}

} // verus!
