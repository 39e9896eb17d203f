use xmem_core::protocol::{
    alloc_next, alloc_start, free_next, free_start, AllocOutcome, AllocState, FreeOutcome,
    FreeState, Step,
};
use xmem_core::MetaRegion;

// One allocator or releaser that shares a region with others: it performs
// one operation at a time, so that the operations of several can be mixed.
enum Party {
    Allocating(Step<AllocState, AllocOutcome>),
    Releasing(u32, Step<FreeState, FreeOutcome>),
}

impl Party {
    fn allocator() -> Party {
        Party::Allocating(alloc_start())
    }

    fn releaser(index: u32, region: &MetaRegion) -> Party {
        Party::Releasing(index, free_start(index, region.capacity() as u32))
    }

    // Performs the next operation, if one is left.
    fn step(self, region: &mut MetaRegion) -> Party {
        let capacity = region.capacity() as u32;
        match self {
            Party::Allocating(Step::Run { state, op }) => {
                Party::Allocating(alloc_next(state, region.apply(op), capacity))
            }
            Party::Releasing(index, Step::Run { state, op }) => {
                Party::Releasing(index, free_next(state, region.apply(op), index))
            }
            done => done,
        }
    }

    fn steps(mut self, region: &mut MetaRegion, n: usize) -> Party {
        for _ in 0..n {
            self = self.step(region);
        }
        self
    }

    fn slot(&self) -> Option<u32> {
        match self {
            Party::Allocating(Step::Done(AllocOutcome::Slot(index))) => Some(*index),
            _ => None,
        }
    }

    fn finished(&self) -> bool {
        matches!(
            self,
            Party::Allocating(Step::Done(_)) | Party::Releasing(_, Step::Done(_))
        )
    }
}

#[test]
fn interleaved_bumps_hand_out_different_slots() {
    let mut region = MetaRegion::create("/mixed_bump", 2).unwrap();
    let a = Party::allocator();
    let b = Party::allocator();
    let c = Party::allocator();

    // All three see an empty free list before any of them bumps.
    let a = a.step(&mut region);
    let b = b.step(&mut region);
    let c = c.step(&mut region);
    // They bump in the order b, c, a.
    let b = b.step(&mut region);
    let c = c.step(&mut region);
    let a = a.step(&mut region);
    assert_eq!(region.header().next_id, 3);

    let a = a.steps(&mut region, 2);
    let b = b.steps(&mut region, 2);
    let c = c.steps(&mut region, 2);
    assert!(a.finished() && b.finished() && c.finished());
    assert_eq!(b.slot(), Some(0));
    assert_eq!(c.slot(), Some(1));
    assert_eq!(a.slot(), None);
    assert!(matches!(a, Party::Allocating(Step::Done(AllocOutcome::Full))));

    // The one that found the region full took its increment back.
    let header = region.header();
    assert_eq!(header.next_id, 2);
    assert_eq!(header.allocated, 2);
}

#[test]
fn a_lost_exchange_is_retried() {
    let mut region = MetaRegion::create("/mixed_pop", 4).unwrap();
    for expected in 0..3 {
        assert_eq!(region.allocate(), Ok(expected));
    }
    assert_eq!(region.free(0), Ok(()));
    assert_eq!(region.free(2), Ok(()));

    // Two allocators read the same head and the same link.
    let a = Party::allocator().steps(&mut region, 2);
    let b = Party::allocator().steps(&mut region, 2);
    // The first exchange wins slot 2, the second one is lost and starts over.
    let a = a.step(&mut region);
    let b = b.step(&mut region);
    assert!(!b.finished());
    let a = a.steps(&mut region, 1);
    let b = b.steps(&mut region, 4);
    assert_eq!(a.slot(), Some(2));
    assert_eq!(b.slot(), Some(0));

    let header = region.header();
    assert_eq!(header.allocated, 3);
    assert_eq!(header.next_id, 3);
    assert_eq!(header.free_head, 0xFFFF_FFFF);
}

#[test]
fn interleaved_releases_both_land_on_the_free_list() {
    let mut region = MetaRegion::create("/mixed_free", 4).unwrap();
    for expected in 0..3 {
        assert_eq!(region.allocate(), Ok(expected));
    }

    // Both releasers read the head and link their slot to it.
    let a = Party::releaser(0, &region).steps(&mut region, 2);
    let b = Party::releaser(1, &region).steps(&mut region, 2);
    // The first exchange publishes slot 1; the other is lost, links its
    // slot to the new head and publishes then.
    let b = b.steps(&mut region, 2);
    let a = a.steps(&mut region, 5);
    assert!(a.finished() && b.finished());

    let header = region.header();
    assert_eq!(header.allocated, 1);
    assert_eq!(header.free_head, 0);
    assert_eq!(region.get(0).unwrap().next_free, 1);
    assert_eq!(region.get(1).unwrap().next_free, 0xFFFF_FFFF);
    assert_eq!(region.allocate(), Ok(0));
    assert_eq!(region.allocate(), Ok(1));
    assert_eq!(region.allocate(), Ok(3));
}

#[test]
fn an_exchange_cannot_tell_a_head_from_the_same_slot_released_anew() {
    let mut region = MetaRegion::create("/mixed_anew", 3).unwrap();
    for expected in 0..3 {
        assert_eq!(region.allocate(), Ok(expected));
    }
    assert_eq!(region.free(1), Ok(()));
    assert_eq!(region.free(0), Ok(()));

    // One allocator reads head 0 and its link to 1, and is held up.
    let slow = Party::allocator().steps(&mut region, 2);
    // Meanwhile both slots are taken, and slot 0 is released again.
    assert_eq!(region.allocate(), Ok(0));
    assert_eq!(region.allocate(), Ok(1));
    assert_eq!(region.free(0), Ok(()));
    assert_eq!(region.header().free_head, 0);

    // Its exchange finds head 0 as it read it, and puts the stale link in.
    let slow = slow.steps(&mut region, 2);
    assert_eq!(slow.slot(), Some(0));
    assert_eq!(region.header().free_head, 1);
}
