use fastfifo::atom_pair::{AtomicPair, Line128};
use fastfifo::block::{
    claim_outcome, needs_chasing_take, reserve_outcome, retry_outcome, used_up, Block,
    ReserveState, ReserveStep,
};
use fastfifo::config::FifoTag;
use fastfifo::entry_descriptor::EntryDescriptor;
use fastfifo::field::Field;
use fastfifo::fifo_inner::{
    advance_needs_take, advance_outcome, lap_start, AdvanceHeadStatus, FastFifoInner,
};
use fastfifo::layer::Layer;
use fastfifo::ring_tag::RingTag;

type Three = RingTag<3, 0b111>;
type Slab = Block<Three, Option<u32>>;

fn tag(stage: usize) -> Three {
    Three::from_index(stage).unwrap()
}

fn entry<'a>(state: ReserveState<'a, Three, Option<u32>>) -> EntryDescriptor<'a, Three, Option<u32>> {
    match state {
        ReserveState::Success(e) => e,
        ReserveState::NotAvailable => panic!("not available"),
        ReserveState::BlockDone => panic!("block done"),
        ReserveState::Busy => panic!("busy"),
    }
}

fn cursors(block: &Slab, stage: usize) -> (usize, usize) {
    let pair = block.get_atomics(tag(stage));
    (pair.load_give().get_index(), pair.load_take().get_index())
}

#[test]
fn give_stays_at_or_below_take_within_the_block() {
    let block = Slab::new_in(3);
    assert_eq!(cursors(&block, 0), (0, 0));
    let a = entry(block.reserve_in_layer(tag(0)));
    let b = entry(block.reserve_in_layer(tag(0)));
    assert_eq!(cursors(&block, 0), (0, 2));
    drop(b);
    assert_eq!(cursors(&block, 0), (1, 2));
    drop(a);
    assert_eq!(cursors(&block, 0), (2, 2));
    let c = entry(block.reserve_in_layer(tag(0)));
    drop(c);
    assert_eq!(cursors(&block, 0), (3, 3));
    assert!(matches!(block.reserve_in_layer(tag(0)), ReserveState::BlockDone));
    assert_eq!(cursors(&block, 0), (3, 3));
}

#[test]
fn reserved_slots_ascend() {
    let block = Slab::new_in(4);
    let mut last = None;
    for expected in 0..4 {
        let e = entry(block.reserve_in_layer(tag(0)));
        assert_eq!(e.get_index(), expected);
        assert_eq!(e.get_tag().index(), 0);
        if let Some(before) = last {
            assert!(e.get_index() > before);
        }
        last = Some(e.get_index());
    }
}

#[test]
fn live_handles_stand_for_different_slots() {
    let block = Slab::new_in(4);
    let first = entry(block.reserve_in_layer(tag(0)));
    let second = entry(block.reserve_in_layer(tag(0)));
    assert_ne!(first.get_index(), second.get_index());
    // The transformer waits while the producer is at work.
    assert!(matches!(block.reserve_in_layer(tag(1)), ReserveState::NotAvailable));
    drop(second);
    assert!(matches!(block.reserve_in_layer(tag(1)), ReserveState::Busy));
    drop(first);
    let third = entry(block.reserve_in_layer(tag(0)));
    assert!(matches!(block.reserve_in_layer(tag(1)), ReserveState::Busy));
    drop(third);
    let follower = entry(block.reserve_in_layer(tag(1)));
    let fourth = entry(block.reserve_in_layer(tag(0)));
    assert_eq!(follower.get_index(), 0);
    assert_eq!(fourth.get_index(), 3);
}

#[test]
fn give_counts_what_was_finished() {
    let block = Slab::new_in(5);
    for done in 0..5 {
        assert_eq!(cursors(&block, 0).0, done);
        let mut e = entry(block.reserve_in_layer(tag(0)));
        e.modify_t_in_place(|_| Some(7));
        drop(e);
    }
    assert_eq!(cursors(&block, 0).0, 5);
    for done in 0..3 {
        assert_eq!(cursors(&block, 1).0, done);
        drop(entry(block.reserve_in_layer(tag(1))));
    }
    assert_eq!(cursors(&block, 1), (3, 3));
    assert_eq!(cursors(&block, 2), (0, 0));
}

#[test]
fn a_slot_keeps_what_was_put_into_it() {
    let block = Slab::new_in(2);
    let mut e = entry(block.reserve_in_layer(tag(0)));
    e.modify_t_in_place(|before| {
        assert_eq!(before, None);
        Some(11)
    });
    drop(e);
    let mut e = entry(block.reserve_in_layer(tag(1)));
    let mut found = None;
    e.modify_t_in_place(|before| {
        found = before;
        before.map(|v| v + 1)
    });
    drop(e);
    assert_eq!(found, Some(11));
    let mut e = entry(block.reserve_in_layer(tag(2)));
    e.modify_t_in_place(|before| {
        found = before;
        None
    });
    assert_eq!(found, Some(12));
}

#[test]
fn outcome_of_an_attempt() {
    let f = |version, index| Field::from_parts(4, version, index);
    // The block is used up.
    assert_eq!(reserve_outcome(f(0, 4), f(0, 4), f(0, 4), 0, 4), ReserveStep::BlockDone);
    // A stage in the lap of the stage it chases follows it.
    assert_eq!(reserve_outcome(f(0, 2), f(0, 2), f(0, 2), 0, 4), ReserveStep::NotAvailable);
    assert_eq!(reserve_outcome(f(0, 1), f(0, 2), f(0, 3), 0, 4), ReserveStep::Busy);
    assert_eq!(reserve_outcome(f(0, 1), f(0, 2), f(0, 2), 0, 4), ReserveStep::Claim);
    // A stage ahead of the stage it chases waits.
    assert_eq!(reserve_outcome(f(1, 0), f(0, 2), f(0, 2), 0, 4), ReserveStep::NotAvailable);
    // A stage behind the lap of the stage it chases goes on.
    assert_eq!(reserve_outcome(f(0, 1), f(1, 0), f(1, 3), 0, 4), ReserveStep::Claim);
    // The producer may be one lap ahead.
    assert_eq!(reserve_outcome(f(0, 0), f(0, 0), f(0, 0), 1, 4), ReserveStep::Claim);
    assert_eq!(reserve_outcome(f(1, 0), f(0, 0), f(0, 0), 1, 4), ReserveStep::NotAvailable);
    assert_eq!(reserve_outcome(f(1, 0), f(0, 2), f(0, 2), 1, 4), ReserveStep::Claim);
    assert_eq!(reserve_outcome(f(1, 0), f(0, 2), f(0, 3), 1, 4), ReserveStep::Busy);
    assert_eq!(reserve_outcome(f(2, 0), f(0, 2), f(0, 2), 1, 4), ReserveStep::NotAvailable);
}

#[test]
fn when_the_chased_take_is_read() {
    let f = |version, index| Field::from_parts(4, version, index);
    assert!(needs_chasing_take(f(0, 1), f(0, 2), 0, 4));
    assert!(!needs_chasing_take(f(0, 2), f(0, 2), 0, 4));
    assert!(!needs_chasing_take(f(0, 4), f(0, 2), 0, 4));
    assert!(!needs_chasing_take(f(0, 1), f(1, 2), 0, 4));
    assert!(!needs_chasing_take(f(1, 1), f(0, 2), 0, 4));
    assert!(needs_chasing_take(f(1, 1), f(0, 2), 1, 4));
    assert!(!needs_chasing_take(f(0, 1), f(0, 2), 1, 4));
}

#[test]
fn whether_a_head_may_move() {
    let f = |version, index| Field::from_parts(4, version, index);
    assert_eq!(advance_outcome(f(0, 4), f(0, 4), 4), AdvanceHeadStatus::Success);
    assert_eq!(advance_outcome(f(0, 1), f(0, 2), 4), AdvanceHeadStatus::Busy);
    assert_eq!(advance_outcome(f(0, 2), f(0, 2), 4), AdvanceHeadStatus::Success);
    assert_eq!(advance_outcome(f(0, 0), f(0, 0), 4), AdvanceHeadStatus::Success);
}

#[test]
fn where_a_lap_starts() {
    let head = Field::from_parts(3, 5, 1);
    let fresh = Field::from_parts(4, 0, 0);
    let used = Field::from_parts(4, 5, 4);
    let start = lap_start(head, fresh, 4);
    assert_eq!((start.get_index_max(), start.get_version(), start.get_index()), (4, 5, 0));
    let start = lap_start(head, used, 4);
    assert_eq!((start.get_index_max(), start.get_version(), start.get_index()), (4, 6, 0));
}

#[test]
fn pair_cursors_move_as_told() {
    let pair = AtomicPair::from_raw_parts(8, Field::from_parts(8, 1, 2).get_raw_inner());
    assert_eq!(pair.get_index_max(), 8);
    assert_eq!(pair.load_take().get_index(), 2);
    assert_eq!(pair.load_give().get_version(), 1);
    pair.incr_give();
    assert_eq!(pair.load_give().get_index(), 3);
    assert_eq!(pair.load_take().get_index(), 2);
    let old = pair.fetch_max_take(Field::from_parts(8, 1, 5));
    assert_eq!(old.get_index(), 2);
    assert_eq!(pair.load_take().get_index(), 5);
    let old = pair.fetch_max_take(Field::from_parts(8, 0, 7));
    assert_eq!(old.get_index(), 5);
    assert_eq!(pair.load_take().get_index(), 5);
    let (old_give, old_take) = pair.fetch_max_both(Field::from_parts(8, 2, 0));
    assert_eq!((old_give.get_index(), old_take.get_index()), (3, 5));
    assert_eq!(pair.load_give().get_raw_inner(), pair.load_take().get_raw_inner());
    assert_eq!(pair.load_give().get_version(), 2);
    let old = pair.fetch_max_give(Field::from_parts(8, 2, 1));
    assert_eq!(old.get_index(), 0);
    assert_eq!(pair.load_give().get_index(), 1);
    let from_field = AtomicPair::from_field(Field::from_parts(4, 3, 1));
    assert_eq!(from_field.load_take().get_version(), 3);
    assert_eq!(*Line128::new(5u8).get(), 5);
}

#[test]
fn layers_chase_the_layer_before() {
    assert_eq!(Layer::Producer.chasing(), Layer::Consumer);
    assert_eq!(Layer::Transformer.chasing(), Layer::Producer);
    assert_eq!(Layer::Consumer.chasing(), Layer::Transformer);
    assert_eq!(Layer::Consumer.chases(), Layer::Transformer);
    assert_eq!(Layer::producer(), Layer::Producer);
    assert_eq!(Layer::num_transformations(), 3);
    assert_eq!(Layer::Transformer.index(), 1);
    assert_eq!(Layer::from_index(2), Some(Layer::Consumer));
    assert_eq!(Layer::from_index(3), None);
    assert!(Layer::Producer.is_atomic());
}

#[test]
fn ring_tags_know_their_ring() {
    type Four = RingTag<4, 0b0101>;
    assert_eq!(Four::num_transformations(), 4);
    assert!(Four::from_index(4).is_none());
    assert!(Four::new(3).is_some());
    let atomic: Vec<bool> = (0..4).map(|s| Four::from_index(s).unwrap().is_atomic()).collect();
    assert_eq!(atomic, vec![true, false, true, false]);
    let chased: Vec<usize> = (0..4).map(|s| Four::from_index(s).unwrap().chases().index()).collect();
    assert_eq!(chased, vec![3, 0, 1, 2]);
    assert_eq!(Four::producer().index(), 0);
}

#[test]
fn pipeline_heads_go_around_the_ring() {
    let fifo = FastFifoInner::<Three, Option<u32>>::new_in(3, 2);
    assert_eq!(fifo.get_num_blocks(), 3);
    assert_eq!(fifo.get_block_size(), 2);
    let mut slots = Vec::new();
    for _ in 0..6 {
        let e = fifo.get_entry(tag(0)).unwrap();
        slots.push(e.get_index());
    }
    assert_eq!(slots, vec![0, 1, 0, 1, 0, 1]);
    assert!(fifo.get_entry(tag(0)).is_err());
    assert!(FastFifoInner::<Three, Option<u32>>::checked_new(1, 2).is_none());
}

#[test]
fn a_claim_holds_where_the_cursor_stood_as_read() {
    let read = Field::from_parts(8, 1, 5);
    assert_eq!(claim_outcome(read, read), Some(5));
    assert_eq!(claim_outcome(read, Field::from_parts(8, 1, 6)), None);
    assert_eq!(claim_outcome(read, Field::from_parts(8, 2, 5)), None);
    assert_eq!(claim_outcome(read, Field::from_parts(8, 1, 4)), None);
}

#[test]
fn a_lost_claim_goes_on_with_a_larger_cursor_only() {
    let read = Field::from_parts(8, 1, 5);
    let next = retry_outcome(read, Field::from_parts(8, 1, 7)).unwrap();
    assert_eq!((next.get_version(), next.get_index()), (1, 7));
    let next = retry_outcome(read, Field::from_parts(8, 2, 0)).unwrap();
    assert_eq!((next.get_version(), next.get_index()), (2, 0));
    assert!(retry_outcome(read, read).is_none());
    assert!(retry_outcome(read, Field::from_parts(8, 1, 4)).is_none());
}

#[test]
fn each_claim_hands_out_the_next_slot() {
    let block = Slab::new_in(3);
    for slot in 0..3 {
        let e = entry(block.reserve_in_layer(tag(0)));
        assert_eq!(e.get_index(), slot);
        drop(e);
    }
    assert!(matches!(block.reserve_in_layer(tag(0)), ReserveState::BlockDone));
}

#[test]
fn a_block_is_used_up_at_its_size() {
    assert!(!used_up(Field::from_parts(8, 0, 0), 8));
    assert!(!used_up(Field::from_parts(8, 3, 7), 8));
    assert!(used_up(Field::from_parts(8, 0, 8), 8));
    assert!(used_up(Field::from_parts(8, 1, 9), 8));
    assert_eq!(
        reserve_outcome(Field::from_parts(8, 0, 8), Field::from_parts(8, 0, 2), Field::from_parts(8, 0, 3), 0, 8),
        ReserveStep::BlockDone
    );
}

#[test]
fn a_head_move_reads_take_unless_the_block_is_used_up() {
    assert!(advance_needs_take(Field::from_parts(8, 0, 0), 8));
    assert!(advance_needs_take(Field::from_parts(8, 0, 7), 8));
    assert!(!advance_needs_take(Field::from_parts(8, 0, 8), 8));
    assert_eq!(
        advance_outcome(Field::from_parts(8, 0, 8), Field::from_parts(8, 0, 9), 8),
        AdvanceHeadStatus::Success
    );
}
