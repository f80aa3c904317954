use fastfifo::field::Field;
use fastfifo::error::Error;
use fastfifo::mpmc::block::{
    consumer_needs_allocated, consumer_outcome, find_free_slot, find_live_slots, find_slot_state,
    Block, ConsumerStep, SlotState,
};
use fastfifo::mpmc::entries::FifoIndex;
use fastfifo::mpmc::fifo_inner::{
    consumer_advance_outcome, pop_outcome, producer_advance_outcome, producer_held_back,
    AdvancePheadState, FastFifoInner,
};
use fastfifo::stages::{get_chases, ring_chases};

fn f(version: usize, index: usize) -> Field {
    Field::from_parts(4, version, index)
}

#[test]
fn outcome_of_a_consumers_attempt() {
    assert_eq!(consumer_outcome(f(0, 4), f(0, 4), f(0, 4), 4), ConsumerStep::BlockDone);
    assert_eq!(consumer_outcome(f(0, 2), f(0, 2), f(0, 3), 4), ConsumerStep::NoEntry);
    assert_eq!(consumer_outcome(f(0, 1), f(0, 2), f(0, 3), 4), ConsumerStep::NotAvailable);
    assert_eq!(consumer_outcome(f(0, 1), f(0, 2), f(0, 2), 4), ConsumerStep::Claim);
    assert_eq!(consumer_outcome(f(0, 1), f(0, 4), f(0, 5), 4), ConsumerStep::Claim);
    assert!(consumer_needs_allocated(f(0, 1), f(0, 2), 4));
    assert!(!consumer_needs_allocated(f(0, 1), f(0, 4), 4));
    assert!(!consumer_needs_allocated(f(0, 2), f(0, 2), 4));
    assert!(!consumer_needs_allocated(f(0, 4), f(0, 2), 4));
}

#[test]
fn whether_the_producers_head_may_move() {
    let head = Field::from_parts(3, 1, 0);
    assert!(producer_held_back(head, f(0, 4), 4));
    assert!(producer_held_back(head, f(1, 2), 4));
    assert!(!producer_held_back(head, f(1, 4), 4));
    assert!(!producer_held_back(head, f(2, 0), 4));
    assert_eq!(
        producer_advance_outcome(head, f(1, 2), f(1, 2), 4),
        AdvancePheadState::NoEntry
    );
    assert_eq!(
        producer_advance_outcome(head, f(1, 2), f(1, 3), 4),
        AdvancePheadState::NotAvailable
    );
    assert_eq!(
        producer_advance_outcome(head, f(1, 4), f(1, 4), 4),
        AdvancePheadState::Success
    );
}

#[test]
fn whether_the_consumers_head_may_move() {
    let head = Field::from_parts(3, 1, 2);
    assert!(consumer_advance_outcome(head, f(2, 0)));
    assert!(consumer_advance_outcome(head, f(2, 3)));
    assert!(!consumer_advance_outcome(head, f(1, 4)));
    assert!(!consumer_advance_outcome(head, f(3, 0)));
}

#[test]
fn which_slots_hold_values() {
    // A slot is being filled.
    assert_eq!(find_live_slots(f(0, 3), f(0, 2), f(0, 0), f(0, 0), 4), None);
    // A slot is being emptied.
    assert_eq!(find_live_slots(f(0, 3), f(0, 3), f(0, 2), f(0, 1), 4), None);
    // Consumers and producers in the same lap.
    assert_eq!(find_live_slots(f(0, 3), f(0, 3), f(0, 1), f(0, 1), 4), Some((1, 3)));
    assert_eq!(find_live_slots(f(0, 3), f(0, 3), f(0, 3), f(0, 3), 4), Some((3, 3)));
    // The consumers have not yet entered the producers' lap.
    assert_eq!(find_live_slots(f(1, 2), f(1, 2), f(0, 4), f(0, 4), 4), Some((0, 2)));
    // Nothing has been put in.
    assert_eq!(find_live_slots(f(0, 0), f(0, 0), f(0, 0), f(0, 0), 4), Some((0, 0)));
}

#[test]
fn what_a_slot_holds() {
    let states: Vec<SlotState> = (0..6).map(|i| find_slot_state(i, 5, 4, 2, 1, 6)).collect();
    assert_eq!(
        states,
        vec![
            SlotState::Uninit,
            SlotState::Reserved,
            SlotState::Value,
            SlotState::Value,
            SlotState::Allocated,
            SlotState::Uninit,
        ]
    );
    assert_eq!(find_slot_state(0, 6, 6, 6, 6, 6), SlotState::Uninit);
}

#[test]
fn a_block_tells_what_its_slots_hold() {
    let block = Block::<u8>::new(3);
    assert_eq!(block.get_block_size(), 3);
    assert_eq!(block.describe(), vec![SlotState::Uninit; 3]);
    let full = Block::<u8>::new_full(3);
    assert_eq!(full.describe(), vec![SlotState::Uninit; 3]);
}

#[test]
fn pushes_and_pops_by_place() {
    let fifo = FastFifoInner::<u32>::new(2, 2);
    fifo.indexed_push(5, FifoIndex { block_idx: 0, sub_block_idx: 0 });
    fifo.push(6).unwrap();
    assert_eq!(fifo.capacity(), 4);
    assert_eq!(fifo.indexed_pop(), Ok((5, FifoIndex { block_idx: 0, sub_block_idx: 0 })));
    assert_eq!(fifo.indexed_pop(), Ok((6, FifoIndex { block_idx: 0, sub_block_idx: 1 })));
    let mut popped = None;
    assert!(fifo.pop_in_place(|v| popped = Some(v)).is_err());
    assert_eq!(popped, None);
    fifo.push_in_place(|| 9).unwrap();
    fifo.pop_in_place(|v| popped = Some(v)).unwrap();
    assert_eq!(popped, Some(9));
}

#[test]
fn entries_commit_and_hand_back_when_let_go() {
    let fifo = FastFifoInner::<u32>::new(2, 2);
    let mut producing = fifo.get_producer_entry().unwrap();
    assert_eq!(producing.get_index(), FifoIndex { block_idx: 0, sub_block_idx: 0 });
    producing.produce_t_in_place(|| 3);
    // Not yet committed.
    assert!(fifo.get_consumer_entry().is_err());
    drop(producing);
    let mut consuming = fifo.get_consumer_entry().unwrap();
    assert_eq!(consuming.take(), Some(3));
    drop(consuming);
    assert!(fifo.get_consumer_entry().is_err());
}

#[test]
fn every_stage_chases_the_stage_before() {
    assert_eq!(ring_chases(3), vec![2, 0, 1]);
    assert_eq!(ring_chases(2), vec![1, 0]);
    assert_eq!(ring_chases(1), vec![0]);
    assert_eq!(ring_chases(0), Vec::<usize>::new());
    let names = vec!["producer".to_string(), "transformer".to_string(), "consumer".to_string()];
    assert_eq!(
        get_chases(&ring_chases(3), &names),
        vec!["consumer".to_string(), "producer".to_string(), "transformer".to_string()]
    );
}

#[test]
fn the_slot_a_producer_gets() {
    assert_eq!(find_free_slot(f(0, 0), 4), Some(0));
    assert_eq!(find_free_slot(f(2, 3), 4), Some(3));
    assert_eq!(find_free_slot(f(0, 4), 4), None);
    assert_eq!(find_free_slot(f(1, 7), 4), None);
}

#[test]
fn what_a_pop_comes_to() {
    let place = FifoIndex { block_idx: 1, sub_block_idx: 2 };
    assert_eq!(pop_outcome(Some(8u32), place), Ok((8, place)));
    assert_eq!(pop_outcome(None::<u32>, place), Err(Error::Empty));
}

#[test]
fn a_produced_value_is_what_a_consumer_takes() {
    let fifo = FastFifoInner::<u32>::new(2, 2);
    let mut producing = fifo.get_producer_entry().unwrap();
    producing.produce_t(21);
    drop(producing);
    let mut consuming = fifo.get_consumer_entry().unwrap();
    let mut seen = None;
    consuming.consume_t_in_place(|v| seen = Some(v));
    drop(consuming);
    assert_eq!(seen, Some(21));
}
