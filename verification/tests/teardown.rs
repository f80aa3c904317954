use fastfifo::config::{FifoTag, IndexedDrop};
use fastfifo::field::Field;
use fastfifo::fifo::FastFifo;
use fastfifo::ring_tag::RingTag;
use fastfifo::teardown::{plan_drops, plan_teardown, settled_give, SlotDrop};
use std::sync::atomic::{AtomicUsize, Ordering};
use std::sync::Arc;

type Three = RingTag<3, 0b111>;

struct Counted {
    drops: Arc<AtomicUsize>,
}

impl Drop for Counted {
    fn drop(&mut self) {
        self.drops.fetch_add(1, Ordering::Relaxed);
    }
}

#[test]
fn plan_for_five_produced_values() {
    let plan = plan_drops(&vec![5, 0, 0], 8);
    let mut expected = Vec::new();
    for slot in 0..5 {
        expected.push(SlotDrop { slot, tag: 0 });
    }
    for slot in 0..5 {
        expected.push(SlotDrop { slot, tag: 3 });
    }
    for slot in 0..8 {
        expected.push(SlotDrop { slot, tag: 3 });
    }
    assert_eq!(plan, expected);
}

#[test]
fn plan_marks_each_range_with_the_chased_stage() {
    let plan = plan_drops(&vec![6, 4, 1], 8);
    let live: Vec<SlotDrop> = plan.iter().copied().filter(|d| d.tag < 3).collect();
    assert_eq!(
        live,
        vec![
            SlotDrop { slot: 4, tag: 0 },
            SlotDrop { slot: 5, tag: 0 },
            SlotDrop { slot: 1, tag: 1 },
            SlotDrop { slot: 2, tag: 1 },
            SlotDrop { slot: 3, tag: 1 },
        ]
    );
    let idle: Vec<usize> = plan.iter().filter(|d| d.tag == 3).map(|d| d.slot).collect();
    assert_eq!(idle, vec![0, 1, 2, 3, 4, 5, 1, 2, 3, 4, 5, 6, 7]);
}

#[test]
fn plan_of_a_quiet_block_holds_idle_slots_only() {
    let plan = plan_drops(&vec![0, 0], 2);
    assert_eq!(plan, vec![SlotDrop { slot: 0, tag: 2 }, SlotDrop { slot: 1, tag: 2 }]);
}

#[test]
fn drop_with_pending_payloads() {
    let drops = Arc::new(AtomicUsize::new(0));
    let fifo = FastFifo::<Three, Option<Counted>>::new(2, 8);
    let stages = fifo.split();
    for _ in 0..5 {
        let d = drops.clone();
        assert_eq!(stages[0].transform(move |_| Some(Counted { drops: d })), Ok(()));
    }
    assert_eq!(drops.load(Ordering::Relaxed), 0);

    let mut fifos = Vec::new();
    for stage in stages {
        fifos.push(stage.into_fifo());
    }
    let last = fifos.pop().unwrap();
    let still = match last.into_inner() {
        Ok(_) => panic!("two more references are alive"),
        Err(still) => still,
    };
    drop(fifos);
    let mut inner = match still.into_inner() {
        Ok(inner) => inner,
        Err(_) => panic!("the pipeline is still shared"),
    };
    let plans = inner.drop_in().unwrap();
    assert_eq!(drops.load(Ordering::Relaxed), 5);
    assert_eq!(plans.len(), 2);
    let live: Vec<SlotDrop> = plans[0].iter().copied().filter(|d| d.tag < 3).collect();
    assert_eq!(
        live,
        vec![
            SlotDrop { slot: 0, tag: 0 },
            SlotDrop { slot: 1, tag: 0 },
            SlotDrop { slot: 2, tag: 0 },
            SlotDrop { slot: 3, tag: 0 },
            SlotDrop { slot: 4, tag: 0 },
        ]
    );
    assert!(plans[1].iter().all(|d| d.tag == 3));
}

#[test]
fn drop_with_an_outstanding_reservation_is_refused() {
    let fifo = FastFifo::<Three, Option<u64>>::new(2, 4);
    let entry = fifo.get_entry(Three::producer()).unwrap();
    assert_eq!(entry.get_index(), 0);
    std::mem::forget(entry);
    let mut inner = match fifo.into_inner() {
        Ok(inner) => inner,
        Err(_) => panic!("the pipeline is still shared"),
    };
    assert!(inner.drop_in().is_none());
}

#[test]
fn drop_after_all_releases_succeeds() {
    let fifo = FastFifo::<Three, Option<u64>>::new(2, 4);
    let entry = fifo.get_entry(Three::producer()).unwrap();
    drop(entry);
    let mut inner = fifo.into_inner().ok().unwrap();
    let plans = inner.drop_in().unwrap();
    let live: Vec<SlotDrop> = plans[0].iter().copied().filter(|d| d.tag < 3).collect();
    assert_eq!(live, vec![SlotDrop { slot: 0, tag: 0 }]);
}

#[test]
fn an_option_gives_up_its_payload() {
    let mut slot = Some(3u8);
    IndexedDrop::<Three>::indexed_drop(&mut slot, 1);
    assert_eq!(slot, None);
    let mut slot = Some(3u8);
    IndexedDrop::<Three>::indexed_drop(&mut slot, 3);
    assert_eq!(slot, Some(3));
}

#[test]
fn the_give_that_counts_at_teardown() {
    let at = |version: usize, index: usize| Field::from_parts(8, version, index);
    assert_eq!(settled_give(at(0, 5), at(0, 5), 8), Some(5));
    assert_eq!(settled_give(at(0, 0), at(0, 0), 8), Some(0));
    assert_eq!(settled_give(at(0, 8), at(0, 8), 8), Some(8));
    assert_eq!(settled_give(at(0, 8), at(0, 11), 8), None);
    assert_eq!(settled_give(at(0, 4), at(0, 5), 8), None);
    assert_eq!(settled_give(at(1, 9), at(1, 9), 8), Some(8));
}

#[test]
fn the_plan_from_the_cursors_read() {
    let at = |index: usize| Field::from_parts(8, 0, index);
    // Five values produced, nothing transformed or consumed.
    let settled = vec![(at(5), at(5)), (at(0), at(0)), (at(0), at(0))];
    assert_eq!(plan_teardown(&settled, 8), Some(plan_drops(&vec![5, 0, 0], 8)));
    // The producer holds a slot.
    let held = vec![(at(0), at(1)), (at(0), at(0)), (at(0), at(0))];
    assert_eq!(plan_teardown(&held, 8), None);
    // The last stage holds a slot; the stages before it are settled.
    let held_last = vec![(at(3), at(3)), (at(3), at(3)), (at(2), at(3))];
    assert_eq!(plan_teardown(&held_last, 8), None);
    // A block that every stage has used up.
    let used_up = vec![(at(8), at(8)), (at(8), at(8)), (at(8), at(8))];
    assert_eq!(plan_teardown(&used_up, 8), Some(plan_drops(&vec![8, 8, 8], 8)));
}
