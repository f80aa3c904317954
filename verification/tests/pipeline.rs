use fastfifo::config::FifoTag;
use fastfifo::entries::{ConsumingEntry, ProducingEntry, TransformingEntry};
use fastfifo::error::Error;
use fastfifo::fifo::{FastFifo, Stage};
use fastfifo::ring_tag::RingTag;

type Three = RingTag<3, 0b010>;
type Fifo3 = FastFifo<Three, Option<u64>>;

fn stages3(num_blocks: usize, block_size: usize) -> Vec<Stage<Three, Option<u64>>> {
    Fifo3::new(num_blocks, block_size).split()
}

#[test]
fn three_stage_identity_in_sequence() {
    let stages = stages3(2, 4);
    assert_eq!(stages.len(), 3);
    for i in 0..8u64 {
        assert_eq!(stages[0].transform(|_| Some(i)), Ok(()));
    }
    for _ in 0..8 {
        assert_eq!(stages[1].transform(|x| x.map(|v| v + 1)), Ok(()));
    }
    let mut seen = Vec::new();
    for _ in 0..8 {
        let mut got = None;
        let entry = stages[2].get_entry();
        let mut entry = match entry {
            Ok(e) => e,
            Err(e) => panic!("no entry: {:?}", e),
        };
        entry.modify_t_in_place(|x| {
            got = x;
            None
        });
        drop(entry);
        seen.push(got.unwrap());
    }
    assert_eq!(seen, vec![1, 2, 3, 4, 5, 6, 7, 8]);
}

#[test]
fn stage_numbers_follow_the_split() {
    let stages = stages3(2, 4);
    assert_eq!(stages[0].get_tag().index(), 0);
    assert_eq!(stages[1].get_tag().index(), 1);
    assert_eq!(stages[2].get_tag().index(), 2);
    assert_eq!(stages[0].get_tag().chases().index(), 2);
    assert_eq!(stages[2].get_tag().chases().index(), 1);
}

#[test]
fn consumer_finds_nothing_in_a_fresh_pipeline() {
    let stages = stages3(2, 4);
    assert_eq!(stages[2].transform(|x| x), Err(Error::NotAvailable));
    assert_eq!(stages[1].transform(|x| x), Err(Error::NotAvailable));
}

#[test]
fn many_laps_keep_the_order() {
    let stages = stages3(3, 2);
    let mut next_in = 0u64;
    let mut next_out = 0u64;
    for round in 0..200 {
        let burst = 1 + (round % 4);
        for _ in 0..burst {
            if stages[0].transform(|_| Some(next_in)).is_ok() {
                next_in += 1;
            }
        }
        for _ in 0..burst {
            let _ = stages[1].transform(|x| x.map(|v| v * 10));
        }
        for _ in 0..burst {
            let mut got = None;
            if stages[2]
                .transform(|x| {
                    got = x;
                    None
                })
                .is_ok()
            {
                assert_eq!(got, Some(next_out * 10));
                next_out += 1;
            }
        }
    }
    assert!(next_out > 100, "only {} values came through", next_out);
}

fn pump(stages: &Vec<Stage<Three, Option<u64>>>, seen: &mut Vec<u64>) {
    while stages[1].transform(|x| x.map(|v| v + 1)).is_ok() {}
    loop {
        let mut got = None;
        let done = stages[2].transform(|x| {
            got = x;
            None
        });
        if done.is_err() {
            break;
        }
        seen.push(got.unwrap());
    }
}

#[test]
fn overflow_makes_the_producer_retry() {
    let stages = stages3(2, 1);
    let mut refused = 0;
    let mut seen = Vec::new();
    for i in 0..10u64 {
        let mut tries = 0;
        loop {
            match stages[0].transform(|_| Some(i)) {
                Ok(()) => break,
                Err(e) => {
                    assert!(e == Error::Busy || e == Error::NotAvailable);
                    refused += 1;
                    pump(&stages, &mut seen);
                }
            }
            tries += 1;
            assert!(tries < 10, "value {} never went in", i);
        }
    }
    pump(&stages, &mut seen);
    assert!(refused >= 1);
    assert_eq!(seen, vec![1, 2, 3, 4, 5, 6, 7, 8, 9, 10]);
}

#[test]
fn cloning_a_single_worker_stage_fails() {
    let stages = stages3(2, 4);
    assert!(stages[0].try_clone().is_none());
    assert!(stages[1].try_clone().is_some());
    assert!(stages[2].try_clone().is_none());
    assert!(!stages[0].get_tag().is_atomic());
    assert!(stages[1].get_tag().is_atomic());
}

#[test]
fn construction_needs_two_blocks_and_two_stages() {
    assert!(Fifo3::checked_new(1, 4).is_none());
    assert!(Fifo3::checked_new(0, 4).is_none());
    assert!(Fifo3::checked_new(2, 0).is_none());
    assert!(Fifo3::checked_new(2, 4).is_some());
    assert!(FastFifo::<RingTag<1, 1>, Option<u64>>::checked_new(2, 4).is_none());
    assert!(FastFifo::<RingTag<2, 3>, Option<u64>>::checked_new(2, 4).is_some());
}

#[test]
fn a_clone_works_on_the_same_pipeline() {
    let stages = stages3(2, 4);
    let second = stages[1].try_clone().unwrap();
    assert_eq!(stages[0].transform(|_| Some(5)), Ok(()));
    assert_eq!(second.transform(|x| x.map(|v| v * 2)), Ok(()));
    let mut got = None;
    assert_eq!(
        stages[2].transform(|x| {
            got = x;
            None
        }),
        Ok(())
    );
    assert_eq!(got, Some(10));
}

#[test]
fn simple_publishing_test() {
    type Two = RingTag<2, 0b11>;
    let stages = FastFifo::<Two, Option<usize>>::new(100, 100).split();
    assert_eq!(stages.len(), 2);
    assert_eq!(stages[0].transform(|_| Some(1)), Ok(()));
    let mut cont = None;
    assert_eq!(
        stages[1].transform(|slot| {
            cont = slot;
            None
        }),
        Ok(())
    );
    assert_eq!(cont, Some(1));
}

#[test]
fn full_publishing_test() {
    type All = RingTag<3, 0b111>;
    let stages = FastFifo::<All, Option<usize>>::new(2, 10).split();
    assert_eq!(stages[0].transform(|_| Some(1)), Ok(()));
    assert_eq!(stages[1].transform(|i| i.map(|v| v + 1)), Ok(()));
    let mut seen = None;
    assert_eq!(
        stages[2].transform(|i| {
            seen = i;
            None
        }),
        Ok(())
    );
    assert_eq!(seen, Some(2));
}

#[test]
fn fan_in_keeps_every_value() {
    type All = RingTag<3, 0b111>;
    let stages = FastFifo::<All, Option<u64>>::new(4, 100).split();
    let producers: Vec<_> = (0..4).map(|_| stages[0].try_clone().unwrap()).collect();
    let transformers: Vec<_> = (0..4).map(|_| stages[1].try_clone().unwrap()).collect();
    let consumers: Vec<_> = (0..4).map(|_| stages[2].try_clone().unwrap()).collect();
    let mut seen = Vec::new();
    for i in 0..250u64 {
        for (pid, producer) in producers.iter().enumerate() {
            let value = pid as u64 * 1000 + i;
            while producer.transform(|_| Some(value)).is_err() {
                for (t, c) in transformers.iter().zip(consumers.iter()) {
                    let _ = t.transform(|x| x.map(|v| v + 1));
                    let mut got = None;
                    if c.transform(|x| {
                        got = x;
                        None
                    })
                    .is_ok()
                    {
                        seen.push(got.unwrap());
                    }
                }
            }
        }
    }
    loop {
        let mut moved = false;
        for (t, c) in transformers.iter().zip(consumers.iter()) {
            moved |= t.transform(|x| x.map(|v| v + 1)).is_ok();
            let mut got = None;
            if c.transform(|x| {
                got = x;
                None
            })
            .is_ok()
            {
                seen.push(got.unwrap());
                moved = true;
            }
        }
        if !moved {
            break;
        }
    }
    let mut expected: Vec<u64> = (0..4u64)
        .flat_map(|pid| (pid * 1000 + 1)..(pid * 1000 + 251))
        .collect();
    expected.sort();
    seen.sort();
    assert_eq!(seen, expected);
}

#[test]
fn publish_then_consume_is_visible() {
    type Two = RingTag<2, 0b11>;
    let stages = FastFifo::<Two, Option<u64>>::new(2, 1).split();
    // Nothing is seen before the slot is published.
    let mut entry = stages[0].get_entry().unwrap();
    entry.modify_t_in_place(|_| Some(0xDEAD_F00D_DEAD_BEEFu64));
    assert!(stages[1].get_entry().is_err());
    drop(entry);
    let mut v = None;
    assert_eq!(
        stages[1].transform(|slot| {
            v = slot;
            None
        }),
        Ok(())
    );
    assert_eq!(v, Some(0xDEAD_F00D_DEAD_BEEFu64));
}

#[test]
fn produce_transform_consume() {
    let stages = stages3(2, 4);
    for i in 0..8u64 {
        assert_eq!(stages[0].produce(|| Some(i)), Ok(()));
    }
    assert_eq!(stages[0].produce(|| Some(99)), Err(Error::NotAvailable));
    for _ in 0..8 {
        assert_eq!(stages[1].transform(|x| x.map(|v| v + 1)), Ok(()));
    }
    for expected in 1..9u64 {
        let mut x = None;
        assert_eq!(stages[2].consume(|found| x = found), Ok(()));
        assert_eq!(x, Some(expected));
    }
    let mut called = false;
    assert_eq!(stages[2].consume(|_| called = true), Err(Error::NotAvailable));
    assert!(!called);
}

#[test]
fn entries_by_kind_of_stage() {
    let stages = stages3(2, 2);
    let mut producing = ProducingEntry(stages[0].get_entry().unwrap());
    producing.push_t(Some(4));
    drop(producing);
    let mut producing = ProducingEntry(stages[0].get_entry().unwrap());
    producing.push_t_in_place(|| Some(5));
    drop(producing);
    for _ in 0..2 {
        let mut transforming = TransformingEntry(stages[1].get_entry().unwrap());
        transforming.transform(|x| x.map(|v| v * 3));
    }
    let mut consuming = ConsumingEntry(stages[2].get_entry().unwrap());
    assert_eq!(consuming.pop(), Some(12));
    assert_eq!(consuming.pop(), None);
    drop(consuming);
    let mut consuming = ConsumingEntry(stages[2].get_entry().unwrap());
    let mut found = None;
    consuming.pop_in_place(|x| found = x);
    assert_eq!(found, Some(15));
}
