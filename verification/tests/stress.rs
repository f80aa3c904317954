use fastfifo::fifo::{FastFifo, Stage};
use fastfifo::ring_tag::RingTag;
use std::collections::VecDeque;

/// A small generator of numbers that look random and are the same at every
/// run.
struct Dice(u64);

impl Dice {
    fn roll(&mut self, sides: u64) -> u64 {
        self.0 = self.0.wrapping_mul(6364136223846793005).wrapping_add(1442695040888963407);
        (self.0 >> 33) % sides
    }
}

fn run<const STAGES: usize, const SHARED: usize>(num_blocks: usize, block_size: usize, seed: u64) {
    let stages: Vec<Stage<RingTag<STAGES, SHARED>, Option<u64>>> =
        FastFifo::new(num_blocks, block_size).split();
    let mut dice = Dice(seed);
    // What has passed stage `s` and waits for stage `s + 1`.
    let mut between: Vec<VecDeque<u64>> = (0..STAGES).map(|_| VecDeque::new()).collect();
    let mut next_value = 0u64;
    let mut delivered = 0u64;
    let mut step = |s: usize, between: &mut Vec<VecDeque<u64>>, next_value: &mut u64, delivered: &mut u64| -> bool {
        if s == 0 {
            let value = *next_value;
            if stages[0].transform(|_| Some(value)).is_ok() {
                between[0].push_back(value);
                *next_value += 1;
                return true;
            }
            false
        } else {
            let mut found = None;
            let last = s == STAGES - 1;
            let done = stages[s].transform(|x| {
                found = x;
                if last {
                    None
                } else {
                    x.map(|v| v + 1000)
                }
            });
            if done.is_ok() {
                let expected = between[s - 1].pop_front().expect("a slot came from nowhere");
                assert_eq!(found, Some(expected));
                if last {
                    *delivered += 1;
                } else {
                    between[s].push_back(expected + 1000);
                }
                return true;
            }
            false
        }
    };
    for _ in 0..2000 {
        let s = dice.roll(STAGES as u64) as usize;
        step(s, &mut between, &mut next_value, &mut delivered);
    }
    // Whatever is under way comes out once the producer stops.
    loop {
        let mut moved = false;
        for s in 1..STAGES {
            while step(s, &mut between, &mut next_value, &mut delivered) {
                moved = true;
            }
        }
        if !moved {
            break;
        }
    }
    assert!(next_value > 0);
    assert_eq!(delivered, next_value, "{} blocks of {}: values were left behind", num_blocks, block_size);
    // And the ring takes values again.
    assert!(step(0, &mut between, &mut next_value, &mut delivered));
}

#[test]
fn any_schedule_keeps_the_order_in_two_stages() {
    for num_blocks in 2..6 {
        for block_size in 1..5 {
            run::<2, 0b11>(num_blocks, block_size, (num_blocks * 31 + block_size) as u64);
        }
    }
}

#[test]
fn any_schedule_keeps_the_order_in_three_stages() {
    for num_blocks in 2..6 {
        for block_size in 1..5 {
            run::<3, 0b000>(num_blocks, block_size, (num_blocks * 17 + block_size) as u64);
        }
    }
}

#[test]
fn any_schedule_keeps_the_order_in_five_stages() {
    for num_blocks in 2..5 {
        for block_size in 1..4 {
            run::<5, 0b10101>(num_blocks, block_size, (num_blocks * 7 + block_size) as u64);
        }
    }
}
