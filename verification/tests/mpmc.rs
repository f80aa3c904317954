use fastfifo::error::Error;
use fastfifo::mpmc::fifo::FastFifo;
use std::sync::atomic::{AtomicUsize, Ordering};
use std::sync::Arc;

#[test]
fn test_construct() {
    let _ = FastFifo::<u64>::new(10, 10);
}

#[test]
fn test_push_pop() {
    const NUM_BLOCKS: usize = 4;
    const BLOCK_SIZE: usize = 10;

    let fifo = FastFifo::<usize>::new(NUM_BLOCKS, BLOCK_SIZE);

    for i in 0..100 {
        for j in 0..(fifo.capacity() / 3) {
            fifo.push(i + j).unwrap();
        }
        for j in 0..(fifo.capacity() / 3) {
            let popped = fifo.pop().unwrap();
            assert!(j + i == popped, "Expected {} but got {}", j + i, popped);
        }
    }
}

struct DropTester {
    pub inner: usize,
    pub drops: Arc<AtomicUsize>,
}

impl Drop for DropTester {
    fn drop(&mut self) {
        self.drops.fetch_add(1, Ordering::Relaxed);
    }
}

#[test]
fn drop_test() {
    let drops = Arc::new(AtomicUsize::new(0));
    let testers: Vec<DropTester> = (0..100)
        .map(|i| DropTester { inner: i, drops: drops.clone() })
        .collect();

    let fifo = FastFifo::<DropTester>::new(10, 10);

    for t in testers {
        assert!(t.inner < 100);
        fifo.push(t).unwrap();
    }

    for _ in 0..50 {
        fifo.pop().unwrap();
    }
    assert_eq!(drops.load(Ordering::Relaxed), 50);

    let mut inner = match fifo.into_inner() {
        Ok(inner) => inner,
        Err(_) => panic!("the queue is still shared"),
    };
    assert_eq!(inner.drop_in(), Some(50));
    assert_eq!(drops.load(Ordering::Relaxed), 100);
}

#[test]
fn empty_queue_says_empty() {
    let fifo = FastFifo::<u8>::new(2, 3);
    assert_eq!(fifo.pop(), Err(Error::Empty));
    fifo.push(7).unwrap();
    assert_eq!(fifo.pop(), Ok(7));
    assert_eq!(fifo.pop(), Err(Error::Empty));
}

#[test]
fn full_queue_says_full() {
    let fifo = FastFifo::<usize>::new(2, 2);
    let mut pushed = 0;
    let mut last = Ok(());
    for i in 0..10 {
        last = fifo.push(i);
        if last.is_err() {
            break;
        }
        pushed += 1;
    }
    assert_eq!(last, Err(Error::Full));
    assert_eq!(pushed, fifo.capacity());
    assert_eq!(fifo.pop(), Ok(0));
}

#[test]
fn shape_with_one_block_is_refused() {
    assert!(FastFifo::<u8>::checked_new(1, 4).is_none());
    assert!(FastFifo::<u8>::checked_new(2, 0).is_none());
    assert!(FastFifo::<u8>::checked_new(2, 1).is_some());
}
