use fastfifo::config::{FifoTag, IndexedDrop, TaggedClone};
use fastfifo::fifo::FastFifo;

#[derive(Clone, Copy, Debug, PartialEq, Eq)]
enum InOut {
    Producer,
    Consumer,
}

impl FifoTag for InOut {
    fn is_atomic(self) -> bool {
        match self {
            InOut::Producer => true,
            InOut::Consumer => false,
        }
    }

    fn chases(self) -> Self {
        match self {
            InOut::Producer => InOut::Consumer,
            InOut::Consumer => InOut::Producer,
        }
    }

    fn producer() -> Self {
        InOut::Producer
    }

    fn num_transformations() -> usize {
        2
    }

    fn index(self) -> usize {
        match self {
            InOut::Producer => 0,
            InOut::Consumer => 1,
        }
    }

    fn from_index(index: usize) -> Option<Self> {
        match index {
            0 => Some(InOut::Producer),
            1 => Some(InOut::Consumer),
            _ => None,
        }
    }
}

#[derive(Debug, PartialEq)]
enum Slot {
    Empty,
    Text(String),
}

impl Default for Slot {
    fn default() -> Self {
        Slot::Empty
    }
}

impl IndexedDrop<InOut> for Slot {
    fn tagged_drop(&mut self, _tag: InOut) {
        *self = Slot::Empty;
    }
}

#[test]
fn a_tag_of_ones_own_names_the_stages() {
    let fifo = FastFifo::<InOut, Slot>::new(2, 2);
    assert!(fifo.tagged_clone(InOut::Producer).is_some());
    assert!(fifo.tagged_clone(InOut::Consumer).is_none());
    let stages = fifo.split();
    assert_eq!(stages.len(), 2);
    assert_eq!(stages[0].transform(|_| Slot::Text("a".to_string())), Ok(()));
    let mut found = Slot::Empty;
    assert_eq!(
        stages[1].transform(|slot| {
            found = slot;
            Slot::Empty
        }),
        Ok(())
    );
    assert_eq!(found, Slot::Text("a".to_string()));
}
