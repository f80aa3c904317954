//! The core of the two-stage queue: a ring of blocks, a head for the
//! producers and a head for the consumers.

use vstd::prelude::*;
use std::sync::atomic::Ordering;
use crate::atomic::AtomicField;
use crate::block::retry_outcome;
use crate::error::Error;
use crate::field::{lemma_ring_step_fits, ring_step, Field, FieldView};
use crate::mpmc::block::{AllocState, Block, ReserveState};
use crate::mpmc::entries::{ConsumingEntry, FifoIndex, ProducingEntry};

verus! {

/// Whether the producers' head may move on to the next block.
#[derive(Clone, Copy, Debug, PartialEq, Eq, Structural)]
pub enum AdvancePheadState {
    /// The head may move.
    Success,
    /// The next block has not been emptied, and no consumer is at work in
    /// it: the queue is full.
    NoEntry,
    /// A consumer is at work in the next block.
    NotAvailable,
}

/// The cursor at the start of the lap after the one that `head` is in, in
/// a block of `block_size` slots: index zero, and the head's version plus
/// one.
pub open spec fn next_lap(head: FieldView, block_size: usize) -> Field {
    Field::packed(block_size, (head.version + 1) as usize, 0)
}

/// Whether the next block still holds values of the producers' lap, from
/// the block's `consumed` cursor.
pub open spec fn holds_back(ph: FieldView, consumed: FieldView, block_size: nat) -> bool {
    consumed.version < ph.version || (consumed.version == ph.version && consumed.index
        != block_size)
}

/// Whether the producers' head may move on from `ph` to a block whose
/// cursors read `consumed` and `reserved`.
pub open spec fn producer_advance(
    ph: FieldView,
    consumed: FieldView,
    reserved: FieldView,
    block_size: nat,
) -> AdvancePheadState {
    if holds_back(ph, consumed, block_size) {
        if reserved.index == consumed.index {
            AdvancePheadState::NoEntry
        } else {
            AdvancePheadState::NotAvailable
        }
    } else {
        AdvancePheadState::Success
    }
}

/// Whether the consumers' head may move on from `ch` to a block whose
/// `committed` cursor reads `committed`: it may once the producers have
/// started the block in the lap after the head's.
pub open spec fn consumer_may_advance(ch: FieldView, committed: FieldView) -> bool {
    committed.version == ch.version + 1
}

/// Tells whether the next block holds the producers back.
pub fn producer_held_back(ph: Field, consumed: Field, block_size: usize) -> (b: bool)
    ensures
        b == holds_back(ph@, consumed@, block_size as nat),
{
    consumed.get_version() < ph.get_version() || (consumed.get_version() == ph.get_version()
        && consumed.get_index() != block_size)
}

/// Tells whether the producers' head may move on.
pub fn producer_advance_outcome(ph: Field, consumed: Field, reserved: Field, block_size: usize) -> (state:
    AdvancePheadState)
    ensures
        state == producer_advance(ph@, consumed@, reserved@, block_size as nat),
{
    if producer_held_back(ph, consumed, block_size) {
        if reserved.get_index() == consumed.get_index() {
            AdvancePheadState::NoEntry
        } else {
            AdvancePheadState::NotAvailable
        }
    } else {
        AdvancePheadState::Success
    }
}

/// Tells whether the consumers' head may move on.
pub fn consumer_advance_outcome(ch: Field, committed: Field) -> (b: bool)
    requires
        ch@.version < usize::MAX,
    ensures
        b == consumer_may_advance(ch@, committed@),
{
    committed.get_version() == ch.get_version() + 1
}

/// What a pop comes to that found `held` in the slot at `place`: the value
/// and its place, and an empty queue where the slot held nothing.
pub fn pop_outcome<T>(held: Option<T>, place: FifoIndex) -> (value: Result<(T, FifoIndex), Error>)
    ensures
        value == match held {
            Some(v) => Ok::<(T, FifoIndex), Error>((v, place)),
            None => Err::<(T, FifoIndex), Error>(Error::Empty),
        },
{
    match held {
        Some(v) => Ok((v, place)),
        None => Err(Error::Empty),
    }
}

/// The ring of blocks and the two heads.
#[verifier::reject_recursive_types(T)]
pub struct FastFifoInner<T> {
    phead: AtomicField,
    chead: AtomicField,
    num_blocks: usize,
    block_size: usize,
    blocks: Vec<Block<T>>,
}

impl<T> FastFifoInner<T> {
    /// The ring has at least two blocks, all of one size, and both heads
    /// run over the ring.
    #[verifier::type_invariant]
    pub closed spec fn wf(&self) -> bool {
        &&& Self::valid_shape(self.num_blocks, self.block_size)
        &&& self.blocks.len() == self.num_blocks
        &&& self.phead.capacity() == self.num_blocks
        &&& self.chead.capacity() == self.num_blocks
        &&& forall|b: int|
            0 <= b < self.blocks.len() ==> (#[trigger] self.blocks[b]).wf() && self.blocks[b].capacity()
                == self.block_size
    }

    /// The number of blocks in the ring.
    pub closed spec fn ring(&self) -> usize {
        self.num_blocks
    }

    /// The number of slots in each block.
    pub closed spec fn slab(&self) -> usize {
        self.block_size
    }

    /// The block at position `index` of the ring.
    pub closed spec fn block_at(&self, index: int) -> Block<T> {
        self.blocks[index]
    }

    /// The block under a head that reads `head`.
    pub open spec fn block_under(&self, head: Field) -> Block<T> {
        self.block_at((head@.index % self.ring() as nat) as int)
    }

    /// The place in the ring of the block under a head that reads `head`.
    pub open spec fn place_under(&self, head: Field) -> nat {
        head@.index % self.ring() as nat
    }

    /// Whether the queue was made with both heads at the first block in
    /// lap zero, the first block with its cursors at the start of lap zero,
    /// and every other block with its cursors at the end of lap zero.
    pub closed spec fn made_fresh(&self) -> bool {
        &&& self.phead.started_at() == Field::packed(self.num_blocks, 0, 0)
        &&& self.chead.started_at() == Field::packed(self.num_blocks, 0, 0)
        &&& self.blocks[0].started_at(Field::packed(self.block_size, 0, 0))
        &&& forall|b: int|
            1 <= b < self.blocks.len() ==> (#[trigger] self.blocks[b]).started_at(
                Field::packed(self.block_size, 0, self.block_size),
            )
    }

    /// Whether a queue of this shape can be built: at least two blocks, at
    /// least one slot in each, and a number of slots that a word can hold.
    pub open spec fn valid_shape(num_blocks: usize, block_size: usize) -> bool {
        &&& 2 <= num_blocks <= usize::MAX / 2
        &&& block_size >= 1
        &&& num_blocks * block_size <= usize::MAX
    }

    /// A queue of `num_blocks` blocks of `block_size` slots each. The first
    /// block is fresh; the others stand at the end of lap zero, so that the
    /// producers enter each of them in lap one.
    pub fn new(num_blocks: usize, block_size: usize) -> (fifo: Self)
        requires
            Self::valid_shape(num_blocks, block_size),
        ensures
            fifo.wf(),
            fifo.ring() == num_blocks,
            fifo.slab() == block_size,
            fifo.made_fresh(),
    {
        let mut blocks: Vec<Block<T>> = Vec::new();
        let mut b: usize = 0;
        while b < num_blocks
            invariant
                block_size >= 1,
                b <= num_blocks,
                blocks.len() == b,
                forall|j: int|
                    0 <= j < b ==> (#[trigger] blocks[j]).wf() && blocks[j].capacity() == block_size
                        && blocks[j].started_at(
                        Field::packed(
                            block_size,
                            0,
                            if j == 0 {
                                0
                            } else {
                                block_size
                            },
                        ),
                    ),
            decreases num_blocks - b,
        {
            if b == 0 {
                blocks.push(Block::new(block_size));
            } else {
                blocks.push(Block::new_full(block_size));
            }
            b = b + 1;
        }
        Self {
            phead: AtomicField::new(Field::from_parts(num_blocks, 0, 0)),
            chead: AtomicField::new(Field::from_parts(num_blocks, 0, 0)),
            num_blocks,
            block_size,
            blocks,
        }
    }

    /// A queue of the given shape, or nothing where the shape is not valid.
    pub fn checked_new(num_blocks: usize, block_size: usize) -> (fifo: Option<Self>)
        ensures
            fifo.is_some() == Self::valid_shape(num_blocks, block_size),
            fifo matches Some(f) ==> f.wf() && f.ring() == num_blocks && f.slab() == block_size
                && f.made_fresh(),
    {
        if num_blocks >= 2 && num_blocks <= usize::MAX / 2 && block_size >= 1 {
            match num_blocks.checked_mul(block_size) {
                Some(_) => Some(Self::new(num_blocks, block_size)),
                None => None,
            }
        } else {
            None
        }
    }

    /// The number of slots in the ring.
    pub fn capacity(&self) -> (n: usize)
        ensures
            n == self.ring() * self.slab(),
    {
        proof {
            use_type_invariant(self);
        }
        self.num_blocks * self.block_size
    }

    /// The producers' head as it stands, the place of the block it names,
    /// and the block.
    fn get_phead_and_block(&self) -> (at: (Field, usize, &Block<T>))
        ensures
            at.0.capacity() == self.ring(),
            at.1 == self.place_under(at.0),
            at.1 < self.ring(),
            *at.2 == self.block_under(at.0),
            at.2.wf(),
    {
        proof {
            use_type_invariant(self);
        }
        let ph = self.phead.load(Ordering::Relaxed);
        let place = ph.get_index() % self.num_blocks;
        (ph, place, &self.blocks[place])
    }

    /// The consumers' head as it stands, the place of the block it names,
    /// and the block.
    fn get_chead_and_block(&self) -> (at: (Field, usize, &Block<T>))
        ensures
            at.0.capacity() == self.ring(),
            at.1 == self.place_under(at.0),
            at.1 < self.ring(),
            *at.2 == self.block_under(at.0),
            at.2.wf(),
    {
        proof {
            use_type_invariant(self);
        }
        let ch = self.chead.load(Ordering::Relaxed);
        let place = ch.get_index() % self.num_blocks;
        (ch, place, &self.blocks[place])
    }

    /// Moves the producers' head on from `ph` to the next block, unless
    /// that block still holds values of the last lap. Whether it may move
    /// is `producer_advance` of the next block's cursors; where it may,
    /// the block's `committed` and `allocated` cursors are raised to the
    /// start of the next lap, and the head to one step beyond `ph`.
    /// Returns the outcome and, where the head may move, the two values
    /// that the cursors and the head were raised to, in that order.
    fn advance_phead(&self, ph: Field) -> (done: (AdvancePheadState, Option<(Field, Field)>))
        requires
            ph.capacity() == self.ring(),
        ensures
            done.0 is Success <==> done.1 is Some,
            done.1 matches Some(raised) ==> raised.0 == next_lap(ph@, self.slab()) && raised.1
                == ring_step(ph),
    {
        proof {
            use_type_invariant(self);
            lemma_ring_step_fits(ph);
        }
        let nblk = &self.blocks[(ph.get_index() % self.num_blocks + 1) % self.num_blocks];
        let consumed = nblk.consumed.load(Ordering::Acquire);
        let reserved = if producer_held_back(ph, consumed, self.block_size) {
            nblk.reserved.load(Ordering::Relaxed)
        } else {
            consumed
        };
        match producer_advance_outcome(ph, consumed, reserved, self.block_size) {
            AdvancePheadState::Success => {
                let new_field = Field::from_parts(self.block_size, ph.get_version() + 1, 0);
                let step = ph.version_inc_add(1);
                nblk.committed.fetch_max(new_field, Ordering::Relaxed);
                nblk.allocated.fetch_max(new_field, Ordering::Relaxed);
                self.phead.fetch_max(step, Ordering::Relaxed);
                (AdvancePheadState::Success, Some((new_field, step)))
            },
            other => (other, None),
        }
    }

    /// Moves the consumers' head on from `ch` to the next block, once the
    /// producers have started that block in the lap after the head's.
    /// Where it may move, the block's `consumed` and `reserved` cursors
    /// are raised to the start of that lap, and the head to one step beyond
    /// `ch`. Returns the two values that the cursors and the head were
    /// raised to, in that order, and nothing where the head may not move.
    fn advance_chead(&self, ch: Field) -> (moved: Option<(Field, Field)>)
        requires
            ch.capacity() == self.ring(),
        ensures
            moved matches Some(raised) ==> raised.0 == next_lap(ch@, self.slab()) && raised.1
                == ring_step(ch),
    {
        proof {
            use_type_invariant(self);
            lemma_ring_step_fits(ch);
        }
        let nblk = &self.blocks[(ch.get_index() % self.num_blocks + 1) % self.num_blocks];
        let committed = nblk.committed.load(Ordering::Acquire);
        if !consumer_advance_outcome(ch, committed) {
            return None;
        }
        let new_field = Field::from_parts(self.block_size, ch.get_version() + 1, 0);
        let step = ch.version_inc_add(1);
        nblk.consumed.fetch_max(new_field, Ordering::Relaxed);
        nblk.reserved.fetch_max(new_field, Ordering::Relaxed);
        self.chead.fetch_max(step, Ordering::Relaxed);
        Some((new_field, step))
    }

    /// Takes a slot for a producer to fill, or says why there is none:
    /// `Full` where the next block has not been emptied, `Busy` where a
    /// consumer is at work in it.
    pub fn get_producer_entry(&self) -> (entry: Result<ProducingEntry<'_, T>, Error>)
        ensures
            entry matches Ok(e) ==> e.entry().place().block_idx < self.ring()
                && e.entry().place().sub_block_idx < self.slab() && e.entry().found() is None
                && e.entry().left() is None,
            entry matches Err(e) ==> e == Error::Full || e == Error::Busy,
    {
        proof {
            use_type_invariant(self);
        }
        let (mut ph, mut place, mut blk) = self.get_phead_and_block();
        loop
            invariant
                self.wf(),
                ph.capacity() == self.ring(),
                place < self.ring(),
                *blk == self.block_at(place as int),
                blk.wf(),
            decreases usize::MAX - ph.raw(),
        {
            match blk.allocate_entry(place) {
                AllocState::Allocated(entry_description) => {
                    return Ok(ProducingEntry::new(entry_description));
                },
                AllocState::BlockDone => match self.advance_phead(ph).0 {
                    AdvancePheadState::NoEntry => {
                        return Err(Error::Full);
                    },
                    AdvancePheadState::NotAvailable => {
                        return Err(Error::Busy);
                    },
                    AdvancePheadState::Success => {
                        let (moved, next_place, next) = self.get_phead_and_block();
                        match retry_outcome(ph, moved) {
                            None => {
                                return Err(Error::Busy);
                            },
                            Some(seen) => {
                                ph = seen;
                                place = next_place;
                                blk = next;
                            },
                        }
                    },
                },
            }
        }
    }

    /// Takes a slot and puts what `producer` returns into it.
    pub fn push_in_place<F: FnOnce() -> T>(&self, producer: F) -> (done: Result<(), Error>)
        requires
            call_requires(producer, ()),
        ensures
            done matches Err(e) ==> e == Error::Full || e == Error::Busy,
            done is Ok ==> exists|value: T| call_ensures(producer, (), value),
    {
        match self.get_producer_entry() {
            Ok(mut entry) => {
                entry.produce_t_in_place(producer);
                Ok(())
            },
            Err(e) => Err(e),
        }
    }

    /// Puts `val` at the end of the queue.
    pub fn push(&self, val: T) -> (done: Result<(), Error>)
        ensures
            done matches Err(e) ==> e == Error::Full || e == Error::Busy,
    {
        match self.get_producer_entry() {
            Ok(mut entry) => {
                entry.produce_t(val);
                Ok(())
            },
            Err(e) => Err(e),
        }
    }

    /// Puts `val` into the slot at `index`, past the heads: the block's
    /// `allocated` cursor moves on by one before the write and its
    /// `committed` cursor after it.
    pub fn indexed_push(&self, val: T, index: FifoIndex)
        requires
            index.block_idx < self.ring(),
            index.sub_block_idx < self.slab(),
    {
        proof {
            use_type_invariant(self);
        }
        let blk = &self.blocks[index.block_idx];
        blk.allocated.fetch_add(1, Ordering::Relaxed);
        blk.put_slot(index.sub_block_idx, Some(val));
        blk.commit_one();
    }

    /// Takes a filled slot for a consumer to empty, or says why there is
    /// none: `Empty` where nothing waits, `Busy` where a producer is at
    /// work on the slots that would come next.
    pub fn get_consumer_entry(&self) -> (entry: Result<ConsumingEntry<'_, T>, Error>)
        ensures
            entry matches Ok(e) ==> e.entry().place().block_idx < self.ring()
                && e.entry().place().sub_block_idx < self.slab() && e.entry().found() is None
                && e.entry().left() is None,
            entry matches Err(e) ==> e == Error::Empty || e == Error::Busy,
    {
        proof {
            use_type_invariant(self);
        }
        let (mut ch, mut place, mut blk) = self.get_chead_and_block();
        loop
            invariant
                self.wf(),
                ch.capacity() == self.ring(),
                place < self.ring(),
                *blk == self.block_at(place as int),
                blk.wf(),
            decreases usize::MAX - ch.raw(),
        {
            match blk.reserve_entry(place) {
                ReserveState::BlockDone(_) => {
                    if self.advance_chead(ch).is_none() {
                        return Err(Error::Empty);
                    }
                    let (moved, next_place, next) = self.get_chead_and_block();
                    match retry_outcome(ch, moved) {
                        None => {
                            return Err(Error::Busy);
                        },
                        Some(seen) => {
                            ch = seen;
                            place = next_place;
                            blk = next;
                        },
                    }
                },
                ReserveState::Reserved(entry_description) => {
                    return Ok(ConsumingEntry::new(entry_description));
                },
                ReserveState::NoEntry => {
                    return Err(Error::Empty);
                },
                ReserveState::NotAvailable => {
                    return Err(Error::Busy);
                },
            }
        }
    }

    /// Takes the value at the front of the queue and hands it to
    /// `consumer`.
    pub fn pop_in_place<F: FnOnce(T)>(&self, consumer: F) -> (done: Result<(), Error>)
        requires
            forall|v: T| call_requires(consumer, (v,)),
        ensures
            done matches Err(e) ==> e == Error::Empty || e == Error::Busy,
    {
        match self.get_consumer_entry() {
            Ok(mut entry) => {
                entry.consume_t_in_place(consumer);
                Ok(())
            },
            Err(e) => Err(e),
        }
    }

    /// Takes the value at the front of the queue. A reserved slot that
    /// holds nothing counts as an empty queue.
    pub fn pop(&self) -> (value: Result<T, Error>)
        ensures
            value matches Err(e) ==> e == Error::Empty || e == Error::Busy,
    {
        match self.indexed_pop() {
            Ok((value, _)) => Ok(value),
            Err(e) => Err(e),
        }
    }

    /// Takes the value at the front of the queue and tells where it lay.
    pub fn indexed_pop(&self) -> (value: Result<(T, FifoIndex), Error>)
        ensures
            value matches Ok(v) ==> v.1.block_idx < self.ring() && v.1.sub_block_idx < self.slab(),
            value matches Err(e) ==> e == Error::Empty || e == Error::Busy,
    {
        match self.get_consumer_entry() {
            Ok(mut entry) => {
                let index = entry.get_index();
                pop_outcome(entry.take(), index)
            },
            Err(e) => Err(e),
        }
    }

    /// Takes the queue down: empties every slot that still holds a value
    /// and returns how many there were. Where a slot is being filled or
    /// emptied the blocks from that one on are left alone and nothing is
    /// returned.
    pub fn drop_in(&mut self) -> (dropped: Option<usize>)
        ensures
            *final(self) == *old(self),
            dropped matches Some(n) ==> n <= old(self).ring() * old(self).slab(),
    {
        proof {
            use_type_invariant(&*self);
        }
        let mut total: usize = 0;
        let mut b: usize = 0;
        while b < self.num_blocks
            invariant
                self.wf(),
                *self == *old(self),
                b <= self.num_blocks,
                total <= b * self.block_size,
            decreases self.num_blocks - b,
        {
            let block = &self.blocks[b];
            match block.give_up() {
                None => {
                    return None;
                },
                Some(n) => {
                    assert((b + 1) * self.block_size == b * self.block_size + self.block_size)
                        by (nonlinear_arith);
                    assert((b + 1) * self.block_size <= self.num_blocks * self.block_size)
                        by (nonlinear_arith)
                        requires
                            b + 1 <= self.num_blocks,
                    ;
                    total = total + n;
                },
            }
            b = b + 1;
        }
        assert(b * self.block_size == self.num_blocks * self.block_size);
        Some(total)
    }
}

} // verus!
