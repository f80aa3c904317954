//! One block of the two-stage queue.
//!
//! Four cursors run through the block's slots: producers move `allocated`
//! when they take a slot to fill and `committed` when it is filled;
//! consumers move `reserved` when they take a filled slot and `consumed`
//! when it is emptied.

use vstd::prelude::*;
use vstd::rwlock::RwLock;
use std::sync::atomic::Ordering;
use crate::atomic::AtomicField;
use crate::block::{claim_outcome, retry_outcome, used_up};
use crate::field::{Field, FieldView};
use crate::mpmc::entries::{EntryDescription, FifoIndex};

verus! {

/// What a producer gets when it asks a block for a slot.
#[verifier::reject_recursive_types(T)]
pub enum AllocState<'a, T> {
    Allocated(EntryDescription<'a, T>),
    BlockDone,
}

/// What a consumer gets when it asks a block for a slot. `BlockDone` tells
/// the lap in which the block was used up.
#[verifier::reject_recursive_types(T)]
pub enum ReserveState<'a, T> {
    Reserved(EntryDescription<'a, T>),
    NoEntry,
    NotAvailable,
    BlockDone(usize),
}

/// What a slot of a block holds, as far as the cursors tell.
#[derive(Clone, Copy, Debug, PartialEq, Eq, Structural)]
pub enum SlotState {
    /// Nothing: never filled in this lap, or emptied.
    Uninit,
    /// A producer is filling it.
    Allocated,
    /// A value.
    Value,
    /// A consumer is emptying it.
    Reserved,
}

/// What the slot at `i` holds in a block of `block_size` slots whose
/// cursors stand at the indices `allocated`, `committed`, `reserved` and
/// `consumed`. A block whose four cursors all stand at its end holds
/// nothing; a block that the consumers have used up while the producers
/// are in it holds values in all its committed slots.
pub open spec fn slot_state(
    i: nat,
    allocated: nat,
    committed: nat,
    reserved: nat,
    consumed: nat,
    block_size: nat,
) -> SlotState {
    if i >= allocated || (allocated >= block_size && committed >= block_size && consumed
        >= block_size && reserved >= block_size) {
        SlotState::Uninit
    } else if i >= committed {
        SlotState::Allocated
    } else if i >= reserved || (consumed == block_size && reserved == block_size) {
        SlotState::Value
    } else if i >= consumed {
        SlotState::Reserved
    } else {
        SlotState::Uninit
    }
}

/// Tells what the slot at `i` holds, from the indices of the four cursors.
pub fn find_slot_state(
    i: usize,
    allocated: usize,
    committed: usize,
    reserved: usize,
    consumed: usize,
    block_size: usize,
) -> (state: SlotState)
    ensures
        state == slot_state(
            i as nat,
            allocated as nat,
            committed as nat,
            reserved as nat,
            consumed as nat,
            block_size as nat,
        ),
{
    if i >= allocated || (allocated >= block_size && committed >= block_size && consumed
        >= block_size && reserved >= block_size) {
        SlotState::Uninit
    } else if i >= committed {
        SlotState::Allocated
    } else if i >= reserved || (consumed == block_size && reserved == block_size) {
        SlotState::Value
    } else if i >= consumed {
        SlotState::Reserved
    } else {
        SlotState::Uninit
    }
}

/// The slot that a producer gets whose move of the `allocated` cursor
/// found it at `cursor`: the slot at the cursor's index, and none where the
/// index lies beyond the block's slots.
pub open spec fn free_slot(cursor: FieldView, block_size: nat) -> Option<nat> {
    if cursor.index >= block_size {
        None
    } else {
        Some(cursor.index)
    }
}

/// Tells the slot that a producer gets, from the `allocated` cursor as it
/// stood.
pub fn find_free_slot(cursor: Field, block_size: usize) -> (slot: Option<usize>)
    ensures
        slot matches Some(i) ==> free_slot(cursor@, block_size as nat) == Some(i as nat),
        slot is None ==> free_slot(cursor@, block_size as nat) is None,
{
    let index = cursor.get_index();
    if index >= block_size {
        None
    } else {
        Some(index)
    }
}

/// The smaller of two numbers.
pub open spec fn least(a: nat, b: nat) -> nat {
    if a <= b {
        a
    } else {
        b
    }
}

/// What a consumer's attempt to reserve a slot comes to, once the cursors
/// are read.
#[derive(Clone, Copy, Debug, PartialEq, Eq, Structural)]
pub enum ConsumerStep {
    /// Every slot of the block has been reserved in this lap.
    BlockDone,
    /// Every committed slot has been reserved.
    NoEntry,
    /// A producer is filling a slot.
    NotAvailable,
    /// The slot at the `reserved` index may be claimed.
    Claim,
}

/// The outcome of a consumer's attempt on a block whose cursors read
/// `reserved`, `committed` and `allocated`.
pub open spec fn consumer_step(
    reserved: FieldView,
    committed: FieldView,
    allocated: FieldView,
    block_size: nat,
) -> ConsumerStep {
    if reserved.index >= block_size {
        ConsumerStep::BlockDone
    } else if reserved.index == committed.index {
        ConsumerStep::NoEntry
    } else if committed.index != block_size && allocated.index != committed.index {
        ConsumerStep::NotAvailable
    } else {
        ConsumerStep::Claim
    }
}

/// Whether the outcome depends on the `allocated` cursor.
pub open spec fn needs_allocated(reserved: FieldView, committed: FieldView, block_size: nat) -> bool {
    reserved.index < block_size && reserved.index != committed.index && committed.index
        != block_size
}

/// Tells whether a consumer's attempt has to read the `allocated` cursor.
pub fn consumer_needs_allocated(reserved: Field, committed: Field, block_size: usize) -> (b: bool)
    ensures
        b == needs_allocated(reserved@, committed@, block_size as nat),
{
    reserved.get_index() < block_size && reserved.get_index() != committed.get_index()
        && committed.get_index() != block_size
}

/// The outcome of a consumer's attempt on the cursors `reserved`,
/// `committed` and `allocated`.
pub fn consumer_outcome(reserved: Field, committed: Field, allocated: Field, block_size: usize) -> (step:
    ConsumerStep)
    ensures
        step == consumer_step(reserved@, committed@, allocated@, block_size as nat),
        !needs_allocated(reserved@, committed@, block_size as nat) ==> forall|other: FieldView|
            step == #[trigger] consumer_step(reserved@, committed@, other, block_size as nat),
{
    if reserved.get_index() >= block_size {
        ConsumerStep::BlockDone
    } else if reserved.get_index() == committed.get_index() {
        ConsumerStep::NoEntry
    } else if committed.get_index() != block_size && allocated.get_index()
        != committed.get_index() {
        ConsumerStep::NotAvailable
    } else {
        ConsumerStep::Claim
    }
}

/// Which slots of a block hold values when it is taken down, from its four
/// cursors: nothing can be said while a slot is being filled or emptied.
/// Otherwise the committed slots of the producers' lap hold values, from
/// the `reserved` index on where the consumers are in that lap, and all of
/// them where the consumers have not yet entered it.
pub open spec fn live_slots(
    allocated: FieldView,
    committed: FieldView,
    reserved: FieldView,
    consumed: FieldView,
    block_size: nat,
) -> Option<(nat, nat)> {
    let to = least(committed.index, block_size);
    if (committed.index < allocated.index && committed.index < block_size) || (consumed.index
        < reserved.index && consumed.index < block_size) {
        None
    } else if reserved.version < committed.version {
        Some((0, to))
    } else if reserved.version == committed.version && reserved.index < to {
        Some((reserved.index, to))
    } else {
        Some((to, to))
    }
}

/// Tells which slots of a block hold values, from its four cursors.
pub fn find_live_slots(
    allocated: Field,
    committed: Field,
    reserved: Field,
    consumed: Field,
    block_size: usize,
) -> (live: Option<(usize, usize)>)
    ensures
        live matches Some(range) ==> live_slots(
            allocated@,
            committed@,
            reserved@,
            consumed@,
            block_size as nat,
        ) == Some((range.0 as nat, range.1 as nat)) && range.0 <= range.1 <= block_size,
        live is None ==> live_slots(allocated@, committed@, reserved@, consumed@, block_size as nat)
            is None,
{
    let to = if committed.get_index() <= block_size {
        committed.get_index()
    } else {
        block_size
    };
    if (committed.get_index() < allocated.get_index() && committed.get_index() < block_size) || (
    consumed.get_index() < reserved.get_index() && consumed.get_index() < block_size) {
        None
    } else if reserved.get_version() < committed.get_version() {
        Some((0, to))
    } else if reserved.get_version() == committed.get_version() && reserved.get_index() < to {
        Some((reserved.get_index(), to))
    } else {
        Some((to, to))
    }
}

/// A slab of `block_size` slots with its four cursors.
#[verifier::reject_recursive_types(T)]
pub struct Block<T> {
    pub(crate) allocated: AtomicField,
    pub(crate) committed: AtomicField,
    pub(crate) reserved: AtomicField,
    pub(crate) consumed: AtomicField,
    pub(crate) block_size: usize,
    pub(crate) entries: Vec<RwLock<Option<T>, spec_fn(Option<T>) -> bool>>,
}

impl<T> Block<T> {
    /// The four cursors run over the block's size, and the block has a slot
    /// for every index below its size; a slot may hold any value.
    #[verifier::type_invariant]
    pub closed spec fn wf(&self) -> bool {
        &&& self.block_size >= 1
        &&& self.allocated.capacity() == self.block_size
        &&& self.committed.capacity() == self.block_size
        &&& self.reserved.capacity() == self.block_size
        &&& self.consumed.capacity() == self.block_size
        &&& self.entries.len() == self.block_size
        &&& forall|k: int, v: Option<T>|
            0 <= k < self.entries.len() ==> (#[trigger] self.entries[k].inv(v))
    }

    /// The number of slots.
    pub closed spec fn capacity(&self) -> usize {
        self.block_size
    }

    /// Whether the block's four cursors were all made with the value
    /// `start`.
    pub closed spec fn started_at(&self, start: Field) -> bool {
        &&& self.allocated.started_at() == start
        &&& self.committed.started_at() == start
        &&& self.reserved.started_at() == start
        &&& self.consumed.started_at() == start
    }

    /// A block of `block_size` empty slots whose cursors all start at
    /// `index` in lap zero.
    fn starting_at(block_size: usize, index: usize) -> (block: Self)
        requires
            block_size >= 1,
        ensures
            block.wf(),
            block.capacity() == block_size,
            block.started_at(Field::packed(block_size, 0, index)),
    {
        let mut entries: Vec<RwLock<Option<T>, spec_fn(Option<T>) -> bool>> = Vec::new();
        let mut k: usize = 0;
        while k < block_size
            invariant
                k <= block_size,
                entries.len() == k,
                forall|j: int, v: Option<T>| 0 <= j < k ==> (#[trigger] entries[j].inv(v)),
            decreases block_size - k,
        {
            entries.push(RwLock::new(None, Ghost(|v: Option<T>| true)));
            k = k + 1;
        }
        Self {
            allocated: AtomicField::new(Field::from_parts(block_size, 0, index)),
            committed: AtomicField::new(Field::from_parts(block_size, 0, index)),
            reserved: AtomicField::new(Field::from_parts(block_size, 0, index)),
            consumed: AtomicField::new(Field::from_parts(block_size, 0, index)),
            block_size,
            entries,
        }
    }

    /// A block that nothing has been put into.
    pub fn new(block_size: usize) -> (block: Self)
        requires
            block_size >= 1,
        ensures
            block.wf(),
            block.capacity() == block_size,
            block.started_at(Field::packed(block_size, 0, 0)),
    {
        Self::starting_at(block_size, 0)
    }

    /// A block whose cursors all stand at the end of lap zero, as if it
    /// had been filled and emptied once.
    pub fn new_full(block_size: usize) -> (block: Self)
        requires
            block_size >= 1,
        ensures
            block.wf(),
            block.capacity() == block_size,
            block.started_at(Field::packed(block_size, 0, block_size)),
    {
        Self::starting_at(block_size, block_size)
    }

    pub fn get_block_size(&self) -> (n: usize)
        ensures
            n == self.capacity(),
            n >= 1,
    {
        proof {
            use_type_invariant(self);
        }
        self.block_size
    }

    /// Takes the value out of slot `index`, leaving it empty.
    pub(crate) fn take_slot(&self, index: usize) -> (value: Option<T>)
        requires
            self.wf(),
            index < self.capacity(),
    {
        self.swap_slot(index, None)
    }

    /// Puts `value` into slot `index`.
    pub(crate) fn put_slot(&self, index: usize, value: Option<T>)
        requires
            self.wf(),
            index < self.capacity(),
    {
        let (_, handle) = self.entries[index].acquire_write();
        handle.release_write(value);
    }

    /// Puts `value` into slot `index` and returns what the slot held.
    pub(crate) fn swap_slot(&self, index: usize, value: Option<T>) -> (held: Option<T>)
        requires
            self.wf(),
            index < self.capacity(),
    {
        let (held, handle) = self.entries[index].acquire_write();
        handle.release_write(value);
        held
    }

    /// Moves `committed` on by one.
    pub(crate) fn commit_one(&self)
        opens_invariants none
        no_unwind
    {
        self.committed.publish_one();
    }

    /// Moves `consumed` on by one.
    pub(crate) fn consume_one(&self)
        opens_invariants none
        no_unwind
    {
        self.consumed.publish_one();
    }

    /// Takes the next slot of the block for a producer: `free_slot` of the
    /// `allocated` cursor as it stood when this call moved it on by one.
    /// The cursor is not moved where it reads used up beforehand.
    /// `block_idx` is the block's place in the ring.
    pub fn allocate_entry(&self, block_idx: usize) -> (state: AllocState<'_, T>)
        ensures
            state matches AllocState::Allocated(entry) ==> {
                &&& entry.home() == *self
                &&& entry.place().block_idx == block_idx
                &&& entry.found() is None
                &&& entry.left() is None
                &&& entry.place().sub_block_idx < self.capacity()
                &&& entry.lap() == 0
            },
    {
        proof {
            use_type_invariant(self);
        }
        match find_free_slot(self.allocated.load(Ordering::Relaxed), self.block_size) {
            None => AllocState::BlockDone,
            Some(_) => {
                let old = self.allocated.fetch_add(1, Ordering::Relaxed);
                match find_free_slot(old, self.block_size) {
                    None => AllocState::BlockDone,
                    Some(slot) => AllocState::Allocated(
                        EntryDescription::new(
                            self,
                            FifoIndex { block_idx, sub_block_idx: slot },
                            0,
                        ),
                    ),
                }
            },
        }
    }

    /// Tries to reserve the next filled slot of the block for a consumer.
    ///
    /// Each attempt reads the cursors and goes by `consumer_step`; a claim
    /// raises `reserved` by one and wins the slot that `claim_outcome`
    /// tells. A consumer that lost the claim reads `reserved` again and
    /// goes by `retry_outcome`: the cursor reads larger; were it not to,
    /// the consumer would give up with `NotAvailable`.
    pub fn reserve_entry(&self, block_idx: usize) -> (state: ReserveState<'_, T>)
        ensures
            state matches ReserveState::Reserved(entry) ==> {
                &&& entry.home() == *self
                &&& entry.place().block_idx == block_idx
                &&& entry.found() is None
                &&& entry.left() is None
                &&& entry.place().sub_block_idx < self.capacity()
            },
    {
        proof {
            use_type_invariant(self);
        }
        let block_size = self.block_size;
        let mut reserved = self.reserved.load(Ordering::Relaxed);
        loop
            invariant
                self.wf(),
                block_size == self.capacity(),
                reserved.capacity() == block_size,
            decreases usize::MAX - reserved.raw(),
        {
            if used_up(reserved, block_size) {
                return ReserveState::BlockDone(reserved.get_version());
            }
            // What has been written to the slots of this block is seen
            // after this load.
            let committed = self.committed.load(Ordering::Acquire);
            let allocated = if consumer_needs_allocated(reserved, committed, block_size) {
                self.allocated.load(Ordering::Relaxed)
            } else {
                committed
            };
            match consumer_outcome(reserved, committed, allocated, block_size) {
                ConsumerStep::BlockDone => {
                    return ReserveState::BlockDone(reserved.get_version());
                },
                ConsumerStep::NoEntry => {
                    return ReserveState::NoEntry;
                },
                ConsumerStep::NotAvailable => {
                    return ReserveState::NotAvailable;
                },
                ConsumerStep::Claim => {
                    let old = self.reserved.fetch_max(reserved.overflowing_add(1), Ordering::Relaxed);
                    match claim_outcome(reserved, old) {
                        Some(slot) => {
                            return ReserveState::Reserved(
                                EntryDescription::new(
                                    self,
                                    FifoIndex { block_idx, sub_block_idx: slot },
                                    reserved.get_version(),
                                ),
                            );
                        },
                        None => {},
                    }
                    match retry_outcome(reserved, self.reserved.load(Ordering::Relaxed)) {
                        Some(seen) => {
                            reserved = seen;
                        },
                        None => {
                            return ReserveState::NotAvailable;
                        },
                    }
                },
            }
        }
    }

    /// What every slot of the block holds, as far as the cursors tell as
    /// they stand.
    pub fn describe(&self) -> (states: Vec<SlotState>)
        ensures
            states.len() == self.capacity(),
    {
        proof {
            use_type_invariant(self);
        }
        let allocated = self.allocated.load(Ordering::Relaxed).get_index();
        let committed = self.committed.load(Ordering::Relaxed).get_index();
        let consumed = self.consumed.load(Ordering::Relaxed).get_index();
        let reserved = self.reserved.load(Ordering::Relaxed).get_index();
        let mut states: Vec<SlotState> = Vec::new();
        let mut i: usize = 0;
        while i < self.block_size
            invariant
                i <= self.block_size,
                states.len() == i,
            decreases self.block_size - i,
        {
            states.push(
                find_slot_state(i, allocated, committed, reserved, consumed, self.block_size),
            );
            i = i + 1;
        }
        states
    }

    /// Empties the slots that still hold values and returns how many there
    /// were; nothing where a slot is being filled or emptied, and then no
    /// slot is touched. Which slots hold values is `live_slots` of the
    /// cursors as they stand when the block is taken down.
    pub fn drop_in(&mut self) -> (dropped: Option<usize>)
        ensures
            *final(self) == *old(self),
            dropped matches Some(n) ==> n <= old(self).capacity(),
    {
        self.give_up()
    }

    /// Does the work of `drop_in`.
    pub(crate) fn give_up(&self) -> (dropped: Option<usize>)
        ensures
            dropped matches Some(n) ==> n <= self.capacity(),
    {
        proof {
            use_type_invariant(self);
        }
        let allocated = self.allocated.load(Ordering::Relaxed);
        let committed = self.committed.load(Ordering::Relaxed);
        let reserved = self.reserved.load(Ordering::Relaxed);
        let consumed = self.consumed.load(Ordering::Relaxed);
        match find_live_slots(allocated, committed, reserved, consumed, self.block_size) {
            None => None,
            Some((from, to)) => {
                let mut k = from;
                while k < to
                    invariant
                        self.wf(),
                        from <= k <= to <= self.capacity(),
                    decreases to - k,
                {
                    let _ = self.take_slot(k);
                    k = k + 1;
                }
                Some(k - from)
            },
        }
    }
}

} // verus!
