//! One block of the ring: a slab of slots and, for each stage, the pair of
//! cursors that gates the stage's progress through the slab.

use vstd::prelude::*;
use vstd::rwlock::RwLock;
use std::marker::PhantomData;
use crate::atom_pair::AtomicPair;
use crate::config::{ring_prev, FifoTag, IndexedDrop};
use crate::entry_descriptor::EntryDescriptor;
use crate::field::{Field, FieldView};
use crate::teardown::{
    drop_plan, gives_at_rest, is_drop_plan, lemma_idle_marks, lemma_waiting_count, plan_teardown,
    SlotDrop,
};

verus! {

/// What one attempt to reserve a slot comes to, once the cursors are read.
#[derive(Clone, Copy, Debug, PartialEq, Eq, Structural)]
pub enum ReserveStep {
    /// The stage has reserved every slot of the block in this lap.
    BlockDone,
    /// The stage has caught up with the stage it chases.
    NotAvailable,
    /// The chased stage is at work in the block.
    Busy,
    /// The slot at the stage's `take` index may be claimed.
    Claim,
}

/// One for the producer, which may write a lap ahead of the stage it
/// chases, and zero for every other stage.
pub open spec fn producer_offset(stage: nat) -> nat {
    if stage == 0 {
        1
    } else {
        0
    }
}

/// Whether the stage's `take` cursor `t` has reached the lap of the chased
/// stage's `give` cursor `g`, so that the indices have to be compared.
pub open spec fn in_chased_lap(t: FieldView, g: FieldView, offset: nat) -> bool {
    t.version >= g.version + offset
}

/// The outcome of a reservation attempt by a stage whose `take` cursor reads
/// `t`, while the chased stage's cursors read `g` (give) and `ct` (take).
pub open spec fn reserve_step(
    t: FieldView,
    g: FieldView,
    ct: FieldView,
    offset: nat,
    block_size: nat,
) -> ReserveStep {
    if t.index >= block_size {
        ReserveStep::BlockDone
    } else if in_chased_lap(t, g, offset) {
        if t.index == g.index || t.version > g.version + offset {
            ReserveStep::NotAvailable
        } else if ct.index > g.index {
            ReserveStep::Busy
        } else {
            ReserveStep::Claim
        }
    } else {
        ReserveStep::Claim
    }
}

/// Whether the outcome of an attempt depends on the chased stage's `take`
/// cursor.
pub open spec fn needs_chased_take(t: FieldView, g: FieldView, offset: nat, block_size: nat) -> bool {
    &&& t.index < block_size
    &&& in_chased_lap(t, g, offset)
    &&& t.index != g.index
    &&& t.version <= g.version + offset
}

/// Where the chased stage's `take` cursor is not needed, the outcome is the
/// same whatever it reads.
pub proof fn lemma_reserve_step_ignores_take(
    t: FieldView,
    g: FieldView,
    ct1: FieldView,
    ct2: FieldView,
    offset: nat,
    block_size: nat,
)
    requires
        !needs_chased_take(t, g, offset, block_size),
    ensures
        reserve_step(t, g, ct1, offset, block_size) == reserve_step(t, g, ct2, offset, block_size),
{
}

/// Tells whether an attempt has to read the chased stage's `take` cursor.
pub fn needs_chasing_take(t: Field, g: Field, offset: usize, block_size: usize) -> (b: bool)
    requires
        offset <= 1,
    ensures
        b == needs_chased_take(t@, g@, offset as nat, block_size as nat),
{
    let t_version = t.get_version();
    let g_version = g.get_version();
    if t.get_index() >= block_size {
        false
    } else if g_version == usize::MAX {
        // No lap lies beyond the last one that the word can count.
        offset == 0 && t_version == g_version && t.get_index() != g.get_index()
    } else {
        t_version >= g_version + offset && t.get_index() != g.get_index() && t_version
            <= g_version + offset
    }
}

/// The outcome of a reservation attempt on the cursors `t`, `g` and `ct`.
pub fn reserve_outcome(t: Field, g: Field, ct: Field, offset: usize, block_size: usize) -> (step:
    ReserveStep)
    requires
        offset <= 1,
    ensures
        step == reserve_step(t@, g@, ct@, offset as nat, block_size as nat),
{
    let t_version = t.get_version();
    let g_version = g.get_version();
    if t.get_index() >= block_size {
        ReserveStep::BlockDone
    } else if g_version == usize::MAX && offset == 1 {
        // The stage cannot have reached a lap that the word cannot count.
        ReserveStep::Claim
    } else if t_version >= g_version + offset {
        if t.get_index() == g.get_index() || t_version > g_version + offset {
            ReserveStep::NotAvailable
        } else if ct.get_index() > g.get_index() {
            ReserveStep::Busy
        } else {
            ReserveStep::Claim
        }
    } else {
        ReserveStep::Claim
    }
}

/// Tells whether a block of `block_size` slots is used up for the stage
/// whose cursor reads `cursor`: the cursor's index has come to the block's
/// size, and the stage's attempt ends there whatever the other cursors
/// read.
pub fn used_up(cursor: Field, block_size: usize) -> (b: bool)
    ensures
        b == (cursor@.index >= block_size),
        b ==> forall|g: FieldView, ct: FieldView, offset: nat| #[trigger]
            reserve_step(cursor@, g, ct, offset, block_size as nat) == ReserveStep::BlockDone,
{
    cursor.get_index() >= block_size
}

/// The slot that a claim wins. A worker that read `read` from a cursor and
/// raised the cursor by one wins the slot at the index of `read` where the
/// cursor still held `read`, which is what `found` tells; where another
/// worker had moved the cursor, it wins nothing.
pub fn claim_outcome(read: Field, found: Field) -> (slot: Option<usize>)
    ensures
        slot == if found.raw() == read.raw() {
            Some(read@.index as usize)
        } else {
            None::<usize>
        },
{
    if found.get_raw_inner() == read.get_raw_inner() {
        Some(read.get_index())
    } else {
        None
    }
}

/// The cursor that a worker tries again on after a lost claim. It had read
/// `read` and now reads `seen`: it goes on with `seen` where that is the
/// larger, and gives up where it is not.
pub fn retry_outcome(read: Field, seen: Field) -> (next: Option<Field>)
    ensures
        next == if seen.raw() > read.raw() {
            Some(seen)
        } else {
            None::<Field>
        },
{
    if seen.get_raw_inner() > read.get_raw_inner() {
        Some(seen)
    } else {
        None
    }
}

/// What a stage gets when it asks a block for a slot.
#[verifier::reject_recursive_types(Inner)]
pub enum ReserveState<'a, Tag: FifoTag, Inner: IndexedDrop<Tag> + Default> {
    Success(EntryDescriptor<'a, Tag, Inner>),
    NotAvailable,
    BlockDone,
    Busy,
}

/// A slab of `block_size` slots with one cursor pair for each stage.
///
/// Every slot sits in a lock of its own. Only the holder of the slot's
/// reservation takes it, and only to take the value out or to put one in,
/// so no worker waits for it as long as no slot is held twice.
///
/// A block that is let go keeps what its slots hold; `drop_in` gives the
/// payloads up.
#[verifier::reject_recursive_types(Inner)]
pub struct Block<Tag: FifoTag, Inner: IndexedDrop<Tag> + Default> {
    _phantom: PhantomData<Tag>,
    atomics: Vec<AtomicPair>,
    entries: Vec<RwLock<Inner, spec_fn(Inner) -> bool>>,
    block_size: usize,
}

impl<Tag: FifoTag, Inner: IndexedDrop<Tag> + Default> Block<Tag, Inner> {
    /// There are at least two stages, each with a cursor pair over the
    /// block's size, and the block has a slot for every index below its
    /// size; a slot may hold any value.
    #[verifier::type_invariant]
    pub closed spec fn wf(&self) -> bool {
        &&& Tag::stages() >= 2
        &&& self.block_size >= 1
        &&& self.atomics.len() == Tag::stages()
        &&& self.entries.len() == self.block_size
        &&& forall|i: int|
            0 <= i < self.atomics.len() ==> (#[trigger] self.atomics[i]).capacity()
                == self.block_size
        &&& forall|k: int, v: Inner| 0 <= k < self.entries.len() ==> (#[trigger] self.entries[k].inv(v))
    }

    /// The number of slots.
    pub closed spec fn capacity(&self) -> usize {
        self.block_size
    }

    /// The cursor pair of the stage numbered `stage`.
    pub closed spec fn pair_of(&self, stage: nat) -> AtomicPair {
        self.atomics[stage as int]
    }

    /// Whether the block was made with every cursor at the start of lap
    /// zero.
    pub open spec fn made_fresh(&self) -> bool {
        forall|s: nat|
            s < Tag::stages() ==> (#[trigger] self.pair_of(s)).started_at() == Field::packed(
                self.capacity(),
                0,
                0,
            )
    }

    /// The block as it was made: every stage with the cursors it was made
    /// with, and no slot held.
    pub open spec fn start_model(&self) -> crate::lap::BlockModel {
        crate::lap::BlockModel {
            block_size: self.capacity() as nat,
            stages: Seq::new(
                Tag::stages(),
                |s: int|
                    crate::lap::StageModel {
                        take: self.pair_of(s as nat).started_at()@,
                        give: self.pair_of(s as nat).started_at()@,
                        held: Set::empty(),
                    },
            ),
        }
    }

    /// A block that was made fresh starts as the fresh block of its size.
    pub proof fn lemma_starts_fresh(&self)
        requires
            self.made_fresh(),
        ensures
            self.start_model() == crate::lap::fresh(self.capacity() as nat, Tag::stages()),
    {
        crate::field::lemma_lap_zero(self.capacity(), 0);
        let made = self.start_model();
        let fresh = crate::lap::fresh(self.capacity() as nat, Tag::stages());
        assert forall|s: int| 0 <= s < Tag::stages() implies made.stages[s] == fresh.stages[s] by {
            assert(self.pair_of(s as nat).started_at() == Field::packed(self.capacity(), 0, 0));
        }
        assert(made.stages =~= fresh.stages);
    }

    /// A block of `block_size` default slots with every cursor at the start
    /// of lap zero.
    pub fn new_in(block_size: usize) -> (block: Self)
        requires
            Tag::stages() >= 2,
            block_size >= 1,
        ensures
            block.wf(),
            block.capacity() == block_size,
            block.made_fresh(),
    {
        let stages = Tag::num_transformations();
        let mut atomics: Vec<AtomicPair> = Vec::new();
        let mut i: usize = 0;
        while i < stages
            invariant
                i <= stages,
                atomics.len() == i,
                forall|j: int|
                    0 <= j < i ==> (#[trigger] atomics[j]).capacity() == block_size
                        && atomics[j].started_at() == Field::packed(block_size, 0, 0),
            decreases stages - i,
        {
            atomics.push(AtomicPair::from_field(Field::from_parts(block_size, 0, 0)));
            i = i + 1;
        }
        let mut entries: Vec<RwLock<Inner, spec_fn(Inner) -> bool>> = Vec::new();
        let mut k: usize = 0;
        while k < block_size
            invariant
                k <= block_size,
                entries.len() == k,
                forall|j: int, v: Inner| 0 <= j < k ==> (#[trigger] entries[j].inv(v)),
            decreases block_size - k,
        {
            entries.push(RwLock::new(Inner::default(), Ghost(|v: Inner| true)));
            k = k + 1;
        }
        Self { _phantom: PhantomData, atomics, entries, block_size }
    }

    pub fn get_block_size(&self) -> (n: usize)
        ensures
            n == self.capacity(),
            n >= 1,
    {
        proof {
            use_type_invariant(self);
        }
        self.block_size
    }

    /// The cursor pair that stage `tag` keeps in this block.
    pub fn get_atomics(&self, tag: Tag) -> (pair: &AtomicPair)
        ensures
            *pair == self.pair_of(tag.stage()),
            pair.capacity() == self.capacity(),
    {
        proof {
            use_type_invariant(self);
        }
        &self.atomics[tag.index()]
    }

    /// The cursor pairs of stage `tag` and of the stage it chases.
    pub fn get_current_chasing(&self, tag: Tag) -> (pairs: (&AtomicPair, &AtomicPair))
        ensures
            *pairs.0 == self.pair_of(tag.stage()),
            *pairs.1 == self.pair_of(ring_prev(tag.stage(), Tag::stages())),
            pairs.0.capacity() == self.capacity(),
            pairs.1.capacity() == self.capacity(),
    {
        (self.get_atomics(tag), self.get_atomics(tag.chases()))
    }

    /// Takes the value out of slot `index`, leaving the default in its
    /// place.
    pub(crate) fn take_slot(&self, index: usize) -> (value: Inner)
        requires
            self.wf(),
            index < self.capacity(),
    {
        self.swap_slot(index, Inner::default())
    }

    /// Puts `value` into slot `index`.
    pub(crate) fn put_slot(&self, index: usize, value: Inner)
        requires
            self.wf(),
            index < self.capacity(),
    {
        let (_, handle) = self.entries[index].acquire_write();
        handle.release_write(value);
    }

    /// Puts `value` into slot `index` and returns what the slot held.
    pub(crate) fn swap_slot(&self, index: usize, value: Inner) -> (held: Inner)
        requires
            self.wf(),
            index < self.capacity(),
    {
        let (held, handle) = self.entries[index].acquire_write();
        handle.release_write(value);
        held
    }

    /// Tries to reserve the next slot of this block for stage `tag`.
    ///
    /// Each attempt reads the stage's `take` cursor and the chased stage's
    /// cursors and goes by `reserve_step`; a claim raises `take` by one and
    /// wins the slot that `claim_outcome` tells. A worker that lost the
    /// claim reads `take` again and goes by `retry_outcome`. Nothing but
    /// larger values is ever written to `take`, so that cursor reads
    /// larger; were it not to, the worker would give up with `Busy`.
    pub fn reserve_in_layer(&self, tag: Tag) -> (state: ReserveState<'_, Tag, Inner>)
        ensures
            state matches ReserveState::Success(entry) ==> {
                &&& entry.slot() < self.capacity()
                &&& entry.holder() == tag
                &&& entry.found() is None
                &&& entry.left() is None
                &&& entry.home() == *self
            },
    {
        proof {
            use_type_invariant(self);
        }
        let (current, chasing) = self.get_current_chasing(tag);
        let offset: usize = if tag.index() == 0 {
            1
        } else {
            0
        };
        let block_size = self.block_size;
        let mut current_take = current.load_take();
        loop
            invariant
                self.wf(),
                offset <= 1,
                block_size == self.capacity(),
                block_size >= 1,
                *current == self.pair_of(tag.stage()),
                current.capacity() == block_size,
                chasing.capacity() == block_size,
                current_take.capacity() == block_size,
            decreases usize::MAX - current_take.raw(),
        {
            if used_up(current_take, block_size) {
                return ReserveState::BlockDone;
            }
            let chasing_give = chasing.load_give();
            let chasing_take = if needs_chasing_take(current_take, chasing_give, offset, block_size) {
                chasing.load_take()
            } else {
                chasing_give
            };
            match reserve_outcome(current_take, chasing_give, chasing_take, offset, block_size) {
                ReserveStep::BlockDone => {
                    return ReserveState::BlockDone;
                },
                ReserveStep::NotAvailable => {
                    return ReserveState::NotAvailable;
                },
                ReserveStep::Busy => {
                    return ReserveState::Busy;
                },
                ReserveStep::Claim => {
                    let old = current.fetch_max_take(current_take.overflowing_add(1));
                    match claim_outcome(current_take, old) {
                        Some(slot) => {
                            return ReserveState::Success(
                                EntryDescriptor::new(self, current, slot, tag),
                            );
                        },
                        None => {},
                    }
                    match retry_outcome(current_take, current.load_take()) {
                        Some(seen) => {
                            current_take = seen;
                        },
                        None => {
                            return ReserveState::Busy;
                        },
                    }
                },
            }
        }
    }

    /// Reads the `give` and the `take` cursor of every stage, in the order
    /// of the stages.
    fn read_cursors(&self) -> (cursors: Vec<(Field, Field)>)
        ensures
            cursors.len() == Tag::stages(),
    {
        proof {
            use_type_invariant(self);
        }
        let mut cursors: Vec<(Field, Field)> = Vec::new();
        let mut stage: usize = 0;
        while stage < self.atomics.len()
            invariant
                self.wf(),
                stage <= self.atomics.len(),
                cursors.len() == stage,
            decreases self.atomics.len() - stage,
        {
            let pair = &self.atomics[stage];
            let give = pair.load_give();
            let take = pair.load_take();
            cursors.push((give, take));
            stage = stage + 1;
        }
        cursors
    }

    /// Gives up every payload that the block still holds, each as the
    /// payload of the stage that wrote it, and returns the slots in the
    /// order in which they were given up, with the marks they were given up
    /// under. Nothing is given up, and nothing returned, where a stage
    /// still has work under way in the block.
    ///
    /// What is given up is `teardown_plan` of the stages' cursors as they
    /// are read when the block is taken down.
    pub fn drop_in(&mut self) -> (done: Option<Vec<SlotDrop>>)
        ensures
            *final(self) == *old(self),
            done matches Some(plan) ==> is_drop_plan(plan@, Tag::stages(), old(self).capacity()),
    {
        self.give_up()
    }

    /// Does the work of `drop_in`.
    pub(crate) fn give_up(&self) -> (done: Option<Vec<SlotDrop>>)
        ensures
            done matches Some(plan) ==> is_drop_plan(plan@, Tag::stages(), self.capacity()),
    {
        proof {
            use_type_invariant(self);
        }
        let cursors = self.read_cursors();
        match plan_teardown(&cursors, self.block_size) {
            None => None,
            Some(plan) => {
                proof {
                    let gives = gives_at_rest(cursors@, self.block_size);
                    lemma_waiting_count(gives, gives.len() as int, self.block_size);
                    lemma_idle_marks(gives, self.block_size);
                    assert(plan@ == drop_plan(gives, self.block_size));
                }
                let mut k: usize = 0;
                while k < plan.len()
                    invariant
                        self.wf(),
                        k <= plan.len(),
                        forall|j: int| 0 <= j < plan.len() ==> (#[trigger] plan[j]).slot < self.capacity(),
                    decreases plan.len() - k,
                {
                    let entry = plan[k];
                    let mut value = self.take_slot(entry.slot);
                    value.indexed_drop(entry.tag);
                    self.put_slot(entry.slot, value);
                    k = k + 1;
                }
                Some(plan)
            },
        }
    }
}

} // verus!
