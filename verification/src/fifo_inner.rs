//! The pipeline core: the ring of blocks, the head of every stage, and the
//! rules by which a stage reserves a slot and moves its head from block to
//! block.

use vstd::prelude::*;
use crate::block::{retry_outcome, Block, ReserveState};
use crate::config::{FifoTag, IndexedDrop};
use crate::entry_descriptor::EntryDescriptor;
use crate::error::Error;
use vstd::arithmetic::power2::pow2;
use crate::field::{
    lemma_packed_view, lemma_ring_step_fits, ring_index, ring_step, ring_version, version_bits,
    Field, FieldView,
};
use crate::head::{Atomic, Head};
use crate::teardown::{is_drop_plan, SlotDrop};

verus! {

/// Whether a stage may move its head on to the next block.
#[derive(Clone, Copy, Debug, PartialEq, Eq, Structural)]
pub enum AdvanceHeadStatus {
    /// The chased stage is at work in the next block.
    Busy,
    /// The head may move.
    Success,
}

/// Whether a head may move on to a block in which the chased stage's
/// cursors read `cg` (give) and `ct` (take): it may where the chased stage
/// has used the block up, and where it is not at work in it.
pub open spec fn advance_step(cg: FieldView, ct: FieldView, block_size: nat) -> AdvanceHeadStatus {
    if cg.index == block_size {
        AdvanceHeadStatus::Success
    } else if ct.index > cg.index {
        AdvanceHeadStatus::Busy
    } else {
        AdvanceHeadStatus::Success
    }
}

/// The version that a stage's cursors take in the block its head moves on
/// to: the head's lap, and one more where the stage has been in the block
/// before, which shows in a `give` index that is not zero.
pub open spec fn lap_version(head: FieldView, prev_give: FieldView) -> nat {
    if prev_give.index != 0 {
        head.version + 1
    } else {
        head.version
    }
}

/// The cursor at which a stage starts its lap in a block of `block_size`
/// slots that its head moves on to: index zero in the lap's version.
pub open spec fn lap_field(head: FieldView, prev_give: FieldView, block_size: usize) -> Field {
    Field::packed(block_size, lap_version(head, prev_give) as usize, 0)
}

/// Tells whether a head move has to read the chased stage's `take` cursor
/// in the next block: it has to unless the chased stage has used the block
/// up, where the head may move whatever that cursor reads.
pub fn advance_needs_take(cg: Field, block_size: usize) -> (b: bool)
    ensures
        b == (cg@.index != block_size),
        !b ==> forall|ct: FieldView| #[trigger]
            advance_step(cg@, ct, block_size as nat) == AdvanceHeadStatus::Success,
{
    cg.get_index() != block_size
}

/// Tells whether a head may move on, from the chased stage's cursors in the
/// next block.
pub fn advance_outcome(cg: Field, ct: Field, block_size: usize) -> (status: AdvanceHeadStatus)
    ensures
        status == advance_step(cg@, ct@, block_size as nat),
{
    if cg.get_index() == block_size {
        AdvanceHeadStatus::Success
    } else if ct.get_index() > cg.get_index() {
        AdvanceHeadStatus::Busy
    } else {
        AdvanceHeadStatus::Success
    }
}

/// The cursor at which a stage starts its lap in the block that its head
/// moves on to.
pub fn lap_start(head: Field, prev_give: Field, block_size: usize) -> (start: Field)
    requires
        head@.version < usize::MAX,
    ensures
        start == lap_field(head@, prev_give@, block_size),
        start.capacity() == block_size,
        start@.index == 0,
        start@.version == lap_version(head@, prev_give@) % vstd::arithmetic::power2::pow2(
            crate::field::version_bits(block_size),
        ),
{
    proof {
        vstd::arithmetic::power2::lemma_pow2_pos(crate::field::index_bits(block_size));
        vstd::arithmetic::div_mod::lemma_small_mod(
            0,
            vstd::arithmetic::power2::pow2(crate::field::index_bits(block_size)),
        );
    }
    let version = if prev_give.get_index() != 0 {
        head.get_version() + 1
    } else {
        head.get_version()
    };
    Field::from_parts(block_size, version, 0)
}

/// What a head move writes is what the ring's head move writes, as far as
/// the version bits reach: the cursors of the next block are raised to
/// index zero in the version of the stage's lap there, and the head to the
/// next block of the ring, in the next lap where it comes round.
pub proof fn lemma_head_move_writes(head: Field, prev_give: FieldView, block_size: usize)
    requires
        1 <= head@.index_max <= usize::MAX / 2,
        ring_version(head@, 1) < pow2(version_bits(head.capacity())),
        lap_version(head@, prev_give) < pow2(version_bits(block_size)),
    ensures
        ring_step(head)@ == crate::ring::stepped(head@, head@.index_max),
        lap_field(head@, prev_give, block_size)@ == (FieldView {
            index_max: block_size as nat,
            version: lap_version(head@, prev_give),
            index: 0,
        }),
{
    lemma_ring_step_fits(head);
    vstd::arithmetic::div_mod::lemma_mod_bound(
        (head@.index + 1) as int,
        head@.index_max as int,
    );
    vstd::layout::unsigned_int_max_values();
    lemma_packed_view(
        head.capacity(),
        ring_version(head@, 1) as usize,
        ring_index(head@, 1) as usize,
    );
    lemma_packed_view(block_size, lap_version(head@, prev_give) as usize, 0);
}

/// The ring of blocks and the heads of all stages.
#[verifier::reject_recursive_types(Inner)]
pub struct FastFifoInner<Tag: FifoTag, Inner: IndexedDrop<Tag> + Default> {
    heads: Vec<Head<Tag>>,
    blocks: Vec<Block<Tag, Inner>>,
    num_blocks: usize,
    block_size: usize,
}

impl<Tag: FifoTag, Inner: IndexedDrop<Tag> + Default> FastFifoInner<Tag, Inner> {
    /// The ring has at least two blocks, all of one size; every stage has a
    /// head over the ring, shared among workers exactly where the stage
    /// takes several.
    #[verifier::type_invariant]
    pub closed spec fn wf(&self) -> bool {
        &&& Tag::stages() >= 2
        &&& 2 <= self.num_blocks <= usize::MAX / 2
        &&& self.block_size >= 1
        &&& self.blocks.len() == self.num_blocks
        &&& self.heads.len() == Tag::stages()
        &&& forall|b: int|
            0 <= b < self.blocks.len() ==> (#[trigger] self.blocks[b]).wf() && self.blocks[b].capacity()
                == self.block_size
        &&& forall|s: int|
            0 <= s < self.heads.len() ==> (#[trigger] self.heads[s]).ring() == self.num_blocks
                && self.heads[s].owner().stage() == s && (self.heads[s] is Shared)
                == self.heads[s].owner().atomic()
    }

    /// The stage whose head stands at place `stage` among the heads.
    pub closed spec fn head_owner(&self, stage: int) -> Tag {
        self.heads[stage].owner()
    }

    /// Whether the head at place `stage` is one that several workers may
    /// raise at once.
    pub closed spec fn head_shared(&self, stage: int) -> bool {
        self.heads[stage] is Shared
    }

    /// Every stage has its own head, and the head is shared exactly where
    /// the stage takes several workers.
    pub open spec fn heads_fit(&self) -> bool {
        forall|s: int|
            0 <= s < Tag::stages() ==> (#[trigger] self.head_owner(s)).stage() == s
                && self.head_shared(s) == self.head_owner(s).atomic()
    }

    /// The value that the head at place `stage` was made with.
    pub closed spec fn head_start(&self, stage: int) -> Field {
        self.heads[stage].started_at()
    }

    /// Whether the pipeline was made with every cursor of every block, and
    /// every head, at the start of lap zero.
    pub open spec fn made_fresh(&self) -> bool {
        &&& forall|b: int| 0 <= b < self.ring() ==> (#[trigger] self.block_at(b)).made_fresh()
        &&& forall|s: int|
            0 <= s < Tag::stages() ==> #[trigger] self.head_start(s) == Field::packed(
                self.ring(),
                0,
                0,
            )
    }

    /// The pipeline as it was made: every block as it was made, every head
    /// with the value it was made with, and no head on the move.
    pub open spec fn start_model(&self) -> crate::ring::RingModel {
        crate::ring::RingModel {
            block_size: self.slab() as nat,
            blocks: Seq::new(self.ring() as nat, |b: int| self.block_at(b).start_model()),
            heads: Seq::new(Tag::stages(), |s: int| self.head_start(s)@),
            moving: Seq::new(Tag::stages(), |s: int| crate::ring::Phase::Rest),
        }
    }

    /// A pipeline that was made fresh starts as the fresh ring of its
    /// shape, which is a sound state of the ring.
    pub proof fn lemma_starts_fresh(&self)
        requires
            self.wf(),
            self.made_fresh(),
        ensures
            self.start_model() == crate::ring::fresh_ring(
                self.ring() as nat,
                self.slab() as nat,
                Tag::stages(),
            ),
            crate::ring::ring_sound(self.start_model()),
    {
        let made = self.start_model();
        let fresh = crate::ring::fresh_ring(self.ring() as nat, self.slab() as nat, Tag::stages());
        crate::field::lemma_lap_zero(self.ring(), 0);
        assert forall|b: int| 0 <= b < self.ring() implies made.blocks[b] == fresh.blocks[b] by {
            self.block_at(b).lemma_starts_fresh();
        }
        assert(made.blocks =~= fresh.blocks);
        assert forall|s: int| 0 <= s < Tag::stages() implies made.heads[s] == fresh.heads[s] by {
            assert(self.head_start(s) == Field::packed(self.ring(), 0, 0));
        }
        assert(made.heads =~= fresh.heads);
        assert(made.moving =~= fresh.moving);
        crate::ring::lemma_fresh_ring_is_sound(
            self.ring() as nat,
            self.slab() as nat,
            Tag::stages(),
        );
    }

    /// The heads of a pipeline fit its stages.
    pub proof fn lemma_heads_fit(&self)
        requires
            self.wf(),
        ensures
            self.heads_fit(),
    {
    }

    /// The number of blocks in the ring.
    pub closed spec fn ring(&self) -> usize {
        self.num_blocks
    }

    /// The number of slots in each block.
    pub closed spec fn slab(&self) -> usize {
        self.block_size
    }

    /// The block at position `index` of the ring.
    pub closed spec fn block_at(&self, index: int) -> Block<Tag, Inner> {
        self.blocks[index]
    }

    /// The block that a stage works on while its head reads `head`: the
    /// one at the head's index, taken around the ring.
    pub open spec fn block_under(&self, head: Field) -> Block<Tag, Inner> {
        self.block_at((head@.index % self.ring() as nat) as int)
    }

    /// Whether a pipeline of this shape can be built.
    pub open spec fn valid_shape(num_blocks: usize, block_size: usize) -> bool {
        &&& Tag::stages() >= 2
        &&& 2 <= num_blocks <= usize::MAX / 2
        &&& block_size >= 1
    }

    /// A pipeline of `num_blocks` blocks of `block_size` slots each, with
    /// every cursor and every head at the start of lap zero.
    pub fn new_in(num_blocks: usize, block_size: usize) -> (fifo: Self)
        requires
            Self::valid_shape(num_blocks, block_size),
        ensures
            fifo.wf(),
            fifo.ring() == num_blocks,
            fifo.slab() == block_size,
            fifo.heads_fit(),
            fifo.made_fresh(),
    {
        let stages = Tag::num_transformations();
        let mut heads: Vec<Head<Tag>> = Vec::new();
        let mut s: usize = 0;
        while s < stages
            invariant
                stages == Tag::stages(),
                s <= stages,
                heads.len() == s,
                forall|j: int|
                    0 <= j < s ==> (#[trigger] heads[j]).ring() == num_blocks && heads[j].owner().stage()
                        == j && (heads[j] is Shared) == heads[j].owner().atomic()
                        && heads[j].started_at() == Field::packed(num_blocks, 0, 0),
            decreases stages - s,
        {
            match Tag::from_index(s) {
                Some(tag) => {
                    heads.push(Head::for_stage(num_blocks, tag));
                },
                None => {
                    assert(false);
                },
            }
            s = s + 1;
        }
        let mut blocks: Vec<Block<Tag, Inner>> = Vec::new();
        let mut b: usize = 0;
        while b < num_blocks
            invariant
                Tag::stages() >= 2,
                block_size >= 1,
                b <= num_blocks,
                blocks.len() == b,
                forall|j: int|
                    0 <= j < b ==> (#[trigger] blocks[j]).wf() && blocks[j].capacity() == block_size
                        && blocks[j].made_fresh(),
            decreases num_blocks - b,
        {
            blocks.push(Block::new_in(block_size));
            b = b + 1;
        }
        Self { heads, blocks, num_blocks, block_size }
    }

    /// A pipeline of the given shape, or nothing where the shape is not
    /// valid: fewer than two stages or two blocks, no slot in a block, or
    /// more blocks than half the word's range.
    pub fn checked_new(num_blocks: usize, block_size: usize) -> (fifo: Option<Self>)
        ensures
            fifo.is_some() == Self::valid_shape(num_blocks, block_size),
            fifo matches Some(f) ==> f.wf() && f.ring() == num_blocks && f.slab() == block_size
                && f.heads_fit() && f.made_fresh(),
    {
        if Tag::num_transformations() >= 2 && num_blocks >= 2 && num_blocks <= usize::MAX / 2
            && block_size >= 1 {
            Some(Self::new_in(num_blocks, block_size))
        } else {
            None
        }
    }

    pub fn get_num_blocks(&self) -> (n: usize)
        ensures
            n == self.ring(),
    {
        self.num_blocks
    }

    pub fn get_block_size(&self) -> (n: usize)
        ensures
            n == self.slab(),
    {
        self.block_size
    }

    /// The head of stage `tag`.
    fn get_head(&self, tag: Tag) -> (head: &Head<Tag>)
        ensures
            head.ring() == self.ring(),
    {
        proof {
            use_type_invariant(self);
        }
        &self.heads[tag.index()]
    }

    /// The head of stage `tag` as it stands, and the block it names. A head
    /// names the block at its index; an index beyond the ring is taken
    /// around it.
    fn get_block(&self, tag: Tag) -> (at: (Field, &Block<Tag, Inner>))
        ensures
            at.0.capacity() == self.ring(),
            *at.1 == self.block_under(at.0),
            at.1.wf(),
            at.1.capacity() == self.slab(),
    {
        proof {
            use_type_invariant(self);
        }
        let head = self.get_head(tag).load().get_field();
        (head, &self.blocks[head.get_index() % self.num_blocks])
    }

    /// Moves the head of stage `tag` on from `head` to the next block of the
    /// ring, unless the chased stage is at work there.
    ///
    /// Whether the head may move is `advance_step` of the chased stage's
    /// cursors in the next block. Where it may, the stage's own cursors in
    /// that block are raised to the start of the stage's lap there, and the
    /// head is raised to one step beyond `head`. Returns the two values
    /// that the cursors and the head were raised to, in that order, and
    /// nothing where the head may not move.
    fn advance_head(&self, head: Field, tag: Tag) -> (moved: Option<(Field, Field)>)
        requires
            head.capacity() == self.ring(),
        ensures
            moved matches Some(raised) ==> {
                &&& raised.0.capacity() == self.slab()
                &&& raised.0@.index == 0
                &&& exists|prev_give: FieldView|
                    raised.0 == #[trigger] lap_field(head@, prev_give, self.slab())
                &&& raised.1 == ring_step(head)
            },
    {
        proof {
            use_type_invariant(self);
            lemma_ring_step_fits(head);
        }
        let next = &self.blocks[(head.get_index() % self.num_blocks + 1) % self.num_blocks];
        let (next_current, next_chasing) = next.get_current_chasing(tag);
        let chasing_give = next_chasing.load_give();
        let chasing_take = if advance_needs_take(chasing_give, self.block_size) {
            next_chasing.load_take()
        } else {
            chasing_give
        };
        match advance_outcome(chasing_give, chasing_take, self.block_size) {
            AdvanceHeadStatus::Busy => None,
            AdvanceHeadStatus::Success => {
                let prev_give = next_current.load_give();
                let start = lap_start(head, prev_give, self.block_size);
                let step = head.version_inc_add(1);
                assert(start == lap_field(head@, prev_give@, self.slab()));
                next_current.fetch_max_both(start);
                self.get_head(tag).max(step);
                Some((start, step))
            },
        }
    }

    /// Reserves the next slot for stage `tag`, or says why there is none.
    ///
    /// The stage asks the block under its head. Where the block is used up
    /// the head moves on and the stage asks the next block; every other
    /// answer is handed to the caller, who tries again later. After a head
    /// move the stage reads its head again and goes by `retry_outcome`: a
    /// head that has moved on reads larger than before; were it not to, the
    /// stage would give up with `Busy`.
    pub fn get_entry(&self, tag: Tag) -> (entry: Result<EntryDescriptor<'_, Tag, Inner>, Error>)
        ensures
            entry matches Ok(e) ==> {
                &&& e.holder() == tag
                &&& e.found() is None
                &&& e.left() is None
                &&& e.slot() < self.slab()
                &&& exists|b: int| 0 <= b < self.ring() && e.home() == self.block_at(b)
            },
            entry matches Err(e) ==> e == Error::Busy || e == Error::NotAvailable,
    {
        proof {
            use_type_invariant(self);
        }
        let (mut head, mut block) = self.get_block(tag);
        loop
            invariant
                self.wf(),
                head.capacity() == self.ring(),
                *block == self.block_under(head),
                block.wf(),
                block.capacity() == self.slab(),
            decreases usize::MAX - head.raw(),
        {
            match block.reserve_in_layer(tag) {
                ReserveState::Success(entry_descriptor) => {
                    return Ok(entry_descriptor);
                },
                ReserveState::NotAvailable => {
                    return Err(Error::NotAvailable);
                },
                ReserveState::Busy => {
                    return Err(Error::Busy);
                },
                ReserveState::BlockDone => match self.advance_head(head, tag) {
                    None => {
                        return Err(Error::Busy);
                    },
                    Some(_) => {
                        let (moved, next) = self.get_block(tag);
                        match retry_outcome(head, moved) {
                            None => {
                                return Err(Error::Busy);
                            },
                            Some(seen) => {
                                head = seen;
                                block = next;
                            },
                        }
                    },
                },
            }
        }
    }

    /// Takes the pipeline down: gives up every payload still held, block by
    /// block, and returns for each block the slots given up, as
    /// `Block::drop_in` does. Where a block still has work under way the
    /// blocks from that one on are left as they are, and nothing is
    /// returned.
    pub fn drop_in(&mut self) -> (done: Option<Vec<Vec<SlotDrop>>>)
        ensures
            *final(self) == *old(self),
            done matches Some(plans) ==> {
                &&& plans.len() == old(self).ring()
                &&& forall|b: int|
                    0 <= b < plans.len() ==> is_drop_plan(
                        (#[trigger] plans[b])@,
                        Tag::stages(),
                        old(self).slab(),
                    )
            },
    {
        proof {
            use_type_invariant(&*self);
        }
        let mut plans: Vec<Vec<SlotDrop>> = Vec::new();
        let mut b: usize = 0;
        while b < self.num_blocks
            invariant
                self.wf(),
                *self == *old(self),
                b <= self.num_blocks,
                plans.len() == b,
                forall|j: int|
                    0 <= j < plans.len() ==> is_drop_plan(
                        (#[trigger] plans[j])@,
                        Tag::stages(),
                        self.slab(),
                    ),
            decreases self.num_blocks - b,
        {
            let block = &self.blocks[b];
            match block.give_up() {
                None => {
                    return None;
                },
                Some(plan) => {
                    plans.push(plan);
                },
            }
            b = b + 1;
        }
        Some(plans)
    }
}

} // verus!
