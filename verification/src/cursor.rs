//! A cursor whose capacity is fixed by its type.
//!
//! `Cursor<BLOCK_SIZE>` packs a version and an offset into one word. The
//! offset has as many low bits as `BLOCK_SIZE + 1` is wide, so that one
//! past the last slot can be told from the first slot of the next round.

use vstd::prelude::*;
use std::cmp::Ordering;
use crate::bits::{
    high_part, join, joined, lemma_joined_parts, low_part, room_above, split_high, split_low,
};
use crate::util::{bit_width, greater_than_log_2};

verus! {

/// The two parts of a cursor, unpacked.
pub struct CursorConfig {
    pub version: usize,
    pub offset: usize,
}

impl Default for CursorConfig {
    fn default() -> (config: Self)
        ensures
            config.version == 0,
            config.offset == 0,
    {
        Self { version: 0, offset: 0 }
    }
}

/// A packed `(version, offset)` pair over blocks of `BLOCK_SIZE` slots.
#[derive(Clone, Copy, Debug)]
pub struct Cursor<const BLOCK_SIZE: usize>(usize);

/// What a cursor stands for.
pub struct CursorView {
    pub version: nat,
    pub offset: nat,
}

/// Number of low bits that hold the offset for blocks of `block_size`
/// slots.
pub open spec fn offset_bits(block_size: usize) -> nat {
    bit_width(block_size as nat + 1)
}

impl<const BLOCK_SIZE: usize> View for Cursor<BLOCK_SIZE> {
    type V = CursorView;

    open spec fn view(&self) -> CursorView {
        CursorView {
            version: high_part(self.raw(), offset_bits(BLOCK_SIZE)),
            offset: low_part(self.raw(), offset_bits(BLOCK_SIZE)),
        }
    }
}

impl<const BLOCK_SIZE: usize> Cursor<BLOCK_SIZE> {
    /// The packed word.
    pub closed spec fn raw(self) -> usize {
        self.0
    }

    /// The cursor with the packed word `raw`.
    pub closed spec fn of_raw(raw: usize) -> Self {
        Cursor(raw)
    }

    /// The cursor that packs `version` and `offset`.
    pub closed spec fn of_parts(version: usize, offset: usize) -> Self {
        Cursor(joined(version, offset, offset_bits(BLOCK_SIZE)) as usize)
    }

    /// Taking a cursor's word and making a cursor of it gives the cursor
    /// back, and the other way round.
    pub proof fn lemma_raw_round_trip(self, raw: usize)
        ensures
            Self::of_raw(self.raw()) == self,
            Self::of_raw(raw).raw() == raw,
    {
    }

    /// The cursor at version zero, offset zero.
    pub fn new() -> (c: Self)
        ensures
            c.raw() == 0,
    {
        Self(0)
    }

    /// Packs `version` and `offset`. A part that is too large for its room
    /// loses its high bits.
    pub fn from_parts(version: usize, offset: usize) -> (c: Self)
        ensures
            c == Self::of_parts(version, offset),
            c.raw() == joined(version, offset, offset_bits(BLOCK_SIZE)),
            c@.version == version as nat % vstd::arithmetic::power2::pow2(
                room_above(offset_bits(BLOCK_SIZE)),
            ),
            c@.offset == low_part(offset, offset_bits(BLOCK_SIZE)),
    {
        proof {
            lemma_joined_parts(version, offset, offset_bits(BLOCK_SIZE));
        }
        Self(join(version, offset, Self::version_shift()))
    }

    /// Number of low bits that hold the offset.
    fn version_shift() -> (s: u32)
        ensures
            s == offset_bits(BLOCK_SIZE),
    {
        greater_than_log_2(BLOCK_SIZE)
    }

    /// The packed word.
    pub fn get_raw_inner(&self) -> (r: usize)
        ensures
            r == self.raw(),
    {
        self.0
    }

    pub fn get_version(&self) -> (v: usize)
        ensures
            v == self@.version,
    {
        split_high(self.0, Self::version_shift())
    }

    /// Replaces the version and keeps the offset.
    pub fn set_version(&mut self, version: usize)
        ensures
            final(self).raw() == joined(version, old(self)@.offset as usize, offset_bits(BLOCK_SIZE)),
            final(self)@.offset == old(self)@.offset,
            final(self)@.version == version as nat % vstd::arithmetic::power2::pow2(
                room_above(offset_bits(BLOCK_SIZE)),
            ),
    {
        let offset = self.get_offset();
        proof {
            lemma_joined_parts(version, offset, offset_bits(BLOCK_SIZE));
            vstd::arithmetic::power2::lemma_pow2_pos(offset_bits(BLOCK_SIZE));
            vstd::arithmetic::div_mod::lemma_mod_twice(
                self.0 as int,
                vstd::arithmetic::power2::pow2(offset_bits(BLOCK_SIZE)) as int,
            );
        }
        self.0 = join(version, offset, Self::version_shift());
    }

    pub fn get_offset(&self) -> (o: usize)
        ensures
            o == self@.offset,
    {
        split_low(self.0, Self::version_shift())
    }

    /// Replaces the offset, cut to its room, and keeps the version.
    pub fn set_offset(&mut self, offset: usize)
        ensures
            final(self).raw() == joined(old(self)@.version as usize, offset, offset_bits(BLOCK_SIZE)),
            final(self)@.version == old(self)@.version,
            final(self)@.offset == low_part(offset, offset_bits(BLOCK_SIZE)),
    {
        let version = self.get_version();
        proof {
            lemma_joined_parts(version, offset, offset_bits(BLOCK_SIZE));
            crate::bits::lemma_high_part_fits(self.0, offset_bits(BLOCK_SIZE));
        }
        self.0 = join(version, offset, Self::version_shift());
    }

    /// The cursor `rhs` words further on, wrapping at the word size.
    pub fn add(self, rhs: usize) -> (c: Self)
        ensures
            c.raw() == self.raw().wrapping_add(rhs),
    {
        Self(self.0.wrapping_add(rhs))
    }
}

impl<const BLOCK_SIZE: usize> Default for Cursor<BLOCK_SIZE> {
    fn default() -> (c: Self)
        ensures
            c.raw() == 0,
    {
        Self::new()
    }
}

impl<const BLOCK_SIZE: usize> From<CursorConfig> for Cursor<BLOCK_SIZE> {
    fn from(value: CursorConfig) -> (c: Self) {
        Self::from_parts(value.version, value.offset)
    }
}

impl<const BLOCK_SIZE: usize> vstd::std_specs::convert::FromSpecImpl<CursorConfig> for Cursor<BLOCK_SIZE> {
    open spec fn obeys_from_spec() -> bool {
        true
    }

    open spec fn from_spec(value: CursorConfig) -> Self {
        Self::of_parts(value.version, value.offset)
    }
}

impl<const BLOCK_SIZE: usize> From<usize> for Cursor<BLOCK_SIZE> {
    fn from(raw: usize) -> (c: Self) {
        Self(raw)
    }
}

impl<const BLOCK_SIZE: usize> vstd::std_specs::convert::FromSpecImpl<usize> for Cursor<BLOCK_SIZE> {
    open spec fn obeys_from_spec() -> bool {
        true
    }

    open spec fn from_spec(raw: usize) -> Self {
        Self::of_raw(raw)
    }
}

impl<const BLOCK_SIZE: usize> From<Cursor<BLOCK_SIZE>> for usize {
    /// The cursor's packed word.
    fn from(cursor: Cursor<BLOCK_SIZE>) -> (raw: usize) {
        cursor.0
    }
}

impl<const BLOCK_SIZE: usize> vstd::std_specs::convert::FromSpecImpl<Cursor<BLOCK_SIZE>> for usize {
    open spec fn obeys_from_spec() -> bool {
        true
    }

    open spec fn from_spec(cursor: Cursor<BLOCK_SIZE>) -> usize {
        cursor.raw()
    }
}

impl<const BLOCK_SIZE: usize> PartialEq for Cursor<BLOCK_SIZE> {
    fn eq(&self, other: &Self) -> (r: bool) {
        self.0 == other.0
    }
}

impl<const BLOCK_SIZE: usize> vstd::std_specs::cmp::PartialEqSpecImpl for Cursor<BLOCK_SIZE> {
    open spec fn obeys_eq_spec() -> bool {
        true
    }

    open spec fn eq_spec(&self, other: &Self) -> bool {
        self.raw() == other.raw()
    }
}

impl<const BLOCK_SIZE: usize> PartialOrd for Cursor<BLOCK_SIZE> {
    /// Cursors are ordered as their packed words are.
    fn partial_cmp(&self, other: &Self) -> (r: Option<Ordering>) {
        if self.0 < other.0 {
            Some(Ordering::Less)
        } else if self.0 > other.0 {
            Some(Ordering::Greater)
        } else {
            Some(Ordering::Equal)
        }
    }
}

impl<const BLOCK_SIZE: usize> vstd::std_specs::cmp::PartialOrdSpecImpl for Cursor<BLOCK_SIZE> {
    open spec fn obeys_partial_cmp_spec() -> bool {
        true
    }

    open spec fn partial_cmp_spec(&self, other: &Self) -> Option<Ordering> {
        if self.raw() < other.raw() {
            Some(Ordering::Less)
        } else if self.raw() > other.raw() {
            Some(Ordering::Greater)
        } else {
            Some(Ordering::Equal)
        }
    }
}

} // verus!
