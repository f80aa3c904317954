//! A cursor field whose capacity is fixed by its type.

use vstd::prelude::*;
use vstd::arithmetic::power2::pow2;
use std::cmp::Ordering;
use crate::bits::{
    high_part, join, joined, lemma_high_part_fits, lemma_joined_parts, low_part, room_above,
    split_high, split_low,
};
use crate::util::{bit_width, ceiling_log_2};

verus! {

/// The two parts of a field, unpacked.
pub struct FieldConfig {
    pub version: usize,
    pub index: usize,
}

impl Default for FieldConfig {
    /// Version zero, index zero.
    fn default() -> (config: Self)
        ensures
            config.version == 0,
            config.index == 0,
    {
        Self { version: 0, index: 0 }
    }
}

/// A packed `(version, index)` pair over a capacity of `INDEX_MAX`.
#[derive(Clone, Copy, Debug)]
pub struct Field<const INDEX_MAX: usize>(usize);

/// What a field stands for.
pub struct FieldParts {
    pub version: nat,
    pub index: nat,
}

/// Number of low bits that hold the index for a capacity of `index_max`.
pub open spec fn index_width(index_max: usize) -> nat {
    bit_width(index_max as nat)
}

impl<const INDEX_MAX: usize> View for Field<INDEX_MAX> {
    type V = FieldParts;

    open spec fn view(&self) -> FieldParts {
        FieldParts {
            version: high_part(self.raw(), index_width(INDEX_MAX)),
            index: low_part(self.raw(), index_width(INDEX_MAX)),
        }
    }
}

impl<const INDEX_MAX: usize> Field<INDEX_MAX> {
    /// The packed word.
    pub closed spec fn raw(self) -> usize {
        self.0
    }

    /// The field with the packed word `raw`.
    pub closed spec fn of_raw(raw: usize) -> Self {
        Field(raw)
    }

    /// The field that packs `version` and `index`.
    pub closed spec fn of_parts(version: usize, index: usize) -> Self {
        Field(joined(version, index, index_width(INDEX_MAX)) as usize)
    }

    /// Taking a field's word and making a field of it gives the field back,
    /// and the other way round.
    pub proof fn lemma_raw_round_trip(self, raw: usize)
        ensures
            Self::of_raw(self.raw()) == self,
            Self::of_raw(raw).raw() == raw,
    {
    }

    /// Version zero, index zero.
    pub fn new() -> (f: Self)
        ensures
            f.raw() == 0,
    {
        Self(0)
    }

    /// Version zero, index one past the last slot.
    pub fn full() -> (f: Self)
        ensures
            f.raw() == INDEX_MAX,
    {
        Self(INDEX_MAX)
    }

    /// Version zero, index of the last slot.
    pub fn full_minus_one() -> (f: Self)
        requires
            INDEX_MAX >= 1,
        ensures
            f.raw() == INDEX_MAX - 1,
    {
        Self(INDEX_MAX - 1)
    }

    /// Packs `version` and `index`. A part that is too large for its room
    /// loses its high bits.
    pub fn from_parts(version: usize, index: usize) -> (f: Self)
        ensures
            f == Self::of_parts(version, index),
            f.raw() == joined(version, index, index_width(INDEX_MAX)),
            f@.version == version as nat % pow2(room_above(index_width(INDEX_MAX))),
            f@.index == low_part(index, index_width(INDEX_MAX)),
    {
        proof {
            lemma_joined_parts(version, index, index_width(INDEX_MAX));
        }
        Self(join(version, index, Self::version_shift()))
    }

    /// Number of low bits that hold the index.
    fn version_shift() -> (s: u32)
        ensures
            s == index_width(INDEX_MAX),
    {
        ceiling_log_2(INDEX_MAX)
    }

    /// The packed word.
    pub fn get_raw_inner(&self) -> (r: usize)
        ensures
            r == self.raw(),
    {
        self.0
    }

    pub fn get_version(&self) -> (v: usize)
        ensures
            v == self@.version,
    {
        split_high(self.0, Self::version_shift())
    }

    /// Replaces the version and keeps the index.
    pub fn set_version(&mut self, version: usize)
        ensures
            final(self).raw() == joined(version, old(self)@.index as usize, index_width(INDEX_MAX)),
            final(self)@.index == old(self)@.index,
            final(self)@.version == version as nat % pow2(room_above(index_width(INDEX_MAX))),
    {
        let index = self.get_index();
        proof {
            lemma_joined_parts(version, index, index_width(INDEX_MAX));
            vstd::arithmetic::power2::lemma_pow2_pos(index_width(INDEX_MAX));
            vstd::arithmetic::div_mod::lemma_mod_twice(
                self.0 as int,
                pow2(index_width(INDEX_MAX)) as int,
            );
        }
        self.0 = join(version, index, Self::version_shift());
    }

    pub fn get_index(&self) -> (i: usize)
        ensures
            i == self@.index,
    {
        split_low(self.0, Self::version_shift())
    }

    /// Replaces the index, cut to its room, and keeps the version.
    pub fn set_index(&mut self, index: usize)
        ensures
            final(self).raw() == joined(old(self)@.version as usize, index, index_width(INDEX_MAX)),
            final(self)@.version == old(self)@.version,
            final(self)@.index == low_part(index, index_width(INDEX_MAX)),
    {
        let version = self.get_version();
        proof {
            lemma_joined_parts(version, index, index_width(INDEX_MAX));
            lemma_high_part_fits(self.0, index_width(INDEX_MAX));
        }
        self.0 = join(version, index, Self::version_shift());
    }

    /// Adds `rhs` to the packed word, wrapping at the word size.
    pub fn overflowing_add(self, rhs: usize) -> (f: Self)
        ensures
            f.raw() == self.raw().wrapping_add(rhs),
    {
        Self(self.0.wrapping_add(rhs))
    }

    /// Moves the index forward by `rhs` around a ring of `INDEX_MAX`
    /// positions, counting each completed round in the version.
    pub fn version_inc_add(self, rhs: usize) -> (f: Self)
        requires
            INDEX_MAX > 0,
            self@.index + rhs <= usize::MAX,
            self@.version + (self@.index + rhs) / (INDEX_MAX as int) <= usize::MAX,
        ensures
            f == Self::of_parts(
                (self@.version + (self@.index + rhs) / (INDEX_MAX as int)) as usize,
                ((self@.index + rhs) % (INDEX_MAX as int)) as usize,
            ),
    {
        let total = self.get_index() + rhs;
        Self::from_parts(self.get_version() + total / INDEX_MAX, total % INDEX_MAX)
    }
}

impl<const INDEX_MAX: usize> Default for Field<INDEX_MAX> {
    fn default() -> (f: Self)
        ensures
            f.raw() == 0,
    {
        Self::new()
    }
}

impl<const INDEX_MAX: usize> From<FieldConfig> for Field<INDEX_MAX> {
    fn from(value: FieldConfig) -> (f: Self) {
        Self::from_parts(value.version, value.index)
    }
}

impl<const INDEX_MAX: usize> vstd::std_specs::convert::FromSpecImpl<FieldConfig> for Field<INDEX_MAX> {
    open spec fn obeys_from_spec() -> bool {
        true
    }

    open spec fn from_spec(value: FieldConfig) -> Self {
        Self::of_parts(value.version, value.index)
    }
}

impl<const INDEX_MAX: usize> From<usize> for Field<INDEX_MAX> {
    fn from(raw: usize) -> (f: Self) {
        Self(raw)
    }
}

impl<const INDEX_MAX: usize> vstd::std_specs::convert::FromSpecImpl<usize> for Field<INDEX_MAX> {
    open spec fn obeys_from_spec() -> bool {
        true
    }

    open spec fn from_spec(raw: usize) -> Self {
        Self::of_raw(raw)
    }
}

impl<const INDEX_MAX: usize> From<Field<INDEX_MAX>> for usize {
    /// The field's packed word.
    fn from(field: Field<INDEX_MAX>) -> (raw: usize) {
        field.0
    }
}

impl<const INDEX_MAX: usize> vstd::std_specs::convert::FromSpecImpl<Field<INDEX_MAX>> for usize {
    open spec fn obeys_from_spec() -> bool {
        true
    }

    open spec fn from_spec(field: Field<INDEX_MAX>) -> usize {
        field.raw()
    }
}

impl<const INDEX_MAX: usize> PartialEq for Field<INDEX_MAX> {
    fn eq(&self, other: &Self) -> (r: bool) {
        self.0 == other.0
    }
}

impl<const INDEX_MAX: usize> vstd::std_specs::cmp::PartialEqSpecImpl for Field<INDEX_MAX> {
    open spec fn obeys_eq_spec() -> bool {
        true
    }

    open spec fn eq_spec(&self, other: &Self) -> bool {
        self.raw() == other.raw()
    }
}

impl<const INDEX_MAX: usize> PartialOrd for Field<INDEX_MAX> {
    /// Fields are ordered as their packed words are.
    fn partial_cmp(&self, other: &Self) -> (r: Option<Ordering>) {
        if self.0 < other.0 {
            Some(Ordering::Less)
        } else if self.0 > other.0 {
            Some(Ordering::Greater)
        } else {
            Some(Ordering::Equal)
        }
    }
}

impl<const INDEX_MAX: usize> vstd::std_specs::cmp::PartialOrdSpecImpl for Field<INDEX_MAX> {
    open spec fn obeys_partial_cmp_spec() -> bool {
        true
    }

    open spec fn partial_cmp_spec(&self, other: &Self) -> Option<Ordering> {
        if self.raw() < other.raw() {
            Some(Ordering::Less)
        } else if self.raw() > other.raw() {
            Some(Ordering::Greater)
        } else {
            Some(Ordering::Equal)
        }
    }
}

} // verus!
