//! The cursor field: a version and an index packed into one machine word.
//!
//! For a capacity `index_max` the low `bit_width(index_max)` bits of the word
//! hold the index, so that every index up to and including `index_max` fits,
//! and the bits above them hold the version. Ordering two words of the same
//! capacity as plain integers orders them by version first and index second.

use vstd::prelude::*;
use std::cmp::Ordering;
use vstd::arithmetic::div_mod::{
    lemma_fundamental_div_mod, lemma_fundamental_div_mod_converse, lemma_mod_bound,
    lemma_small_mod,
};
use vstd::arithmetic::power2::{lemma_pow2_pos, pow2};
use crate::bits::{join, lemma_word_bound, split_high, split_low};
use crate::util::{bit_width, ceiling_log_2, lemma_bit_width_bounds};

verus! {

/// The three parts of a field, unpacked.
pub struct FieldConfig {
    pub index_max: usize,
    pub version: usize,
    pub index: usize,
}

/// A packed `(version, index)` pair over a capacity of `index_max`.
#[derive(Clone, Copy, Debug)]
pub struct Field {
    index_max: usize,
    inner: usize,
}

/// What a field stands for: its capacity, its version and its index.
pub struct FieldView {
    pub index_max: nat,
    pub version: nat,
    pub index: nat,
}

/// The character that stands for the digit `d`, which is below ten.
pub open spec fn digit(d: nat) -> char {
    seq!['0', '1', '2', '3', '4', '5', '6', '7', '8', '9'][d as int]
}

/// The digits of `n` in decimal, without leading zeros.
pub open spec fn decimal(n: nat) -> Seq<char>
    decreases n,
{
    if n < 10 {
        seq![digit(n)]
    } else {
        decimal(n / 10).push(digit(n % 10))
    }
}

/// The text that describes a field with the given capacity, version and
/// index: the word `Field` and, in braces, the three numbers in decimal,
/// each after its name.
pub open spec fn field_text(index_max: usize, version: usize, index: usize) -> Seq<char> {
    "Field { index_max: "@ + decimal(index_max as nat) + ", version: "@ + decimal(version as nat)
        + ", index: "@ + decimal(index as nat) + " }"@
}

/// The number `n` as text. `usize::to_string` writes a number as its
/// digits in decimal, without sign and without leading zeros.
#[verifier::external_body]
fn number_text(n: usize) -> (text: String)
    ensures
        text@ == decimal(n as nat),
{
    n.to_string()
}

/// Puts `more` at the end of `text`, as `String::push_str` does.
#[verifier::external_body]
fn append(text: &mut String, more: &str)
    ensures
        final(text)@ == old(text)@ + more@,
{
    text.push_str(more)
}

/// Number of low bits that hold the index for a capacity of `index_max`.
pub open spec fn index_bits(index_max: usize) -> nat {
    bit_width(index_max as nat)
}

/// Version held by the word `raw` when split for `index_max`.
pub open spec fn version_of(index_max: usize, raw: usize) -> nat {
    raw as nat / pow2(index_bits(index_max))
}

/// Index held by the word `raw` when split for `index_max`.
pub open spec fn index_of(index_max: usize, raw: usize) -> nat {
    raw as nat % pow2(index_bits(index_max))
}

/// Index reached from `f` after `rhs` steps around a ring of `f.index_max`
/// positions.
pub open spec fn ring_index(f: FieldView, rhs: usize) -> nat {
    (f.index + rhs as nat) % f.index_max
}

/// Version reached from `f` after `rhs` steps around a ring of
/// `f.index_max` positions: one more for each completed round.
pub open spec fn ring_version(f: FieldView, rhs: usize) -> nat {
    f.version + (f.index + rhs as nat) / f.index_max
}

/// The field one step beyond `f` around its ring: the next index, and the
/// next version where the step completes a round.
pub open spec fn ring_step(f: Field) -> Field {
    Field::packed(f.capacity(), ring_version(f@, 1) as usize, ring_index(f@, 1) as usize)
}

/// Number of high bits left for the version.
pub open spec fn version_bits(index_max: usize) -> nat {
    (usize::BITS as nat - index_bits(index_max)) as nat
}

/// The word that packs `version` and `index` for `index_max`: each part is
/// cut to the bits it has room for.
pub open spec fn pack(index_max: usize, version: usize, index: usize) -> nat {
    (version as nat % pow2(version_bits(index_max))) * pow2(index_bits(index_max)) + index as nat
        % pow2(index_bits(index_max))
}

/// Unpacking a packed word gives back the version and the index, each cut
/// to its room; parts that fit come back unchanged.
pub proof fn lemma_pack_parts(index_max: usize, version: usize, index: usize)
    ensures
        pack(index_max, version, index) < pow2(usize::BITS as nat),
        pack(index_max, version, index) / pow2(index_bits(index_max)) == version as nat % pow2(
            version_bits(index_max),
        ),
        pack(index_max, version, index) % pow2(index_bits(index_max)) == index as nat % pow2(
            index_bits(index_max),
        ),
        (version as nat) < pow2(version_bits(index_max)) ==> pack(index_max, version, index) / pow2(
            index_bits(index_max),
        ) == version,
        index <= index_max ==> pack(index_max, version, index) % pow2(index_bits(index_max))
            == index,
{
    let w = index_bits(index_max);
    let room = version_bits(index_max);
    let d = pow2(w) as int;
    let q = (version as nat % pow2(room)) as int;
    let r = (index as nat % pow2(w)) as int;
    lemma_bit_width_bounds(index_max);
    lemma_pow2_pos(w);
    lemma_pow2_pos(room);
    lemma_mod_bound(version as int, pow2(room) as int);
    lemma_mod_bound(index as int, d);
    vstd::arithmetic::power2::lemma_pow2_adds(room, w);
    assert(q * d + r < pow2(room) * pow2(w)) by (nonlinear_arith)
        requires
            0 <= q < pow2(room),
            0 <= r < d,
            d == pow2(w),
    ;
    lemma_fundamental_div_mod_converse(q * d + r, d, q, r);
    if (version as nat) < pow2(room) {
        lemma_small_mod(version as nat, pow2(room));
    }
    if index <= index_max {
        lemma_small_mod(index as nat, pow2(w));
    }
}

impl View for Field {
    type V = FieldView;

    open spec fn view(&self) -> FieldView {
        FieldView {
            index_max: self.capacity() as nat,
            version: version_of(self.capacity(), self.raw()),
            index: index_of(self.capacity(), self.raw()),
        }
    }
}

impl Field {
    /// The capacity this field indexes.
    pub closed spec fn capacity(self) -> usize {
        self.index_max
    }

    /// The packed word.
    pub closed spec fn raw(self) -> usize {
        self.inner
    }

    /// The field that packs `version` and `index` for `index_max`.
    pub closed spec fn packed(index_max: usize, version: usize, index: usize) -> Field {
        Field { index_max, inner: pack(index_max, version, index) as usize }
    }

    /// Number of low bits that hold the index.
    fn version_shift(index_max: usize) -> (s: u32)
        ensures
            s as nat == index_bits(index_max),
            s <= usize::BITS,
    {
        ceiling_log_2(index_max)
    }

    /// Packs `version` and `index` into one word. A part that is too large
    /// for its room loses its high bits.
    pub fn from_parts(index_max: usize, version: usize, index: usize) -> (f: Self)
        ensures
            f == Self::packed(index_max, version, index),
            f.capacity() == index_max,
            f.raw() as nat == pack(index_max, version, index),
            f@.version == version as nat % pow2(version_bits(index_max)),
            f@.index == index as nat % pow2(index_bits(index_max)),
    {
        proof {
            lemma_pack_parts(index_max, version, index);
        }
        Self { index_max, inner: join(version, index, Self::version_shift(index_max)) }
    }

    /// The field over `index_max` whose packed word is `raw`.
    pub closed spec fn of_word(index_max: usize, raw: usize) -> Field {
        Field { index_max, inner: raw }
    }

    /// A field is the field of its capacity and its word.
    pub proof fn lemma_of_own_word(self)
        ensures
            Self::of_word(self.capacity(), self.raw()) == self,
    {
    }

    pub fn from_raw_parts(index_max: usize, inner: usize) -> (f: Self)
        ensures
            f == Self::of_word(index_max, inner),
            f.capacity() == index_max,
            f.raw() == inner,
    {
        Self { index_max, inner }
    }

    /// The version: the bits above the index.
    pub fn get_version(&self) -> (v: usize)
        ensures
            v as nat == self@.version,
    {
        split_high(self.inner, Self::version_shift(self.index_max))
    }

    /// The index: the low bits of the word.
    pub fn get_index(&self) -> (i: usize)
        ensures
            i as nat == self@.index,
    {
        split_low(self.inner, Self::version_shift(self.index_max))
    }

    pub fn get_index_max(&self) -> (m: usize)
        ensures
            m == self.capacity(),
    {
        self.index_max
    }

    pub fn get_raw_inner(&self) -> (r: usize)
        ensures
            r == self.raw(),
    {
        self.inner
    }

    /// Describes the field by its capacity, its version and its index.
    pub fn debug_string(&self) -> (text: String)
        ensures
            text@ == field_text(self.capacity(), self@.version as usize, self@.index as usize),
    {
        let mut text = String::new();
        append(&mut text, "Field { index_max: ");
        append(&mut text, number_text(self.index_max).as_str());
        append(&mut text, ", version: ");
        append(&mut text, number_text(self.get_version()).as_str());
        append(&mut text, ", index: ");
        append(&mut text, number_text(self.get_index()).as_str());
        append(&mut text, " }");
        assert(text@ =~= field_text(
            self.capacity(),
            self@.version as usize,
            self@.index as usize,
        ));
        text
    }

    /// Adds `rhs` to the packed word, wrapping at the word size. While the
    /// index stays within the capacity this moves the index alone.
    pub fn overflowing_add(self, rhs: usize) -> (f: Self)
        ensures
            f.capacity() == self.capacity(),
            f.raw() == self.raw().wrapping_add(rhs),
            self@.index + rhs <= self@.index_max ==> f.raw() == self.raw() + rhs && f@.version
                == self@.version && f@.index == self@.index + rhs,
    {
        proof {
            if self@.index + rhs <= self@.index_max {
                lemma_index_step(self, rhs);
            }
        }
        let Self { index_max, inner } = self;
        Self { index_max, inner: inner.wrapping_add(rhs) }
    }

    /// Moves the index forward by `rhs` around a ring of `index_max`
    /// positions, counting each completed round in the version.
    pub fn version_inc_add(self, rhs: usize) -> (f: Self)
        requires
            self@.index_max > 0,
            self@.index + rhs <= usize::MAX,
            ring_version(self@, rhs) <= usize::MAX,
        ensures
            f == Self::packed(
                self.capacity(),
                ring_version(self@, rhs) as usize,
                ring_index(self@, rhs) as usize,
            ),
            f.capacity() == self.capacity(),
            f@.index == ring_index(self@, rhs),
            f@.version == ring_version(self@, rhs) % pow2(version_bits(self.capacity())),
    {
        let total = self.get_index() + rhs;
        proof {
            lemma_mod_bound(total as int, self.index_max as int);
            lemma_bit_width_bounds(self.index_max);
            lemma_small_mod((total % self.index_max) as nat, pow2(index_bits(self.index_max)));
        }
        Self::from_parts(
            self.index_max,
            self.get_version() + total / self.index_max,
            total % self.index_max,
        )
    }
}

/// A field packed from a version that its version bits can hold and an
/// index within the capacity stands for that capacity, that version and
/// that index.
pub proof fn lemma_packed_view(index_max: usize, version: usize, index: usize)
    requires
        (version as nat) < pow2(version_bits(index_max)),
        index <= index_max,
    ensures
        Field::packed(index_max, version, index)@ == (FieldView {
            index_max: index_max as nat,
            version: version as nat,
            index: index as nat,
        }),
{
    lemma_pack_parts(index_max, version, index);
    vstd::layout::unsigned_int_max_values();
}

/// The field packed for lap zero at an index within the capacity stands for
/// that capacity, version zero and that index.
pub proof fn lemma_lap_zero(index_max: usize, index: usize)
    requires
        index <= index_max,
    ensures
        Field::packed(index_max, 0, index)@ == (FieldView {
            index_max: index_max as nat,
            version: 0,
            index: index as nat,
        }),
{
    lemma_pow2_pos(version_bits(index_max));
    lemma_packed_view(index_max, 0, index);
}

/// Adding to the word of a field whose index stays within the capacity
/// leaves the version alone and adds to the index.
pub proof fn lemma_index_step(f: Field, rhs: usize)
    requires
        f@.index + rhs <= f@.index_max,
    ensures
        f.raw() + rhs <= usize::MAX,
        version_of(f.capacity(), (f.raw() + rhs) as usize) == f@.version,
        index_of(f.capacity(), (f.raw() + rhs) as usize) == f@.index + rhs,
{
    let d = pow2(index_bits(f.capacity())) as int;
    let q = f@.version as int;
    let r = f@.index as int;
    lemma_bit_width_bounds(f.capacity());
    lemma_pow2_pos(index_bits(f.capacity()));
    lemma_fundamental_div_mod(f.raw() as int, d);
    lemma_word_bound(f.raw());
    vstd::layout::unsigned_int_max_values();
    vstd::arithmetic::power2::lemma_pow2_adds(version_bits(f.capacity()), index_bits(f.capacity()));
    // The word is `q * d + r`; with `r + rhs < d` the sum stays below the
    // next multiple of `d`, and that multiple is at most the word size.
    let k = pow2(version_bits(f.capacity())) as int;
    assert(d * q + r + rhs < k * d) by (nonlinear_arith)
        requires
            d * q + r < k * d,
            0 <= r,
            r + rhs < d,
            0 <= q,
    ;
    lemma_fundamental_div_mod_converse(d * q + r + rhs, d, q, r + rhs);
}

/// A capacity of at most half the word's range leaves the top bit of the
/// word to the version.
pub proof fn lemma_index_bits_fit(index_max: usize)
    requires
        index_max <= usize::MAX / 2,
    ensures
        index_bits(index_max) < usize::BITS,
{
    lemma_bit_width_bounds(index_max);
    vstd::layout::unsigned_int_max_values();
    if index_bits(index_max) >= usize::BITS {
        vstd::arithmetic::power2::lemma_pow2_unfold(usize::BITS as nat);
        if index_bits(index_max) > usize::BITS {
            vstd::arithmetic::power2::lemma_pow2_strictly_increases(
                (usize::BITS - 1) as nat,
                (index_bits(index_max) - 1) as nat,
            );
        }
    }
}

/// A field over a capacity of at least one, and at most half the word's
/// range, can take one step around its ring: neither part overflows.
pub proof fn lemma_ring_step_fits(f: Field)
    requires
        1 <= f@.index_max <= usize::MAX / 2,
    ensures
        f@.version <= usize::MAX / 2,
        f@.index + 1 <= usize::MAX,
        ring_version(f@, 1) <= usize::MAX,
{
    let w = index_bits(f.capacity());
    let d = pow2(w) as int;
    let half = pow2((w - 1) as nat) as int;
    let n = f.capacity() as int;
    let v = f@.version as int;
    let i = f@.index as int;
    lemma_index_bits_fit(f.capacity());
    lemma_bit_width_bounds(f.capacity());
    lemma_pow2_pos((w - 1) as nat);
    vstd::arithmetic::power2::lemma_pow2_unfold(w);
    vstd::arithmetic::power2::lemma_pow2_strictly_increases(w, usize::BITS as nat);
    vstd::layout::unsigned_int_max_values();
    lemma_fundamental_div_mod(f.raw() as int, d);
    lemma_mod_bound(f.raw() as int, d);
    assert(2 * v <= f.raw()) by (nonlinear_arith)
        requires
            f.raw() == d * v + i,
            d >= 2,
            v >= 0,
            i >= 0,
    ;
    // One step covers at most two rounds of the ring.
    assert((i + 1) / n <= 2) by {
        vstd::arithmetic::div_mod::lemma_div_is_ordered(i + 1, 2 * n, n);
        vstd::arithmetic::div_mod::lemma_div_multiples_vanish(2, n);
    }
}

/// Fields of one capacity are ordered as words exactly as they are ordered
/// by version first and index second.
pub proof fn lemma_order_is_lexicographic(a: Field, b: Field)
    requires
        a.capacity() == b.capacity(),
    ensures
        a.raw() < b.raw() <==> (a@.version < b@.version || (a@.version == b@.version && a@.index
            < b@.index)),
        a.raw() == b.raw() <==> (a@.version == b@.version && a@.index == b@.index),
{
    let d = pow2(index_bits(a.capacity())) as int;
    lemma_pow2_pos(index_bits(a.capacity()));
    lemma_fundamental_div_mod(a.raw() as int, d);
    lemma_fundamental_div_mod(b.raw() as int, d);
    lemma_mod_bound(a.raw() as int, d);
    lemma_mod_bound(b.raw() as int, d);
    let qa = a.raw() as int / d;
    let qb = b.raw() as int / d;
    if qa < qb {
        assert(d * qa + d <= d * qb) by (nonlinear_arith)
            requires
                qa < qb,
                d > 0,
        ;
    }
    if qb < qa {
        assert(d * qb + d <= d * qa) by (nonlinear_arith)
            requires
                qb < qa,
                d > 0,
        ;
    }
}

impl From<FieldConfig> for Field {
    fn from(config: FieldConfig) -> (f: Self) {
        Self::from_parts(config.index_max, config.version, config.index)
    }
}

impl vstd::std_specs::convert::FromSpecImpl<FieldConfig> for Field {
    open spec fn obeys_from_spec() -> bool {
        true
    }

    open spec fn from_spec(config: FieldConfig) -> Self {
        Self::packed(config.index_max, config.version, config.index)
    }
}

impl PartialEq for Field {
    /// Two fields are equal when their packed words are.
    fn eq(&self, other: &Self) -> (r: bool) {
        self.inner == other.inner
    }
}

impl vstd::std_specs::cmp::PartialEqSpecImpl for Field {
    open spec fn obeys_eq_spec() -> bool {
        true
    }

    open spec fn eq_spec(&self, other: &Self) -> bool {
        self.raw() == other.raw()
    }
}

impl PartialOrd for Field {
    /// Fields are ordered as their packed words are.
    fn partial_cmp(&self, other: &Self) -> (r: Option<Ordering>) {
        if self.inner < other.inner {
            Some(Ordering::Less)
        } else if self.inner > other.inner {
            Some(Ordering::Greater)
        } else {
            Some(Ordering::Equal)
        }
    }
}

impl vstd::std_specs::cmp::PartialOrdSpecImpl for Field {
    open spec fn obeys_partial_cmp_spec() -> bool {
        true
    }

    open spec fn partial_cmp_spec(&self, other: &Self) -> Option<Ordering> {
        if self.raw() < other.raw() {
            Some(Ordering::Less)
        } else if self.raw() > other.raw() {
            Some(Ordering::Greater)
        } else {
            Some(Ordering::Equal)
        }
    }
}

} // verus!
