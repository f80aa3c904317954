//! Bit-length helpers used to split one machine word into a version and an
//! index.

use vstd::prelude::*;
use vstd::arithmetic::power2::{
    lemma_pow2_pos, lemma_pow2_strictly_increases, lemma_pow2_unfold, pow2,
};

verus! {

/// Number of binary digits needed to write `n`; zero needs none.
pub open spec fn bit_width(n: nat) -> nat
    decreases n,
{
    if n == 0 {
        0
    } else {
        1 + bit_width(n / 2)
    }
}

/// Number of consecutive one bits at the low end of `n`.
pub open spec fn low_ones(n: nat) -> nat
    decreases n,
{
    if n % 2 == 1 {
        1 + low_ones(n / 2)
    } else {
        0
    }
}

/// A number is below two to its bit width, and a machine word is no wider
/// than the machine's word size.
pub proof fn lemma_bit_width_bounds(n: usize)
    ensures
        (n as nat) < pow2(bit_width(n as nat)),
        n > 0 ==> pow2((bit_width(n as nat) - 1) as nat) <= n as nat,
        bit_width(n as nat) <= usize::BITS as nat,
{
    lemma_bit_width_pow2(n as nat);
    vstd::layout::unsigned_int_max_values();
    if bit_width(n as nat) > usize::BITS as nat {
        lemma_pow2_strictly_increases(usize::BITS as nat, (bit_width(n as nat) - 1) as nat);
    }
}

/// A positive number lies between the two powers of two around its bit
/// width.
pub proof fn lemma_bit_width_pow2(n: nat)
    ensures
        n < pow2(bit_width(n)),
        n > 0 ==> pow2((bit_width(n) - 1) as nat) <= n,
    decreases n,
{
    if n == 0 {
        lemma_pow2_pos(0);
    } else {
        lemma_bit_width_pow2(n / 2);
        lemma_pow2_unfold(bit_width(n));
        if n / 2 > 0 {
            lemma_pow2_unfold((bit_width(n) - 1) as nat);
        } else {
            vstd::arithmetic::power2::lemma2_to64();
        }
    }
}

/// `usize::leading_zeros` counts the zero bits above the highest set bit, so
/// together with the bit width of the value it makes up the whole word.
pub assume_specification[ usize::leading_zeros ](n: usize) -> (r: u32)
    ensures
        r as nat + bit_width(n as nat) == usize::BITS as nat,
;

/// `usize::trailing_ones` counts the one bits below the lowest zero bit.
pub assume_specification[ usize::trailing_ones ](n: usize) -> (r: u32)
    ensures
        r as nat == low_ones(n as nat),
;

/// The bit width of `n`: the position of its highest set bit, counted from
/// one.
pub fn ceiling_log_2(n: usize) -> (r: u32)
    ensures
        r as nat == bit_width(n as nat),
        r <= usize::BITS,
{
    usize::BITS - n.leading_zeros()
}

/// The low one bits of a number are all of its bits exactly when the number
/// is one less than a power of two, and exactly then its successor is one
/// bit wider.
pub proof fn lemma_all_ones(n: nat)
    ensures
        low_ones(n) <= bit_width(n),
        (low_ones(n) == bit_width(n)) == (n + 1 == pow2(bit_width(n))),
        bit_width(n + 1) == bit_width(n) + if low_ones(n) == bit_width(n) {
            1nat
        } else {
            0nat
        },
    decreases n,
{
    if n == 0 {
        vstd::arithmetic::power2::lemma2_to64();
        assert(bit_width(1) == 1 + bit_width(0));
    } else {
        let m = n / 2;
        lemma_all_ones(m);
        lemma_pow2_unfold(bit_width(n));
        if n % 2 == 1 {
            assert((n + 1) / 2 == m + 1);
        } else {
            assert((n + 1) / 2 == m);
        }
    }
}

/// The bit width of `n + 1`: one more than that of `n` where `n` is one
/// less than a power of two, and the same otherwise.
pub fn greater_than_log_2(n: usize) -> (r: u32)
    ensures
        r as nat == bit_width(n as nat + 1),
        r <= usize::BITS + 1,
{
    proof {
        lemma_all_ones(n as nat);
        lemma_bit_width_bounds(n);
    }
    ceiling_log_2(n) + if n.leading_zeros() + n.trailing_ones() == usize::BITS {
        1
    } else {
        0
    }
}

} // verus!
