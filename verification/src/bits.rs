//! Shifts and masks of one machine word, stated as division and remainder by
//! a power of two.

use vstd::prelude::*;
use vstd::arithmetic::div_mod::{
    lemma_fundamental_div_mod, lemma_fundamental_div_mod_converse, lemma_mod_bound,
    lemma_small_mod,
};
use vstd::arithmetic::mul::lemma_mul_inequality;
use vstd::arithmetic::power2::{lemma_pow2_adds, lemma_pow2_pos, pow2};
use vstd::bits::{
    lemma_usize_low_bits_mask_is_mod, lemma_usize_pow2_no_overflow, lemma_usize_shl_is_mul,
    lemma_usize_shr_is_div, low_bits_mask,
};
use vstd::layout::unsigned_int_max_values;

verus! {

/// The mask that keeps the low `s` bits of a word.
pub open spec fn low_mask(s: usize) -> usize {
    !(!0usize << s)
}

/// The low-bit mask is one less than the power of two.
pub proof fn lemma_low_mask_value(s: usize)
    requires
        s < usize::BITS,
    ensures
        low_mask(s) as nat == pow2(s as nat) - 1,
        low_mask(s) == low_bits_mask(s as nat) as usize,
{
    lemma_usize_pow2_no_overflow(s as nat);
    lemma_usize_shl_is_mul(1usize, s);
    let one_shifted: usize = 1usize << s;
    assert(one_shifted as nat == pow2(s as nat));
    assert(!(!0usize << s) == (1usize << s) - 1) by (bit_vector)
        requires
            s < usize::BITS,
    ;
}

/// Shifting right by `s` divides by `2^s`; masking to `s` bits takes the
/// remainder.
pub proof fn lemma_split_word(raw: usize, s: usize)
    requires
        s < usize::BITS,
    ensures
        (raw >> s) as nat == raw as nat / pow2(s as nat),
        (raw & low_mask(s)) as nat == raw as nat % pow2(s as nat),
{
    lemma_usize_shr_is_div(raw, s);
    lemma_low_mask_value(s);
    lemma_usize_low_bits_mask_is_mod(raw, s as nat);
    lemma_usize_pow2_no_overflow(s as nat);
}

/// A word is smaller than two to the word size.
pub proof fn lemma_word_bound(raw: usize)
    ensures
        (raw as nat) < pow2(usize::BITS as nat),
{
    unsigned_int_max_values();
}

/// Shifting a version left by `s` and filling the low bits with a masked
/// index packs both, each cut to its room.
pub proof fn lemma_join_word(v: usize, i: usize, s: usize)
    requires
        s < usize::BITS,
    ensures
        ((v << s) | (i & low_mask(s))) as nat == (v as nat % pow2((usize::BITS - s) as nat)) * pow2(
            s as nat,
        ) + i as nat % pow2(s as nat),
{
    let high: usize = v & (!0usize >> s);
    let low: usize = i & low_mask(s);
    let room = (usize::BITS - s) as nat;
    lemma_split_word(i, s);
    lemma_pow2_pos(s as nat);
    lemma_pow2_pos(room);
    lemma_pow2_adds(room, s as nat);
    unsigned_int_max_values();
    // The version keeps its low `room` bits.
    assert(v << s == (v & (!0usize >> s)) << s) by (bit_vector)
        requires
            s < usize::BITS,
    ;
    assert(high as nat % pow2(room) == high as nat && high as nat == v as nat % pow2(room)) by {
        if s == 0 {
            assert(!0usize >> 0usize == !0usize) by (bit_vector);
            assert(v & !0usize == v) by (bit_vector);
            lemma_small_mod(v as nat, pow2(room));
        } else {
            // MAX >> s is the mask of the low `room` bits.
            assert(!0usize >> s == !(!0usize << ((usize::BITS - s) as usize))) by (bit_vector)
                requires
                    0 < s < usize::BITS,
            ;
            lemma_split_word(v, (usize::BITS - s) as usize);
            lemma_mod_bound(v as int, pow2(room) as int);
            lemma_small_mod(high as nat, pow2(room));
        }
    }
    assert(high as nat * pow2(s as nat) <= usize::MAX as nat) by {
        lemma_mod_bound(v as int, pow2(room) as int);
        lemma_mul_inequality(high as int, pow2(room) as int - 1, pow2(s as nat) as int);
        assert((pow2(room) as int - 1) * pow2(s as nat) as int == pow2(room) * pow2(s as nat)
            - pow2(s as nat)) by (nonlinear_arith);
    }
    lemma_usize_shl_is_mul(high, s);
    let shifted: usize = high << s;
    assert(shifted as nat == high as nat * pow2(s as nat));
    // The two parts share no bit, so joining them adds them.
    assert(((high << s) | (i & !(!0usize << s))) == (high << s) + (i & !(!0usize << s)))
        by (bit_vector)
        requires
            s < usize::BITS,
            high == v & (!0usize >> s),
    ;
}

/// What lies above the low `bits` bits of `raw`.
pub open spec fn high_part(raw: usize, bits: nat) -> nat {
    raw as nat / pow2(bits)
}

/// The low `bits` bits of `raw`.
pub open spec fn low_part(raw: usize, bits: nat) -> nat {
    raw as nat % pow2(bits)
}

/// How many bits of a word lie above its low `bits` bits.
pub open spec fn room_above(bits: nat) -> nat {
    if bits <= usize::BITS {
        (usize::BITS - bits) as nat
    } else {
        0
    }
}

/// The word with `low` in its low `bits` bits and `high` above them, each
/// cut to its room.
pub open spec fn joined(high: usize, low: usize, bits: nat) -> nat {
    (high as nat % pow2(room_above(bits))) * pow2(bits) + low as nat % pow2(bits)
}

/// Splitting a joined word gives back its parts, each cut to its room.
pub proof fn lemma_joined_parts(high: usize, low: usize, bits: nat)
    ensures
        joined(high, low, bits) <= usize::MAX,
        joined(high, low, bits) / pow2(bits) == high as nat % pow2(room_above(bits)),
        joined(high, low, bits) % pow2(bits) == low as nat % pow2(bits),
{
    let d = pow2(bits) as int;
    let q = (high as nat % pow2(room_above(bits))) as int;
    let r = (low as nat % pow2(bits)) as int;
    lemma_pow2_pos(bits);
    lemma_pow2_pos(room_above(bits));
    lemma_mod_bound(high as int, pow2(room_above(bits)) as int);
    lemma_mod_bound(low as int, d);
    unsigned_int_max_values();
    lemma_fundamental_div_mod_converse(q * d + r, d, q, r);
    if bits <= usize::BITS {
        lemma_pow2_adds(room_above(bits), bits);
        assert(q * d + r < pow2(room_above(bits)) * pow2(bits)) by (nonlinear_arith)
            requires
                0 <= q < pow2(room_above(bits)),
                0 <= r < d,
                d == pow2(bits),
        ;
    } else {
        vstd::arithmetic::power2::lemma2_to64();
        lemma_word_bound(low);
        vstd::arithmetic::power2::lemma_pow2_strictly_increases(usize::BITS as nat, bits);
        lemma_small_mod(low as nat, pow2(bits));
        assert(q * d == 0) by (nonlinear_arith)
            requires
                q == 0,
        ;
    }
}

/// What lies above the low `bits` bits of a word fits into the room above
/// them.
pub proof fn lemma_high_part_fits(raw: usize, bits: nat)
    ensures
        high_part(raw, bits) < pow2(room_above(bits)),
        high_part(raw, bits) % pow2(room_above(bits)) == high_part(raw, bits),
        high_part(raw, bits) <= usize::MAX,
{
    let d = pow2(bits) as int;
    let q = high_part(raw, bits) as int;
    lemma_pow2_pos(bits);
    lemma_pow2_pos(room_above(bits));
    lemma_word_bound(raw);
    lemma_fundamental_div_mod(raw as int, d);
    lemma_mod_bound(raw as int, d);
    if bits <= usize::BITS {
        lemma_pow2_adds(room_above(bits), bits);
        if q >= pow2(room_above(bits)) {
            assert(d * q >= pow2(room_above(bits)) * pow2(bits)) by (nonlinear_arith)
                requires
                    q >= pow2(room_above(bits)),
                    d == pow2(bits),
                    d > 0,
            ;
        }
    } else {
        vstd::arithmetic::power2::lemma_pow2_strictly_increases(usize::BITS as nat, bits);
        vstd::arithmetic::div_mod::lemma_basic_div(raw as int, d);
    }
    lemma_small_mod(q as nat, pow2(room_above(bits)));
    assert(d * q <= raw) by (nonlinear_arith)
        requires
            raw == d * q + (raw as int % d),
            raw as int % d >= 0,
    ;
    assert(q <= raw) by (nonlinear_arith)
        requires
            d * q <= raw,
            d >= 1,
            q >= 0,
    ;
}

/// Reads what lies above the low `bits` bits of `raw`.
pub fn split_high(raw: usize, bits: u32) -> (high: usize)
    ensures
        high == high_part(raw, bits as nat),
{
    if bits >= usize::BITS {
        proof {
            lemma_word_bound(raw);
            if bits > usize::BITS {
                vstd::arithmetic::power2::lemma_pow2_strictly_increases(
                    usize::BITS as nat,
                    bits as nat,
                );
            }
            vstd::arithmetic::div_mod::lemma_basic_div(raw as int, pow2(bits as nat) as int);
        }
        0
    } else {
        let shift: usize = bits as usize;
        proof {
            lemma_split_word(raw, shift);
        }
        raw >> shift
    }
}

/// Reads the low `bits` bits of `raw`.
pub fn split_low(raw: usize, bits: u32) -> (low: usize)
    ensures
        low == low_part(raw, bits as nat),
{
    if bits >= usize::BITS {
        proof {
            lemma_word_bound(raw);
            if bits > usize::BITS {
                vstd::arithmetic::power2::lemma_pow2_strictly_increases(
                    usize::BITS as nat,
                    bits as nat,
                );
            }
            lemma_small_mod(raw as nat, pow2(bits as nat));
        }
        raw
    } else {
        let shift: usize = bits as usize;
        proof {
            lemma_split_word(raw, shift);
        }
        raw & !(!0usize << shift)
    }
}

/// Builds the word with `low` in its low `bits` bits and `high` above them.
pub fn join(high: usize, low: usize, bits: u32) -> (raw: usize)
    ensures
        raw == joined(high, low, bits as nat),
{
    if bits >= usize::BITS {
        proof {
            lemma_joined_parts(high, low, bits as nat);
            lemma_word_bound(low);
            if bits > usize::BITS {
                vstd::arithmetic::power2::lemma_pow2_strictly_increases(
                    usize::BITS as nat,
                    bits as nat,
                );
            }
            lemma_small_mod(low as nat, pow2(bits as nat));
            vstd::arithmetic::power2::lemma2_to64();
            let q = high as nat % pow2(room_above(bits as nat));
            assert(q == 0);
            assert(q * pow2(bits as nat) == 0) by (nonlinear_arith)
                requires
                    q == 0,
            ;
        }
        low
    } else {
        let shift: usize = bits as usize;
        proof {
            lemma_join_word(high, low, shift);
        }
        (high << shift) | (low & !(!0usize << shift))
    }
}

} // verus!
