//! Facts about single bits of machine words.
use vstd::arithmetic::power2::pow2;
use vstd::bits::{lemma_u64_shr_is_div, lemma_u8_shr_is_div};
use vstd::prelude::*;

verus! {

use crate::model::{neighborhood, rule_bit, word_bit};

/// A shifted and masked rule number is zero or one.
pub proof fn lemma_rule_bit_range(rule: u8, i: u8)
    ensures
        (rule >> i) & 1 <= 1,
{
    assert((rule >> i) & 1 <= 1) by (bit_vector);
}

/// Or-ing `state << b` into a word changes bit `b` alone, and sets it where `state` is one.
pub proof fn lemma_or_bit(word: u64, state: u64, b: u64, c: u64)
    requires
        state <= 1,
        b < 64,
        c < 64,
    ensures
        word_bit(word | (state << b), c as int) == (word_bit(word, c as int) || (c == b && state
            == 1)),
{
    assert((((word | (state << b)) >> c) & 1 == 1) == ((word >> c) & 1 == 1 || (c == b && state
        == 1))) by (bit_vector)
        requires
            state <= 1,
            b < 64,
            c < 64,
    ;
}

/// No bit of zero is set.
pub proof fn lemma_zero_bit(b: u64)
    ensures
        !word_bit(0, b as int),
{
    assert((0u64 >> b) & 1 == 0) by (bit_vector);
}

/// Shifting right by one and splicing in the low bit of `prev` moves every cell's left
/// neighbor onto the cell.
pub proof fn lemma_left_neighbor(cur: u64, prev: u64, b: u64)
    requires
        b < 64,
    ensures
        word_bit((cur >> 1) | ((prev & 1) << 63), b as int) == if b < 63 {
            word_bit(cur, b + 1)
        } else {
            word_bit(prev, 0)
        },
{
    if b < 63 {
        let up: u64 = (b + 1) as u64;
        assert(((((cur >> 1) | ((prev & 1) << 63)) >> b) & 1) == ((cur >> up) & 1)) by (bit_vector)
            requires
                b < 63,
                up == b + 1,
        ;
    } else {
        assert(((((cur >> 1) | ((prev & 1) << 63)) >> 63) & 1) == ((prev >> 0) & 1)) by (bit_vector);
    }
}

/// Shifting left by one and splicing in the high bit of `next` moves every cell's right
/// neighbor onto the cell.
pub proof fn lemma_right_neighbor(cur: u64, next: u64, b: u64)
    requires
        b < 64,
    ensures
        word_bit((cur << 1) | (next >> 63), b as int) == if b > 0 {
            word_bit(cur, b - 1)
        } else {
            word_bit(next, 63)
        },
{
    if b > 0 {
        let down: u64 = (b - 1) as u64;
        assert(((((cur << 1) | (next >> 63)) >> b) & 1) == ((cur >> down) & 1)) by (bit_vector)
            requires
                0 < b < 64,
                down == b - 1,
        ;
    } else {
        assert(((((cur << 1) | (next >> 63)) >> 0) & 1) == ((next >> 63) & 1)) by (bit_vector);
    }
}

/// A masked bit is zero or one.
pub proof fn lemma_bit_range(word: u64, b: u64)
    ensures
        (word >> b) & 1 <= 1,
{
    assert((word >> b) & 1 <= 1) by (bit_vector);
}

/// Packing three bits gives the number of the neighborhood.
pub proof fn lemma_neighborhood(left: u64, center: u64, right: u64)
    requires
        left <= 1,
        center <= 1,
        right <= 1,
    ensures
        (left << 2) | (center << 1) | right == neighborhood(left == 1, center == 1, right == 1),
        (left << 2) | (center << 1) | right < 8,
{
    assert((left << 2) | (center << 1) | right == 4 * left + 2 * center + right) by (bit_vector)
        requires
            left <= 1,
            center <= 1,
            right <= 1,
    ;
}

/// Two rule numbers with the same eight bits are the same.
pub proof fn lemma_rule_from_bits(rule: u8, other: u8)
    by (bit_vector)
    requires
        rule_bit(rule, 0) == rule_bit(other, 0),
        rule_bit(rule, 1) == rule_bit(other, 1),
        rule_bit(rule, 2) == rule_bit(other, 2),
        rule_bit(rule, 3) == rule_bit(other, 3),
        rule_bit(rule, 4) == rule_bit(other, 4),
        rule_bit(rule, 5) == rule_bit(other, 5),
        rule_bit(rule, 6) == rule_bit(other, 6),
        rule_bit(rule, 7) == rule_bit(other, 7),
    ensures
        rule == other,
{
}

/// The bits of a rule number are its binary digits.
pub proof fn lemma_rule_digits(rule: u8)
    ensures
        rule_bit(rule, 0) + 2 * rule_bit(rule, 1) + 4 * rule_bit(rule, 2) + 8 * rule_bit(rule, 3)
            + 16 * rule_bit(rule, 4) + 32 * rule_bit(rule, 5) + 64 * rule_bit(rule, 6) + 128
            * rule_bit(rule, 7) == rule,
{
    assert(rule_bit(rule, 0) + 2 * rule_bit(rule, 1) + 4 * rule_bit(rule, 2) + 8 * rule_bit(rule, 3)
        + 16 * rule_bit(rule, 4) + 32 * rule_bit(rule, 5) + 64 * rule_bit(rule, 6) + 128 * rule_bit(
        rule,
        7,
    ) == rule) by (bit_vector);
}

/// A bit of a rule number is the digit that division by a power of two brings up.
pub proof fn lemma_rule_digit(rule: u8, i: u8)
    requires
        i < 8,
    ensures
        rule_bit(rule, i) as int == (rule as nat / pow2(i as nat)) % 2,
{
    lemma_u8_shr_is_div(rule, i);
    let shifted: u8 = rule >> i;
    assert(shifted & 1 == shifted % 2) by (bit_vector);
}

/// A bit of a word is the digit that division by a power of two brings up.
pub proof fn lemma_word_digit(word: u64, b: int)
    requires
        0 <= b < 64,
    ensures
        word_bit(word, b) <==> (word as nat / pow2(b as nat)) % 2 == 1,
{
    lemma_u64_shr_is_div(word, b as u64);
    let shifted: u64 = word >> (b as u64);
    assert(shifted & 1 == shifted % 2) by (bit_vector);
}

/// The lowest bit of an even number is clear.
pub proof fn lemma_even_rule(rule: u8)
    requires
        rule % 2 == 0,
    ensures
        (rule >> 0u8) & 1 == 0,
{
    assert((rule >> 0u8) & 1 == 0) by (bit_vector)
        requires
            rule % 2 == 0,
    ;
}

/// Two words with the same bits are the same.
pub proof fn lemma_word_from_bits(word: u64, other: u64)
    requires
        forall|b: int| 0 <= b < 64 ==> #[trigger] word_bit(word, b) == word_bit(other, b),
    ensures
        word == other,
{
    lemma_word_from_high_bits(word, other, 0);
    assert(word >> 0u64 == word && other >> 0u64 == other) by (bit_vector);
}

/// Two words with the same bits from `low` up are the same above `low`.
proof fn lemma_word_from_high_bits(word: u64, other: u64, low: u64)
    requires
        low <= 64,
        forall|b: int| low <= b < 64 ==> #[trigger] word_bit(word, b) == word_bit(other, b),
    ensures
        word >> low == other >> low,
    decreases 64 - low,
{
    if low == 64 {
        assert(word >> 64u64 == 0 && other >> 64u64 == 0) by (bit_vector);
    } else {
        let up: u64 = (low + 1) as u64;
        lemma_word_from_high_bits(word, other, up);
        assert(word_bit(word, low as int) == word_bit(other, low as int));
        assert(word >> low == other >> low) by (bit_vector)
            requires
                low < 64,
                up == low + 1,
                word >> up == other >> up,
                ((word >> low) & 1 == 1) == ((other >> low) & 1 == 1),
        ;
    }
}

} // verus!
