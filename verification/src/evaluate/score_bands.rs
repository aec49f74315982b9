use crate::evaluate::evaluate_hand::{
    lemma_bits_with_rank, lemma_unique_rank_mask, lemma_zero_bits, rank_mask5, same_suit5, card_id,
    HandLookupArrays,
};
use crate::evaluate::generate_tables::generate_flush_table::{
    bits_below, is_five_mask, is_straight_mask, mask_has_rank, nonstraight_below, straight_order,
    unique_five_entry,
};
use crate::models::card::Card;
use vstd::prelude::*;

verus! {

/// How many rank masks below `n` hold exactly `k` of the thirteen rank bits.
pub open spec fn masks_with_bits(n: int, k: int) -> nat
    decreases n,
{
    if n <= 0 {
        0
    } else {
        masks_with_bits(n - 1, k) + if bits_below((n - 1) as u32, 13) == k {
            1nat
        } else {
            0nat
        }
    }
}

/// The binomial coefficient: the ways to choose `k` of `n` things.
pub open spec fn binom(n: int, k: int) -> int
    decreases n,
{
    if k < 0 || n < 0 {
        0
    } else if n == 0 {
        if k == 0 {
            1
        } else {
            0
        }
    } else {
        binom(n - 1, k) + binom(n - 1, k - 1)
    }
}

/// How many of the ten straight rank masks are below `n`.
pub open spec fn straights_below(n: int) -> nat
    decreases n,
{
    if n <= 0 {
        0
    } else {
        straights_below(n - 1) + if is_straight_mask((n - 1) as u32) {
            1nat
        } else {
            0nat
        }
    }
}

proof fn lemma_high_bit(y: u32, p: u8)
    by (bit_vector)
    requires
        p < 13,
        y < (1u32 << p),
    ensures
        y | (1u32 << p) == y + (1u32 << p),
        (y >> (p as u32)) & 1u32 == 0u32,
        (1u32 << p) <= 4096,
{
}

proof fn lemma_double(p: u8)
    by (bit_vector)
    requires
        p < 13,
    ensures
        (1u32 << ((p + 1) as u8)) == 2 * (1u32 << p),
        (1u32 << p) >= 1,
{
}

proof fn lemma_bits_nonnegative(n: int)
    ensures
        masks_with_bits(n, -1) == 0,
    decreases n,
{
    if n > 0 {
        lemma_bits_nonnegative(n - 1);
    }
}

/// The masks `2^p + y` for `y` below `x <= 2^p` hold one bit more than `y`.
proof fn lemma_masks_shift(p: u8, x: int, k: int)
    requires
        p < 13,
        0 <= x <= (1u32 << p),
    ensures
        masks_with_bits((1u32 << p) + x, k) == masks_with_bits((1u32 << p) as int, k) + masks_with_bits(x, k - 1),
    decreases x,
{
    lemma_double(p);
    if x > 0 {
        lemma_masks_shift(p, x - 1, k);
        let y = (x - 1) as u32;
        lemma_high_bit(y, p);
        lemma_bits_with_rank(y, p, 13);
        assert(((1u32 << p) + x - 1) as u32 == y | (1u32 << p));
    }
}

/// The masks below `2^p` with `k` bits number `binom(p, k)`.
proof fn lemma_masks_binom(p: u8, k: int)
    requires
        p <= 13,
    ensures
        masks_with_bits((1u32 << p) as int, k) == binom(p as int, k),
    decreases p,
{
    if p == 0 {
        assert((1u32 << 0u8) == 1u32) by (bit_vector);
        lemma_zero_bits(13);
        assert(masks_with_bits(0, k) == 0);
    } else {
        let q = (p - 1) as u8;
        lemma_double(q);
        lemma_masks_binom(q, k);
        lemma_masks_binom(q, k - 1);
        lemma_masks_shift(q, (1u32 << q) as int, k);
        if k - 1 < 0 {
            lemma_bits_nonnegative((1u32 << q) as int);
        }
    }
}

proof fn lemma_binom_table()
    ensures
        binom(13, 5) == 1287,
{
    assert(binom(0, 0) == 1);
    assert(binom(0, 1) == 0 && binom(0, 2) == 0 && binom(0, 3) == 0 && binom(0, 4) == 0 && binom(0, 5) == 0);
    assert(binom(0, -1) == 0);
    assert(binom(0, -1) == 0);
    assert(binom(1, 0) == 1);
    assert(binom(1, 1) == 1);
    assert(binom(1, 2) == 0);
    assert(binom(1, 3) == 0);
    assert(binom(1, 4) == 0);
    assert(binom(1, 5) == 0);
    assert(binom(1, -1) == 0);
    assert(binom(2, 0) == 1);
    assert(binom(2, 1) == 2);
    assert(binom(2, 2) == 1);
    assert(binom(2, 3) == 0);
    assert(binom(2, 4) == 0);
    assert(binom(2, 5) == 0);
    assert(binom(2, -1) == 0);
    assert(binom(3, 0) == 1);
    assert(binom(3, 1) == 3);
    assert(binom(3, 2) == 3);
    assert(binom(3, 3) == 1);
    assert(binom(3, 4) == 0);
    assert(binom(3, 5) == 0);
    assert(binom(3, -1) == 0);
    assert(binom(4, 0) == 1);
    assert(binom(4, 1) == 4);
    assert(binom(4, 2) == 6);
    assert(binom(4, 3) == 4);
    assert(binom(4, 4) == 1);
    assert(binom(4, 5) == 0);
    assert(binom(4, -1) == 0);
    assert(binom(5, 0) == 1);
    assert(binom(5, 1) == 5);
    assert(binom(5, 2) == 10);
    assert(binom(5, 3) == 10);
    assert(binom(5, 4) == 5);
    assert(binom(5, 5) == 1);
    assert(binom(5, -1) == 0);
    assert(binom(6, 0) == 1);
    assert(binom(6, 1) == 6);
    assert(binom(6, 2) == 15);
    assert(binom(6, 3) == 20);
    assert(binom(6, 4) == 15);
    assert(binom(6, 5) == 6);
    assert(binom(6, -1) == 0);
    assert(binom(7, 0) == 1);
    assert(binom(7, 1) == 7);
    assert(binom(7, 2) == 21);
    assert(binom(7, 3) == 35);
    assert(binom(7, 4) == 35);
    assert(binom(7, 5) == 21);
    assert(binom(7, -1) == 0);
    assert(binom(8, 0) == 1);
    assert(binom(8, 1) == 8);
    assert(binom(8, 2) == 28);
    assert(binom(8, 3) == 56);
    assert(binom(8, 4) == 70);
    assert(binom(8, 5) == 56);
    assert(binom(8, -1) == 0);
    assert(binom(9, 0) == 1);
    assert(binom(9, 1) == 9);
    assert(binom(9, 2) == 36);
    assert(binom(9, 3) == 84);
    assert(binom(9, 4) == 126);
    assert(binom(9, 5) == 126);
    assert(binom(9, -1) == 0);
    assert(binom(10, 0) == 1);
    assert(binom(10, 1) == 10);
    assert(binom(10, 2) == 45);
    assert(binom(10, 3) == 120);
    assert(binom(10, 4) == 210);
    assert(binom(10, 5) == 252);
    assert(binom(10, -1) == 0);
    assert(binom(11, 0) == 1);
    assert(binom(11, 1) == 11);
    assert(binom(11, 2) == 55);
    assert(binom(11, 3) == 165);
    assert(binom(11, 4) == 330);
    assert(binom(11, 5) == 462);
    assert(binom(11, -1) == 0);
    assert(binom(12, 0) == 1);
    assert(binom(12, 1) == 12);
    assert(binom(12, 2) == 66);
    assert(binom(12, 3) == 220);
    assert(binom(12, 4) == 495);
    assert(binom(12, 5) == 792);
    assert(binom(12, -1) == 0);
    assert(binom(13, 0) == 1);
    assert(binom(13, 1) == 13);
    assert(binom(13, 2) == 78);
    assert(binom(13, 3) == 286);
    assert(binom(13, 4) == 715);
    assert(binom(13, 5) == 1287);
}

/// The ten straight masks hold five bits each.
/// The rank bits of the ten straight masks.
proof fn lemma_straight_mask_bits()
    ensures
        (((4111u32 >> 0u32) & 1u32 == 1u32) && ((4111u32 >> 1u32) & 1u32 == 1u32) && ((4111u32 >> 2u32) & 1u32 == 1u32) && ((4111u32 >> 3u32) & 1u32 == 1u32) && ((4111u32 >> 4u32) & 1u32 == 0u32) && ((4111u32 >> 5u32) & 1u32 == 0u32) && ((4111u32 >> 6u32) & 1u32 == 0u32) && ((4111u32 >> 7u32) & 1u32 == 0u32) && ((4111u32 >> 8u32) & 1u32 == 0u32) && ((4111u32 >> 9u32) & 1u32 == 0u32) && ((4111u32 >> 10u32) & 1u32 == 0u32) && ((4111u32 >> 11u32) & 1u32 == 0u32) && ((4111u32 >> 12u32) & 1u32 == 1u32)) &&
        (((31u32 >> 0u32) & 1u32 == 1u32) && ((31u32 >> 1u32) & 1u32 == 1u32) && ((31u32 >> 2u32) & 1u32 == 1u32) && ((31u32 >> 3u32) & 1u32 == 1u32) && ((31u32 >> 4u32) & 1u32 == 1u32) && ((31u32 >> 5u32) & 1u32 == 0u32) && ((31u32 >> 6u32) & 1u32 == 0u32) && ((31u32 >> 7u32) & 1u32 == 0u32) && ((31u32 >> 8u32) & 1u32 == 0u32) && ((31u32 >> 9u32) & 1u32 == 0u32) && ((31u32 >> 10u32) & 1u32 == 0u32) && ((31u32 >> 11u32) & 1u32 == 0u32) && ((31u32 >> 12u32) & 1u32 == 0u32)) &&
        (((62u32 >> 0u32) & 1u32 == 0u32) && ((62u32 >> 1u32) & 1u32 == 1u32) && ((62u32 >> 2u32) & 1u32 == 1u32) && ((62u32 >> 3u32) & 1u32 == 1u32) && ((62u32 >> 4u32) & 1u32 == 1u32) && ((62u32 >> 5u32) & 1u32 == 1u32) && ((62u32 >> 6u32) & 1u32 == 0u32) && ((62u32 >> 7u32) & 1u32 == 0u32) && ((62u32 >> 8u32) & 1u32 == 0u32) && ((62u32 >> 9u32) & 1u32 == 0u32) && ((62u32 >> 10u32) & 1u32 == 0u32) && ((62u32 >> 11u32) & 1u32 == 0u32) && ((62u32 >> 12u32) & 1u32 == 0u32)) &&
        (((124u32 >> 0u32) & 1u32 == 0u32) && ((124u32 >> 1u32) & 1u32 == 0u32) && ((124u32 >> 2u32) & 1u32 == 1u32) && ((124u32 >> 3u32) & 1u32 == 1u32) && ((124u32 >> 4u32) & 1u32 == 1u32) && ((124u32 >> 5u32) & 1u32 == 1u32) && ((124u32 >> 6u32) & 1u32 == 1u32) && ((124u32 >> 7u32) & 1u32 == 0u32) && ((124u32 >> 8u32) & 1u32 == 0u32) && ((124u32 >> 9u32) & 1u32 == 0u32) && ((124u32 >> 10u32) & 1u32 == 0u32) && ((124u32 >> 11u32) & 1u32 == 0u32) && ((124u32 >> 12u32) & 1u32 == 0u32)) &&
        (((248u32 >> 0u32) & 1u32 == 0u32) && ((248u32 >> 1u32) & 1u32 == 0u32) && ((248u32 >> 2u32) & 1u32 == 0u32) && ((248u32 >> 3u32) & 1u32 == 1u32) && ((248u32 >> 4u32) & 1u32 == 1u32) && ((248u32 >> 5u32) & 1u32 == 1u32) && ((248u32 >> 6u32) & 1u32 == 1u32) && ((248u32 >> 7u32) & 1u32 == 1u32) && ((248u32 >> 8u32) & 1u32 == 0u32) && ((248u32 >> 9u32) & 1u32 == 0u32) && ((248u32 >> 10u32) & 1u32 == 0u32) && ((248u32 >> 11u32) & 1u32 == 0u32) && ((248u32 >> 12u32) & 1u32 == 0u32)) &&
        (((496u32 >> 0u32) & 1u32 == 0u32) && ((496u32 >> 1u32) & 1u32 == 0u32) && ((496u32 >> 2u32) & 1u32 == 0u32) && ((496u32 >> 3u32) & 1u32 == 0u32) && ((496u32 >> 4u32) & 1u32 == 1u32) && ((496u32 >> 5u32) & 1u32 == 1u32) && ((496u32 >> 6u32) & 1u32 == 1u32) && ((496u32 >> 7u32) & 1u32 == 1u32) && ((496u32 >> 8u32) & 1u32 == 1u32) && ((496u32 >> 9u32) & 1u32 == 0u32) && ((496u32 >> 10u32) & 1u32 == 0u32) && ((496u32 >> 11u32) & 1u32 == 0u32) && ((496u32 >> 12u32) & 1u32 == 0u32)) &&
        (((992u32 >> 0u32) & 1u32 == 0u32) && ((992u32 >> 1u32) & 1u32 == 0u32) && ((992u32 >> 2u32) & 1u32 == 0u32) && ((992u32 >> 3u32) & 1u32 == 0u32) && ((992u32 >> 4u32) & 1u32 == 0u32) && ((992u32 >> 5u32) & 1u32 == 1u32) && ((992u32 >> 6u32) & 1u32 == 1u32) && ((992u32 >> 7u32) & 1u32 == 1u32) && ((992u32 >> 8u32) & 1u32 == 1u32) && ((992u32 >> 9u32) & 1u32 == 1u32) && ((992u32 >> 10u32) & 1u32 == 0u32) && ((992u32 >> 11u32) & 1u32 == 0u32) && ((992u32 >> 12u32) & 1u32 == 0u32)) &&
        (((1984u32 >> 0u32) & 1u32 == 0u32) && ((1984u32 >> 1u32) & 1u32 == 0u32) && ((1984u32 >> 2u32) & 1u32 == 0u32) && ((1984u32 >> 3u32) & 1u32 == 0u32) && ((1984u32 >> 4u32) & 1u32 == 0u32) && ((1984u32 >> 5u32) & 1u32 == 0u32) && ((1984u32 >> 6u32) & 1u32 == 1u32) && ((1984u32 >> 7u32) & 1u32 == 1u32) && ((1984u32 >> 8u32) & 1u32 == 1u32) && ((1984u32 >> 9u32) & 1u32 == 1u32) && ((1984u32 >> 10u32) & 1u32 == 1u32) && ((1984u32 >> 11u32) & 1u32 == 0u32) && ((1984u32 >> 12u32) & 1u32 == 0u32)) &&
        (((3968u32 >> 0u32) & 1u32 == 0u32) && ((3968u32 >> 1u32) & 1u32 == 0u32) && ((3968u32 >> 2u32) & 1u32 == 0u32) && ((3968u32 >> 3u32) & 1u32 == 0u32) && ((3968u32 >> 4u32) & 1u32 == 0u32) && ((3968u32 >> 5u32) & 1u32 == 0u32) && ((3968u32 >> 6u32) & 1u32 == 0u32) && ((3968u32 >> 7u32) & 1u32 == 1u32) && ((3968u32 >> 8u32) & 1u32 == 1u32) && ((3968u32 >> 9u32) & 1u32 == 1u32) && ((3968u32 >> 10u32) & 1u32 == 1u32) && ((3968u32 >> 11u32) & 1u32 == 1u32) && ((3968u32 >> 12u32) & 1u32 == 0u32)) &&
        (((7936u32 >> 0u32) & 1u32 == 0u32) && ((7936u32 >> 1u32) & 1u32 == 0u32) && ((7936u32 >> 2u32) & 1u32 == 0u32) && ((7936u32 >> 3u32) & 1u32 == 0u32) && ((7936u32 >> 4u32) & 1u32 == 0u32) && ((7936u32 >> 5u32) & 1u32 == 0u32) && ((7936u32 >> 6u32) & 1u32 == 0u32) && ((7936u32 >> 7u32) & 1u32 == 0u32) && ((7936u32 >> 8u32) & 1u32 == 1u32) && ((7936u32 >> 9u32) & 1u32 == 1u32) && ((7936u32 >> 10u32) & 1u32 == 1u32) && ((7936u32 >> 11u32) & 1u32 == 1u32) && ((7936u32 >> 12u32) & 1u32 == 1u32)),
{
    assert((((4111u32 >> 0u32) & 1u32 == 1u32) && ((4111u32 >> 1u32) & 1u32 == 1u32) && ((4111u32 >> 2u32) & 1u32 == 1u32) && ((4111u32 >> 3u32) & 1u32 == 1u32) && ((4111u32 >> 4u32) & 1u32 == 0u32) && ((4111u32 >> 5u32) & 1u32 == 0u32) && ((4111u32 >> 6u32) & 1u32 == 0u32) && ((4111u32 >> 7u32) & 1u32 == 0u32) && ((4111u32 >> 8u32) & 1u32 == 0u32) && ((4111u32 >> 9u32) & 1u32 == 0u32) && ((4111u32 >> 10u32) & 1u32 == 0u32) && ((4111u32 >> 11u32) & 1u32 == 0u32) && ((4111u32 >> 12u32) & 1u32 == 1u32)) &&
        (((31u32 >> 0u32) & 1u32 == 1u32) && ((31u32 >> 1u32) & 1u32 == 1u32) && ((31u32 >> 2u32) & 1u32 == 1u32) && ((31u32 >> 3u32) & 1u32 == 1u32) && ((31u32 >> 4u32) & 1u32 == 1u32) && ((31u32 >> 5u32) & 1u32 == 0u32) && ((31u32 >> 6u32) & 1u32 == 0u32) && ((31u32 >> 7u32) & 1u32 == 0u32) && ((31u32 >> 8u32) & 1u32 == 0u32) && ((31u32 >> 9u32) & 1u32 == 0u32) && ((31u32 >> 10u32) & 1u32 == 0u32) && ((31u32 >> 11u32) & 1u32 == 0u32) && ((31u32 >> 12u32) & 1u32 == 0u32)) &&
        (((62u32 >> 0u32) & 1u32 == 0u32) && ((62u32 >> 1u32) & 1u32 == 1u32) && ((62u32 >> 2u32) & 1u32 == 1u32) && ((62u32 >> 3u32) & 1u32 == 1u32) && ((62u32 >> 4u32) & 1u32 == 1u32) && ((62u32 >> 5u32) & 1u32 == 1u32) && ((62u32 >> 6u32) & 1u32 == 0u32) && ((62u32 >> 7u32) & 1u32 == 0u32) && ((62u32 >> 8u32) & 1u32 == 0u32) && ((62u32 >> 9u32) & 1u32 == 0u32) && ((62u32 >> 10u32) & 1u32 == 0u32) && ((62u32 >> 11u32) & 1u32 == 0u32) && ((62u32 >> 12u32) & 1u32 == 0u32)) &&
        (((124u32 >> 0u32) & 1u32 == 0u32) && ((124u32 >> 1u32) & 1u32 == 0u32) && ((124u32 >> 2u32) & 1u32 == 1u32) && ((124u32 >> 3u32) & 1u32 == 1u32) && ((124u32 >> 4u32) & 1u32 == 1u32) && ((124u32 >> 5u32) & 1u32 == 1u32) && ((124u32 >> 6u32) & 1u32 == 1u32) && ((124u32 >> 7u32) & 1u32 == 0u32) && ((124u32 >> 8u32) & 1u32 == 0u32) && ((124u32 >> 9u32) & 1u32 == 0u32) && ((124u32 >> 10u32) & 1u32 == 0u32) && ((124u32 >> 11u32) & 1u32 == 0u32) && ((124u32 >> 12u32) & 1u32 == 0u32)) &&
        (((248u32 >> 0u32) & 1u32 == 0u32) && ((248u32 >> 1u32) & 1u32 == 0u32) && ((248u32 >> 2u32) & 1u32 == 0u32) && ((248u32 >> 3u32) & 1u32 == 1u32) && ((248u32 >> 4u32) & 1u32 == 1u32) && ((248u32 >> 5u32) & 1u32 == 1u32) && ((248u32 >> 6u32) & 1u32 == 1u32) && ((248u32 >> 7u32) & 1u32 == 1u32) && ((248u32 >> 8u32) & 1u32 == 0u32) && ((248u32 >> 9u32) & 1u32 == 0u32) && ((248u32 >> 10u32) & 1u32 == 0u32) && ((248u32 >> 11u32) & 1u32 == 0u32) && ((248u32 >> 12u32) & 1u32 == 0u32)) &&
        (((496u32 >> 0u32) & 1u32 == 0u32) && ((496u32 >> 1u32) & 1u32 == 0u32) && ((496u32 >> 2u32) & 1u32 == 0u32) && ((496u32 >> 3u32) & 1u32 == 0u32) && ((496u32 >> 4u32) & 1u32 == 1u32) && ((496u32 >> 5u32) & 1u32 == 1u32) && ((496u32 >> 6u32) & 1u32 == 1u32) && ((496u32 >> 7u32) & 1u32 == 1u32) && ((496u32 >> 8u32) & 1u32 == 1u32) && ((496u32 >> 9u32) & 1u32 == 0u32) && ((496u32 >> 10u32) & 1u32 == 0u32) && ((496u32 >> 11u32) & 1u32 == 0u32) && ((496u32 >> 12u32) & 1u32 == 0u32)) &&
        (((992u32 >> 0u32) & 1u32 == 0u32) && ((992u32 >> 1u32) & 1u32 == 0u32) && ((992u32 >> 2u32) & 1u32 == 0u32) && ((992u32 >> 3u32) & 1u32 == 0u32) && ((992u32 >> 4u32) & 1u32 == 0u32) && ((992u32 >> 5u32) & 1u32 == 1u32) && ((992u32 >> 6u32) & 1u32 == 1u32) && ((992u32 >> 7u32) & 1u32 == 1u32) && ((992u32 >> 8u32) & 1u32 == 1u32) && ((992u32 >> 9u32) & 1u32 == 1u32) && ((992u32 >> 10u32) & 1u32 == 0u32) && ((992u32 >> 11u32) & 1u32 == 0u32) && ((992u32 >> 12u32) & 1u32 == 0u32)) &&
        (((1984u32 >> 0u32) & 1u32 == 0u32) && ((1984u32 >> 1u32) & 1u32 == 0u32) && ((1984u32 >> 2u32) & 1u32 == 0u32) && ((1984u32 >> 3u32) & 1u32 == 0u32) && ((1984u32 >> 4u32) & 1u32 == 0u32) && ((1984u32 >> 5u32) & 1u32 == 0u32) && ((1984u32 >> 6u32) & 1u32 == 1u32) && ((1984u32 >> 7u32) & 1u32 == 1u32) && ((1984u32 >> 8u32) & 1u32 == 1u32) && ((1984u32 >> 9u32) & 1u32 == 1u32) && ((1984u32 >> 10u32) & 1u32 == 1u32) && ((1984u32 >> 11u32) & 1u32 == 0u32) && ((1984u32 >> 12u32) & 1u32 == 0u32)) &&
        (((3968u32 >> 0u32) & 1u32 == 0u32) && ((3968u32 >> 1u32) & 1u32 == 0u32) && ((3968u32 >> 2u32) & 1u32 == 0u32) && ((3968u32 >> 3u32) & 1u32 == 0u32) && ((3968u32 >> 4u32) & 1u32 == 0u32) && ((3968u32 >> 5u32) & 1u32 == 0u32) && ((3968u32 >> 6u32) & 1u32 == 0u32) && ((3968u32 >> 7u32) & 1u32 == 1u32) && ((3968u32 >> 8u32) & 1u32 == 1u32) && ((3968u32 >> 9u32) & 1u32 == 1u32) && ((3968u32 >> 10u32) & 1u32 == 1u32) && ((3968u32 >> 11u32) & 1u32 == 1u32) && ((3968u32 >> 12u32) & 1u32 == 0u32)) &&
        (((7936u32 >> 0u32) & 1u32 == 0u32) && ((7936u32 >> 1u32) & 1u32 == 0u32) && ((7936u32 >> 2u32) & 1u32 == 0u32) && ((7936u32 >> 3u32) & 1u32 == 0u32) && ((7936u32 >> 4u32) & 1u32 == 0u32) && ((7936u32 >> 5u32) & 1u32 == 0u32) && ((7936u32 >> 6u32) & 1u32 == 0u32) && ((7936u32 >> 7u32) & 1u32 == 0u32) && ((7936u32 >> 8u32) & 1u32 == 1u32) && ((7936u32 >> 9u32) & 1u32 == 1u32) && ((7936u32 >> 10u32) & 1u32 == 1u32) && ((7936u32 >> 11u32) & 1u32 == 1u32) && ((7936u32 >> 12u32) & 1u32 == 1u32))) by (bit_vector);
}

proof fn lemma_straights_five_bits()
    ensures
        forall|m: u32| is_straight_mask(m) ==> bits_below(m, 13) == 5,
{
    reveal_with_fuel(bits_below, 14);
    lemma_straight_mask_bits();
    assert(bits_below(4111, 13) == 5);
    assert(bits_below(31, 13) == 5);
    assert(bits_below(62, 13) == 5);
    assert(bits_below(124, 13) == 5);
    assert(bits_below(248, 13) == 5);
    assert(bits_below(496, 13) == 5);
    assert(bits_below(992, 13) == 5);
    assert(bits_below(1984, 13) == 5);
    assert(bits_below(3968, 13) == 5);
    assert(bits_below(7936, 13) == 5);
}

proof fn lemma_straights_below(n: int)
    requires
        0 <= n <= 8192,
    ensures
        straights_below(n) == (if 4111 < n { 1int } else { 0int }) + (if 31 < n { 1int } else { 0int }) + (if 62 < n { 1int } else { 0int }) + (if 124 < n { 1int } else { 0int }) + (if 248 < n { 1int } else { 0int }) + (if 496 < n { 1int } else { 0int }) + (if 992 < n { 1int } else { 0int }) + (if 1984 < n { 1int } else { 0int }) + (if 3968 < n { 1int } else { 0int }) + (if 7936 < n { 1int } else { 0int }),
    decreases n,
{
    if n > 0 {
        lemma_straights_below(n - 1);
    }
}

proof fn lemma_five_masks_split(n: int)
    requires
        0 <= n <= 8192,
    ensures
        nonstraight_below(n) + straights_below(n) == masks_with_bits(n, 5),
    decreases n,
{
    if n > 0 {
        lemma_five_masks_split(n - 1);
        lemma_straights_five_bits();
    }
}

proof fn lemma_nonstraight_monotone(a: int, b: int)
    requires
        0 <= a <= b,
    ensures
        nonstraight_below(a) <= nonstraight_below(b),
    decreases b - a,
{
    if a < b {
        lemma_nonstraight_monotone(a, b - 1);
    }
}

/// A five-rank mask that is no straight has at most 1276 such masks below it,
/// as there are 1277 in all.
pub proof fn lemma_nonstraight_below_most(m: u32)
    requires
        is_five_mask(m),
        !is_straight_mask(m),
    ensures
        nonstraight_below(m as int) <= 1276,
{
    lemma_masks_binom(13, 5);
    assert((1u32 << 13u8) == 8192u32) by (bit_vector);
    lemma_binom_table();
    lemma_five_masks_split(8192);
    lemma_straights_below(8192);
    lemma_nonstraight_monotone(m as int + 1, 8192);
    assert(nonstraight_below(m as int + 1) == nonstraight_below(m as int) + 1);
}

/// The score bands of five cards of five different ranks: a straight flush
/// scores 7453 to 7462, any other flush 5864 to 7140, a straight 5854 to
/// 5863, and a high-card hand 1 to 1277.
pub proof fn lemma_five_distinct_rank_bands(tables: HandLookupArrays, h: Seq<Card>)
    requires
        tables.wf(),
        h.len() == 5,
        forall|a: int, b: int| 0 <= a < b < 5 ==> h[a].rank != h[b].rank,
    ensures
        ({
            let v = tables.spec_evaluate_five(h);
            let m = rank_mask5(h);
            &&& same_suit5(h) && is_straight_mask(m) ==> 7453 <= v <= 7462
            &&& same_suit5(h) && !is_straight_mask(m) ==> 5864 <= v <= 7140
            &&& !same_suit5(h) && is_straight_mask(m) ==> 5854 <= v <= 5863
            &&& !same_suit5(h) && !is_straight_mask(m) ==> 1 <= v <= 1277
        }),
{
    let ids = Seq::new(5, |k: int| card_id(h[k]));
    lemma_unique_rank_mask(h, ids, 0, 0);
    let m = rank_mask5(h);
    assert(is_five_mask(m));
    assert(m <= 7936);
    if !is_straight_mask(m) {
        lemma_nonstraight_below_most(m);
    }
    assert(tables.flushes_lookup@[m as int] == crate::evaluate::generate_tables::generate_flush_table::unique_five_entry(m, 5864, 7453));
    assert(tables.unique_ranks_lookup@[m as int] == crate::evaluate::generate_tables::generate_flush_table::unique_five_entry(m, 1, 5854));
}

/// The highest rank number below `n` whose bit a rank mask holds; -1 for none.
pub open spec fn highest_rank_in_mask(m: u32, n: int) -> int
    decreases n,
{
    if n <= 0 {
        -1
    } else if mask_has_rank(m, n - 1) {
        n - 1
    } else {
        highest_rank_in_mask(m, n - 1)
    }
}

/// The top card of a straight: its highest rank, except for the wheel (ace
/// to five), where the ace plays low and the five is the top card.
pub open spec fn straight_top_rank(m: u32) -> int {
    if mask_has_rank(m, 12) && mask_has_rank(m, 0) {
        3
    } else {
        highest_rank_in_mask(m, 13)
    }
}

proof fn lemma_straight_top(m: u32)
    requires
        is_straight_mask(m),
    ensures
        straight_top_rank(m) == straight_order(m) + 3,
        is_five_mask(m),
{
    lemma_straight_mask_bits();
    lemma_straights_five_bits();
    reveal_with_fuel(highest_rank_in_mask, 14);
}

/// Straights rank by their top card: of two straights, the one with the
/// higher top card (the wheel's top card being the five) has the higher
/// entry, in any table of five distinct ranks, so in the flush table (straight
/// flushes) and in the table of non-flush hands (straights).
pub proof fn lemma_straights_ordered_by_top_card(tables: HandLookupArrays, m1: u32, m2: u32, lower: int, upper: int)
    requires
        is_straight_mask(m1),
        is_straight_mask(m2),
        straight_top_rank(m1) < straight_top_rank(m2),
    ensures
        unique_five_entry(m1, lower, upper) < unique_five_entry(m2, lower, upper),
        tables.wf() ==> tables.flushes_lookup@[m1 as int] < tables.flushes_lookup@[m2 as int],
        tables.wf() ==> tables.unique_ranks_lookup@[m1 as int] < tables.unique_ranks_lookup@[m2 as int],
{
    lemma_straight_top(m1);
    lemma_straight_top(m2);
}

} // verus!
