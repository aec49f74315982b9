use crate::evaluate::evaluate_hand::BIT_REP_LIMIT;
use crate::models::card::{Card, Rank, Suit};
use crate::models::combinations::{
    combinations_of_range, lemma_combinations_from_shape, spec_combinations,
};
use vstd::prelude::*;

verus! {

/// Whether bit `r` of a rank mask is set.
pub open spec fn mask_has_rank(m: u32, r: int) -> bool {
    (m >> (r as u32)) & 1u32 == 1u32
}

/// The number of set bits among the lowest `n` bits of a rank mask.
pub open spec fn bits_below(m: u32, n: int) -> nat
    decreases n,
{
    if n <= 0 {
        0
    } else {
        bits_below(m, n - 1) + if mask_has_rank(m, n - 1) {
            1nat
        } else {
            0nat
        }
    }
}

/// A rank mask of five distinct ranks: five of the thirteen rank bits set and
/// no other bit.
pub open spec fn is_five_mask(m: u32) -> bool {
    m < 8192 && bits_below(m, 13) == 5
}

/// The rank masks of the ten straights: five consecutive ranks, or the wheel
/// A-2-3-4-5.
pub open spec fn is_straight_mask(m: u32) -> bool {
    m == 4111 || m == 31 || m == 62 || m == 124 || m == 248 || m == 496 || m == 992 || m == 1984
        || m == 3968 || m == 7936
}

/// The strength order of a straight among the ten: the wheel is 0, the straight
/// whose lowest card has number `k` is `k + 1`.
pub open spec fn straight_order(m: u32) -> int {
    if m == 4111 {
        0
    } else if m == 31 {
        1
    } else if m == 62 {
        2
    } else if m == 124 {
        3
    } else if m == 248 {
        4
    } else if m == 496 {
        5
    } else if m == 992 {
        6
    } else if m == 1984 {
        7
    } else if m == 3968 {
        8
    } else {
        9
    }
}

/// The number of rank masks below `n` with five distinct ranks that are not a
/// straight.
pub open spec fn nonstraight_below(n: int) -> nat
    decreases n,
{
    if n <= 0 {
        0
    } else {
        nonstraight_below(n - 1) + if is_five_mask((n - 1) as u32) && !is_straight_mask(
            (n - 1) as u32,
        ) {
            1nat
        } else {
            0nat
        }
    }
}

/// The entry of a table of five distinct ranks at rank mask `m`: zero unless
/// `m` has five distinct ranks; the straights take `upper` onwards in strength
/// order; every other hand takes `lower` onwards in the order of its mask,
/// which is the order of its high cards.
pub open spec fn unique_five_entry(m: u32, lower: int, upper: int) -> int {
    if !is_five_mask(m) {
        0
    } else if is_straight_mask(m) {
        upper + straight_order(m)
    } else {
        lower + nonstraight_below(m as int)
    }
}

proof fn lemma_nonstraight_below_bound(n: int)
    requires
        n >= 0,
    ensures
        nonstraight_below(n) <= n,
    decreases n,
{
    if n > 0 {
        lemma_nonstraight_below_bound(n - 1);
    }
}

/// Counts the rank bits set in a mask.
fn count_rank_bits(m: u32) -> (c: u32)
    ensures
        c == bits_below(m, 13),
{
    let mut c: u32 = 0;
    let mut r: u32 = 0;
    while r < 13
        invariant
            r <= 13,
            c == bits_below(m, r as int),
            c <= r,
        decreases 13 - r,
    {
        if (m >> r) & 1u32 == 1u32 {
            c = c + 1;
        }
        r = r + 1;
    }
    c
}

/// The strength order of a straight's rank mask, or `None` for another mask.
fn straight_order_of(m: u32) -> (o: Option<u16>)
    ensures
        o is Some <==> is_straight_mask(m),
        o matches Some(k) ==> k == straight_order(m),
{
    match m {
        4111 => Some(0),
        31 => Some(1),
        62 => Some(2),
        124 => Some(3),
        248 => Some(4),
        496 => Some(5),
        992 => Some(6),
        1984 => Some(7),
        3968 => Some(8),
        7936 => Some(9),
        _ => None,
    }
}

/// All hands of `num_cards` distinct ranks, one card per rank, in the
/// lexicographic order of their rank numbers; each card's suit is drawn at
/// random.
pub fn generate_all_unique_rank_combos(num_cards: usize) -> (combos: Vec<Vec<Card>>)
    ensures
        combos@.len() == spec_combinations(13, num_cards as nat).len(),
        forall|i: int|
            0 <= i < combos@.len() ==> {
                &&& (#[trigger] combos@[i])@.len() == spec_combinations(13, num_cards as nat)[i].len()
                &&& forall|j: int|
                    0 <= j < combos@[i]@.len() ==> (#[trigger] combos@[i]@[j]).rank.spec_to_int()
                        == spec_combinations(13, num_cards as nat)[i][j]
            },
{
    let ranks = combinations_of_range(13, num_cards);
    proof {
        lemma_combinations_from_shape(0, 13, num_cards as nat);
        assert forall|a: int, b: int|
            0 <= a < ranks@.len() && 0 <= b < ranks@[a]@.len() implies ranks@[a]@[b] < 13 by {
            assert(ranks.deep_view()[a] == ranks@[a]@);
        }
    }
    let mut combos: Vec<Vec<Card>> = Vec::new();
    let mut i: usize = 0;
    while i < ranks.len()
        invariant
            i <= ranks@.len(),
            ranks.deep_view() == spec_combinations(13, num_cards as nat),
            combos@.len() == i,
            forall|a: int, b: int|
                0 <= a < ranks@.len() && 0 <= b < ranks@[a]@.len() ==> ranks@[a]@[b] < 13,
            forall|k: int|
                0 <= k < i ==> {
                    &&& (#[trigger] combos@[k])@.len() == ranks@[k]@.len()
                    &&& forall|j: int|
                        0 <= j < combos@[k]@.len() ==> (#[trigger] combos@[k]@[j]).rank.spec_to_int()
                            == ranks@[k]@[j]
                },
        decreases ranks@.len() - i,
    {
        let combo = &ranks[i];
        let mut cards: Vec<Card> = Vec::new();
        let mut j: usize = 0;
        while j < combo.len()
            invariant
                j <= combo@.len(),
                combo@ == ranks@[i as int]@,
                forall|b: int| 0 <= b < combo@.len() ==> combo@[b] < 13,
                cards@.len() == j,
                forall|b: int| 0 <= b < j ==> (#[trigger] cards@[b]).rank.spec_to_int() == combo@[b],
            decreases combo@.len() - j,
        {
            let rank = combo[j];
            cards.push(Card::new(Suit::random(), Rank::from_int(rank as u8)));
            j = j + 1;
        }
        combos.push(cards);
        proof {
            assert(ranks.deep_view()[i as int] == ranks@[i as int]@);
        }
        i = i + 1;
    }
    proof {
        assert forall|i: int| 0 <= i < combos@.len() implies (#[trigger] combos@[i])@.len()
            == spec_combinations(13, num_cards as nat)[i].len() by {
            assert(ranks.deep_view()[i] == ranks@[i]@);
        }
        assert forall|i: int, j: int|
            0 <= i < combos@.len() && 0 <= j < combos@[i]@.len() implies (#[trigger] combos@[i]@[
            j]).rank.spec_to_int() == spec_combinations(13, num_cards as nat)[i][j] by {
            assert(ranks.deep_view()[i] == ranks@[i]@);
        }
    }
    combos
}

/// A table of the hands of five distinct ranks, indexed by rank mask: the
/// hands that are not straights take the entries from `lower_take_index`
/// onwards in the order of their masks, the ten straights take the entries from
/// `upper_take_index` onwards in strength order, every other entry is zero.
pub fn generate_unique_fives(lower_take_index: usize, upper_take_index: usize) -> (table: Vec<u16>)
    requires
        lower_take_index + BIT_REP_LIMIT + 1 <= u16::MAX,
        upper_take_index + 10 <= u16::MAX,
    ensures
        table@.len() == BIT_REP_LIMIT + 1,
        forall|m: int|
            0 <= m <= BIT_REP_LIMIT ==> table@[m] == unique_five_entry(
                m as u32,
                lower_take_index as int,
                upper_take_index as int,
            ),
{
    let mut table: Vec<u16> = vec![0u16; BIT_REP_LIMIT + 1];
    let mut count: usize = 0;
    let mut m: u32 = 0;
    while m < 7938
        invariant
            m <= 7938,
            table@.len() == BIT_REP_LIMIT + 1,
            count == nonstraight_below(m as int),
            count <= m,
            lower_take_index + BIT_REP_LIMIT + 1 <= u16::MAX,
            upper_take_index + 10 <= u16::MAX,
            forall|j: int|
                0 <= j < m ==> table@[j] == unique_five_entry(
                    j as u32,
                    lower_take_index as int,
                    upper_take_index as int,
                ),
            forall|j: int| m <= j < BIT_REP_LIMIT + 1 ==> table@[j] == 0,
        decreases 7938 - m,
    {
        let bits = count_rank_bits(m);
        if bits == 5 {
            match straight_order_of(m) {
                Some(order) => {
                    table.set(m as usize, (upper_take_index as u16) + order);
                },
                None => {
                    table.set(m as usize, (lower_take_index + count) as u16);
                    count = count + 1;
                },
            }
        }
        m = m + 1;
    }
    table
}

/// The flush table: the non-straight flushes take 5864 to 7140 and the straight
/// flushes 7453 to 7462.
pub fn generate_flushes_table() -> (table: Vec<u16>)
    ensures
        table@.len() == BIT_REP_LIMIT + 1,
        forall|m: int| 0 <= m <= BIT_REP_LIMIT ==> table@[m] == unique_five_entry(m as u32, 5864, 7453),
{
    let lower_take_index = 5863 + 1;
    let upper_take_index = 7452 + 1;
    generate_unique_fives(lower_take_index, upper_take_index)
}

/// Whether the hand holds five consecutive ranks, the ace counting low too.
pub open spec fn holds_straight(hand: Seq<Card>) -> bool {
    exists|s: int| 0 <= s <= 9 && #[trigger] straight_from(hand, s)
}

/// Whether the hand holds the five rank positions from `s` on.
pub open spec fn straight_from(hand: Seq<Card>, s: int) -> bool {
    forall|k: int| s <= k < s + 5 ==> #[trigger] rank_pos_present(hand, k)
}

/// Whether the hand holds a card at rank position `k`: position 0 is the low
/// ace and position `r + 1` is the rank with number `r`.
pub open spec fn rank_pos_present(hand: Seq<Card>, k: int) -> bool {
    if k == 0 {
        exists|i: int| 0 <= i < hand.len() && hand[i].rank == Rank::Ace
    } else {
        exists|i: int| 0 <= i < hand.len() && hand[i].rank.spec_to_int() == k - 1
    }
}

/// The length of the run of present rank positions that ends at `k`.
pub open spec fn run_ending_at(hand: Seq<Card>, k: int) -> nat
    decreases k + 1,
{
    if k < 0 || !rank_pos_present(hand, k) {
        0
    } else {
        run_ending_at(hand, k - 1) + 1
    }
}

proof fn lemma_run_ending_at(hand: Seq<Card>, k: int, len: nat)
    requires
        0 <= k,
    ensures
        run_ending_at(hand, k) >= len <==> (k + 1 >= len && forall|j: int|
            k - len < j <= k ==> #[trigger] rank_pos_present(hand, j)),
    decreases len,
{
    if len > 0 {
        if rank_pos_present(hand, k) && k >= 1 {
            lemma_run_ending_at(hand, k - 1, (len - 1) as nat);
        }
        if rank_pos_present(hand, k) && k == 0 && len > 1 {
            assert(run_ending_at(hand, -1) == 0);
        }
    }
}

/// Counts the cards of the hand at every rank position: index 0 is the low
/// ace, index `r + 1` the rank with number `r`.
fn rank_positions(hand: &Vec<Card>) -> (present: Vec<bool>)
    ensures
        present@.len() == 14,
        forall|k: int| 0 <= k < 14 ==> present@[k] == rank_pos_present(hand@, k),
{
    let mut present: Vec<bool> = vec![false; 14];
    let mut i: usize = 0;
    while i < hand.len()
        invariant
            i <= hand@.len(),
            present@.len() == 14,
            forall|k: int|
                0 <= k < 14 ==> present@[k] == rank_pos_present(hand@.take(i as int), k),
        decreases hand@.len() - i,
    {
        let card = hand[i];
        let idx = 1 + card.rank.to_int() as usize;
        present.set(idx, true);
        if card.rank == Rank::Ace {
            present.set(0, true);
        }
        proof {
            let prev = hand@.take(i as int);
            let next = hand@.take(i + 1);
            assert forall|k: int| 0 <= k < 14 implies present@[k] == rank_pos_present(next, k) by {
                assert(next[i as int] == card);
                if rank_pos_present(prev, k) {
                    let w = choose|w: int|
                        0 <= w < prev.len() && (if k == 0 {
                            prev[w].rank == Rank::Ace
                        } else {
                            prev[w].rank.spec_to_int() == k - 1
                        });
                    assert(next[w] == prev[w]);
                }
                if rank_pos_present(next, k) {
                    let w = choose|w: int|
                        0 <= w < next.len() && (if k == 0 {
                            next[w].rank == Rank::Ace
                        } else {
                            next[w].rank.spec_to_int() == k - 1
                        });
                    if w < i {
                        assert(prev[w] == next[w]);
                    }
                }
            }
        }
        i = i + 1;
    }
    assert(hand@.take(hand@.len() as int) == hand@);
    present
}

/// Whether the hand holds a straight: five consecutive ranks, the ace counting
/// high and low.
pub fn is_straight(hand: &Vec<Card>) -> (b: bool)
    ensures
        b == holds_straight(hand@),
{
    let ranks = rank_positions(hand);
    let mut count: usize = 0;
    let mut k: usize = 0;
    while k < 14
        invariant
            k <= 14,
            ranks@.len() == 14,
            forall|j: int| 0 <= j < 14 ==> ranks@[j] == rank_pos_present(hand@, j),
            k == 0 ==> count == 0,
            k > 0 ==> count == run_ending_at(hand@, k - 1),
            count < 5,
            forall|j: int| 0 <= j < k ==> run_ending_at(hand@, j) < 5,
        decreases 14 - k,
    {
        if ranks[k] {
            count = count + 1;
        } else {
            count = 0;
        }
        proof {
            if k > 0 {
                assert(run_ending_at(hand@, k as int) == if rank_pos_present(hand@, k as int) {
                    run_ending_at(hand@, k - 1) + 1
                } else {
                    0
                });
            } else {
                assert(run_ending_at(hand@, -1) == 0);
            }
        }
        if count == 5 {
            proof {
                lemma_run_ending_at(hand@, k as int, 5);
                let s = k - 4;
                assert forall|j: int| s <= j < s + 5 implies #[trigger] rank_pos_present(hand@, j) by {}
                assert(straight_from(hand@, s as int));
            }
            return true;
        }
        k = k + 1;
    }
    proof {
        if holds_straight(hand@) {
            let s = choose|s: int| 0 <= s <= 9 && #[trigger] straight_from(hand@, s);
            lemma_run_ending_at(hand@, s + 4, 5);
            assert(run_ending_at(hand@, s + 4) < 5);
        }
    }
    false
}

/// The product of the rank numbers of a hand (Two counts as 0, Ace as 12).
pub open spec fn rank_int_product(hand: Seq<Card>) -> int
    decreases hand.len(),
{
    if hand.len() == 0 {
        1
    } else {
        rank_int_product(hand.drop_last()) * hand.last().rank.spec_to_int()
    }
}

/// Whether the hand holds an ace.
pub open spec fn has_ace(hand: Seq<Card>) -> bool {
    exists|i: int| 0 <= i < hand.len() && hand[i].rank == Rank::Ace
}

/// The strength of a straight: 0 for the wheel, otherwise one more than the
/// product of the rank numbers.
pub open spec fn straight_value(hand: Seq<Card>) -> int {
    if rank_int_product(hand) == 0 && has_ace(hand) {
        0
    } else {
        rank_int_product(hand) + 1
    }
}

/// The strength of a straight: 0 when a Two and an Ace are both held (the
/// wheel), otherwise one more than the product of the rank numbers.
pub fn evaluate_straight(hand: &Vec<Card>) -> (v: u32)
    requires
        forall|i: int| 0 <= i <= hand@.len() ==> rank_int_product(#[trigger] hand@.take(i)) < u32::MAX,
    ensures
        v == straight_value(hand@),
{
    let mut prod: u32 = 1;
    let mut ace = false;
    let mut i: usize = 0;
    while i < hand.len()
        invariant
            i <= hand@.len(),
            forall|k: int| 0 <= k <= hand@.len() ==> rank_int_product(#[trigger] hand@.take(k)) < u32::MAX,
            prod == rank_int_product(hand@.take(i as int)),
            ace == has_ace(hand@.take(i as int)),
        decreases hand@.len() - i,
    {
        let card = hand[i];
        proof {
            let next = hand@.take(i + 1);
            assert(next.drop_last() == hand@.take(i as int));
            assert(next.last() == card);
            assert(rank_int_product(next) < u32::MAX);
        }
        prod = prod * card.rank.to_int() as u32;
        if card.rank == Rank::Ace {
            ace = true;
        }
        proof {
            let prev = hand@.take(i as int);
            let next = hand@.take(i + 1);
            if has_ace(prev) {
                let w = choose|w: int| 0 <= w < prev.len() && prev[w].rank == Rank::Ace;
                assert(next[w] == prev[w]);
            }
            if has_ace(next) {
                let w = choose|w: int| 0 <= w < next.len() && next[w].rank == Rank::Ace;
                if w < i {
                    assert(prev[w] == next[w]);
                }
            }
        }
        i = i + 1;
    }
    assert(hand@.take(hand@.len() as int) == hand@);
    if prod == 0 && ace {
        return 0;
    }
    prod + 1
}

} // verus!
