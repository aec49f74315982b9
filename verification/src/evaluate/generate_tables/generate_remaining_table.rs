use super::remaining_hand_types::{
    classify_hand_type, evaluate_four_of_a_kind, evaluate_full_house, evaluate_pair,
    evaluate_three_of_a_kind, evaluate_two_pair, hand_type_of, highest_with_count,
    kicker_product, lemma_lowest_highest_bounds, lowest_with_count, one_rank_value, rank_count,
    rank_prime_product, ranks_of, skipped, two_rank_value, HandType,
};
use crate::evaluate::evaluate_hand::{hand_to_unique_prime_product, REMAINING_LOOKUP_PRODUCT};
use crate::models::card::{Card, Rank, Suit};
use crate::models::combinations::{
    lemma_multisets_from_shape, multisets_from, multisets_of_range, spec_multisets,
};
use vstd::prelude::*;

verus! {

/// The first entry of the pairs: the 1277 high-card hands take 1 to 1277.
pub const PAIR_OFFSET: usize = 1278;

/// The first entry of two pair, after the 2860 pairs.
pub const TWO_PAIR_OFFSET: usize = 4138;

/// The first entry of trips, after the 858 two-pair hands.
pub const THREE_OF_A_KIND_OFFSET: usize = 4996;

/// The first entry of the full houses, after the 858 trips, the 10 straights
/// and the 1277 flushes.
pub const FULL_HOUSE_OFFSET: usize = 7141;

/// The first entry of quads, after the 156 full houses.
pub const FOUR_OF_A_KIND_OFFSET: usize = 7297;

/// The class of a made hand: 1 pair, 2 two pair, 3 trips, 4 full house,
/// 5 quads, 0 none.
pub open spec fn class_code(ranks: Seq<Rank>) -> u8 {
    match hand_type_of(ranks) {
        HandType::Pair(_) => 1,
        HandType::TwoPair(_, _) => 2,
        HandType::ThreeOfAKind(_) => 3,
        HandType::FullHouse(_, _) => 4,
        HandType::FourOfAKind(_) => 5,
        HandType::NoMadeHand => 0,
    }
}

/// The first table entry of a class.
pub open spec fn class_offset(code: u8) -> int {
    if code == 1 {
        PAIR_OFFSET as int
    } else if code == 2 {
        TWO_PAIR_OFFSET as int
    } else if code == 3 {
        THREE_OF_A_KIND_OFFSET as int
    } else if code == 4 {
        FULL_HOUSE_OFFSET as int
    } else {
        FOUR_OF_A_KIND_OFFSET as int
    }
}

/// The value by which the hands of a class are ordered.
pub open spec fn remaining_value(ranks: Seq<Rank>) -> int {
    match hand_type_of(ranks) {
        HandType::Pair(r) => one_rank_value(r, ranks),
        HandType::TwoPair(a, b) => two_rank_value(a, b, ranks),
        HandType::ThreeOfAKind(r) => one_rank_value(r, ranks),
        HandType::FullHouse(a, b) => two_rank_value(a, b, ranks),
        HandType::FourOfAKind(r) => one_rank_value(r, ranks),
        HandType::NoMadeHand => 0,
    }
}

/// The ranks with the given numbers.
pub open spec fn multiset_ranks(m: Seq<usize>) -> Seq<Rank> {
    m.map_values(|i: usize| Rank::spec_from_int(i as u8))
}

/// The five-card rank multisets in lexicographic order.
pub open spec fn five_rank_multisets() -> Seq<Seq<usize>> {
    spec_multisets(13, 5)
}

/// The ranks of the `i`-th five-card rank multiset.
pub open spec fn multiset_hand(i: int) -> Seq<Rank> {
    multiset_ranks(five_rank_multisets()[i])
}

/// How many of the first `n` multisets are of class `code` with a value below `v`.
pub open spec fn count_smaller(n: int, code: u8, v: int) -> nat
    decreases n,
{
    if n <= 0 {
        0
    } else {
        count_smaller(n - 1, code, v) + if class_code(multiset_hand(n - 1)) == code
            && remaining_value(multiset_hand(n - 1)) < v {
            1nat
        } else {
            0nat
        }
    }
}

/// The entry of the `i`-th multiset: its class's first entry plus the number of
/// hands of its class with a lower value.
pub open spec fn remaining_entry(i: int) -> int {
    class_offset(class_code(multiset_hand(i))) + count_smaller(
        five_rank_multisets().len() as int,
        class_code(multiset_hand(i)),
        remaining_value(multiset_hand(i)),
    )
}

/// The table of the hands with a repeated rank, indexed by the prime product of
/// their ranks: every nonzero entry is the entry of a rank multiset with that
/// product, and every such multiset has a nonzero entry at its product.
pub open spec fn remaining_table_ok(table: Seq<u16>) -> bool {
    &&& table.len() == REMAINING_LOOKUP_PRODUCT + 1
    &&& forall|k: int|
        0 <= k < table.len() && #[trigger] table[k] != 0 ==> exists|i: int|
            0 <= i < five_rank_multisets().len() && class_code(multiset_hand(i)) != 0
                && rank_prime_product(multiset_hand(i)) == k && table[k] == remaining_entry(i)
    &&& forall|i: int|
        0 <= i < five_rank_multisets().len() && class_code(#[trigger] multiset_hand(i)) != 0
            ==> table[rank_prime_product(multiset_hand(i))] != 0
}

pub open spec fn power(b: int, e: nat) -> int
    decreases e,
{
    if e == 0 {
        1
    } else {
        b * power(b, (e - 1) as nat)
    }
}

/// The aces among the ranks that are not skipped.
pub open spec fn kicker_aces(ranks: Seq<Rank>, skip: Seq<Rank>) -> nat
    decreases ranks.len(),
{
    if ranks.len() == 0 {
        0
    } else {
        kicker_aces(ranks.drop_last(), skip) + if !skipped(skip, ranks.last()) && ranks.last()
            == Rank::Ace {
            1nat
        } else {
            0nat
        }
    }
}

/// The other ranks that are not skipped.
pub open spec fn kicker_others(ranks: Seq<Rank>, skip: Seq<Rank>) -> nat
    decreases ranks.len(),
{
    if ranks.len() == 0 {
        0
    } else {
        kicker_others(ranks.drop_last(), skip) + if !skipped(skip, ranks.last()) && ranks.last()
            != Rank::Ace {
            1nat
        } else {
            0nat
        }
    }
}

/// The skipped ranks.
pub open spec fn skipped_count(ranks: Seq<Rank>, skip: Seq<Rank>) -> nat
    decreases ranks.len(),
{
    if ranks.len() == 0 {
        0
    } else {
        skipped_count(ranks.drop_last(), skip) + if skipped(skip, ranks.last()) {
            1nat
        } else {
            0nat
        }
    }
}

proof fn lemma_power_positive(b: int, e: nat)
    requires
        b >= 1,
    ensures
        power(b, e) >= 1,
    decreases e,
{
    if e > 0 {
        lemma_power_positive(b, (e - 1) as nat);
        assert(b * power(b, (e - 1) as nat) >= 1) by (nonlinear_arith)
            requires
                b >= 1,
                power(b, (e - 1) as nat) >= 1,
        ;
    }
}

proof fn lemma_kicker_power_bound(ranks: Seq<Rank>, skip: Seq<Rank>)
    ensures
        kicker_product(ranks, skip) <= power(41, kicker_aces(ranks, skip)) * power(
            37,
            kicker_others(ranks, skip),
        ),
        kicker_product(ranks, skip) >= 1,
        kicker_aces(ranks, skip) + kicker_others(ranks, skip) + skipped_count(ranks, skip)
            == ranks.len(),
    decreases ranks.len(),
{
    if ranks.len() > 0 {
        let prev = ranks.drop_last();
        lemma_kicker_power_bound(prev, skip);
        let a = kicker_aces(prev, skip);
        let o = kicker_others(prev, skip);
        lemma_power_positive(41, a);
        lemma_power_positive(37, o);
        let k = kicker_product(prev, skip);
        let pa = power(41, a);
        let po = power(37, o);
        let last = ranks.last();
        if skipped(skip, last) {
            assert(k * 1 == k);
        } else if last == Rank::Ace {
            assert(power(41, a + 1) == 41 * pa);
            assert(k * 41 <= (41 * pa) * po && k * 41 >= 1) by (nonlinear_arith)
                requires
                    k <= pa * po,
                    k >= 1,
            ;
        } else {
            let f = last.spec_to_prime() as int;
            assert(f <= 37);
            assert(power(37, o + 1) == 37 * po);
            assert(k * f <= pa * (37 * po) && k * f >= 1) by (nonlinear_arith)
                requires
                    k <= pa * po,
                    k >= 1,
                    1 <= f <= 37,
                    pa >= 1,
                    po >= 1,
            ;
        }
    }
}

proof fn lemma_kicker_counts_one(ranks: Seq<Rank>, r: Rank)
    ensures
        skipped_count(ranks, seq![r]) == rank_count(ranks, r.spec_to_int() as int),
        kicker_aces(ranks, seq![r]) == if r == Rank::Ace {
            0
        } else {
            rank_count(ranks, 12)
        },
    decreases ranks.len(),
{
    if ranks.len() > 0 {
        lemma_kicker_counts_one(ranks.drop_last(), r);
        let last = ranks.last();
        assert(skipped(seq![r], last) <==> last == r) by {
            if last == r {
                assert(seq![r][0] == last);
            }
        }
        assert(last == r <==> last.spec_to_int() == r.spec_to_int());
    }
}

proof fn lemma_kicker_counts_two(ranks: Seq<Rank>, a: Rank, b: Rank)
    requires
        a != b,
    ensures
        skipped_count(ranks, seq![a, b]) == rank_count(ranks, a.spec_to_int() as int) + rank_count(
            ranks,
            b.spec_to_int() as int,
        ),
    decreases ranks.len(),
{
    if ranks.len() > 0 {
        lemma_kicker_counts_two(ranks.drop_last(), a, b);
        let last = ranks.last();
        assert(skipped(seq![a, b], last) <==> (last == a || last == b)) by {
            if last == a {
                assert(seq![a, b][0] == last);
            }
            if last == b {
                assert(seq![a, b][1] == last);
            }
        }
        assert(last == a <==> last.spec_to_int() == a.spec_to_int());
        assert(last == b <==> last.spec_to_int() == b.spec_to_int());
    }
}

proof fn lemma_kicker_counts_none(ranks: Seq<Rank>)
    ensures
        skipped_count(ranks, Seq::empty()) == 0,
        kicker_aces(ranks, Seq::empty()) == rank_count(ranks, 12),
        kicker_product(ranks, Seq::empty()) == rank_prime_product(ranks),
    decreases ranks.len(),
{
    if ranks.len() > 0 {
        lemma_kicker_counts_none(ranks.drop_last());
        assert(!skipped(Seq::empty(), ranks.last()));
    }
}

proof fn lemma_count_pair_sum(ranks: Seq<Rank>, x: int, y: int)
    requires
        x != y,
    ensures
        rank_count(ranks, x) + rank_count(ranks, y) <= ranks.len(),
    decreases ranks.len(),
{
    if ranks.len() > 0 {
        lemma_count_pair_sum(ranks.drop_last(), x, y);
    }
}

proof fn lemma_highest_none(ranks: Seq<Rank>, c: nat, below: int)
    requires
        forall|r: int| 0 <= r < below ==> rank_count(ranks, r) != c,
    ensures
        highest_with_count(ranks, c, below) is None,
    decreases below,
{
    if below > 0 {
        lemma_highest_none(ranks, c, below - 1);
    }
}

/// The number of `k`-element multisets of `m` values.
pub open spec fn multiset_count(m: int, k: nat) -> nat
    decreases m, k,
{
    if k == 0 {
        1
    } else if m <= 0 {
        0
    } else {
        multiset_count(m, (k - 1) as nat) + multiset_count(m - 1, k)
    }
}

proof fn lemma_multisets_count(lo: int, n: int, k: nat)
    ensures
        multisets_from(lo, n, k).len() == multiset_count(n - lo, k),
    decreases n - lo, k,
{
    if k == 0 {
    } else if lo >= n {
    } else {
        lemma_multisets_count(lo, n, (k - 1) as nat);
        lemma_multisets_count(lo + 1, n, k);
    }
}

proof fn lemma_from_int_to_int(n: int)
    requires
        0 <= n < 13,
    ensures
        Rank::spec_from_int(n as u8).spec_to_int() == n,
        Rank::spec_from_int(n as u8) == Rank::Ace <==> n == 12,
{
}

/// Five ranks of a made hand have kickers whose primes multiply to at most
/// `u16::MAX`, and at most four of the ranks are aces.
proof fn lemma_made_hand_bounds(ranks: Seq<Rank>)
    requires
        ranks.len() == 5,
        class_code(ranks) != 0,
    ensures
        rank_prime_product(ranks) <= REMAINING_LOOKUP_PRODUCT,
        match hand_type_of(ranks) {
            HandType::Pair(r) => kicker_product(ranks, seq![r]) <= u16::MAX,
            HandType::TwoPair(a, b) => kicker_product(ranks, seq![a, b]) <= u16::MAX,
            HandType::ThreeOfAKind(r) => kicker_product(ranks, seq![r]) <= u16::MAX,
            HandType::FullHouse(a, b) => kicker_product(ranks, seq![a, b]) <= u16::MAX,
            HandType::FourOfAKind(r) => kicker_product(ranks, seq![r]) <= u16::MAX,
            HandType::NoMadeHand => true,
        },
{
    lemma_lowest_highest_bounds(ranks, 2, 13);
    lemma_lowest_highest_bounds(ranks, 3, 13);
    lemma_lowest_highest_bounds(ranks, 4, 13);
    let aces = rank_count(ranks, 12);
    // At most four aces: five aces leave no rank held two to four times.
    if aces >= 5 {
        assert forall|r: int| 0 <= r < 13 implies rank_count(ranks, r) != 2 && rank_count(ranks, r)
            != 3 && rank_count(ranks, r) != 4 by {
            if r != 12 {
                lemma_count_pair_sum(ranks, r, 12);
            }
        }
        lemma_highest_none(ranks, 2, 13);
        lemma_highest_none(ranks, 3, 13);
        lemma_highest_none(ranks, 4, 13);
        assert(false);
    }
    lemma_kicker_counts_none(ranks);
    lemma_kicker_power_bound(ranks, Seq::empty());
    lemma_power_table();
    let o = kicker_others(ranks, Seq::empty());
    assert(aces + o == 5);
    assert(rank_prime_product(ranks) <= REMAINING_LOOKUP_PRODUCT) by {
        if aces == 0 {
            assert(power(41, aces) * power(37, o) == 69343957);
        } else if aces == 1 {
            assert(power(41, aces) * power(37, o) == 41 * 1874161);
        } else if aces == 2 {
            assert(power(41, aces) * power(37, o) == 1681 * 50653);
        } else if aces == 3 {
            assert(power(41, aces) * power(37, o) == 68921 * 1369);
        } else {
            assert(power(41, aces) * power(37, o) == 2825761 * 37);
        }
    }
    match hand_type_of(ranks) {
        HandType::Pair(r) => {
            let p = lowest_with_count(ranks, 2, 13).unwrap();
            lemma_from_int_to_int(p);
            lemma_kicker_counts_one(ranks, r);
            lemma_kicker_power_bound(ranks, seq![r]);
            let ka = kicker_aces(ranks, seq![r]);
            let ko = kicker_others(ranks, seq![r]);
            assert(rank_count(ranks, p) == 2);
            assert(ka + ko == 3);
            if r != Rank::Ace {
                assert(p != 12);
                lemma_count_pair_sum(ranks, p, 12);
                if aces == 2 {
                    assert(highest_with_count(ranks, 2, 13) == Some(12int));
                }
                if aces == 3 {
                    assert(highest_with_count(ranks, 3, 13) == Some(12int));
                }
                assert(ka <= 1);
            }
            if ka == 0 {
                assert(power(41, ka) * power(37, ko) == 50653);
            } else {
                assert(power(41, ka) * power(37, ko) == 41 * 1369);
            }
        },
        HandType::TwoPair(a, b) => {
            let h = highest_with_count(ranks, 2, 13).unwrap();
            let p = lowest_with_count(ranks, 2, 13).unwrap();
            lemma_from_int_to_int(h);
            lemma_from_int_to_int(p);
            lemma_kicker_counts_two(ranks, a, b);
            lemma_kicker_power_bound(ranks, seq![a, b]);
            let ka = kicker_aces(ranks, seq![a, b]);
            let ko = kicker_others(ranks, seq![a, b]);
            assert(ka + ko == 1);
            assert(power(41, ka) * power(37, ko) <= 41);
        },
        HandType::ThreeOfAKind(r) => {
            let t = highest_with_count(ranks, 3, 13).unwrap();
            lemma_from_int_to_int(t);
            lemma_kicker_counts_one(ranks, r);
            lemma_kicker_power_bound(ranks, seq![r]);
            let ka = kicker_aces(ranks, seq![r]);
            let ko = kicker_others(ranks, seq![r]);
            assert(ka + ko == 2);
            if ka == 0 {
                assert(power(41, ka) * power(37, ko) == 1369);
            } else if ka == 1 {
                assert(power(41, ka) * power(37, ko) == 41 * 37);
            } else {
                assert(power(41, ka) * power(37, ko) == 1681);
            }
        },
        HandType::FullHouse(a, b) => {
            let t = highest_with_count(ranks, 3, 13).unwrap();
            let p = lowest_with_count(ranks, 2, 13).unwrap();
            lemma_from_int_to_int(t);
            lemma_from_int_to_int(p);
            lemma_kicker_counts_two(ranks, a, b);
            lemma_kicker_power_bound(ranks, seq![a, b]);
            let ka = kicker_aces(ranks, seq![a, b]);
            let ko = kicker_others(ranks, seq![a, b]);
            assert(ka + ko == 0);
            assert(power(41, ka) * power(37, ko) == 1);
        },
        HandType::FourOfAKind(r) => {
            let q = highest_with_count(ranks, 4, 13).unwrap();
            lemma_from_int_to_int(q);
            lemma_kicker_counts_one(ranks, r);
            lemma_kicker_power_bound(ranks, seq![r]);
            let ka = kicker_aces(ranks, seq![r]);
            let ko = kicker_others(ranks, seq![r]);
            assert(ka + ko == 1);
            assert(power(41, ka) * power(37, ko) <= 41);
        },
        HandType::NoMadeHand => {},
    }
}

proof fn lemma_power_table()
    ensures
        power(41, 0) == 1,
        power(41, 1) == 41,
        power(41, 2) == 1681,
        power(41, 3) == 68921,
        power(41, 4) == 2825761,
        power(37, 0) == 1,
        power(37, 1) == 37,
        power(37, 2) == 1369,
        power(37, 3) == 50653,
        power(37, 4) == 1874161,
        power(37, 5) == 69343957,
{
    assert(power(41, 1) == 41 * power(41, 0));
    assert(power(41, 2) == 41 * power(41, 1));
    assert(power(41, 3) == 41 * power(41, 2));
    assert(power(41, 4) == 41 * power(41, 3));
    assert(power(37, 1) == 37 * power(37, 0));
    assert(power(37, 2) == 37 * power(37, 1));
    assert(power(37, 3) == 37 * power(37, 2));
    assert(power(37, 4) == 37 * power(37, 3));
    assert(power(37, 5) == 37 * power(37, 4));
}

fn class_of(hand_type: HandType) -> (code: u8)
    ensures
        code == match hand_type {
            HandType::Pair(_) => 1u8,
            HandType::TwoPair(_, _) => 2u8,
            HandType::ThreeOfAKind(_) => 3u8,
            HandType::FullHouse(_, _) => 4u8,
            HandType::FourOfAKind(_) => 5u8,
            HandType::NoMadeHand => 0u8,
        },
{
    match hand_type {
        HandType::Pair(_) => 1,
        HandType::TwoPair(_, _) => 2,
        HandType::ThreeOfAKind(_) => 3,
        HandType::FullHouse(_, _) => 4,
        HandType::FourOfAKind(_) => 5,
        HandType::NoMadeHand => 0,
    }
}

fn offset_of(code: u8) -> (offset: usize)
    ensures
        offset == class_offset(code),
{
    if code == 1 {
        PAIR_OFFSET
    } else if code == 2 {
        TWO_PAIR_OFFSET
    } else if code == 3 {
        THREE_OF_A_KIND_OFFSET
    } else if code == 4 {
        FULL_HOUSE_OFFSET
    } else {
        FOUR_OF_A_KIND_OFFSET
    }
}

/// The table of the hands with a repeated rank, indexed by the prime product of
/// their ranks (see `remaining_table_ok`): within each class the hands take
/// consecutive entries in the order of their value, from the class's first
/// entry on.
pub fn generate_remaining_table() -> (table: Vec<u16>)
    ensures
        remaining_table_ok(table@),
{
    let multisets = multisets_of_range(13, 5);
    let ghost all = five_rank_multisets();
    proof {
        lemma_multisets_from_shape(0, 13, 5);
    }
    let n = multisets.len();
    proof {
        lemma_multisets_count(0, 13, 5);
        assert(multiset_count(13, 5) == 6188) by {
            reveal_with_fuel(multiset_count, 20);
        }
    }
    let mut codes: Vec<u8> = Vec::new();
    let mut values: Vec<u32> = Vec::new();
    let mut products: Vec<usize> = Vec::new();
    let mut i: usize = 0;
    while i < n
        invariant
            i <= n,
            n == all.len(),
            multisets.deep_view() == all,
            all == five_rank_multisets(),
            forall|a: int|
                0 <= a < all.len() ==> (#[trigger] all[a]).len() == 5 && forall|b: int|
                    0 <= b < 5 ==> #[trigger] all[a][b] < 13,
            codes@.len() == i,
            values@.len() == i,
            products@.len() == i,
            forall|j: int|
                0 <= j < i ==> {
                    &&& codes@[j] == class_code(#[trigger] multiset_hand(j))
                    &&& values@[j] == remaining_value(multiset_hand(j))
                    &&& codes@[j] != 0 ==> products@[j] == rank_prime_product(multiset_hand(j))
                    &&& codes@[j] != 0 ==> products@[j] <= REMAINING_LOOKUP_PRODUCT
                },
        decreases n - i,
    {
        let m = &multisets[i];
        let ghost m_seq = all[i as int];
        proof {
            assert(multisets.deep_view()[i as int] == m@);
        }
        let mut ranks: Vec<Rank> = Vec::new();
        let mut hand: Vec<Card> = Vec::new();
        let mut j: usize = 0;
        while j < 5
            invariant
                j <= 5,
                m@ == m_seq,
                m_seq.len() == 5,
                forall|b: int| 0 <= b < 5 ==> m_seq[b] < 13,
                ranks@ == multiset_ranks(m_seq).take(j as int),
                ranks_of(hand@) == ranks@,
            decreases 5 - j,
        {
            let rank = Rank::from_int(m[j] as u8);
            ranks.push(rank);
            hand.push(Card::new(Suit::Spades, rank));
            proof {
                assert(multiset_ranks(m_seq).take(j + 1) == multiset_ranks(m_seq).take(j as int).push(
                    rank,
                ));
                assert(ranks_of(hand@) == ranks@);
            }
            j = j + 1;
        }
        proof {
            assert(multiset_ranks(m_seq).take(5) == multiset_ranks(m_seq));
            assert(ranks@ == multiset_hand(i as int));
        }
        let hand_type = classify_hand_type(&hand);
        let code = class_of(hand_type);
        if code == 0 {
            codes.push(0);
            values.push(0);
            products.push(0);
        } else {
            proof {
                lemma_made_hand_bounds(ranks@);
            }
            let product = hand_to_unique_prime_product(hand.as_slice());
            let value = match hand_type {
                HandType::Pair(_) => evaluate_pair(hand_type, ranks.clone()),
                HandType::TwoPair(_, _) => evaluate_two_pair(hand_type, ranks.clone()),
                HandType::ThreeOfAKind(_) => evaluate_three_of_a_kind(hand_type, ranks.clone()),
                HandType::FullHouse(_, _) => evaluate_full_house(hand_type, ranks.clone()),
                HandType::FourOfAKind(_) => evaluate_four_of_a_kind(hand_type, ranks.clone()),
                HandType::NoMadeHand => 0,
            };
            codes.push(code);
            values.push(value);
            products.push(product);
        }
        i = i + 1;
    }
    let mut table: Vec<u16> = vec![0u16; REMAINING_LOOKUP_PRODUCT + 1];
    let mut i: usize = 0;
    while i < n
        invariant
            i <= n,
            n == all.len(),
            n == 6188,
            all == five_rank_multisets(),
            codes@.len() == n,
            values@.len() == n,
            products@.len() == n,
            table@.len() == REMAINING_LOOKUP_PRODUCT + 1,
            forall|j: int|
                0 <= j < n ==> {
                    &&& codes@[j] == class_code(#[trigger] multiset_hand(j))
                    &&& values@[j] == remaining_value(multiset_hand(j))
                    &&& codes@[j] != 0 ==> products@[j] == rank_prime_product(multiset_hand(j))
                    &&& codes@[j] != 0 ==> products@[j] <= REMAINING_LOOKUP_PRODUCT
                },
            forall|k: int|
                0 <= k < table@.len() && #[trigger] table@[k] != 0 ==> exists|j: int|
                    0 <= j < i && class_code(multiset_hand(j)) != 0 && rank_prime_product(
                        multiset_hand(j),
                    ) == k && table@[k] == remaining_entry(j),
            forall|j: int|
                0 <= j < i && class_code(#[trigger] multiset_hand(j)) != 0 ==> table@[rank_prime_product(
                    multiset_hand(j),
                )] != 0,
        decreases n - i,
    {
        let code = codes[i];
        if code != 0 {
            let value = values[i];
            let mut count: usize = 0;
            let mut j: usize = 0;
            while j < n
                invariant
                    j <= n,
                    i < n,
                    n == all.len(),
                    n == 6188,
                    codes@.len() == n,
                    values@.len() == n,
                    code == codes@[i as int],
                    value == values@[i as int],
                    forall|k: int|
                        0 <= k < n ==> {
                            &&& codes@[k] == class_code(#[trigger] multiset_hand(k))
                            &&& values@[k] == remaining_value(multiset_hand(k))
                        },
                    count == count_smaller(j as int, code, value as int),
                    count <= j,
                decreases n - j,
            {
                if codes[j] == code && values[j] < value {
                    count = count + 1;
                }
                j = j + 1;
            }
            let offset = offset_of(code);
            let entry = (offset + count) as u16;
            let product = products[i];
            proof {
                assert(codes@[i as int] == class_code(multiset_hand(i as int)));
            }
            let ghost old_table = table@;
            table.set(product, entry);
            proof {
                assert(entry == remaining_entry(i as int));
                assert forall|k: int|
                    0 <= k < table@.len() && #[trigger] table@[k] != 0 implies exists|j: int|
                        0 <= j < i + 1 && class_code(multiset_hand(j)) != 0 && rank_prime_product(
                            multiset_hand(j),
                        ) == k && table@[k] == remaining_entry(j) by {
                    if k == product {
                        assert(class_code(multiset_hand(i as int)) != 0);
                    } else {
                        assert(old_table[k] != 0);
                    }
                }
                assert forall|j: int|
                    0 <= j < i + 1 && class_code(#[trigger] multiset_hand(j)) != 0 implies table@[rank_prime_product(
                        multiset_hand(j),
                    )] != 0 by {
                    if j < i && rank_prime_product(multiset_hand(j)) != product {
                        assert(old_table[rank_prime_product(multiset_hand(j))] != 0);
                    }
                }
            }
        }
        i = i + 1;
    }
    table
}

} // verus!
