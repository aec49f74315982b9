use crate::models::card::{Card, Rank};
use vstd::prelude::*;

verus! {

/// The made hand of cards that is not a flush, a straight or a high card:
/// the rank of the pair, trips or quads, and for two pair and a full house
/// both ranks (the higher pair first; the trips first).
#[derive(Debug, PartialEq, Eq, Structural, Clone, Copy)]
pub enum HandType {
    Pair(Rank),
    TwoPair(Rank, Rank),
    ThreeOfAKind(Rank),
    FullHouse(Rank, Rank),
    FourOfAKind(Rank),
    NoMadeHand,
}

impl Default for HandType {
    fn default() -> (h: HandType)
        ensures
            h == HandType::NoMadeHand,
    {
        HandType::NoMadeHand
    }
}

/// The ranks of a hand's cards, in order.
pub open spec fn ranks_of(hand: Seq<Card>) -> Seq<Rank> {
    hand.map_values(|c: Card| c.rank)
}

/// How many of the ranks have number `r`.
pub open spec fn rank_count(ranks: Seq<Rank>, r: int) -> nat
    decreases ranks.len(),
{
    if ranks.len() == 0 {
        0
    } else {
        rank_count(ranks.drop_last(), r) + if ranks.last().spec_to_int() == r {
            1nat
        } else {
            0nat
        }
    }
}

/// The lowest rank number below `below` held exactly `c` times.
pub open spec fn lowest_with_count(ranks: Seq<Rank>, c: nat, below: int) -> Option<int>
    decreases below,
{
    if below <= 0 {
        None
    } else {
        match lowest_with_count(ranks, c, below - 1) {
            Some(x) => Some(x),
            None => if rank_count(ranks, below - 1) == c {
                Some(below - 1)
            } else {
                None
            },
        }
    }
}

/// The highest rank number below `below` held exactly `c` times.
pub open spec fn highest_with_count(ranks: Seq<Rank>, c: nat, below: int) -> Option<int>
    decreases below,
{
    if below <= 0 {
        None
    } else if rank_count(ranks, below - 1) == c {
        Some(below - 1)
    } else {
        highest_with_count(ranks, c, below - 1)
    }
}

/// The made hand of a set of ranks: quads of the highest rank held four times;
/// otherwise trips of the highest rank held three times, a full house with the
/// lowest pair if there is one; otherwise two pair of the highest and the
/// lowest pair; otherwise a pair; otherwise none. Ranks held five or more
/// times are ignored.
pub open spec fn hand_type_of(ranks: Seq<Rank>) -> HandType {
    match highest_with_count(ranks, 4, 13) {
        Some(q) => HandType::FourOfAKind(Rank::spec_from_int(q as u8)),
        None => match highest_with_count(ranks, 3, 13) {
            Some(t) => match lowest_with_count(ranks, 2, 13) {
                Some(p) => HandType::FullHouse(Rank::spec_from_int(t as u8), Rank::spec_from_int(p as u8)),
                None => HandType::ThreeOfAKind(Rank::spec_from_int(t as u8)),
            },
            None => match lowest_with_count(ranks, 2, 13) {
                Some(p) => {
                    let h = highest_with_count(ranks, 2, 13).unwrap();
                    if h != p {
                        HandType::TwoPair(Rank::spec_from_int(h as u8), Rank::spec_from_int(p as u8))
                    } else {
                        HandType::Pair(Rank::spec_from_int(p as u8))
                    }
                },
                None => HandType::NoMadeHand,
            },
        },
    }
}

pub proof fn lemma_lowest_highest_bounds(ranks: Seq<Rank>, c: nat, below: int)
    ensures
        lowest_with_count(ranks, c, below) matches Some(x) ==> 0 <= x < below && rank_count(ranks, x) == c,
        highest_with_count(ranks, c, below) matches Some(x) ==> 0 <= x < below && rank_count(ranks, x) == c,
        lowest_with_count(ranks, c, below) is Some <==> highest_with_count(ranks, c, below) is Some,
        lowest_with_count(ranks, c, below) matches Some(x) ==> x <= highest_with_count(ranks, c, below).unwrap(),
    decreases below,
{
    if below > 0 {
        lemma_lowest_highest_bounds(ranks, c, below - 1);
    }
}

/// Counts how many cards of the hand have each rank number.
fn count_ranks(hand: &Vec<Card>) -> (counts: Vec<usize>)
    ensures
        counts@.len() == 13,
        forall|r: int| 0 <= r < 13 ==> counts@[r] == rank_count(ranks_of(hand@), r),
{
    let mut counts: Vec<usize> = vec![0usize; 13];
    let mut i: usize = 0;
    while i < hand.len()
        invariant
            i <= hand@.len(),
            counts@.len() == 13,
            forall|r: int| 0 <= r < 13 ==> counts@[r] == rank_count(ranks_of(hand@.take(i as int)), r),
            forall|r: int| 0 <= r < 13 ==> counts@[r] <= i,
        decreases hand@.len() - i,
    {
        let idx = hand[i].rank.to_int() as usize;
        proof {
            let prev = ranks_of(hand@.take(i as int));
            let next = ranks_of(hand@.take(i + 1));
            assert(next.drop_last() == prev);
            assert(next.last() == hand@[i as int].rank);
        }
        let v = counts[idx];
        counts.set(idx, v + 1);
        i = i + 1;
    }
    assert(hand@.take(hand@.len() as int) == hand@);
    counts
}

/// Classifies a hand by its repeated ranks (see `hand_type_of`).
pub fn classify_hand_type(hand: &Vec<Card>) -> (h: HandType)
    ensures
        h == hand_type_of(ranks_of(hand@)),
{
    let counts = count_ranks(hand);
    let ghost ranks = ranks_of(hand@);
    let mut pair1: Option<u8> = None;
    let mut pair2: Option<u8> = None;
    let mut three_of_a_kind: Option<u8> = None;
    let mut four_of_a_kind: Option<u8> = None;
    let mut idx: u8 = 0;
    while idx < 13
        invariant
            idx <= 13,
            counts@.len() == 13,
            forall|r: int| 0 <= r < 13 ==> counts@[r] == rank_count(ranks, r),
            pair1 == (match lowest_with_count(ranks, 2, idx as int) {
                Some(x) => Some(x as u8),
                None => None::<u8>,
            }),
            pair2 == (match (lowest_with_count(ranks, 2, idx as int), highest_with_count(ranks, 2, idx as int)) {
                (Some(l), Some(h)) => if l != h { Some(h as u8) } else { None::<u8> },
                _ => None::<u8>,
            }),
            three_of_a_kind == (match highest_with_count(ranks, 3, idx as int) {
                Some(x) => Some(x as u8),
                None => None::<u8>,
            }),
            four_of_a_kind == (match highest_with_count(ranks, 4, idx as int) {
                Some(x) => Some(x as u8),
                None => None::<u8>,
            }),
        decreases 13 - idx,
    {
        proof {
            lemma_lowest_highest_bounds(ranks, 2, idx as int);
            lemma_lowest_highest_bounds(ranks, 2, idx + 1);
        }
        let count = counts[idx as usize];
        if count == 2 {
            if pair1.is_none() {
                pair1 = Some(idx);
            } else {
                pair2 = Some(idx);
            }
        } else if count == 3 {
            three_of_a_kind = Some(idx);
        } else if count == 4 {
            four_of_a_kind = Some(idx);
        }
        idx = idx + 1;
    }
    proof {
        lemma_lowest_highest_bounds(ranks, 2, 13);
        lemma_lowest_highest_bounds(ranks, 3, 13);
        lemma_lowest_highest_bounds(ranks, 4, 13);
    }
    if let Some(four) = four_of_a_kind {
        return HandType::FourOfAKind(Rank::from_int(four));
    }
    if let Some(three) = three_of_a_kind {
        if let Some(p1) = pair1 {
            return HandType::FullHouse(Rank::from_int(three), Rank::from_int(p1));
        }
        return HandType::ThreeOfAKind(Rank::from_int(three));
    }
    if let Some(p1) = pair1 {
        if let Some(p2) = pair2 {
            if p1 < p2 {
                return HandType::TwoPair(Rank::from_int(p2), Rank::from_int(p1));
            }
            return HandType::TwoPair(Rank::from_int(p1), Rank::from_int(p2));
        }
        return HandType::Pair(Rank::from_int(p1));
    }
    HandType::NoMadeHand
}

/// Whether a rank is among the skipped ones.
pub open spec fn skipped(skip: Seq<Rank>, rank: Rank) -> bool {
    skip.contains(rank)
}

/// The product of the primes of the ranks that are not skipped: the kickers
/// of a made hand.
pub open spec fn kicker_product(ranks: Seq<Rank>, skip: Seq<Rank>) -> int
    decreases ranks.len(),
{
    if ranks.len() == 0 {
        1
    } else {
        kicker_product(ranks.drop_last(), skip) * if skipped(skip, ranks.last()) {
            1
        } else {
            ranks.last().spec_to_prime() as int
        }
    }
}

proof fn lemma_kicker_product_monotone(ranks: Seq<Rank>, skip: Seq<Rank>, i: int)
    requires
        0 <= i <= ranks.len(),
    ensures
        1 <= kicker_product(ranks.take(i), skip) <= kicker_product(ranks, skip),
    decreases ranks.len(),
{
    if ranks.len() > 0 {
        if i == ranks.len() {
            assert(ranks.take(i) == ranks);
            lemma_kicker_product_monotone(ranks.drop_last(), skip, ranks.len() - 1);
            assert(ranks.drop_last().take(ranks.len() - 1) == ranks.drop_last());
        } else {
            lemma_kicker_product_monotone(ranks.drop_last(), skip, i);
            assert(ranks.drop_last().take(i) == ranks.take(i));
        }
        let k = kicker_product(ranks.drop_last(), skip);
        let f = if skipped(skip, ranks.last()) {
            1
        } else {
            ranks.last().spec_to_prime() as int
        };
        assert(k * f >= k) by (nonlinear_arith)
            requires
                k >= 1,
                f >= 1,
        ;
    }
}

fn contains_rank(skip: &Vec<Rank>, rank: Rank) -> (b: bool)
    ensures
        b == skipped(skip@, rank),
{
    let mut i: usize = 0;
    while i < skip.len()
        invariant
            i <= skip@.len(),
            forall|j: int| 0 <= j < i ==> skip@[j] != rank,
        decreases skip@.len() - i,
    {
        if skip[i] == rank {
            assert(skip@.contains(rank));
            return true;
        }
        i = i + 1;
    }
    false
}

/// The product of the primes of the ranks that are not skipped.
pub fn evaluate_high_cards(hand: &Vec<Rank>, skip: &Vec<Rank>) -> (v: u32)
    requires
        kicker_product(hand@, skip@) <= u16::MAX,
    ensures
        v == kicker_product(hand@, skip@),
{
    let mut prime_product: u16 = 1;
    let mut i: usize = 0;
    while i < hand.len()
        invariant
            i <= hand@.len(),
            kicker_product(hand@, skip@) <= u16::MAX,
            prime_product == kicker_product(hand@.take(i as int), skip@),
        decreases hand@.len() - i,
    {
        let rank = hand[i];
        proof {
            lemma_kicker_product_monotone(hand@, skip@, i + 1);
            let next = hand@.take(i + 1);
            assert(next.drop_last() == hand@.take(i as int));
            assert(next.last() == rank);
        }
        if !contains_rank(skip, rank) {
            prime_product = prime_product * rank.to_prime() as u16;
        }
        i = i + 1;
    }
    assert(hand@.take(hand@.len() as int) == hand@);
    prime_product as u32
}

/// A value whose order among pairs is the order of their strength: the pair's
/// prime in the high half, the product of the kickers' primes in the low half.
pub open spec fn one_rank_value(rank: Rank, cards: Seq<Rank>) -> int {
    rank.spec_to_prime() * 65536 + kicker_product(cards, seq![rank])
}

/// A value for two ranks: the first rank's prime in the top byte, the second's
/// in the next, the product of the kickers' primes in the low half.
pub open spec fn two_rank_value(first: Rank, second: Rank, cards: Seq<Rank>) -> int {
    first.spec_to_prime() * 16777216 + second.spec_to_prime() * 65536 + kicker_product(
        cards,
        seq![first, second],
    )
}

fn one_rank_bits(rank: Rank, cards: &Vec<Rank>) -> (v: u32)
    requires
        kicker_product(cards@, seq![rank]) <= u16::MAX,
    ensures
        v == one_rank_value(rank, cards@),
{
    let skip = vec![rank];
    assert(skip@ == seq![rank]);
    let high = evaluate_high_cards(cards, &skip);
    let p = rank.to_prime() as u32;
    assert(p <= 41 && high <= 65535 ==> (p << 16u32) | high == p * 65536 + high) by (bit_vector);
    (p << 16u32) | high
}

fn two_rank_bits(first: Rank, second: Rank, cards: &Vec<Rank>) -> (v: u32)
    requires
        kicker_product(cards@, seq![first, second]) <= u16::MAX,
    ensures
        v == two_rank_value(first, second, cards@),
{
    let skip = vec![first, second];
    assert(skip@ == seq![first, second]);
    let high = evaluate_high_cards(cards, &skip);
    let p1 = first.to_prime() as u32;
    let p2 = second.to_prime() as u32;
    assert(p1 <= 41 && p2 <= 41 && high <= 65535 ==> (p1 << 24u32) | (p2 << 16u32) | high == p1
        * 16777216 + p2 * 65536 + high) by (bit_vector);
    (p1 << 24u32) | (p2 << 16u32) | high
}

/// The value of a pair (see `one_rank_value`).
pub fn evaluate_pair(pair: HandType, cards: Vec<Rank>) -> (v: u32)
    requires
        pair matches HandType::Pair(r) && kicker_product(cards@, seq![r]) <= u16::MAX,
    ensures
        pair matches HandType::Pair(r) && v == one_rank_value(r, cards@),
{
    match pair {
        HandType::Pair(rank) => one_rank_bits(rank, &cards),
        _ => 0,
    }
}

/// The value of two pair (see `two_rank_value`).
pub fn evaluate_two_pair(two_pair: HandType, cards: Vec<Rank>) -> (v: u32)
    requires
        two_pair matches HandType::TwoPair(a, b) && kicker_product(cards@, seq![a, b]) <= u16::MAX,
    ensures
        two_pair matches HandType::TwoPair(a, b) && v == two_rank_value(a, b, cards@),
{
    match two_pair {
        HandType::TwoPair(rank1, rank2) => two_rank_bits(rank1, rank2, &cards),
        _ => 0,
    }
}

/// The value of trips (see `one_rank_value`).
pub fn evaluate_three_of_a_kind(pair: HandType, cards: Vec<Rank>) -> (v: u32)
    requires
        pair matches HandType::ThreeOfAKind(r) && kicker_product(cards@, seq![r]) <= u16::MAX,
    ensures
        pair matches HandType::ThreeOfAKind(r) && v == one_rank_value(r, cards@),
{
    match pair {
        HandType::ThreeOfAKind(rank) => one_rank_bits(rank, &cards),
        _ => 0,
    }
}

/// The value of a full house (see `two_rank_value`).
pub fn evaluate_full_house(full_house: HandType, cards: Vec<Rank>) -> (v: u32)
    requires
        full_house matches HandType::FullHouse(a, b) && kicker_product(cards@, seq![a, b])
            <= u16::MAX,
    ensures
        full_house matches HandType::FullHouse(a, b) && v == two_rank_value(a, b, cards@),
{
    match full_house {
        HandType::FullHouse(rank1, rank2) => two_rank_bits(rank1, rank2, &cards),
        _ => 0,
    }
}

/// The value of quads (see `one_rank_value`).
pub fn evaluate_four_of_a_kind(pair: HandType, cards: Vec<Rank>) -> (v: u32)
    requires
        pair matches HandType::FourOfAKind(r) && kicker_product(cards@, seq![r]) <= u16::MAX,
    ensures
        pair matches HandType::FourOfAKind(r) && v == one_rank_value(r, cards@),
{
    match pair {
        HandType::FourOfAKind(rank) => one_rank_bits(rank, &cards),
        _ => 0,
    }
}

/// The product of the primes of the ranks.
pub open spec fn rank_prime_product(ranks: Seq<Rank>) -> int
    decreases ranks.len(),
{
    if ranks.len() == 0 {
        1
    } else {
        rank_prime_product(ranks.drop_last()) * ranks.last().spec_to_prime()
    }
}

/// A prefix has a product no larger than the whole.
pub proof fn lemma_rank_prime_product_prefix(ranks: Seq<Rank>, i: int)
    requires
        0 <= i <= ranks.len(),
    ensures
        1 <= rank_prime_product(ranks.take(i)) <= rank_prime_product(ranks),
    decreases ranks.len(),
{
    if ranks.len() > 0 {
        if i == ranks.len() {
            assert(ranks.take(i) == ranks);
            lemma_rank_prime_product_prefix(ranks.drop_last(), ranks.len() - 1);
            assert(ranks.drop_last().take(ranks.len() - 1) == ranks.drop_last());
        } else {
            lemma_rank_prime_product_prefix(ranks.drop_last(), i);
            assert(ranks.drop_last().take(i) == ranks.take(i));
        }
        let k = rank_prime_product(ranks.drop_last());
        let f = ranks.last().spec_to_prime() as int;
        assert(k * f >= k) by (nonlinear_arith)
            requires
                k >= 1,
                f >= 1,
        ;
    }
}

} // verus!
