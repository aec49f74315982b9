use crate::evaluate::generate_tables::generate_flush_table::{
    bits_below, generate_flushes_table, is_five_mask, mask_has_rank, unique_five_entry,
};
use crate::evaluate::generate_tables::generate_remaining_table::{
    generate_remaining_table, remaining_table_ok,
};
use crate::evaluate::generate_tables::generate_unique_five_table::generate_unique_five_table;
use crate::evaluate::generate_tables::remaining_hand_types::{
    lemma_rank_prime_product_prefix, rank_prime_product, ranks_of,
};
use crate::models::card::{Card, Rank};
use crate::models::combinations::{
    combinations_of_range, lemma_combinations_complete, lemma_combinations_from_shape, spec_combinations,
};
use crate::models::player::Player;
use vstd::prelude::*;

verus! {

/// A 32-bit card identifier: `xxxA KQJT 9876 5432 SHCD pppp pppp`, the rank's
/// bit, the suit's bit and the rank's prime.
pub type CardId = u32;

/// The bits of a card identifier that hold the rank's prime.
pub const PRIME_MASK: u32 = 0b11111111;

/// The bits of a card identifier that hold the suit's bit.
pub const SUIT_MASK: u32 = 0b111100000000;

/// The largest rank mask of five cards, AKQJT, plus one: the tables indexed by
/// rank mask have `BIT_REP_LIMIT + 1` entries.
pub const BIT_REP_LIMIT: usize = 7937;

/// The number of distinct five-card hand values: 4 times 13 choose 5, plus the
/// made hands.
pub const DISTINCT_CARD_COMBOS: usize = 7462;

/// The largest prime product of five cards of a deck: four aces and a king.
pub const REMAINING_LOOKUP_PRODUCT: usize = 104553157;

/// The identifier of a card: the rank's bit shifted by 12, the suit's bit
/// shifted by 8, and the rank's prime.
pub open spec fn card_id(card: Card) -> u32 {
    ((1u32 << card.rank.spec_to_int()) << 12u32) | ((1u32 << card.suit.spec_to_int()) << 8u32)
        | (card.rank.spec_to_prime() as u32)
}

/// The identifier of a card, mostly after Cactus Kev.
pub fn card_to_id(card: &Card) -> (id: CardId)
    ensures
        id == card_id(*card),
{
    let prime = card.rank.to_prime() as u32;
    (card.rank.to_bit() << 12u32) | (card.suit.to_bit() << 8u32) | prime
}

/// The product of the primes of the ranks of a hand: a value of its own for
/// every multiset of ranks.
pub fn hand_to_unique_prime_product(hand: &[Card]) -> (p: usize)
    requires
        rank_prime_product(ranks_of(hand@)) <= usize::MAX,
    ensures
        p == rank_prime_product(ranks_of(hand@)),
{
    let mut product: usize = 1;
    let mut i: usize = 0;
    while i < hand.len()
        invariant
            i <= hand@.len(),
            rank_prime_product(ranks_of(hand@)) <= usize::MAX,
            product == rank_prime_product(ranks_of(hand@.take(i as int))),
        decreases hand@.len() - i,
    {
        proof {
            assert(ranks_of(hand@.take(i + 1)) == ranks_of(hand@).take(i + 1));
            lemma_rank_prime_product_prefix(ranks_of(hand@), i + 1);
            assert(ranks_of(hand@.take(i + 1)).drop_last() == ranks_of(hand@.take(i as int)));
            assert(ranks_of(hand@.take(i + 1)).last() == hand@[i as int].rank);
        }
        product = product * hand[i].rank.to_prime() as usize;
        i = i + 1;
    }
    assert(hand@.take(hand@.len() as int) == hand@);
    product
}

/// The identifiers of the first five cards of a hand.
pub fn hand_to_id(hand: &[Card]) -> (ids: [CardId; 5])
    requires
        hand@.len() >= 5,
    ensures
        forall|i: int| 0 <= i < 5 ==> ids@[i] == card_id(#[trigger] hand@[i]),
{
    [
        card_to_id(&hand[0]),
        card_to_id(&hand[1]),
        card_to_id(&hand[2]),
        card_to_id(&hand[3]),
        card_to_id(&hand[4]),
    ]
}

/// Whether the five identifiers share a suit bit.
pub fn is_flush(cards: &[CardId; 5]) -> (b: bool)
    ensures
        b == ((cards@[0] & cards@[1] & cards@[2] & cards@[3] & cards@[4]) & SUIT_MASK != 0),
{
    (cards[0] & cards[1] & cards[2] & cards[3] & cards[4]) & SUIT_MASK != 0
}

/// The rank bits of the five identifiers, together: the hand's rank mask.
pub fn unique_rank_mask(cards: &[CardId; 5]) -> (m: usize)
    ensures
        m == ((cards@[0] | cards@[1] | cards@[2] | cards@[3] | cards@[4]) >> 12u32),
{
    ((cards[0] | cards[1] | cards[2] | cards[3] | cards[4]) >> 12u32) as usize
}

/// Whether the five cards share a suit.
pub open spec fn same_suit5(h: Seq<Card>) -> bool {
    h[0].suit == h[1].suit && h[1].suit == h[2].suit && h[2].suit == h[3].suit && h[3].suit
        == h[4].suit
}

/// The bit of a card's rank.
pub open spec fn rank_bit(c: Card) -> u32 {
    1u32 << c.rank.spec_to_int()
}

/// The rank mask of five cards: the bits of their ranks together.
pub open spec fn rank_mask5(h: Seq<Card>) -> u32 {
    rank_bit(h[0]) | rank_bit(h[1]) | rank_bit(h[2]) | rank_bit(h[3]) | rank_bit(h[4])
}

/// The product of the primes of five cards' ranks.
pub open spec fn prime_product5(h: Seq<Card>) -> int {
    h[0].rank.spec_to_prime() * h[1].rank.spec_to_prime() * h[2].rank.spec_to_prime()
        * h[3].rank.spec_to_prime() * h[4].rank.spec_to_prime()
}

/// Five cards the lookup can evaluate: a flush, or a prime product within the
/// remaining table (which excludes five aces of mixed suits only).
pub open spec fn five_ok(h: Seq<Card>) -> bool {
    same_suit5(h) || prime_product5(h) <= REMAINING_LOOKUP_PRODUCT
}

/// The cards at the given positions.
pub open spec fn select_cards(cards: Seq<Card>, combo: Seq<usize>) -> Seq<Card> {
    combo.map_values(|i: usize| cards[i as int])
}

/// The three lookup tables of the evaluator.
pub struct HandLookupArrays {
    /// Flushes, indexed by rank mask.
    pub flushes_lookup: Vec<u16>,
    /// Hands of five distinct ranks that are not flushes, indexed by rank mask.
    pub unique_ranks_lookup: Vec<u16>,
    /// Hands with a repeated rank, indexed by prime product.
    pub remaining_lookup: Vec<u16>,
}

impl HandLookupArrays {
    /// The tables hold what their generators produce.
    pub open spec fn wf(&self) -> bool {
        &&& self.flushes_lookup@.len() == BIT_REP_LIMIT + 1
        &&& self.unique_ranks_lookup@.len() == BIT_REP_LIMIT + 1
        &&& forall|m: int|
            0 <= m <= BIT_REP_LIMIT ==> #[trigger] self.flushes_lookup@[m] == unique_five_entry(
                m as u32,
                5864,
                7453,
            )
        &&& forall|m: int|
            0 <= m <= BIT_REP_LIMIT ==> #[trigger] self.unique_ranks_lookup@[m] == unique_five_entry(
                m as u32,
                1,
                5854,
            )
        &&& remaining_table_ok(self.remaining_lookup@)
    }

    /// The evaluation of five cards: the flush table at the rank mask for a
    /// flush; otherwise the table of distinct ranks at the rank mask when its
    /// entry is not zero; otherwise the remaining table at the prime product.
    pub open spec fn spec_evaluate_five(&self, h: Seq<Card>) -> u16 {
        let m = rank_mask5(h) as int;
        if same_suit5(h) {
            self.flushes_lookup@[m]
        } else if self.unique_ranks_lookup@[m] != 0 {
            self.unique_ranks_lookup@[m]
        } else {
            self.remaining_lookup@[prime_product5(h)]
        }
    }

    pub fn new() -> (tables: Self)
        ensures
            tables.wf(),
    {
        HandLookupArrays {
            flushes_lookup: generate_flushes_table(),
            unique_ranks_lookup: generate_unique_five_table(),
            remaining_lookup: generate_remaining_table(),
        }
    }

    fn flush_evaluation(&self, id: usize) -> (v: u16)
        requires
            id < self.flushes_lookup@.len(),
        ensures
            v == self.flushes_lookup@[id as int],
    {
        self.flushes_lookup[id]
    }

    fn unique_ranks_evaluation(&self, id: usize) -> (v: u16)
        requires
            id < self.unique_ranks_lookup@.len(),
        ensures
            v == self.unique_ranks_lookup@[id as int],
    {
        self.unique_ranks_lookup[id]
    }

    fn remaining_evaluation(&self, id: usize) -> (v: u16)
        requires
            id < self.remaining_lookup@.len(),
        ensures
            v == self.remaining_lookup@[id as int],
    {
        self.remaining_lookup[id]
    }
}

/// What the identifiers of five cards tell: a shared suit bit exactly for a
/// flush, the rank mask in the high bits, the prime in the low byte.
proof fn lemma_card_id_parts(c: Card)
    ensures
        card_id(c) & SUIT_MASK == (1u32 << c.suit.spec_to_int()) << 8u32,
        card_id(c) >> 12u32 == rank_bit(c),
        card_id(c) & PRIME_MASK == c.rank.spec_to_prime() as u32,
{
    let r = c.rank.spec_to_int() as u32;
    let s = c.suit.spec_to_int() as u32;
    let p = c.rank.spec_to_prime() as u32;
    assert(r < 13 && s < 4 && p < 256 ==> (((1u32 << r) << 12u32) | ((1u32 << s) << 8u32) | p)
        & 0b111100000000u32 == (1u32 << s) << 8u32) by (bit_vector);
    assert(r < 13 && s < 4 && p < 256 ==> (((1u32 << r) << 12u32) | ((1u32 << s) << 8u32) | p)
        >> 12u32 == 1u32 << r) by (bit_vector);
    assert(r < 13 && s < 4 && p < 256 ==> (((1u32 << r) << 12u32) | ((1u32 << s) << 8u32) | p)
        & 0b11111111u32 == p) by (bit_vector);
}

proof fn lemma_five_ids(h: Seq<Card>, ids: Seq<u32>)
    requires
        h.len() == 5,
        ids.len() == 5,
        forall|i: int| 0 <= i < 5 ==> ids[i] == card_id(#[trigger] h[i]),
    ensures
        ((ids[0] & ids[1] & ids[2] & ids[3] & ids[4]) & SUIT_MASK != 0) == same_suit5(h),
        (ids[0] | ids[1] | ids[2] | ids[3] | ids[4]) >> 12u32 == rank_mask5(h),
        rank_mask5(h) <= 7936,
        forall|i: int| 0 <= i < 5 ==> (#[trigger] ids[i] & PRIME_MASK) == h[i].rank.spec_to_prime(),
{
    assert(ids[0] == card_id(h[0]));
    assert(ids[1] == card_id(h[1]));
    assert(ids[2] == card_id(h[2]));
    assert(ids[3] == card_id(h[3]));
    assert(ids[4] == card_id(h[4]));
    lemma_card_id_parts(h[0]);
    lemma_card_id_parts(h[1]);
    lemma_card_id_parts(h[2]);
    lemma_card_id_parts(h[3]);
    lemma_card_id_parts(h[4]);
    let (a, b, c, d, e) = (ids[0], ids[1], ids[2], ids[3], ids[4]);
    assert((a & b & c & d & e) & 0b111100000000u32 == (a & 0b111100000000u32) & (b
        & 0b111100000000u32) & (c & 0b111100000000u32) & (d & 0b111100000000u32) & (e
        & 0b111100000000u32)) by (bit_vector);
    assert((a | b | c | d | e) >> 12u32 == (a >> 12u32) | (b >> 12u32) | (c >> 12u32) | (d >> 12u32)
        | (e >> 12u32)) by (bit_vector);
    let (s0, s1, s2, s3, s4) = (
        h[0].suit.spec_to_int() as u32,
        h[1].suit.spec_to_int() as u32,
        h[2].suit.spec_to_int() as u32,
        h[3].suit.spec_to_int() as u32,
        h[4].suit.spec_to_int() as u32,
    );
    assert(s0 < 4 && s1 < 4 && s2 < 4 && s3 < 4 && s4 < 4 ==> ((((1u32 << s0) << 8u32) & ((1u32
        << s1) << 8u32) & ((1u32 << s2) << 8u32) & ((1u32 << s3) << 8u32) & ((1u32 << s4) << 8u32))
        != 0 <==> (s0 == s1 && s1 == s2 && s2 == s3 && s3 == s4))) by (bit_vector);
    let (r0, r1, r2, r3, r4) = (
        h[0].rank.spec_to_int() as u32,
        h[1].rank.spec_to_int() as u32,
        h[2].rank.spec_to_int() as u32,
        h[3].rank.spec_to_int() as u32,
        h[4].rank.spec_to_int() as u32,
    );
    assert(r0 < 13 && r1 < 13 && r2 < 13 && r3 < 13 && r4 < 13 ==> (1u32 << r0) | (1u32 << r1) | (1u32
        << r2) | (1u32 << r3) | (1u32 << r4) <= 7936) by (bit_vector);
    assert(same_suit5(h) <==> (s0 == s1 && s1 == s2 && s2 == s3 && s3 == s4));
}

/// The rank bits of the first `n` cards, together.
pub open spec fn mask_upto(h: Seq<Card>, n: int) -> u32
    decreases n,
{
    if n <= 0 {
        0
    } else {
        mask_upto(h, n - 1) | rank_bit(h[n - 1])
    }
}

/// How many different ranks the first `n` cards hold: the positions whose
/// rank no earlier card has.
pub open spec fn distinct_rank_count(h: Seq<Card>, n: int) -> nat
    decreases n,
{
    if n <= 0 {
        0
    } else {
        distinct_rank_count(h, n - 1) + if exists|j: int| 0 <= j < n - 1 && #[trigger] h[j].rank == h[n - 1].rank {
            0nat
        } else {
            1nat
        }
    }
}

proof fn lemma_rank_int_injective(a: Rank, b: Rank)
    ensures
        (a.spec_to_int() == b.spec_to_int()) == (a == b),
        a.spec_to_int() < 13,
{
}

proof fn lemma_or_bit(m: u32, r: u8, k: u32)
    by (bit_vector)
    requires
        r < 13,
        k < 32,
    ensures
        (((m | (1u32 << r)) >> k) & 1u32 == 1u32) == (((m >> k) & 1u32 == 1u32) || k == r as u32),
{
}

pub(crate) proof fn lemma_zero_bits(n: int)
    requires
        0 <= n <= 13,
    ensures
        bits_below(0, n) == 0,
        forall|r: int| 0 <= r < 13 ==> !mask_has_rank(0, r),
    decreases n,
{
    assert forall|r: int| 0 <= r < 13 implies !mask_has_rank(0, r) by {
        let k = r as u32;
        assert((0u32 >> k) & 1u32 == 0u32) by (bit_vector);
    }
    if n > 0 {
        lemma_zero_bits(n - 1);
    }
}

pub(crate) proof fn lemma_bits_with_rank(m: u32, r: u8, n: int)
    requires
        r < 13,
        0 <= n <= 13,
    ensures
        bits_below(m | (1u32 << r), n) == bits_below(m, n) + (if r < n && !mask_has_rank(m, r as int) {
            1int
        } else {
            0int
        }),
    decreases n,
{
    if n > 0 {
        lemma_bits_with_rank(m, r, n - 1);
        let k = (n - 1) as u32;
        lemma_or_bit(m, r, k);
    }
}

proof fn lemma_mask_upto_has(h: Seq<Card>, n: int, r: int)
    requires
        0 <= n <= h.len(),
        0 <= r < 13,
    ensures
        mask_has_rank(mask_upto(h, n), r) == exists|j: int| 0 <= j < n && #[trigger] h[j].rank.spec_to_int() == r,
    decreases n,
{
    if n == 0 {
        lemma_zero_bits(0);
    } else {
        lemma_mask_upto_has(h, n - 1, r);
        let c = h[n - 1];
        lemma_rank_int_injective(c.rank, c.rank);
        lemma_or_bit(mask_upto(h, n - 1), c.rank.spec_to_int(), r as u32);
        if exists|j: int| 0 <= j < n - 1 && #[trigger] h[j].rank.spec_to_int() == r {
            let j = choose|j: int| 0 <= j < n - 1 && #[trigger] h[j].rank.spec_to_int() == r;
            assert(0 <= j < n && h[j].rank.spec_to_int() == r);
        }
        if c.rank.spec_to_int() == r {
            assert(h[n - 1].rank.spec_to_int() == r);
        }
    }
}

proof fn lemma_mask_upto_bits(h: Seq<Card>, n: int)
    requires
        0 <= n <= h.len(),
    ensures
        bits_below(mask_upto(h, n), 13) == distinct_rank_count(h, n),
    decreases n,
{
    if n == 0 {
        lemma_zero_bits(13);
    } else {
        lemma_mask_upto_bits(h, n - 1);
        let c = h[n - 1];
        let r = c.rank.spec_to_int();
        lemma_rank_int_injective(c.rank, c.rank);
        lemma_bits_with_rank(mask_upto(h, n - 1), r, 13);
        lemma_mask_upto_has(h, n - 1, r as int);
        if exists|j: int| 0 <= j < n - 1 && #[trigger] h[j].rank == c.rank {
            let j = choose|j: int| 0 <= j < n - 1 && #[trigger] h[j].rank == c.rank;
            assert(h[j].rank.spec_to_int() == r as int);
        }
        if exists|j: int| 0 <= j < n - 1 && #[trigger] h[j].rank.spec_to_int() == r as int {
            let j = choose|j: int| 0 <= j < n - 1 && #[trigger] h[j].rank.spec_to_int() == r as int;
            lemma_rank_int_injective(h[j].rank, c.rank);
            assert(h[j].rank == c.rank);
        }
    }
}

proof fn lemma_distinct_rank_count(h: Seq<Card>, n: int)
    requires
        0 <= n <= h.len(),
    ensures
        distinct_rank_count(h, n) <= n,
        (distinct_rank_count(h, n) == n) == (forall|a: int, b: int| 0 <= a < b < n ==> h[a].rank != h[b].rank),
    decreases n,
{
    if n > 0 {
        lemma_distinct_rank_count(h, n - 1);
        if distinct_rank_count(h, n) == n {
            assert forall|a: int, b: int| 0 <= a < b < n implies h[a].rank != h[b].rank by {
                if b == n - 1 {
                    if h[a].rank == h[b].rank {
                        assert(exists|j: int| 0 <= j < n - 1 && #[trigger] h[j].rank == h[n - 1].rank);
                    }
                }
            }
        }
        if forall|a: int, b: int| 0 <= a < b < n ==> h[a].rank != h[b].rank {
            assert forall|a: int, b: int| 0 <= a < b < n - 1 implies h[a].rank != h[b].rank by {}
            if exists|j: int| 0 <= j < n - 1 && #[trigger] h[j].rank == h[n - 1].rank {
                let j = choose|j: int| 0 <= j < n - 1 && #[trigger] h[j].rank == h[n - 1].rank;
                assert(h[j].rank != h[n - 1].rank);
            }
        }
    }
}

/// The rank mask of five cards, which `unique_rank_mask` reads from their
/// identifiers, is the bits of their ranks (`Rank::to_bit`) together, whatever
/// the order of the cards or of their identifiers; it
/// holds one bit per different rank, so five bits exactly when the five ranks
/// differ.
pub proof fn lemma_unique_rank_mask(h: Seq<Card>, ids: Seq<u32>, i: int, j: int)
    requires
        h.len() == 5,
        ids.len() == 5,
        forall|k: int| 0 <= k < 5 ==> ids[k] == card_id(#[trigger] h[k]),
        0 <= i < 5,
        0 <= j < 5,
    ensures
        (ids[0] | ids[1] | ids[2] | ids[3] | ids[4]) >> 12u32 == rank_mask5(h),
        rank_mask5(h) == mask_upto(h, 5),
        rank_mask5(h) <= 7936,
        bits_below(rank_mask5(h), 13) == distinct_rank_count(h, 5),
        is_five_mask(rank_mask5(h)) == (forall|a: int, b: int| 0 <= a < b < 5 ==> h[a].rank != h[b].rank),
        rank_mask5(h.update(i, h[j]).update(j, h[i])) == rank_mask5(h),
        ({
            let p = ids.update(i, ids[j]).update(j, ids[i]);
            (p[0] | p[1] | p[2] | p[3] | p[4]) >> 12u32 == rank_mask5(h)
        }),
{
    lemma_five_ids(h, ids);
    let g = h.update(i, h[j]).update(j, h[i]);
    let p = ids.update(i, ids[j]).update(j, ids[i]);
    assert forall|k: int| 0 <= k < 5 implies p[k] == card_id(#[trigger] g[k]) by {}
    lemma_five_ids(g, p);
    reveal_with_fuel(mask_upto, 6);
    let (b0, b1, b2, b3, b4) = (rank_bit(h[0]), rank_bit(h[1]), rank_bit(h[2]), rank_bit(h[3]), rank_bit(h[4]));
    assert(0u32 | b0 == b0) by (bit_vector);
    assert(mask_upto(h, 5) == b0 | b1 | b2 | b3 | b4);
    lemma_mask_upto_bits(h, 5);
    lemma_distinct_rank_count(h, 5);
    lemma_swap_keeps_keys(h, i, j);
}

/// The evaluator: five, seven or nine cards, by table lookup.
pub struct HandEvaluatorLookup {
    pub hand_lookup: HandLookupArrays,
}

impl HandEvaluatorLookup {
    /// Builds the lookup tables.
    pub fn new() -> (evaluator: Self)
        ensures
            evaluator.hand_lookup.wf(),
    {
        HandEvaluatorLookup { hand_lookup: HandLookupArrays::new() }
    }

    /// The scores of the 21 five-card subsets of seven cards, in the
    /// lexicographic order of their positions.
    pub open spec fn seven_scores(&self, cards: Seq<Card>) -> Seq<u16> {
        spec_combinations(7, 5).map_values(
            |c: Seq<usize>| self.hand_lookup.spec_evaluate_five(select_cards(cards, c)),
        )
    }

    /// The best score of seven cards.
    pub open spec fn best_of_seven(&self, hole: Seq<Card>, board: Seq<Card>) -> u16 {
        max_of(self.seven_scores(hole + board))
    }

    /// The winner of a deal: positions 0 and 1 are the traverser's hole cards,
    /// 2 and 3 the opponent's, 4 to 8 the board; the player whose best five of
    /// seven cards score higher wins, and `None` stands for a split pot.
    pub open spec fn nine_winner(&self, deal: Seq<Card>) -> Option<Player> {
        let t = self.best_of_seven(seq![deal[0], deal[1]], deal.subrange(4, 9));
        let o = self.best_of_seven(seq![deal[2], deal[3]], deal.subrange(4, 9));
        if t > o {
            Some(Player::Traverser)
        } else if t < o {
            Some(Player::Opponent)
        } else {
            None
        }
    }
}

/// Evaluates five, seven or nine cards; a stronger hand scores higher.
pub trait HandEvaluator {
    /// Whether the evaluator can evaluate (its tables are built).
    spec fn ready(&self) -> bool;

    /// The score of five cards among all five-card hands.
    spec fn five_score(&self, cards: Seq<Card>) -> u16;

    /// The result of evaluating seven cards with a short circuit.
    spec fn seven_result(&self, cards: Seq<Card>, short_circuit: u16) -> u16;

    /// The winner of a deal of nine cards.
    spec fn nine_result(&self, deal: Seq<Card>) -> Option<Player>;

    /// Evaluates five cards into their rank among all five-card hands.
    fn evaluate_five(&self, cards: [Card; 5]) -> (v: u16)
        requires
            self.ready(),
            five_ok(cards@),
        ensures
            v == self.five_score(cards@),
    ;

    /// Evaluates seven cards into their best five-card score; the short
    /// circuit lets it return early on a score above it.
    fn evaluate_seven(&self, hole_cards: &[Card; 2], board_cards: &[Card; 5], short_circuit: u16) -> (v: u16)
        requires
            self.ready(),
            seven_ok(hole_cards@ + board_cards@),
        ensures
            v == self.seven_result(hole_cards@ + board_cards@, short_circuit),
    ;

    /// Which player holds the better seven cards in a deal: the traverser's
    /// two cards, the opponent's two, then the five board cards.
    fn evaluate_nine(&self, deal: &[Card; 9]) -> (winner: Option<Player>)
        requires
            self.ready(),
            seven_ok(seq![deal@[0], deal@[1]] + deal@.subrange(4, 9)),
            seven_ok(seq![deal@[2], deal@[3]] + deal@.subrange(4, 9)),
        ensures
            winner == self.nine_result(deal@),
    ;
}

impl HandEvaluator for HandEvaluatorLookup {
    open spec fn ready(&self) -> bool {
        self.hand_lookup.wf()
    }

    /// The lookup of the tables (see `spec_evaluate_five`).
    open spec fn five_score(&self, cards: Seq<Card>) -> u16 {
        self.hand_lookup.spec_evaluate_five(cards)
    }

    /// The scan of the 21 five-card scores (see `scan_scores`).
    open spec fn seven_result(&self, cards: Seq<Card>, short_circuit: u16) -> u16 {
        scan_scores(self.seven_scores(cards), short_circuit)
    }

    /// The winner by the best seven cards (see `nine_winner`).
    open spec fn nine_result(&self, deal: Seq<Card>) -> Option<Player> {
        self.nine_winner(deal)
    }

    /// Evaluates five cards to their rank among all five-card hands, a
    /// stronger hand scoring higher (see `spec_evaluate_five`).
    fn evaluate_five(&self, cards: [Card; 5]) -> (v: u16) {
        let card_ids = hand_to_id(&cards);
        proof {
            lemma_five_ids(cards@, card_ids@);
        }
        let flush = is_flush(&card_ids);
        let unique_rank_representation = unique_rank_mask(&card_ids);
        if flush {
            return self.hand_lookup.flush_evaluation(unique_rank_representation);
        }
        let unique_lookup = self.hand_lookup.unique_ranks_evaluation(unique_rank_representation);
        if unique_lookup != 0 {
            return unique_lookup;
        }
        let p0 = card_ids[0] & PRIME_MASK;
        let p1 = card_ids[1] & PRIME_MASK;
        let p2 = card_ids[2] & PRIME_MASK;
        let p3 = card_ids[3] & PRIME_MASK;
        let p4 = card_ids[4] & PRIME_MASK;
        proof {
            assert(card_ids@[0] & PRIME_MASK == cards@[0].rank.spec_to_prime());
            assert(card_ids@[1] & PRIME_MASK == cards@[1].rank.spec_to_prime());
            assert(card_ids@[2] & PRIME_MASK == cards@[2].rank.spec_to_prime());
            assert(card_ids@[3] & PRIME_MASK == cards@[3].rank.spec_to_prime());
            assert(card_ids@[4] & PRIME_MASK == cards@[4].rank.spec_to_prime());
            assert(p0 * p1 <= 1681 && p0 * p1 * p2 <= 68921 && p0 * p1 * p2 * p3 <= 2825761 && p0
                * p1 * p2 * p3 * p4 <= 115856201) by (nonlinear_arith)
                requires
                    p0 <= 41,
                    p1 <= 41,
                    p2 <= 41,
                    p3 <= 41,
                    p4 <= 41,
            ;
        }
        let prime_product = p0 * p1 * p2 * p3 * p4;
        self.hand_lookup.remaining_evaluation(prime_product as usize)
    }

    /// Evaluates the best five of seven cards. With a `short_circuit` below
    /// `u16::MAX` it stops at the first five-card subset (in lexicographic order)
    /// that scores above `short_circuit` and returns that score.
    fn evaluate_seven(&self, hole_cards: &[Card; 2], board_cards: &[Card; 5], short_circuit: u16) -> (v: u16) {
        let mut cards: Vec<Card> = Vec::with_capacity(7);
        cards.push(hole_cards[0]);
        cards.push(hole_cards[1]);
        cards.push(board_cards[0]);
        cards.push(board_cards[1]);
        cards.push(board_cards[2]);
        cards.push(board_cards[3]);
        cards.push(board_cards[4]);
        let ghost seven = hole_cards@ + board_cards@;
        assert(cards@ == seven);
        let combos = combinations_of_range(7, 5);
        let ghost scores = self.seven_scores(seven);
        proof {
            lemma_combinations_from_shape(0, 7, 5);
        }
        assert(forall|i: int|
            0 <= i < spec_combinations(7, 5).len() ==> (#[trigger] spec_combinations(7, 5)[i]).len()
                == 5 && forall|j: int| 0 <= j < 5 ==> spec_combinations(7, 5)[i][j] < 7);
        let mut max_score: u16 = 0;
        let mut k: usize = 0;
        while k < combos.len()
            invariant
                k <= combos@.len(),
                combos.deep_view() == spec_combinations(7, 5),
                cards@ == seven,
                seven == hole_cards@ + board_cards@,
                seven.len() == 7,
                self.hand_lookup.wf(),
                seven_ok(seven),
                forall|i: int|
                    0 <= i < spec_combinations(7, 5).len() ==> (#[trigger] spec_combinations(7, 5)[i]).len()
                        == 5 && forall|j: int| 0 <= j < 5 ==> spec_combinations(7, 5)[i][j] < 7,
                scores == self.seven_scores(seven),
                scores.len() == combos@.len(),
                max_score == max_of(scores.take(k as int)),
                forall|j: int| 0 <= j < k ==> scores[j] <= short_circuit,
            decreases combos@.len() - k,
        {
            let combo = &combos[k];
            proof {
                assert(combos.deep_view()[k as int] == combo@);
                assert(combo@ == spec_combinations(7, 5)[k as int]);
                assert(combo@.len() == 5);
            }
            let hand = [cards[combo[0]], cards[combo[1]], cards[combo[2]], cards[combo[3]], cards[combo[4]]];
            proof {
                assert(hand@ == select_cards(seven, combo@));
                assert(five_ok(select_cards(seven, spec_combinations(7, 5)[k as int])));
            }
            let score = self.evaluate_five(hand);
            assert(scores[k as int] == score);
            if short_circuit != u16::MAX && score > short_circuit {
                proof {
                    lemma_scan_first_above(scores, short_circuit, k as int);
                    assert(scan_scores(scores, short_circuit) == score);
                    assert(scores == self.seven_scores(hole_cards@ + board_cards@));
                }
                return score;
            }
            proof {
                assert(scores.take(k + 1).drop_last() == scores.take(k as int));
            }
            max_score = if max_score >= score {
                max_score
            } else {
                score
            };
            k = k + 1;
        }
        proof {
            assert(scores.take(k as int) == scores);
            lemma_scan_all_below(scores, short_circuit);
        }
        max_score
    }

    /// Which of the two players holds the better seven cards (see
    /// `nine_winner`).
    fn evaluate_nine(&self, deal: &[Card; 9]) -> (winner: Option<Player>) {
        let board: [Card; 5] = [deal[4], deal[5], deal[6], deal[7], deal[8]];
        let traverser_cards: [Card; 2] = [deal[0], deal[1]];
        let opponent_cards: [Card; 2] = [deal[2], deal[3]];
        assert(board@ == deal@.subrange(4, 9));
        assert(traverser_cards@ == seq![deal@[0], deal@[1]]);
        assert(opponent_cards@ == seq![deal@[2], deal@[3]]);
        let best_score_traverser = self.evaluate_seven(&traverser_cards, &board, u16::MAX);
        let best_score_opponent = self.evaluate_seven(&opponent_cards, &board, best_score_traverser);
        proof {
            let ts = self.seven_scores(traverser_cards@ + board@);
            let os = self.seven_scores(opponent_cards@ + board@);
            lemma_scan_max(ts, u16::MAX);
            lemma_scan_max(os, best_score_traverser);
        }
        if best_score_traverser > best_score_opponent {
            Some(Player::Traverser)
        } else if best_score_traverser < best_score_opponent {
            Some(Player::Opponent)
        } else {
            None
        }
    }
}

/// Every five-card subset of seven cards can be evaluated.
pub open spec fn seven_ok(cards: Seq<Card>) -> bool {
    forall|k: int|
        0 <= k < spec_combinations(7, 5).len() ==> five_ok(
            select_cards(cards, #[trigger] spec_combinations(7, 5)[k]),
        )
}

/// The largest score, 0 for none.
pub open spec fn max_of(s: Seq<u16>) -> u16
    decreases s.len(),
{
    if s.len() == 0 {
        0
    } else {
        let m = max_of(s.drop_last());
        if m >= s.last() {
            m
        } else {
            s.last()
        }
    }
}

/// The result of scanning scores with a short circuit: the first score above
/// `sc` if one is, otherwise the largest.
pub open spec fn scan_scores(s: Seq<u16>, sc: u16) -> u16
    decreases s.len(),
{
    if s.len() == 0 {
        0
    } else if s[0] > sc {
        s[0]
    } else {
        let m = scan_scores(s.drop_first(), sc);
        if s[0] >= m {
            s[0]
        } else {
            m
        }
    }
}

proof fn lemma_max_of_front(s: Seq<u16>)
    requires
        s.len() > 0,
    ensures
        max_of(s) == if s[0] >= max_of(s.drop_first()) {
            s[0]
        } else {
            max_of(s.drop_first())
        },
        forall|j: int| 0 <= j < s.len() ==> s[j] <= max_of(s),
    decreases s.len(),
{
    if s.len() > 1 {
        lemma_max_of_front(s.drop_last());
        assert(s.drop_last().drop_first() == s.drop_first().drop_last());
        let x = max_of(s.drop_first().drop_last());
        assert(max_of(s.drop_first()) == if x >= s.last() {
            x
        } else {
            s.last()
        });
        assert(s.drop_first().last() == s.last());
        assert(s.drop_last()[0] == s[0]);
        assert forall|j: int| 0 <= j < s.len() implies s[j] <= max_of(s) by {
            if j < s.len() - 1 {
                assert(s.drop_last()[j] == s[j]);
            }
        }
    } else {
        assert(s.drop_first().len() == 0);
        assert(s.drop_last().len() == 0);
        assert(max_of(s.drop_last()) == 0);
        assert(max_of(s.drop_first()) == 0);
    }
}

proof fn lemma_scan_all_below(s: Seq<u16>, sc: u16)
    requires
        forall|j: int| 0 <= j < s.len() ==> s[j] <= sc,
    ensures
        scan_scores(s, sc) == max_of(s),
    decreases s.len(),
{
    if s.len() > 0 {
        lemma_scan_all_below(s.drop_first(), sc);
        lemma_max_of_front(s);
    }
}

proof fn lemma_scan_first_above(s: Seq<u16>, sc: u16, k: int)
    requires
        0 <= k < s.len(),
        s[k] > sc,
        forall|j: int| 0 <= j < k ==> s[j] <= sc,
    ensures
        scan_scores(s, sc) == s[k],
    decreases k,
{
    if k > 0 {
        lemma_scan_first_above(s.drop_first(), sc, k - 1);
    }
}

proof fn lemma_scan_max(s: Seq<u16>, sc: u16)
    ensures
        scan_scores(s, sc) > sc <==> max_of(s) > sc,
        max_of(s) <= sc ==> scan_scores(s, sc) == max_of(s),
    decreases s.len(),
{
    if s.len() > 0 {
        lemma_scan_max(s.drop_first(), sc);
        lemma_max_of_front(s);
    }
}

proof fn lemma_scan_member(s: Seq<u16>, sc: u16)
    requires
        s.len() > 0,
    ensures
        exists|k: int| 0 <= k < s.len() && s[k] == scan_scores(s, sc),
        scan_scores(s, sc) <= max_of(s),
    decreases s.len(),
{
    lemma_max_of_front(s);
    if s[0] > sc {
        assert(s[0] == scan_scores(s, sc));
    } else if s.len() == 1 {
        assert(s.drop_first().len() == 0);
        assert(scan_scores(s.drop_first(), sc) == 0);
        assert(s[0] >= scan_scores(s.drop_first(), sc));
        assert(s[0] == scan_scores(s, sc));
    } else {
        let t = s.drop_first();
        lemma_scan_member(t, sc);
        let k = choose|k: int| 0 <= k < t.len() && t[k] == scan_scores(t, sc);
        assert(s[k + 1] == t[k]);
        if s[0] >= scan_scores(t, sc) {
            assert(s[0] == scan_scores(s, sc));
        } else {
            assert(s[k + 1] == scan_scores(s, sc));
        }
    }
}

/// What the evaluation of seven cards returns, against the best of the 21
/// five-card scores: the best itself without a short circuit (`u16::MAX`); in
/// every case a score above the short circuit exactly when the best is above
/// it, the best whenever the best is not above it, never more than the best,
/// and always the score of one of the 21 subsets.
pub proof fn lemma_evaluate_seven_best(evaluator: HandEvaluatorLookup, cards: Seq<Card>, short_circuit: u16)
    ensures
        ({
            let scores = evaluator.seven_scores(cards);
            let r = evaluator.seven_result(cards, short_circuit);
            let best = max_of(scores);
            &&& short_circuit == u16::MAX ==> r == best
            &&& (r > short_circuit) == (best > short_circuit)
            &&& best <= short_circuit ==> r == best
            &&& r <= best
            &&& exists|k: int| 0 <= k < scores.len() && scores[k] == r
        }),
{
    let scores = evaluator.seven_scores(cards);
    lemma_combinations_complete(0, 7, 5, seq![0usize, 1, 2, 3, 4]);
    assert(scores.len() > 0);
    lemma_scan_max(scores, short_circuit);
    lemma_scan_member(scores, short_circuit);
}

/// Five distinct cards can be evaluated.
pub proof fn lemma_distinct_five_ok(h: Seq<Card>)
    requires
        h.len() == 5,
        forall|i: int, j: int| 0 <= i < j < 5 ==> h[i] != h[j],
    ensures
        five_ok(h),
{
    let (p0, p1, p2, p3, p4) = (
        h[0].rank.spec_to_prime() as int,
        h[1].rank.spec_to_prime() as int,
        h[2].rank.spec_to_prime() as int,
        h[3].rank.spec_to_prime() as int,
        h[4].rank.spec_to_prime() as int,
    );
    if h[0].rank == Rank::Ace && h[1].rank == Rank::Ace && h[2].rank == Rank::Ace && h[3].rank
        == Rank::Ace && h[4].rank == Rank::Ace {
        assert(h[0] != h[1] && h[0] != h[2] && h[0] != h[3] && h[0] != h[4] && h[1] != h[2] && h[1]
            != h[3] && h[1] != h[4] && h[2] != h[3] && h[2] != h[4] && h[3] != h[4]);
        assert(false);
    } else {
        assert(p0 * p1 * p2 * p3 * p4 <= 104553157) by (nonlinear_arith)
            requires
                2 <= p0 <= 41,
                2 <= p1 <= 41,
                2 <= p2 <= 41,
                2 <= p3 <= 41,
                2 <= p4 <= 41,
                p0 <= 37 || p1 <= 37 || p2 <= 37 || p3 <= 37 || p4 <= 37,
        ;
    }
}

/// Seven distinct cards can be evaluated.
pub proof fn lemma_distinct_seven_ok(cards: Seq<Card>)
    requires
        cards.len() == 7,
        forall|i: int, j: int| 0 <= i < j < 7 ==> cards[i] != cards[j],
    ensures
        seven_ok(cards),
{
    lemma_combinations_from_shape(0, 7, 5);
    assert forall|k: int| 0 <= k < spec_combinations(7, 5).len() implies five_ok(
        select_cards(cards, #[trigger] spec_combinations(7, 5)[k]),
    ) by {
        let c = spec_combinations(7, 5)[k];
        let h = select_cards(cards, c);
        assert forall|i: int, j: int| 0 <= i < j < 5 implies h[i] != h[j] by {
            assert(c[i] < c[j]);
        }
        lemma_distinct_five_ok(h);
    }
}

/// The evaluation of five cards does not depend on their order: exchanging
/// any two of them leaves it unchanged, and so does every reordering, which is
/// a sequence of such exchanges.
pub proof fn lemma_evaluate_five_order_invariant(tables: HandLookupArrays, h: Seq<Card>, i: int, j: int)
    requires
        h.len() == 5,
        0 <= i < 5,
        0 <= j < 5,
    ensures
        tables.spec_evaluate_five(h.update(i, h[j]).update(j, h[i])) == tables.spec_evaluate_five(h),
{
    lemma_swap_keeps_keys(h, i, j);
}

/// The largest of some scores is one of them.
proof fn lemma_max_of_member(s: Seq<u16>)
    requires
        s.len() > 0,
    ensures
        exists|k: int| 0 <= k < s.len() && s[k] == max_of(s),
    decreases s.len(),
{
    if s.len() > 1 {
        lemma_max_of_member(s.drop_last());
        let m = max_of(s.drop_last());
        if m >= s.last() {
            let k = choose|k: int| 0 <= k < s.drop_last().len() && s.drop_last()[k] == m;
            assert(s[k] == max_of(s));
        } else {
            assert(s[s.len() - 1] == max_of(s));
        }
    } else {
        assert(s.drop_last().len() == 0);
        assert(max_of(s.drop_last()) == 0);
        assert(s[0] == max_of(s));
    }
}

/// Whether a score is among some scores.
spec fn holds_value(s: Seq<u16>, x: u16) -> bool {
    exists|k: int| 0 <= k < s.len() && s[k] == x
}

/// Two lists of scores that hold the same values have the same largest.
proof fn lemma_max_of_same_values(s1: Seq<u16>, s2: Seq<u16>)
    requires
        s1.len() > 0,
        s2.len() > 0,
        forall|k: int| 0 <= k < s1.len() ==> holds_value(s2, #[trigger] s1[k]),
        forall|k: int| 0 <= k < s2.len() ==> holds_value(s1, #[trigger] s2[k]),
    ensures
        max_of(s1) == max_of(s2),
{
    lemma_max_of_member(s1);
    lemma_max_of_member(s2);
    lemma_max_of_front(s1);
    lemma_max_of_front(s2);
    let a = choose|k: int| 0 <= k < s1.len() && s1[k] == max_of(s1);
    let b = choose|k: int| 0 <= k < s2.len() && s2[k] == max_of(s2);
    assert(holds_value(s2, s1[a]));
    assert(holds_value(s1, s2[b]));
    let a2 = choose|k2: int| 0 <= k2 < s2.len() && s2[k2] == s1[a];
    let b1 = choose|k1: int| 0 <= k1 < s1.len() && s1[k1] == s2[b];
    assert(s2[a2] <= max_of(s2));
    assert(s1[b1] <= max_of(s1));
}

/// Cards with those at `i` and `i + 1` exchanged.
pub open spec fn swap_next(cards: Seq<Card>, i: int) -> Seq<Card> {
    cards.update(i, cards[i + 1]).update(i + 1, cards[i])
}

/// Each score of the five-card subsets of seven cards with two neighbours
/// exchanged is the score of a five-card subset of the seven cards.
proof fn lemma_swap_next_score(tables: HandLookupArrays, cards: Seq<Card>, i: int, k: int)
    requires
        cards.len() == 7,
        0 <= i < 6,
        0 <= k < spec_combinations(7, 5).len(),
    ensures
        exists|k2: int|
            0 <= k2 < spec_combinations(7, 5).len() && #[trigger] tables.spec_evaluate_five(
                select_cards(cards, spec_combinations(7, 5)[k2]),
            ) == tables.spec_evaluate_five(select_cards(swap_next(cards, i), spec_combinations(7, 5)[k])),
{
    lemma_combinations_from_shape(0, 7, 5);
    let combos = spec_combinations(7, 5);
    let s = combos[k];
    assert(s.len() == 5);
    let g = swap_next(cards, i);
    let hg = select_cards(g, s);
    let hc = select_cards(cards, s);
    if exists|a: int| 0 <= a < 5 && s[a] == i {
        let a = choose|a: int| 0 <= a < 5 && s[a] == i;
        if exists|b: int| 0 <= b < 5 && s[b] == i + 1 {
            let b = choose|b: int| 0 <= b < 5 && s[b] == i + 1;
            assert(b == a + 1) by {
                if b > a + 1 {
                    assert(s[a] < s[a + 1] && s[a + 1] < s[b]);
                } else if b < a {
                    assert(s[b] < s[a]);
                }
            }
            assert forall|m: int| 0 <= m < 5 && m != a && m != a + 1 implies s[m] != i && s[m] != i + 1 by {
                if m < a {
                    assert(s[m] < s[a]);
                } else {
                    assert(s[a + 1] < s[m]);
                }
            }
            assert(hg =~= hc.update(a, hc[a + 1]).update(a + 1, hc[a]));
            lemma_evaluate_five_order_invariant(tables, hc, a, a + 1);
            assert(tables.spec_evaluate_five(select_cards(cards, combos[k])) == tables.spec_evaluate_five(hg));
        } else {
            let c2 = s.update(a, (i + 1) as usize);
            assert forall|j: int| 0 <= j < 5 implies 0 <= #[trigger] c2[j] < 7 by {}
            assert forall|j1: int, j2: int| 0 <= j1 < j2 < 5 implies c2[j1] < c2[j2] by {
                if j1 == a {
                    assert(s[a] < s[j2] && s[j2] != i + 1);
                } else if j2 == a {
                    assert(s[j1] < s[a]);
                } else {
                    assert(s[j1] < s[j2]);
                }
            }
            lemma_combinations_complete(0, 7, 5, c2);
            let k2 = choose|k2: int| 0 <= k2 < combos.len() && combos[k2] == c2;
            assert forall|m: int| 0 <= m < 5 && m != a implies s[m] != i && s[m] != i + 1 by {
                if m < a {
                    assert(s[m] < s[a]);
                } else {
                    assert(s[a] < s[m]);
                }
            }
            assert(select_cards(cards, c2) =~= hg);
            assert(tables.spec_evaluate_five(select_cards(cards, combos[k2])) == tables.spec_evaluate_five(hg));
        }
    } else if exists|b: int| 0 <= b < 5 && s[b] == i + 1 {
        let b = choose|b: int| 0 <= b < 5 && s[b] == i + 1;
        let c2 = s.update(b, i as usize);
        assert forall|j: int| 0 <= j < 5 implies 0 <= #[trigger] c2[j] < 7 by {}
        assert forall|j1: int, j2: int| 0 <= j1 < j2 < 5 implies c2[j1] < c2[j2] by {
            if j2 == b {
                assert(s[j1] < s[b] && s[j1] != i);
            } else if j1 == b {
                assert(s[b] < s[j2]);
            } else {
                assert(s[j1] < s[j2]);
            }
        }
        lemma_combinations_complete(0, 7, 5, c2);
        let k2 = choose|k2: int| 0 <= k2 < combos.len() && combos[k2] == c2;
        assert forall|m: int| 0 <= m < 5 && m != b implies s[m] != i && s[m] != i + 1 by {}
        assert(select_cards(cards, c2) =~= hg);
        assert(tables.spec_evaluate_five(select_cards(cards, combos[k2])) == tables.spec_evaluate_five(hg));
    } else {
        assert(hg =~= hc);
        assert(tables.spec_evaluate_five(select_cards(cards, combos[k])) == tables.spec_evaluate_five(hg));
    }
}

/// Every score of seven cards with two neighbours exchanged is a score of the
/// seven cards.
proof fn lemma_swap_next_scores(evaluator: HandEvaluatorLookup, cards: Seq<Card>, i: int)
    requires
        cards.len() == 7,
        0 <= i < 6,
    ensures
        forall|k: int|
            0 <= k < evaluator.seven_scores(swap_next(cards, i)).len() ==> holds_value(
                evaluator.seven_scores(cards),
                #[trigger] evaluator.seven_scores(swap_next(cards, i))[k],
            ),
{
    let tables = evaluator.hand_lookup;
    let combos = spec_combinations(7, 5);
    let g = swap_next(cards, i);
    let sg = evaluator.seven_scores(g);
    let sc = evaluator.seven_scores(cards);
    assert forall|k: int| 0 <= k < sg.len() implies holds_value(sc, #[trigger] sg[k]) by {
        lemma_swap_next_score(tables, cards, i, k);
        let k2 = choose|k2: int|
            0 <= k2 < combos.len() && #[trigger] tables.spec_evaluate_five(select_cards(cards, combos[k2]))
                == tables.spec_evaluate_five(select_cards(g, combos[k]));
        assert(sc[k2] == tables.spec_evaluate_five(select_cards(cards, combos[k2])));
        assert(sg[k] == tables.spec_evaluate_five(select_cards(g, combos[k])));
        assert(sc[k2] == sg[k]);
    }
}

/// Exchanging two neighbouring cards among seven leaves their best score
/// unchanged.
proof fn lemma_best_of_seven_swap_next(evaluator: HandEvaluatorLookup, cards: Seq<Card>, i: int)
    requires
        cards.len() == 7,
        0 <= i < 6,
    ensures
        max_of(evaluator.seven_scores(swap_next(cards, i))) == max_of(evaluator.seven_scores(cards)),
{
    let combos = spec_combinations(7, 5);
    let g = swap_next(cards, i);
    assert(swap_next(g, i) =~= cards);
    let sg = evaluator.seven_scores(g);
    let sc = evaluator.seven_scores(cards);
    lemma_combinations_complete(0, 7, 5, seq![0usize, 1, 2, 3, 4]);
    assert(combos.len() > 0);
    lemma_swap_next_scores(evaluator, cards, i);
    lemma_swap_next_scores(evaluator, g, i);
    assert(sg.len() > 0 && sc.len() > 0);
    lemma_max_of_same_values(sg, sc);
}

/// The winner of a deal does not depend on the order of a player's hole
/// cards or of the board: exchanging a player's two hole cards, or two
/// neighbouring board cards, leaves it unchanged, and so does every reordering
/// of the board and of each player's hole cards, which is a sequence of such
/// exchanges.
pub proof fn lemma_evaluate_nine_order_invariant(evaluator: HandEvaluatorLookup, deal: Seq<Card>, i: int)
    requires
        deal.len() == 9,
        i == 0 || i == 2 || 4 <= i < 8,
    ensures
        evaluator.nine_winner(swap_next(deal, i)) == evaluator.nine_winner(deal),
        evaluator.nine_result(swap_next(deal, i)) == evaluator.nine_result(deal),
{
    let d2 = swap_next(deal, i);
    let board = deal.subrange(4, 9);
    let t = seq![deal[0], deal[1]];
    let o = seq![deal[2], deal[3]];
    let t2 = seq![d2[0], d2[1]];
    let o2 = seq![d2[2], d2[3]];
    let board2 = d2.subrange(4, 9);
    if i == 0 {
        assert(o2 =~= o);
        assert(board2 =~= board);
        assert(t2 + board2 =~= swap_next(t + board, 0));
        lemma_best_of_seven_swap_next(evaluator, t + board, 0);
    } else if i == 2 {
        assert(t2 =~= t);
        assert(board2 =~= board);
        assert(o2 + board2 =~= swap_next(o + board, 0));
        lemma_best_of_seven_swap_next(evaluator, o + board, 0);
    } else {
        assert(t2 =~= t);
        assert(o2 =~= o);
        assert(t2 + board2 =~= swap_next(t + board, i - 2));
        assert(o2 + board2 =~= swap_next(o + board, i - 2));
        lemma_best_of_seven_swap_next(evaluator, t + board, i - 2);
        lemma_best_of_seven_swap_next(evaluator, o + board, i - 2);
    }
}

proof fn lemma_swap_keeps_keys(h: Seq<Card>, i: int, j: int)
    requires
        h.len() == 5,
        0 <= i < 5,
        0 <= j < 5,
    ensures
        ({
            let g = h.update(i, h[j]).update(j, h[i]);
            &&& rank_mask5(g) == rank_mask5(h)
            &&& same_suit5(g) == same_suit5(h)
            &&& prime_product5(g) == prime_product5(h)
        }),
{
    let g = h.update(i, h[j]).update(j, h[i]);
    lemma_or_exchanges(rank_bit(h[0]), rank_bit(h[1]), rank_bit(h[2]), rank_bit(h[3]), rank_bit(h[4]));
    lemma_product_exchanges(
        h[0].rank.spec_to_prime() as int,
        h[1].rank.spec_to_prime() as int,
        h[2].rank.spec_to_prime() as int,
        h[3].rank.spec_to_prime() as int,
        h[4].rank.spec_to_prime() as int,
    );
    if i == j {
        assert(g =~= h);
    } else if (i == 0 && j == 1) || (i == 1 && j == 0) {
        assert(g =~= seq![h[1], h[0], h[2], h[3], h[4]]);
    } else if (i == 0 && j == 2) || (i == 2 && j == 0) {
        assert(g =~= seq![h[2], h[1], h[0], h[3], h[4]]);
    } else if (i == 0 && j == 3) || (i == 3 && j == 0) {
        assert(g =~= seq![h[3], h[1], h[2], h[0], h[4]]);
    } else if (i == 0 && j == 4) || (i == 4 && j == 0) {
        assert(g =~= seq![h[4], h[1], h[2], h[3], h[0]]);
    } else if (i == 1 && j == 2) || (i == 2 && j == 1) {
        assert(g =~= seq![h[0], h[2], h[1], h[3], h[4]]);
    } else if (i == 1 && j == 3) || (i == 3 && j == 1) {
        assert(g =~= seq![h[0], h[3], h[2], h[1], h[4]]);
    } else if (i == 1 && j == 4) || (i == 4 && j == 1) {
        assert(g =~= seq![h[0], h[4], h[2], h[3], h[1]]);
    } else if (i == 2 && j == 3) || (i == 3 && j == 2) {
        assert(g =~= seq![h[0], h[1], h[3], h[2], h[4]]);
    } else if (i == 2 && j == 4) || (i == 4 && j == 2) {
        assert(g =~= seq![h[0], h[1], h[4], h[3], h[2]]);
    } else if (i == 3 && j == 4) || (i == 4 && j == 3) {
        assert(g =~= seq![h[0], h[1], h[2], h[4], h[3]]);
    }
}

proof fn lemma_or_exchanges(a: u32, b: u32, c: u32, d: u32, e: u32)
    by (bit_vector)
    ensures
        a | b | c | d | e == b | a | c | d | e,
        a | b | c | d | e == c | b | a | d | e,
        a | b | c | d | e == d | b | c | a | e,
        a | b | c | d | e == e | b | c | d | a,
        a | b | c | d | e == a | c | b | d | e,
        a | b | c | d | e == a | d | c | b | e,
        a | b | c | d | e == a | e | c | d | b,
        a | b | c | d | e == a | b | d | c | e,
        a | b | c | d | e == a | b | e | d | c,
        a | b | c | d | e == a | b | c | e | d,
{
}

proof fn lemma_product_exchanges(p0: int, p1: int, p2: int, p3: int, p4: int)
    ensures
        p0 * p1 * p2 * p3 * p4 == p1 * p0 * p2 * p3 * p4,
        p0 * p1 * p2 * p3 * p4 == p2 * p1 * p0 * p3 * p4,
        p0 * p1 * p2 * p3 * p4 == p3 * p1 * p2 * p0 * p4,
        p0 * p1 * p2 * p3 * p4 == p4 * p1 * p2 * p3 * p0,
        p0 * p1 * p2 * p3 * p4 == p0 * p2 * p1 * p3 * p4,
        p0 * p1 * p2 * p3 * p4 == p0 * p3 * p2 * p1 * p4,
        p0 * p1 * p2 * p3 * p4 == p0 * p4 * p2 * p3 * p1,
        p0 * p1 * p2 * p3 * p4 == p0 * p1 * p3 * p2 * p4,
        p0 * p1 * p2 * p3 * p4 == p0 * p1 * p4 * p3 * p2,
        p0 * p1 * p2 * p3 * p4 == p0 * p1 * p2 * p4 * p3,
{
    assert(p0 * p1 * p2 * p3 * p4 == p1 * p0 * p2 * p3 * p4) by (nonlinear_arith);
    assert(p0 * p1 * p2 * p3 * p4 == p2 * p1 * p0 * p3 * p4) by (nonlinear_arith);
    assert(p0 * p1 * p2 * p3 * p4 == p3 * p1 * p2 * p0 * p4) by (nonlinear_arith);
    assert(p0 * p1 * p2 * p3 * p4 == p4 * p1 * p2 * p3 * p0) by (nonlinear_arith);
    assert(p0 * p1 * p2 * p3 * p4 == p0 * p2 * p1 * p3 * p4) by (nonlinear_arith);
    assert(p0 * p1 * p2 * p3 * p4 == p0 * p3 * p2 * p1 * p4) by (nonlinear_arith);
    assert(p0 * p1 * p2 * p3 * p4 == p0 * p4 * p2 * p3 * p1) by (nonlinear_arith);
    assert(p0 * p1 * p2 * p3 * p4 == p0 * p1 * p3 * p2 * p4) by (nonlinear_arith);
    assert(p0 * p1 * p2 * p3 * p4 == p0 * p1 * p4 * p3 * p2) by (nonlinear_arith);
    assert(p0 * p1 * p2 * p3 * p4 == p0 * p1 * p2 * p4 * p3) by (nonlinear_arith);
}

/// The rank letters of the bits set among the lowest `n` of a rank mask,
/// lowest rank first.
pub open spec fn mask_text(bits: u16, n: int) -> Seq<char>
    decreases n,
{
    if n <= 0 {
        Seq::empty()
    } else {
        mask_text(bits, n - 1) + if bits & (1u16 << ((n - 1) as u16)) != 0 {
            seq![Rank::spec_from_int((n - 1) as u8).spec_char()]
        } else {
            Seq::empty()
        }
    }
}

/// The ranks of an identifier's rank mask as letters, lowest first, followed by
/// the suit letter `S` (the suit bits must be clear).
pub fn id_mask_to_string(id: CardId) -> (s: String)
    requires
        id & SUIT_MASK == 0,
    ensures
        s@ == mask_text((id >> 12u32) as u16, 13) + "S"@,
{
    let rank_bits: u16 = (id >> 12u32) as u16;
    let mut mask_string = String::new();
    let mut i: u16 = 0;
    while i < 13
        invariant
            i <= 13,
            rank_bits == (id >> 12u32) as u16,
            mask_string@ == mask_text(rank_bits, i as int),
        decreases 13 - i,
    {
        if rank_bits & (1u16 << i) != 0 {
            let r = Rank::from_int(i as u8);
            mask_string.append(r.to_str());
        }
        i = i + 1;
    }
    mask_string.append("S");
    mask_string
}

/// The prime of the rank numbered `i`.
pub open spec fn nth_prime(i: int) -> int {
    Rank::spec_from_int(i as u8).spec_to_prime() as int
}

/// The first rank number from `i` on whose prime divides `p`.
pub open spec fn first_prime_index(p: int, i: int) -> Option<int>
    decreases 13 - i,
{
    if i >= 13 || i < 0 {
        None
    } else if p % nth_prime(i) == 0 {
        Some(i)
    } else {
        first_prime_index(p, i + 1)
    }
}

/// The ranks of a prime product, smallest prime first, each letter followed by
/// a space.
pub open spec fn product_rank_text(p: int) -> Seq<char>
    decreases p,
{
    if p <= 1 {
        Seq::empty()
    } else {
        match first_prime_index(p, 0) {
            Some(i) => {
                proof {
                    lemma_first_prime_index(p, 0);
                    vstd::arithmetic::div_mod::lemma_div_decreases(p, nth_prime(i));
                }
                seq![Rank::spec_from_int(i as u8).spec_char(), ' '] + product_rank_text(p / nth_prime(i))
            },
            None => Seq::empty(),
        }
    }
}

/// Whether a product is made of rank primes only.
pub open spec fn rank_product(p: int) -> bool
    decreases p,
{
    if p <= 1 {
        true
    } else {
        match first_prime_index(p, 0) {
            Some(i) => {
                proof {
                    lemma_first_prime_index(p, 0);
                    vstd::arithmetic::div_mod::lemma_div_decreases(p, nth_prime(i));
                }
                rank_product(p / nth_prime(i))
            },
            None => false,
        }
    }
}

/// The rank number found divides the product by its prime.
pub proof fn lemma_first_prime_index(p: int, i: int)
    ensures
        first_prime_index(p, i) matches Some(j) ==> 0 <= j < 13 && nth_prime(j) >= 2 && p % nth_prime(j) == 0,
    decreases 13 - i,
{
    if 0 <= i < 13 {
        lemma_first_prime_index(p, i + 1);
    }
}

/// The ranks whose primes make up `product` (see `product_rank_text`).
pub fn prime_product_to_rank_string(product: usize) -> (s: String)
    requires
        rank_product(product as int),
    ensures
        s@ == product_rank_text(product as int),
{
    let primes: [usize; 13] = [2, 3, 5, 7, 11, 13, 17, 19, 23, 29, 31, 37, 41];
    let ghost start = product as int;
    let mut product = product;
    let mut rank_string = String::new();
    while product > 1
        invariant
            rank_product(product as int),
            rank_string@ + product_rank_text(product as int) == product_rank_text(start),
            primes@ == seq![2usize, 3, 5, 7, 11, 13, 17, 19, 23, 29, 31, 37, 41],
        decreases product,
    {
        proof {
            lemma_first_prime_index(product as int, 0);
        }
        let ghost target = first_prime_index(product as int, 0);
        let mut i: usize = 0;
        let mut found = false;
        while i < 13 && !found
            invariant
                i <= 13,
                primes@ == seq![2usize, 3, 5, 7, 11, 13, 17, 19, 23, 29, 31, 37, 41],
                product > 1,
                target == first_prime_index(product as int, 0),
                target is Some,
                !found ==> first_prime_index(product as int, i as int) == target,
                found ==> i > 0 && target == Some((i - 1) as int),
            decreases 13 - i,
        {
            assert(primes@[i as int] == nth_prime(i as int));
            if product % primes[i] == 0 {
                found = true;
            }
            i = i + 1;
        }
        let k = i - 1;
        assert(primes@[k as int] == nth_prime(k as int));
        let r = Rank::from_int(k as u8);
        rank_string.append(r.to_str());
        rank_string.append(" ");
        proof {
            reveal_strlit(" ");
            vstd::arithmetic::div_mod::lemma_div_decreases(product as int, nth_prime(k as int));
            assert(rank_string@ + product_rank_text((product as int) / nth_prime(k as int)) == product_rank_text(start));
        }
        product = product / primes[k];
    }
    rank_string
}

} // verus!
