use crate::evaluate::generate_tables::remaining_hand_types::HandType;
use crate::models::card::{Card, Rank};
use crate::traversal::action_history::card_abstraction::{rank_count_in, suit_count};
use crate::text::{decimal_text, u8_to_string};
use vstd::prelude::*;

verus! {

/// What the board alone shows: its longest run of consecutive ranks, how
/// suited it is, and the made hand it holds.
#[derive(Debug, PartialEq, Eq, Structural, Clone, Copy)]
pub struct BoardAbstraction {
    pub max_consecutive_cards: u8,
    /// 0 for a board without flush potential, otherwise the most cards of one
    /// suit.
    pub suit_count_abstraction: u8,
    pub board_hand_type: HandType,
}

impl Default for BoardAbstraction {
    fn default() -> (b: BoardAbstraction)
        ensures
            b.max_consecutive_cards == 0,
            b.suit_count_abstraction == 0,
            b.board_hand_type == HandType::NoMadeHand,
    {
        BoardAbstraction {
            max_consecutive_cards: 0,
            suit_count_abstraction: 0,
            board_hand_type: HandType::default(),
        }
    }
}

/// The cards at rank position `k`: position 0 is the low ace, position `k` in
/// 1 to 13 the rank numbered `k - 1`.
pub open spec fn board_position_count(board: Seq<Card>, k: int) -> nat {
    if k == 0 {
        rank_count_in(board, 12)
    } else {
        rank_count_in(board, k - 1)
    }
}

/// The run of occupied rank positions that ends at `k`.
pub open spec fn board_run(board: Seq<Card>, k: int) -> nat
    decreases k + 1,
{
    if k < 0 || board_position_count(board, k) == 0 {
        0
    } else {
        board_run(board, k - 1) + 1
    }
}

/// The longest run of occupied rank positions that ends below `n`.
pub open spec fn board_max_run(board: Seq<Card>, n: int) -> nat
    decreases n,
{
    if n <= 0 {
        0
    } else {
        let m = board_max_run(board, n - 1);
        let r = board_run(board, n - 1);
        if m >= r {
            m
        } else {
            r
        }
    }
}

/// How many ranks numbered below `n` the board holds exactly `c` times.
pub open spec fn board_ranks_with(board: Seq<Card>, c: nat, n: int) -> nat
    decreases n,
{
    if n <= 0 {
        0
    } else {
        board_ranks_with(board, c, n - 1) + if rank_count_in(board, n - 1) == c {
            1nat
        } else {
            0nat
        }
    }
}

/// The made hand on the board, by how many ranks it holds twice, three and four
/// times: one pair, two pairs, one set, a set and a pair, or one quad; any
/// other shape counts as no made hand. The ranks are left at their default.
pub open spec fn board_hand_type_of(board: Seq<Card>) -> HandType {
    let p = board_ranks_with(board, 2, 13);
    let t = board_ranks_with(board, 3, 13);
    let q = board_ranks_with(board, 4, 13);
    if p == 1 && t == 0 && q == 0 {
        HandType::Pair(Rank::Two)
    } else if p == 2 && t == 0 && q == 0 {
        HandType::TwoPair(Rank::Two, Rank::Two)
    } else if p == 0 && t == 1 && q == 0 {
        HandType::ThreeOfAKind(Rank::Two)
    } else if p == 1 && t == 1 && q == 0 {
        HandType::FullHouse(Rank::Two, Rank::Two)
    } else if p == 0 && t == 0 && q == 1 {
        HandType::FourOfAKind(Rank::Two)
    } else {
        HandType::NoMadeHand
    }
}

/// The most board cards of one suit.
pub open spec fn max_suit_count(board: Seq<Card>) -> nat {
    let a = suit_count(board, 0);
    let b = suit_count(board, 1);
    let c = suit_count(board, 2);
    let d = suit_count(board, 3);
    let ab = if a >= b {
        a
    } else {
        b
    };
    let cd = if c >= d {
        c
    } else {
        d
    };
    if ab >= cd {
        ab
    } else {
        cd
    }
}

/// The suit abstraction of some cards: 0 when three or four cards show one
/// of each suit or five cards show at most two of a suit, else the most cards
/// of one suit.
pub open spec fn suit_abstraction_of_cards(cards: Seq<Card>) -> u8 {
    let m = max_suit_count(cards);
    if (m == 1 && (cards.len() == 3 || cards.len() == 4)) || (m == 2 && cards.len() == 5) {
        0
    } else {
        m as u8
    }
}

/// The cards of another rank than the one numbered `r`, in order.
pub open spec fn cards_without_rank(board: Seq<Card>, r: int) -> Seq<Card>
    decreases board.len(),
{
    if board.len() == 0 {
        Seq::empty()
    } else {
        let rest = cards_without_rank(board.drop_last(), r);
        if board.last().rank.spec_to_int() == r {
            rest
        } else {
            rest.push(board.last())
        }
    }
}

/// The highest rank number below `n` that the board holds four times; 13
/// (no rank) when there is none.
pub open spec fn quad_rank_below(board: Seq<Card>, n: int) -> int
    decreases n,
{
    if n <= 0 {
        13
    } else if rank_count_in(board, n - 1) == 4 {
        n - 1
    } else {
        quad_rank_below(board, n - 1)
    }
}

/// The cards whose suits the suit abstraction counts: the whole board, but
/// on a board that holds four of a kind only the cards outside it, as the
/// four cards of one rank can take part in no flush draw of their own.
pub open spec fn suit_counted_cards(board: Seq<Card>) -> Seq<Card> {
    if board_hand_type_of(board) is FourOfAKind {
        cards_without_rank(board, quad_rank_below(board, 13))
    } else {
        board
    }
}

/// The suit abstraction of a board (see `suit_counted_cards` and
/// `suit_abstraction_of_cards`).
pub open spec fn suit_count_abstraction_of(board: Seq<Card>) -> u8 {
    suit_abstraction_of_cards(suit_counted_cards(board))
}

proof fn lemma_suit_int_injective(a: Card, b: Card)
    ensures
        (a.suit.spec_to_int() == b.suit.spec_to_int()) == (a.suit == b.suit),
        a.suit.spec_to_int() < 4,
{
}

proof fn lemma_suit_count_absent(board: Seq<Card>, s: int)
    requires
        forall|i: int| 0 <= i < board.len() ==> (#[trigger] board[i]).suit.spec_to_int() != s,
    ensures
        suit_count(board, s) == 0,
    decreases board.len(),
{
    if board.len() > 0 {
        lemma_suit_count_absent(board.drop_last(), s);
        assert(board.last() == board[board.len() - 1]);
    }
}

proof fn lemma_suit_count_at_most_one(board: Seq<Card>, s: int)
    requires
        forall|i: int, j: int| 0 <= i < j < board.len() ==> board[i].suit != board[j].suit,
    ensures
        suit_count(board, s) <= 1,
    decreases board.len(),
{
    if board.len() > 0 {
        let rest = board.drop_last();
        lemma_suit_count_at_most_one(rest, s);
        let last = board.last();
        if last.suit.spec_to_int() == s {
            assert forall|i: int| 0 <= i < rest.len() implies (#[trigger] rest[i]).suit.spec_to_int() != s by {
                assert(rest[i] == board[i]);
                assert(board[i].suit != board[board.len() - 1].suit);
                lemma_suit_int_injective(rest[i], last);
            }
            lemma_suit_count_absent(rest, s);
        }
    }
}

proof fn lemma_suit_count_present(board: Seq<Card>, k: int)
    requires
        0 <= k < board.len(),
    ensures
        suit_count(board, board[k].suit.spec_to_int() as int) >= 1,
    decreases board.len(),
{
    if k < board.len() - 1 {
        lemma_suit_count_present(board.drop_last(), k);
        assert(board.drop_last()[k] == board[k]);
    }
}

proof fn lemma_no_quads(board: Seq<Card>, n: int)
    requires
        forall|r: int| 0 <= r < 13 ==> #[trigger] rank_count_in(board, r) != 4,
        n <= 13,
    ensures
        board_ranks_with(board, 4, n) == 0,
    decreases n,
{
    if n > 0 {
        lemma_no_quads(board, n - 1);
        assert(rank_count_in(board, n - 1) != 4);
    }
}

/// A flop or turn whose cards all have different suits (and no rank four
/// times) is rainbow: its suit abstraction is 0.
pub proof fn lemma_rainbow_suit_abstraction(board: Seq<Card>)
    requires
        3 <= board.len() <= 4,
        forall|i: int, j: int| 0 <= i < j < board.len() ==> board[i].suit != board[j].suit,
        forall|r: int| 0 <= r < 13 ==> #[trigger] rank_count_in(board, r) != 4,
    ensures
        suit_count_abstraction_of(board) == 0,
{
    lemma_no_quads(board, 13);
    assert(suit_counted_cards(board) == board);
    lemma_suit_count_at_most_one(board, 0);
    lemma_suit_count_at_most_one(board, 1);
    lemma_suit_count_at_most_one(board, 2);
    lemma_suit_count_at_most_one(board, 3);
    lemma_suit_count_present(board, 0);
    lemma_suit_int_injective(board[0], board[0]);
    assert(max_suit_count(board) == 1);
}

proof fn lemma_without_no_rank(board: Seq<Card>)
    ensures
        cards_without_rank(board, 13) == board,
    decreases board.len(),
{
    if board.len() > 0 {
        lemma_without_no_rank(board.drop_last());
        assert(board.last().rank.spec_to_int() < 13);
        assert(board.drop_last().push(board.last()) == board);
    }
}

proof fn lemma_without_len(board: Seq<Card>, r: int)
    ensures
        cards_without_rank(board, r).len() <= board.len(),
    decreases board.len(),
{
    if board.len() > 0 {
        lemma_without_len(board.drop_last(), r);
    }
}

/// How many of the cards of another rank than `skip` have each suit, and how
/// many such cards there are.
fn count_suits_except(cards: &[Card], skip: u8) -> (res: (Vec<u8>, usize))
    requires
        cards@.len() <= 52,
    ensures
        res.0@.len() == 4,
        forall|s: int| 0 <= s < 4 ==> #[trigger] res.0@[s] == suit_count(cards_without_rank(cards@, skip as int), s),
        res.1 == cards_without_rank(cards@, skip as int).len(),
{
    let ghost r = skip as int;
    let mut counts: Vec<u8> = vec![0, 0, 0, 0];
    let mut n: usize = 0;
    let mut i: usize = 0;
    while i < cards.len()
        invariant
            i <= cards@.len() <= 52,
            r == skip as int,
            counts@.len() == 4,
            forall|s: int| 0 <= s < 4 ==> #[trigger] counts@[s] == suit_count(cards_without_rank(cards@.take(i as int), r), s),
            n == cards_without_rank(cards@.take(i as int), r).len(),
            n <= i,
        decreases cards@.len() - i,
    {
        let c = cards[i];
        let ghost before = cards_without_rank(cards@.take(i as int), r);
        proof {
            assert(cards@.take(i + 1).drop_last() == cards@.take(i as int));
            assert(cards@.take(i + 1).last() == c);
            lemma_count_bounds(before, c.suit.spec_to_int() as int, 0);
        }
        if c.rank.to_int() != skip {
            let s = c.suit.to_int() as usize;
            counts.set(s, counts[s] + 1);
            n = n + 1;
            proof {
                let after = before.push(c);
                assert(after.drop_last() == before);
                assert forall|t: int| 0 <= t < 4 implies #[trigger] counts@[t] == suit_count(after, t) by {}
            }
        }
        i = i + 1;
    }
    assert(cards@.take(cards@.len() as int) == cards@);
    (counts, n)
}

/// The suit abstraction from the suit counts of some cards and their number.
fn suit_abstraction_from_counts(counts: &Vec<u8>, n: usize, Ghost(cards): Ghost<Seq<Card>>) -> (a: u8)
    requires
        counts@.len() == 4,
        forall|s: int| 0 <= s < 4 ==> #[trigger] counts@[s] == suit_count(cards, s),
        n == cards.len(),
    ensures
        a == suit_abstraction_of_cards(cards),
{
    let (a0, a1, a2, a3) = (counts[0], counts[1], counts[2], counts[3]);
    assert(a0 == suit_count(cards, 0) && a1 == suit_count(cards, 1) && a2 == suit_count(cards, 2) && a3
        == suit_count(cards, 3));
    let ab = if a0 >= a1 {
        a0
    } else {
        a1
    };
    let cd = if a2 >= a3 {
        a2
    } else {
        a3
    };
    let m = if ab >= cd {
        ab
    } else {
        cd
    };
    if (m == 1 && (n == 3 || n == 4)) || (m == 2 && n == 5) {
        0
    } else {
        m
    }
}

/// The boards the abstraction is defined on: no rank held five or more times.
pub open spec fn board_abstraction_defined(board: Seq<Card>) -> bool {
    forall|r: int| 0 <= r < 13 ==> #[trigger] rank_count_in(board, r) <= 4
}

/// The byte of a board hand type: 1 to 5 for pair up to four of a kind, 0 for
/// no made hand.
pub open spec fn hand_type_byte(h: HandType) -> u8 {
    match h {
        HandType::Pair(_) => 1,
        HandType::TwoPair(_, _) => 2,
        HandType::ThreeOfAKind(_) => 3,
        HandType::FullHouse(_, _) => 4,
        HandType::FourOfAKind(_) => 5,
        HandType::NoMadeHand => 0,
    }
}

/// The board hand type a byte stands for, with default ranks.
pub open spec fn byte_hand_type(b: u8) -> HandType {
    if b == 1 {
        HandType::Pair(Rank::Two)
    } else if b == 2 {
        HandType::TwoPair(Rank::Two, Rank::Two)
    } else if b == 3 {
        HandType::ThreeOfAKind(Rank::Two)
    } else if b == 4 {
        HandType::FullHouse(Rank::Two, Rank::Two)
    } else if b == 5 {
        HandType::FourOfAKind(Rank::Two)
    } else {
        HandType::NoMadeHand
    }
}

/// The three bytes of a board abstraction.
pub open spec fn board_bytes(b: BoardAbstraction) -> Seq<u8> {
    seq![b.max_consecutive_cards, b.suit_count_abstraction, hand_type_byte(b.board_hand_type)]
}

impl BoardAbstraction {
    /// The abstraction of the board cards.
    pub fn new(cards: &[Card]) -> (b: BoardAbstraction)
        requires
            board_abstraction_defined(cards@),
        ensures
            b.max_consecutive_cards == board_max_run(cards@, 14),
            b.suit_count_abstraction == suit_count_abstraction_of(cards@),
            b.board_hand_type == board_hand_type_of(cards@),
    {
        let ghost board = cards@;
        proof {
            lemma_board_len_bound(board);
        }
        let mut rank_counter: Vec<usize> = vec![0usize; 14];
        let mut i: usize = 0;
        while i < cards.len()
            invariant
                i <= board.len() <= 52,
                board == cards@,
                rank_counter@.len() == 14,
                forall|k: int| 0 <= k < 14 ==> #[trigger] rank_counter@[k] == board_position_count(board.take(i as int), k),
            decreases board.len() - i,
        {
            let c = cards[i];
            proof {
                assert(board.take(i + 1).drop_last() == board.take(i as int));
                lemma_count_bounds(board.take(i as int), c.suit.spec_to_int() as int, c.rank.spec_to_int() as int);
                lemma_count_bounds(board.take(i as int), c.suit.spec_to_int() as int, 12);
            }
            let rank_idx = c.rank.to_int() as usize;
            rank_counter.set(rank_idx + 1, rank_counter[rank_idx + 1] + 1);
            if rank_idx == 12 {
                rank_counter.set(0, rank_counter[0] + 1);
            }
            i = i + 1;
        }
        assert(board.take(board.len() as int) == board);
        let mut connected_cards: Vec<u8> = vec![0, 0, 0];
        let mut consective: u8 = 0;
        let mut max_consecutive_cards: u8 = 0;
        let mut k: usize = 0;
        while k < 14
            invariant
                k <= 14,
                board == cards@,
                board_abstraction_defined(board),
                rank_counter@.len() == 14,
                connected_cards@.len() == 3,
                forall|j: int| 0 <= j < 14 ==> #[trigger] rank_counter@[j] == board_position_count(board, j),
                consective == board_run(board, k - 1),
                consective <= k,
                max_consecutive_cards == board_max_run(board, k as int),
                connected_cards@[0] == board_ranks_with(board, 2, k - 1),
                connected_cards@[1] == board_ranks_with(board, 3, k - 1),
                connected_cards@[2] == board_ranks_with(board, 4, k - 1),
                connected_cards@[0] <= k && connected_cards@[1] <= k && connected_cards@[2] <= k,
            decreases 14 - k,
        {
            if rank_counter[k] > 1 && k > 0 {
                assert(rank_count_in(board, k - 1) <= 4);
                let slot = rank_counter[k] - 2;
                connected_cards.set(slot, connected_cards[slot] + 1);
            }
            if rank_counter[k] > 0 {
                consective = consective + 1;
                max_consecutive_cards = if max_consecutive_cards >= consective {
                    max_consecutive_cards
                } else {
                    consective
                };
            } else {
                consective = 0;
            }
            k = k + 1;
        }
        let p = connected_cards[0];
        let t = connected_cards[1];
        let q = connected_cards[2];
        let hand_type = if p == 1 && t == 0 && q == 0 {
            HandType::Pair(Rank::default())
        } else if p == 2 && t == 0 && q == 0 {
            HandType::TwoPair(Rank::default(), Rank::default())
        } else if p == 0 && t == 1 && q == 0 {
            HandType::ThreeOfAKind(Rank::default())
        } else if p == 1 && t == 1 && q == 0 {
            HandType::FullHouse(Rank::default(), Rank::default())
        } else if p == 0 && t == 0 && q == 1 {
            HandType::FourOfAKind(Rank::default())
        } else {
            HandType::NoMadeHand
        };
        let mut quad: u8 = 13;
        let mut r: u8 = 0;
        while r < 13
            invariant
                r <= 13,
                rank_counter@.len() == 14,
                forall|j: int| 0 <= j < 14 ==> #[trigger] rank_counter@[j] == board_position_count(board, j),
                quad == quad_rank_below(board, r as int),
            decreases 13 - r,
        {
            assert(rank_counter@[r + 1] == board_position_count(board, r + 1));
            if rank_counter[r as usize + 1] == 4 {
                quad = r;
            }
            r = r + 1;
        }
        let skip: u8 = if p == 0 && t == 0 && q == 1 {
            quad
        } else {
            13
        };
        proof {
            lemma_without_no_rank(board);
        }
        let (counts, counted) = count_suits_except(cards, skip);
        let suit_count_abstraction = suit_abstraction_from_counts(
            &counts,
            counted,
            Ghost(cards_without_rank(board, skip as int)),
        );
        BoardAbstraction { max_consecutive_cards, suit_count_abstraction, board_hand_type: hand_type }
    }

    pub fn serialise(&self) -> (v: Vec<u8>)
        ensures
            v@ == board_bytes(*self),
    {
        let mut serialised: Vec<u8> = Vec::new();
        serialised.push(self.max_consecutive_cards);
        serialised.push(self.suit_count_abstraction);
        let hand_type_serialised: u8 = match self.board_hand_type {
            HandType::Pair(_) => 1,
            HandType::TwoPair(_, _) => 2,
            HandType::ThreeOfAKind(_) => 3,
            HandType::FullHouse(_, _) => 4,
            HandType::FourOfAKind(_) => 5,
            HandType::NoMadeHand => 0,
        };
        serialised.push(hand_type_serialised);
        serialised
    }

    pub fn deserialise(serialised: &[u8]) -> (b: BoardAbstraction)
        requires
            serialised@.len() >= 3,
        ensures
            b.max_consecutive_cards == serialised@[0],
            b.suit_count_abstraction == serialised@[1],
            b.board_hand_type == byte_hand_type(serialised@[2]),
    {
        let t = serialised[2];
        BoardAbstraction {
            max_consecutive_cards: serialised[0],
            suit_count_abstraction: serialised[1],
            board_hand_type: if t == 1 {
                HandType::Pair(Rank::default())
            } else if t == 2 {
                HandType::TwoPair(Rank::default(), Rank::default())
            } else if t == 3 {
                HandType::ThreeOfAKind(Rank::default())
            } else if t == 4 {
                HandType::FullHouse(Rank::default(), Rank::default())
            } else if t == 5 {
                HandType::FourOfAKind(Rank::default())
            } else {
                HandType::NoMadeHand
            },
        }
    }
}

/// A board abstraction's bytes read back as the same abstraction, but for the
/// ranks of its hand type, which come back as the default.
pub proof fn lemma_board_roundtrip(b: BoardAbstraction)
    ensures
        board_bytes(b).len() == 3,
        board_bytes(b)[0] == b.max_consecutive_cards,
        board_bytes(b)[1] == b.suit_count_abstraction,
        hand_type_byte(byte_hand_type(board_bytes(b)[2])) == hand_type_byte(b.board_hand_type),
{
}

/// How many cards of `board` have a rank numbered below `n`.
spec fn ranks_below(board: Seq<Card>, n: int) -> nat
    decreases n,
{
    if n <= 0 {
        0
    } else {
        ranks_below(board, n - 1) + rank_count_in(board, n - 1)
    }
}

proof fn lemma_ranks_below_last(board: Seq<Card>, n: int)
    requires
        board.len() > 0,
    ensures
        ranks_below(board, n) == ranks_below(board.drop_last(), n) + if 0 <= board.last().rank.spec_to_int() < n {
            1nat
        } else {
            0nat
        },
    decreases n,
{
    if n > 0 {
        lemma_ranks_below_last(board, n - 1);
    }
}

proof fn lemma_ranks_below_all(board: Seq<Card>)
    ensures
        ranks_below(board, 13) == board.len(),
    decreases board.len(),
{
    if board.len() > 0 {
        lemma_ranks_below_last(board, 13);
        lemma_ranks_below_all(board.drop_last());
    } else {
        assert(ranks_below(board, 13) == 0) by {
            lemma_ranks_below_empty(board, 13);
        }
    }
}

proof fn lemma_ranks_below_empty(board: Seq<Card>, n: int)
    requires
        board.len() == 0,
    ensures
        ranks_below(board, n) == 0,
    decreases n,
{
    if n > 0 {
        lemma_ranks_below_empty(board, n - 1);
    }
}

proof fn lemma_ranks_below_bound(board: Seq<Card>, n: int)
    requires
        0 <= n <= 13,
        board_abstraction_defined(board),
    ensures
        ranks_below(board, n) <= 4 * n,
    decreases n,
{
    if n > 0 {
        lemma_ranks_below_bound(board, n - 1);
        assert(rank_count_in(board, n - 1) <= 4);
    }
}

/// A board with no rank held five times has at most 52 cards.
proof fn lemma_board_len_bound(board: Seq<Card>)
    requires
        board_abstraction_defined(board),
    ensures
        board.len() <= 52,
{
    lemma_ranks_below_all(board);
    lemma_ranks_below_bound(board, 13);
}

proof fn lemma_count_bounds(board: Seq<Card>, s: int, r: int)
    ensures
        suit_count(board, s) <= board.len(),
        rank_count_in(board, r) <= board.len(),
    decreases board.len(),
{
    if board.len() > 0 {
        lemma_count_bounds(board.drop_last(), s, r);
    }
}

/// The debug text of a board hand type, such as `Pair(Two)` or
/// `TwoPair(Two, Two)`; no made hand reads `None`.
pub open spec fn hand_type_text(h: HandType) -> Seq<char> {
    match h {
        HandType::Pair(a) => "Pair("@ + a.spec_name() + ")"@,
        HandType::TwoPair(a, b) => "TwoPair("@ + a.spec_name() + ", "@ + b.spec_name() + ")"@,
        HandType::ThreeOfAKind(a) => "ThreeOfAKind("@ + a.spec_name() + ")"@,
        HandType::FullHouse(a, b) => "FullHouse("@ + a.spec_name() + ", "@ + b.spec_name() + ")"@,
        HandType::FourOfAKind(a) => "FourOfAKind("@ + a.spec_name() + ")"@,
        HandType::NoMadeHand => "None"@,
    }
}

/// The text of a board abstraction: `Consecutive: `, the run, `, Suits: `, the
/// suit count, `, Hand type: ` and the hand type.
pub open spec fn board_text(b: BoardAbstraction) -> Seq<char> {
    "Consecutive: "@ + decimal_text(b.max_consecutive_cards as nat) + ", Suits: "@ + decimal_text(
        b.suit_count_abstraction as nat,
    ) + ", Hand type: "@ + hand_type_text(b.board_hand_type)
}

fn hand_type_string(h: HandType) -> (s: String)
    ensures
        s@ == hand_type_text(h),
{
    match h {
        HandType::Pair(a) => {
            let mut s = String::from_str("Pair(");
            s.append(a.name());
            s.append(")");
            s
        },
        HandType::TwoPair(a, b) => {
            let mut s = String::from_str("TwoPair(");
            s.append(a.name());
            s.append(", ");
            s.append(b.name());
            s.append(")");
            s
        },
        HandType::ThreeOfAKind(a) => {
            let mut s = String::from_str("ThreeOfAKind(");
            s.append(a.name());
            s.append(")");
            s
        },
        HandType::FullHouse(a, b) => {
            let mut s = String::from_str("FullHouse(");
            s.append(a.name());
            s.append(", ");
            s.append(b.name());
            s.append(")");
            s
        },
        HandType::FourOfAKind(a) => {
            let mut s = String::from_str("FourOfAKind(");
            s.append(a.name());
            s.append(")");
            s
        },
        HandType::NoMadeHand => String::from_str("None"),
    }
}

impl BoardAbstraction {
    /// The text of the abstraction (see `board_text`).
    pub fn to_display_string(&self) -> (s: String)
        ensures
            s@ == board_text(*self),
    {
        let mut s = String::from_str("Consecutive: ");
        s.append(u8_to_string(self.max_consecutive_cards).as_str());
        s.append(", Suits: ");
        s.append(u8_to_string(self.suit_count_abstraction).as_str());
        s.append(", Hand type: ");
        s.append(hand_type_string(self.board_hand_type).as_str());
        s
    }
}

} // verus!
