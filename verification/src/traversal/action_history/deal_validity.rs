use crate::models::card::{card_int, cards_distinct, lemma_card_int_roundtrip, Card};
use crate::traversal::action_history::board_abstraction::board_abstraction_defined;
use crate::traversal::action_history::card_abstraction::{
    connected_abstraction_defined, connected_count, flush_abstraction_defined,
    flush_rank, rank_count_in, suit_count_above,
};
use crate::traversal::action_history::card_round_abstraction::card_round_defined;
use crate::traversal::action_history::game_abstraction::{deal_abstraction_defined, round_board, seat_hole};
use vstd::prelude::*;
use vstd::set_lib::{lemma_int_range, lemma_len_subset, set_int_range};

verus! {

/// The suit numbers of the cards of rank number `r`.
spec fn suits_of_rank(cards: Seq<Card>, r: int) -> Set<int>
    decreases cards.len(),
{
    if cards.len() == 0 {
        Set::empty()
    } else {
        let s = suits_of_rank(cards.drop_last(), r);
        if cards.last().rank.spec_to_int() == r {
            s.insert(cards.last().suit.spec_to_int() as int)
        } else {
            s
        }
    }
}

/// The rank numbers above `r` of the cards of suit number `suit`.
spec fn ranks_of_suit_above(cards: Seq<Card>, suit: int, r: int) -> Set<int>
    decreases cards.len(),
{
    if cards.len() == 0 {
        Set::empty()
    } else {
        let s = ranks_of_suit_above(cards.drop_last(), suit, r);
        if cards.last().suit.spec_to_int() == suit && cards.last().rank.spec_to_int() > r {
            s.insert(cards.last().rank.spec_to_int() as int)
        } else {
            s
        }
    }
}

/// Two cards with the same rank and suit numbers are the same card.
proof fn lemma_card_ints_equal(a: Card, b: Card)
    requires
        a.rank.spec_to_int() == b.rank.spec_to_int(),
        a.suit.spec_to_int() == b.suit.spec_to_int(),
    ensures
        a == b,
{
    lemma_card_int_roundtrip(a, 0);
    lemma_card_int_roundtrip(b, 0);
    assert(card_int(a) == card_int(b));
}

proof fn lemma_suits_of_rank(cards: Seq<Card>, r: int)
    requires
        cards_distinct(cards),
    ensures
        suits_of_rank(cards, r).finite(),
        suits_of_rank(cards, r).len() == rank_count_in(cards, r),
        forall|x: int| #[trigger] suits_of_rank(cards, r).contains(x) <==> exists|i: int|
            0 <= i < cards.len() && cards[i].rank.spec_to_int() == r && cards[i].suit.spec_to_int() == x,
    decreases cards.len(),
{
    if cards.len() > 0 {
        let prefix = cards.drop_last();
        let last = cards.last();
        assert(cards_distinct(prefix)) by {
            assert forall|i: int, j: int| 0 <= i < j < prefix.len() implies prefix[i] != prefix[j] by {
                assert(prefix[i] == cards[i] && prefix[j] == cards[j]);
            }
        }
        lemma_suits_of_rank(prefix, r);
        let n = cards.len() - 1;
        if last.rank.spec_to_int() == r {
            let x = last.suit.spec_to_int() as int;
            if suits_of_rank(prefix, r).contains(x) {
                let i = choose|i: int|
                    0 <= i < prefix.len() && prefix[i].rank.spec_to_int() == r && prefix[i].suit.spec_to_int() == x;
                lemma_card_ints_equal(prefix[i], last);
                assert(cards[i] == cards[n]);
            }
        }
        assert forall|x: int| #[trigger] suits_of_rank(cards, r).contains(x) <==> exists|i: int|
            0 <= i < cards.len() && cards[i].rank.spec_to_int() == r && cards[i].suit.spec_to_int() == x by {
            if suits_of_rank(prefix, r).contains(x) {
                let i = choose|i: int|
                    0 <= i < prefix.len() && prefix[i].rank.spec_to_int() == r && prefix[i].suit.spec_to_int() == x;
                assert(cards[i] == prefix[i]);
            }
            if exists|i: int| 0 <= i < cards.len() && cards[i].rank.spec_to_int() == r && cards[i].suit.spec_to_int() == x {
                let i = choose|i: int|
                    0 <= i < cards.len() && cards[i].rank.spec_to_int() == r && cards[i].suit.spec_to_int() == x;
                if i < n {
                    assert(prefix[i] == cards[i]);
                }
            }
        }
    }
}

proof fn lemma_ranks_of_suit_above(cards: Seq<Card>, suit: int, r: int)
    requires
        cards_distinct(cards),
    ensures
        ranks_of_suit_above(cards, suit, r).finite(),
        ranks_of_suit_above(cards, suit, r).len() == suit_count_above(cards, suit, r),
        forall|x: int| #[trigger] ranks_of_suit_above(cards, suit, r).contains(x) <==> exists|i: int|
            0 <= i < cards.len() && cards[i].suit.spec_to_int() == suit && cards[i].rank.spec_to_int() > r
                && cards[i].rank.spec_to_int() == x,
    decreases cards.len(),
{
    if cards.len() > 0 {
        let prefix = cards.drop_last();
        let last = cards.last();
        assert(cards_distinct(prefix)) by {
            assert forall|i: int, j: int| 0 <= i < j < prefix.len() implies prefix[i] != prefix[j] by {
                assert(prefix[i] == cards[i] && prefix[j] == cards[j]);
            }
        }
        lemma_ranks_of_suit_above(prefix, suit, r);
        let n = cards.len() - 1;
        if last.suit.spec_to_int() == suit && last.rank.spec_to_int() > r {
            let x = last.rank.spec_to_int() as int;
            if ranks_of_suit_above(prefix, suit, r).contains(x) {
                let i = choose|i: int|
                    0 <= i < prefix.len() && prefix[i].suit.spec_to_int() == suit && prefix[i].rank.spec_to_int()
                        > r && prefix[i].rank.spec_to_int() == x;
                lemma_card_ints_equal(prefix[i], last);
                assert(cards[i] == cards[n]);
            }
        }
        assert forall|x: int| #[trigger] ranks_of_suit_above(cards, suit, r).contains(x) <==> exists|i: int|
            0 <= i < cards.len() && cards[i].suit.spec_to_int() == suit && cards[i].rank.spec_to_int() > r
                && cards[i].rank.spec_to_int() == x by {
            if ranks_of_suit_above(prefix, suit, r).contains(x) {
                let i = choose|i: int|
                    0 <= i < prefix.len() && prefix[i].suit.spec_to_int() == suit && prefix[i].rank.spec_to_int()
                        > r && prefix[i].rank.spec_to_int() == x;
                assert(cards[i] == prefix[i]);
            }
            if exists|i: int| 0 <= i < cards.len() && cards[i].suit.spec_to_int() == suit && cards[i].rank.spec_to_int() > r
                && cards[i].rank.spec_to_int() == x {
                let i = choose|i: int|
                    0 <= i < cards.len() && cards[i].suit.spec_to_int() == suit && cards[i].rank.spec_to_int()
                        > r && cards[i].rank.spec_to_int() == x;
                if i < n {
                    assert(prefix[i] == cards[i]);
                }
            }
        }
    }
}

/// Distinct cards hold at most four of any rank.
proof fn lemma_distinct_rank_count(cards: Seq<Card>, r: int)
    requires
        cards_distinct(cards),
    ensures
        rank_count_in(cards, r) <= 4,
{
    lemma_suits_of_rank(cards, r);
    lemma_int_range(0, 4);
    assert(suits_of_rank(cards, r).subset_of(set_int_range(0, 4))) by {
        assert forall|x: int| #[trigger] suits_of_rank(cards, r).contains(x) implies set_int_range(0, 4).contains(x) by {
            let i = choose|i: int|
                0 <= i < cards.len() && cards[i].rank.spec_to_int() == r && cards[i].suit.spec_to_int() == x;
        }
    }
    lemma_len_subset(suits_of_rank(cards, r), set_int_range(0, 4));
}

/// Distinct cards hold at most `12 - r` cards of one suit ranked above `r`.
proof fn lemma_distinct_suit_count_above(cards: Seq<Card>, suit: int, r: int)
    requires
        cards_distinct(cards),
        0 <= r <= 12,
    ensures
        suit_count_above(cards, suit, r) <= 12 - r,
{
    lemma_ranks_of_suit_above(cards, suit, r);
    lemma_int_range(r + 1, 13);
    assert(ranks_of_suit_above(cards, suit, r).subset_of(set_int_range(r + 1, 13))) by {
        assert forall|x: int| #[trigger] ranks_of_suit_above(cards, suit, r).contains(x) implies set_int_range(r + 1, 13).contains(x) by {
            let i = choose|i: int|
                0 <= i < cards.len() && cards[i].suit.spec_to_int() == suit && cards[i].rank.spec_to_int() > r
                    && cards[i].rank.spec_to_int() == x;
        }
    }
    lemma_len_subset(ranks_of_suit_above(cards, suit, r), set_int_range(r + 1, 13));
}

/// Counting over two sequences is counting over their concatenation.
proof fn lemma_rank_count_concat(a: Seq<Card>, b: Seq<Card>, r: int)
    ensures
        rank_count_in(a + b, r) == rank_count_in(a, r) + rank_count_in(b, r),
    decreases b.len(),
{
    if b.len() == 0 {
        assert(a + b == a);
    } else {
        lemma_rank_count_concat(a, b.drop_last(), r);
        assert((a + b).drop_last() == a + b.drop_last());
    }
}

/// Hole cards and a board that are all different cards give a defined round
/// abstraction, if the board has at most five cards.
pub proof fn lemma_distinct_round_defined(hole: Seq<Card>, board: Seq<Card>)
    requires
        hole.len() == 2,
        board.len() <= 5,
        cards_distinct(hole + board),
    ensures
        card_round_defined(hole, board),
{
    let all = hole + board;
    assert(cards_distinct(board)) by {
        assert forall|i: int, j: int| 0 <= i < j < board.len() implies board[i] != board[j] by {
            assert(board[i] == all[i + 2] && board[j] == all[j + 2]);
        }
    }
    assert forall|r: int| 0 <= r < 13 implies #[trigger] rank_count_in(board, r) <= 4 by {
        lemma_distinct_rank_count(board, r);
    }
    assert forall|r: int| 0 <= r < 13 implies #[trigger] connected_count(hole, board, r) <= 4 by {
        lemma_distinct_rank_count(all, r);
        lemma_rank_count_concat(hole, board, r);
    }
    assert(board_abstraction_defined(board));
    assert(connected_abstraction_defined(hole, board));
    let fr = flush_rank(hole, board);
    assert(0 <= fr <= 12);
    lemma_distinct_suit_count_above(board, crate::traversal::action_history::card_abstraction::flush_suit(hole, board), fr);
    assert(flush_abstraction_defined(hole, board));
}

/// A deal of nine different cards has a defined abstraction for both players
/// in every round.
pub proof fn lemma_distinct_deal_defined(deal: Seq<Card>)
    requires
        deal.len() == 9,
        cards_distinct(deal),
    ensures
        deal_abstraction_defined(deal),
{
    assert forall|seat: int, round: int| 0 <= seat < 2 && 0 <= round < 4 implies #[trigger] card_round_defined(
        seat_hole(deal, seat),
        round_board(deal, round),
    ) by {
        let hole = seat_hole(deal, seat);
        let board = round_board(deal, round);
        let all = hole + board;
        assert forall|i: int, j: int| 0 <= i < j < all.len() implies all[i] != all[j] by {
            let pi = if i < 2 { 2 * seat + i } else { 4 + i - 2 };
            let pj = if j < 2 { 2 * seat + j } else { 4 + j - 2 };
            assert(all[i] == deal[pi]);
            assert(all[j] == deal[pj]);
            if pi < pj {
                assert(deal[pi] != deal[pj]);
            } else {
                assert(deal[pj] != deal[pi]);
            }
        }
        lemma_distinct_round_defined(hole, board);
    }
}

} // verus!
