use crate::models::card::{all_pocket_pairs, all_rank_combos, spec_all_rank_combos, Card, Rank, Suit};
use crate::traversal::action_history::card_round_abstraction::{card_round_defined, card_round_of, round_bytes};
use crate::traversal::action_history::game_abstraction::{abstraction_key, get_current_abstraction};
use crate::traversal::strategy::strategy_branch::StrategyHubKey;
use vstd::prelude::*;

verus! {

/// The key and information-state key of the small blind's first preflop
/// decision with an offsuit hand of the given ranks: the low rank in spades,
/// the high rank in clubs, the small blind's pot of 2 after one bet.
pub open spec fn preflop_abstraction(ranks: (Rank, Rank)) -> (StrategyHubKey, Seq<u8>) {
    let hole = seq![Card { rank: ranks.0, suit: Suit::Spades }, Card { rank: ranks.1, suit: Suit::Clubs }];
    (
        StrategyHubKey { low_rank: ranks.0, high_rank: ranks.1, is_suited: false, is_sb: true },
        abstraction_key(0, 2, 1, round_bytes(card_round_of(hole, Seq::empty()))),
    )
}

/// The rank pairs checked: every unpaired combination, then the pocket pairs.
pub open spec fn preflop_rank_pairs() -> Seq<(Rank, Rank)> {
    spec_all_rank_combos() + Seq::new(13, |i: int| (Rank::spec_from_int(i as u8), Rank::spec_from_int(i as u8)))
}

/// The preflop information-state keys of the small blind's offsuit hands (see
/// `preflop_abstraction`). The key depends on the hole cards alone, as no
/// board card is out preflop.
pub fn generate_preflop_abstractions() -> (abstractions: Vec<(StrategyHubKey, Vec<u8>)>)
    ensures
        abstractions@.len() == preflop_rank_pairs().len(),
        forall|i: int| 0 <= i < abstractions@.len() ==> {
            let p = preflop_abstraction(preflop_rank_pairs()[i]);
            &&& (#[trigger] abstractions@[i]).0 == p.0
            &&& abstractions@[i].1@ == p.1
        },
{
    let mut combos = all_rank_combos();
    let mut pairs = all_pocket_pairs();
    combos.append(&mut pairs);
    assert(combos@ == preflop_rank_pairs());
    let mut game_abstractions: Vec<(StrategyHubKey, Vec<u8>)> = Vec::new();
    let mut i: usize = 0;
    while i < combos.len()
        invariant
            i <= combos@.len(),
            combos@ == preflop_rank_pairs(),
            game_abstractions@.len() == i,
            forall|j: int| 0 <= j < i ==> {
                let p = preflop_abstraction(preflop_rank_pairs()[j]);
                &&& (#[trigger] game_abstractions@[j]).0 == p.0
                &&& game_abstractions@[j].1@ == p.1
            },
        decreases combos@.len() - i,
    {
        let (low, high) = combos[i];
        let card1 = Card::new(Suit::Spades, low);
        let card2 = Card::new(Suit::Clubs, high);
        let board: Vec<Card> = Vec::new();
        proof {
            let hole = seq![card1, card2];
            assert(card_round_defined(hole, board@)) by {
                assert forall|r: int| 0 <= r < 13 implies #[trigger] crate::traversal::action_history::card_abstraction::rank_count_in(board@, r) <= 4 by {}
                assert(crate::traversal::action_history::card_abstraction::connected_abstraction_defined(hole, board@)) by {
                    assert forall|r: int| 0 <= r < 13 implies #[trigger] crate::traversal::action_history::card_abstraction::connected_count(hole, board@, r) <= 4 by {
                        reveal_with_fuel(crate::traversal::action_history::card_abstraction::rank_count_in, 3);
                        assert(hole.drop_last() == seq![card1]);
                        assert(hole.drop_last().drop_last() == Seq::<Card>::empty());
                        assert(crate::traversal::action_history::card_abstraction::rank_count_in(hole, r) <= 2);
                    }
                }
            }
        }
        let key = StrategyHubKey { low_rank: card1.rank, high_rank: card2.rank, is_suited: false, is_sb: true };
        let serialised = get_current_abstraction(&(card1, card2), board.as_slice(), 0, 2, 1);
        game_abstractions.push((key, serialised));
        i = i + 1;
    }
    game_abstractions
}

} // verus!
