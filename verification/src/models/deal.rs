use crate::models::card::{cards_distinct, Card};
use vstd::prelude::*;

verus! {

/// The hole cards of both players and the community cards dealt so far.
pub struct Deal {
    pub traverser: (Card, Card),
    pub opponent: (Card, Card),
    pub community: Vec<Card>,
}

impl Deal {
    /// Four different random cards, two for each player, and no community
    /// cards yet.
    pub fn new_pre_flop() -> (d: Deal)
        ensures
            cards_distinct(seq![d.traverser.0, d.traverser.1, d.opponent.0, d.opponent.1]),
            d.community@.len() == 0,
    {
        let cards = Card::new_random_cards(4);
        Deal {
            traverser: (cards[0], cards[1]),
            opponent: (cards[2], cards[3]),
            community: Vec::new(),
        }
    }
}

} // verus!
