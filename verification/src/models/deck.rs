use crate::models::card::{card_from_int, Card, Rank, Suit};
use vstd::prelude::*;

verus! {

/// A full deck of cards.
pub struct Deck {
    pub cards: Vec<Card>,
}

impl Deck {
    /// The 52 cards, suit by suit, each suit from two to ace: card `i` is the
    /// card with deck number `i`.
    pub fn new() -> (d: Deck)
        ensures
            d.cards@ == Seq::new(52, |i: int| card_from_int(i)),
    {
        let mut cards: Vec<Card> = Vec::new();
        let mut suit: u8 = 0;
        while suit < 4
            invariant
                suit <= 4,
                cards@ == Seq::new(13 * suit as nat, |i: int| card_from_int(i)),
            decreases 4 - suit,
        {
            let mut rank: u8 = 0;
            while rank < 13
                invariant
                    suit < 4,
                    rank <= 13,
                    cards@ == Seq::new((13 * suit + rank) as nat, |i: int| card_from_int(i)),
                decreases 13 - rank,
            {
                cards.push(Card::new(Suit::from_int(suit), Rank::from_int(rank)));
                proof {
                    let n = 13 * suit + rank;
                    assert(n / 13 == suit as int && n % 13 == rank as int) by (nonlinear_arith)
                        requires
                            n == 13 * suit + rank,
                            rank < 13,
                    ;
                }
                rank = rank + 1;
                assert(cards@ =~= Seq::new((13 * suit + rank) as nat, |i: int| card_from_int(i)));
            }
            suit = suit + 1;
        }
        Deck { cards }
    }
}

} // verus!
