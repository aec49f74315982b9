use crate::models::card::{
    all_pocket_pairs, all_rank_combos, spec_all_rank_combos, Card, Rank, Suit,
};
use crate::thread_utils::rng::random_index;
use crate::traversal::strategy::strategy_branch::StrategyHubKey;
use vstd::prelude::*;

verus! {

/// The small blind's two cards of a key: the low rank in spades, the high rank
/// in spades when suited, else in clubs.
pub open spec fn sb_cards_of(key: StrategyHubKey) -> (Card, Card) {
    (
        Card { rank: key.low_rank, suit: Suit::Spades },
        Card { rank: key.high_rank, suit: if key.is_suited { Suit::Spades } else { Suit::Clubs } },
    )
}

/// Whether two cards can be the big blind's hand of a key next to the small
/// blind's cards: the key's ranks, one suit if suited and two if not, and
/// neither card among the small blind's.
pub open spec fn valid_bb_cards(sb_key: StrategyHubKey, bb_key: StrategyHubKey, c3: Card, c4: Card) -> bool {
    let (c1, c2) = sb_cards_of(sb_key);
    &&& c3.rank == bb_key.low_rank
    &&& c4.rank == bb_key.high_rank
    &&& (bb_key.is_suited ==> c3.suit == c4.suit)
    &&& (!bb_key.is_suited ==> c3.suit != c4.suit)
    &&& c3 != c1 && c3 != c2
    &&& c4 != c1 && c4 != c2
}

/// Four cards for the two keys: the small blind's cards as `sb_cards_of` fixes
/// them, then a big blind hand drawn uniformly from those that fit its key and
/// do not clash with the small blind's cards.
pub fn get_unique_cards(sb_key: &StrategyHubKey, bb_key: &StrategyHubKey) -> (cards: [Card; 4])
    ensures
        (cards@[0], cards@[1]) == sb_cards_of(*sb_key),
        valid_bb_cards(*sb_key, *bb_key, cards@[2], cards@[3]),
{
    let card1 = Card::new(Suit::Spades, sb_key.low_rank);
    let card2 = if sb_key.is_suited {
        Card::new(Suit::Spades, sb_key.high_rank)
    } else {
        Card::new(Suit::Clubs, sb_key.high_rank)
    };
    let mut valid_combinations: Vec<(Card, Card)> = Vec::new();
    if bb_key.is_suited {
        let mut s: u8 = 0;
        while s < 4
            invariant
                s <= 4,
                bb_key.is_suited,
                (card1, card2) == sb_cards_of(*sb_key),
                forall|k: int| 0 <= k < valid_combinations@.len() ==> valid_bb_cards(*sb_key, *bb_key, (#[trigger] valid_combinations@[k]).0, valid_combinations@[k].1),
                s > 1 ==> valid_combinations@.len() > 0,
            decreases 4 - s,
        {
            let suit = Suit::from_int(s);
            let card3 = Card::new(suit, bb_key.low_rank);
            let card4 = Card::new(suit, bb_key.high_rank);
            if card3 != card1 && card3 != card2 && card4 != card1 && card4 != card2 {
                valid_combinations.push((card3, card4));
            }
            s = s + 1;
        }
    } else {
        let mut k: u8 = 0;
        while k < 16
            invariant
                k <= 16,
                !bb_key.is_suited,
                (card1, card2) == sb_cards_of(*sb_key),
                forall|j: int| 0 <= j < valid_combinations@.len() ==> valid_bb_cards(*sb_key, *bb_key, (#[trigger] valid_combinations@[j]).0, valid_combinations@[j].1),
                k > 6 ==> valid_combinations@.len() > 0,
            decreases 16 - k,
        {
            let suit3 = Suit::from_int(k / 4);
            let suit4 = Suit::from_int(k % 4);
            if suit3 != suit4 {
                let card3 = Card::new(suit3, bb_key.low_rank);
                let card4 = Card::new(suit4, bb_key.high_rank);
                if card3 != card1 && card3 != card2 && card4 != card1 && card4 != card2 {
                    valid_combinations.push((card3, card4));
                }
            }
            k = k + 1;
        }
    }
    let pick = random_index(valid_combinations.len());
    let (card3, card4) = valid_combinations[pick];
    [card1, card2, card3, card4]
}

/// The strategy keys of one blind: every unpaired rank combination suited,
/// then every one offsuit, then the pocket pairs.
pub open spec fn blind_keys(is_smallblind: bool) -> Seq<StrategyHubKey> {
    let combos = spec_all_rank_combos();
    combos.map_values(
        |c: (Rank, Rank)| StrategyHubKey { low_rank: c.0, high_rank: c.1, is_sb: is_smallblind, is_suited: true },
    ) + combos.map_values(
        |c: (Rank, Rank)| StrategyHubKey { low_rank: c.0, high_rank: c.1, is_sb: is_smallblind, is_suited: false },
    ) + Seq::new(
        13,
        |i: int|
            StrategyHubKey {
                low_rank: Rank::spec_from_int(i as u8),
                high_rank: Rank::spec_from_int(i as u8),
                is_sb: is_smallblind,
                is_suited: false,
            },
    )
}

/// All 169 starting-hand keys of one blind (see `blind_keys`).
pub fn get_all_combos_by_blind(is_smallblind: bool) -> (keys: Vec<StrategyHubKey>)
    ensures
        keys@ == blind_keys(is_smallblind),
{
    let combos = all_rank_combos();
    let mut keys: Vec<StrategyHubKey> = Vec::new();
    let ghost suited = combos@.map_values(
        |c: (Rank, Rank)| StrategyHubKey { low_rank: c.0, high_rank: c.1, is_sb: is_smallblind, is_suited: true },
    );
    let ghost offsuit = combos@.map_values(
        |c: (Rank, Rank)| StrategyHubKey { low_rank: c.0, high_rank: c.1, is_sb: is_smallblind, is_suited: false },
    );
    let mut i: usize = 0;
    while i < combos.len()
        invariant
            i <= combos@.len(),
            suited == combos@.map_values(
                |c: (Rank, Rank)| StrategyHubKey { low_rank: c.0, high_rank: c.1, is_sb: is_smallblind, is_suited: true },
            ),
            keys@ == suited.take(i as int),
        decreases combos@.len() - i,
    {
        let (low, high) = combos[i];
        keys.push(StrategyHubKey { low_rank: low, high_rank: high, is_sb: is_smallblind, is_suited: true });
        i = i + 1;
        assert(keys@ =~= suited.take(i as int));
    }
    assert(suited.take(combos@.len() as int) == suited);
    let mut j: usize = 0;
    while j < combos.len()
        invariant
            j <= combos@.len(),
            suited.len() == combos@.len(),
            offsuit == combos@.map_values(
                |c: (Rank, Rank)| StrategyHubKey { low_rank: c.0, high_rank: c.1, is_sb: is_smallblind, is_suited: false },
            ),
            keys@ == suited + offsuit.take(j as int),
        decreases combos@.len() - j,
    {
        let (low, high) = combos[j];
        keys.push(StrategyHubKey { low_rank: low, high_rank: high, is_sb: is_smallblind, is_suited: false });
        j = j + 1;
        assert(keys@ =~= suited + offsuit.take(j as int));
    }
    assert(offsuit.take(combos@.len() as int) == offsuit);
    let pairs = all_pocket_pairs();
    let ghost pair_keys = Seq::new(
        13,
        |i: int|
            StrategyHubKey {
                low_rank: Rank::spec_from_int(i as u8),
                high_rank: Rank::spec_from_int(i as u8),
                is_sb: is_smallblind,
                is_suited: false,
            },
    );
    let mut k: usize = 0;
    while k < pairs.len()
        invariant
            k <= pairs@.len(),
            pairs@ == Seq::new(13, |i: int| (Rank::spec_from_int(i as u8), Rank::spec_from_int(i as u8))),
            pair_keys == Seq::new(
                13,
                |i: int|
                    StrategyHubKey {
                        low_rank: Rank::spec_from_int(i as u8),
                        high_rank: Rank::spec_from_int(i as u8),
                        is_sb: is_smallblind,
                        is_suited: false,
                    },
            ),
            keys@ == suited + offsuit + pair_keys.take(k as int),
        decreases pairs@.len() - k,
    {
        let (low, high) = pairs[k];
        keys.push(StrategyHubKey { low_rank: low, high_rank: high, is_sb: is_smallblind, is_suited: false });
        k = k + 1;
        assert(keys@ =~= suited + offsuit + pair_keys.take(k as int));
    }
    assert(pair_keys.take(13) == pair_keys);
    keys
}

} // verus!
