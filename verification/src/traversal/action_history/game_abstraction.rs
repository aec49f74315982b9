use crate::models::card::{Card, NineCardDeal};
use crate::models::player::Player;
use crate::models::card::Rank;
use crate::text::{decimal_text, u8_to_string};
use crate::traversal::action_history::card_round_abstraction::{
    card_round_defined, card_round_of, readable_round_bytes, round_bytes, round_text,
    CardRoundAbstraction,
};
use vstd::prelude::*;

verus! {

/// Each player's round abstraction for each of the four betting rounds,
/// serialised: everything about the cards that the player's information state
/// holds.
#[derive(Debug, Clone)]
pub struct GameAbstraction {
    pub traverser_round_abstractions: [Vec<u8>; 4],
    pub opponent_round_abstractions: [Vec<u8>; 4],
}

impl Default for GameAbstraction {
    fn default() -> (g: GameAbstraction)
        ensures
            forall|r: int| 0 <= r < 4 ==> (#[trigger] g.traverser_round_abstractions@[r])@.len() == 0,
            forall|r: int| 0 <= r < 4 ==> (#[trigger] g.opponent_round_abstractions@[r])@.len() == 0,
    {
        GameAbstraction {
            traverser_round_abstractions: [Vec::new(), Vec::new(), Vec::new(), Vec::new()],
            opponent_round_abstractions: [Vec::new(), Vec::new(), Vec::new(), Vec::new()],
        }
    }
}

/// A player's serialised round abstraction for a round.
pub open spec fn player_round_bytes(g: GameAbstraction, round: int, player: Player) -> Seq<u8> {
    match player {
        Player::Traverser => g.traverser_round_abstractions@[round]@,
        Player::Opponent => g.opponent_round_abstractions@[round]@,
    }
}

/// An information-state key: the round, the player's pot and the bets this
/// round, then the round abstraction's bytes.
pub open spec fn abstraction_key(round: usize, pot: u8, bets: u8, round_abstraction: Seq<u8>) -> Seq<u8> {
    seq![round as u8, pot, bets] + round_abstraction
}

/// The board cards of a deal in a round: none preflop, then the flop, turn and
/// river.
pub open spec fn round_board(deal: Seq<Card>, round: int) -> Seq<Card> {
    if round == 0 {
        deal.subrange(4, 4)
    } else {
        deal.subrange(4, 6 + round)
    }
}

/// The traverser's hole cards (`seat` 0) or the opponent's (`seat` 1).
pub open spec fn seat_hole(deal: Seq<Card>, seat: int) -> Seq<Card> {
    deal.subrange(2 * seat, 2 * seat + 2)
}

/// The deals the game abstraction is defined on: each player's round
/// abstraction is defined in every round.
pub open spec fn deal_abstraction_defined(deal: Seq<Card>) -> bool {
    &&& deal.len() == 9
    &&& forall|seat: int, round: int|
        0 <= seat < 2 && 0 <= round < 4 ==> #[trigger] card_round_defined(
            seat_hole(deal, seat),
            round_board(deal, round),
        )
}

/// A seat's serialised round abstraction for a round of a deal.
pub open spec fn deal_round_bytes(deal: Seq<Card>, seat: int, round: int) -> Seq<u8> {
    round_bytes(card_round_of(seat_hole(deal, seat), round_board(deal, round)))
}

/// Appends `src` to `dst`.
fn append_bytes(dst: &mut Vec<u8>, src: &Vec<u8>)
    ensures
        final(dst)@ == old(dst)@ + src@,
{
    let ghost start = dst@;
    let mut i: usize = 0;
    while i < src.len()
        invariant
            i <= src@.len(),
            dst@ == start + src@.take(i as int),
        decreases src@.len() - i,
    {
        dst.push(src[i]);
        i = i + 1;
        assert(dst@ == start + src@.take(i as int));
    }
    assert(src@.take(src@.len() as int) == src@);
}

impl GameAbstraction {
    /// The information-state key of a player in a round.
    pub fn get_abstraction(&self, round: usize, current_player_pot: u8, bets_this_round: u8, current_player: &Player) -> (v: Vec<u8>)
        requires
            round < 4,
        ensures
            v@ == abstraction_key(round, current_player_pot, bets_this_round, player_round_bytes(*self, round as int, *current_player)),
    {
        let round_abstraction = match current_player {
            Player::Traverser => &self.traverser_round_abstractions[round],
            Player::Opponent => &self.opponent_round_abstractions[round],
        };
        let mut serialised: Vec<u8> = Vec::new();
        serialised.push(round as u8);
        serialised.push(current_player_pot);
        serialised.push(bets_this_round);
        append_bytes(&mut serialised, round_abstraction);
        serialised
    }

    /// The information-state key of a round abstraction.
    pub fn get_abstraction_from_round(round: usize, current_player_pot: u8, bets_this_round: u8, round_abstraction: Vec<u8>) -> (v: Vec<u8>)
        ensures
            v@ == abstraction_key(round, current_player_pot, bets_this_round, round_abstraction@),
    {
        let mut serialised: Vec<u8> = Vec::new();
        serialised.push(round as u8);
        serialised.push(current_player_pot);
        serialised.push(bets_this_round);
        append_bytes(&mut serialised, &round_abstraction);
        serialised
    }

    /// Puts the player's round abstraction after the first three bytes of a
    /// key, and tells whether it was there already.
    pub fn replace_round_abstraction(&self, game_abstraction_serialised: &mut Vec<u8>, round: usize, current_player: &Player) -> (identical: bool)
        requires
            round < 4,
            old(game_abstraction_serialised)@.len() >= 3,
        ensures
            identical == (old(game_abstraction_serialised)@.skip(3) == player_round_bytes(*self, round as int, *current_player)),
            final(game_abstraction_serialised)@ == old(game_abstraction_serialised)@.take(3) + player_round_bytes(*self, round as int, *current_player),
    {
        let round_abstraction = match current_player {
            Player::Traverser => &self.traverser_round_abstractions[round],
            Player::Opponent => &self.opponent_round_abstractions[round],
        };
        let identical = bytes_equal_from(game_abstraction_serialised, 3, round_abstraction);
        if !identical {
            game_abstraction_serialised.truncate(3);
            append_bytes(game_abstraction_serialised, round_abstraction);
        } else {
            assert(old(game_abstraction_serialised)@ == old(game_abstraction_serialised)@.take(3) + old(game_abstraction_serialised)@.skip(3));
        }
        identical
    }
}

/// Whether the bytes of `a` from `start` on are exactly `b`.
fn bytes_equal_from(a: &Vec<u8>, start: usize, b: &Vec<u8>) -> (eq: bool)
    requires
        start <= a@.len(),
    ensures
        eq == (a@.skip(start as int) == b@),
{
    let n = a.len();
    if n - start != b.len() {
        assert(a@.skip(start as int).len() != b@.len());
        return false;
    }
    let mut i: usize = 0;
    while i < b.len()
        invariant
            start <= a@.len(),
            start + b@.len() == a@.len(),
            a@.len() <= usize::MAX,
            i <= b@.len(),
            forall|j: int| 0 <= j < i ==> a@[start + j] == b@[j],
        decreases b@.len() - i,
    {
        if a[start + i] != b[i] {
            assert(a@.skip(start as int)[i as int] != b@[i as int]);
            return false;
        }
        i = i + 1;
    }
    assert(a@.skip(start as int) =~= b@);
    true
}

/// The information-state key of hole cards and a board.
pub fn get_current_abstraction(hole_cards: &(Card, Card), board_cards: &[Card], round: usize, current_player_pot: u8, bets_this_round: u8) -> (v: Vec<u8>)
    requires
        card_round_defined(seq![hole_cards.0, hole_cards.1], board_cards@),
    ensures
        v@ == abstraction_key(round, current_player_pot, bets_this_round, round_bytes(card_round_of(seq![hole_cards.0, hole_cards.1], board_cards@))),
{
    let card_round_abstraction = convert_cards_into_card_abstraction(hole_cards, board_cards);
    GameAbstraction::get_abstraction_from_round(round, current_player_pot, bets_this_round, card_round_abstraction)
}

fn convert_cards_into_card_abstraction(hole_cards: &(Card, Card), board_cards: &[Card]) -> (v: Vec<u8>)
    requires
        card_round_defined(seq![hole_cards.0, hole_cards.1], board_cards@),
    ensures
        v@ == round_bytes(card_round_of(seq![hole_cards.0, hole_cards.1], board_cards@)),
{
    let hole: [Card; 2] = [hole_cards.0, hole_cards.1];
    assert(hole@ == seq![hole_cards.0, hole_cards.1]);
    CardRoundAbstraction::new(&hole, board_cards).serialise()
}

/// Both players' round abstractions for every round of a deal.
pub fn convert_deal_into_abstraction(deal: NineCardDeal) -> (g: GameAbstraction)
    requires
        deal_abstraction_defined(deal@),
    ensures
        forall|round: int| 0 <= round < 4 ==> (#[trigger] g.traverser_round_abstractions@[round])@ == deal_round_bytes(deal@, 0, round),
        forall|round: int| 0 <= round < 4 ==> (#[trigger] g.opponent_round_abstractions@[round])@ == deal_round_bytes(deal@, 1, round),
{
    let t0 = seat_round_bytes(&deal, 0, 0);
    let t1 = seat_round_bytes(&deal, 0, 1);
    let t2 = seat_round_bytes(&deal, 0, 2);
    let t3 = seat_round_bytes(&deal, 0, 3);
    let o0 = seat_round_bytes(&deal, 1, 0);
    let o1 = seat_round_bytes(&deal, 1, 1);
    let o2 = seat_round_bytes(&deal, 1, 2);
    let o3 = seat_round_bytes(&deal, 1, 3);
    let g = GameAbstraction {
        traverser_round_abstractions: [t0, t1, t2, t3],
        opponent_round_abstractions: [o0, o1, o2, o3],
    };
    assert forall|round: int| 0 <= round < 4 implies (#[trigger] g.traverser_round_abstractions@[round])@ == deal_round_bytes(deal@, 0, round) by {
        if round == 0 {} else if round == 1 {} else if round == 2 {} else {}
    }
    assert forall|round: int| 0 <= round < 4 implies (#[trigger] g.opponent_round_abstractions@[round])@ == deal_round_bytes(deal@, 1, round) by {
        if round == 0 {} else if round == 1 {} else if round == 2 {} else {}
    }
    g
}

/// A seat's serialised round abstraction for a round of a deal.
fn seat_round_bytes(deal: &NineCardDeal, seat: usize, round: usize) -> (v: Vec<u8>)
    requires
        deal_abstraction_defined(deal@),
        seat < 2,
        round < 4,
    ensures
        v@ == deal_round_bytes(deal@, seat as int, round as int),
{
    let hole: [Card; 2] = [deal[2 * seat], deal[2 * seat + 1]];
    assert(hole@ == seat_hole(deal@, seat as int));
    let end: usize = if round == 0 {
        4
    } else {
        6 + round
    };
    let board = &deal[4..end];
    assert(board@ == round_board(deal@, round as int));
    assert(card_round_defined(seat_hole(deal@, seat as int), round_board(deal@, round as int)));
    CardRoundAbstraction::new(&hole, board).serialise()
}

/// The letter of a round: P, F, T or R.
pub open spec fn round_letter(round: u8) -> Seq<char> {
    if round == 0 {
        "P"@
    } else if round == 1 {
        "F"@
    } else if round == 2 {
        "T"@
    } else {
        "R"@
    }
}

/// The round abstraction an information-state key ends with.
pub open spec fn key_round_abstraction(abstraction: Seq<u8>) -> CardRoundAbstraction {
    CardRoundAbstraction {
        board_abstraction: crate::traversal::action_history::board_abstraction::BoardAbstraction {
            max_consecutive_cards: abstraction[3],
            suit_count_abstraction: abstraction[4],
            board_hand_type: crate::traversal::action_history::board_abstraction::byte_hand_type(abstraction[5]),
        },
        connected_cards_abstraction: if abstraction[6] == 0 {
            None
        } else {
            Some(crate::traversal::action_history::card_abstraction::byte_connected(abstraction[6]))
        },
        straight_abstraction: if abstraction[7] == 0 {
            None
        } else {
            Some(
                crate::traversal::action_history::card_abstraction::StraightAbstraction {
                    bucketed_high_card: Rank::spec_from_int(abstraction[7] >> 4u8),
                    cards_in_straight: (abstraction[7] >> 1u8) & 0b111u8,
                    requires_gutshot: abstraction[7] & 0b1u8 == 1u8,
                },
            )
        },
        flush_abstraction: if abstraction[8] == 0 {
            None
        } else {
            Some(
                crate::traversal::action_history::card_abstraction::FlushAbstraction {
                    flush_score: (abstraction[9] >> 2u8) & 0b11u8,
                    cards_to_draw: ((abstraction[9] & 0b11u8) - 1) as u8,
                },
            )
        },
    }
}

/// The keys `to_string_game_abstraction` reads: a round below 4 and a round
/// abstraction that reads back with a flush score of at most 2.
pub open spec fn printable_key(abstraction: Seq<u8>) -> bool {
    &&& abstraction.len() >= 3
    &&& abstraction[0] < 4
    &&& readable_round_bytes(abstraction.skip(3))
    &&& (abstraction[8] != 0 ==> (abstraction[9] >> 2u8) & 0b11u8 <= 2)
}

/// The text of a key with its hand: the two rank letters, `s` or `o`, `SB` or
/// `BB`, then the round letter, ` p-bet: ` and the pot, ` r-bets: ` and the
/// bets, and the round abstraction's text.
pub open spec fn game_abstraction_text(hole1: Rank, hole2: Rank, suited: bool, is_sb: bool, abstraction: Seq<u8>) -> Seq<char> {
    seq![hole1.spec_char(), hole2.spec_char()] + (if suited {
        "s"@
    } else {
        "o"@
    }) + (if is_sb {
        "SB"@
    } else {
        "BB"@
    }) + " "@ + round_letter(abstraction[0]) + " p-bet: "@ + decimal_text(abstraction[1] as nat) + " r-bets: "@
        + decimal_text(abstraction[2] as nat) + " "@ + round_text(key_round_abstraction(abstraction))
}

/// The text of an information-state key with its hand (see
/// `game_abstraction_text`).
pub fn to_string_game_abstraction(hole1: Rank, hole2: Rank, suited: bool, is_sb: bool, abstraction: &Vec<u8>) -> (s: String)
    requires
        printable_key(abstraction@),
    ensures
        s@ == game_abstraction_text(hole1, hole2, suited, is_sb, abstraction@),
{
    let round = abstraction[0];
    let current_player_pot = abstraction[1];
    let bets_this_round = abstraction[2];
    let n = abstraction.len();
    let rest = &abstraction.as_slice()[3..n];
    assert(rest@ == abstraction@.skip(3));
    let round_abstraction = CardRoundAbstraction::deserialise(rest);
    assert(round_abstraction == key_round_abstraction(abstraction@));
    let mut s = String::from_str(hole1.to_str());
    s.append(hole2.to_str());
    s.append(if suited {
        "s"
    } else {
        "o"
    });
    s.append(if is_sb {
        "SB"
    } else {
        "BB"
    });
    s.append(" ");
    s.append(
        if round == 0 {
            "P"
        } else if round == 1 {
            "F"
        } else if round == 2 {
            "T"
        } else {
            "R"
        },
    );
    s.append(" p-bet: ");
    s.append(u8_to_string(current_player_pot).as_str());
    s.append(" r-bets: ");
    s.append(u8_to_string(bets_this_round).as_str());
    s.append(" ");
    s.append(round_abstraction.to_display_string().as_str());
    s
}

} // verus!
