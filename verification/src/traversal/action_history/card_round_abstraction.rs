use crate::models::card::Card;
use crate::traversal::action_history::board_abstraction::{
    board_abstraction_defined, board_bytes, board_hand_type_of, board_max_run, byte_hand_type,
    suit_count_abstraction_of, BoardAbstraction,
};
use crate::traversal::action_history::card_abstraction::{
    byte_connected, connected_abstraction_defined, connected_abstraction_of, connected_byte,
    connected_scores_fit, flush_abstraction_defined, flush_abstraction_of,
    get_connected_card_abstraction, get_flush_abstraction, get_straight_abstraction,
    readable_connected_byte, straight_abstraction_of, straight_byte, ConnectedCardsAbstraction,
    FlushAbstraction, StraightAbstraction,
};
use crate::models::card::Rank;
use crate::traversal::action_history::board_abstraction::board_text;
use crate::traversal::action_history::card_abstraction::{connected_text, flush_text, straight_text};
use vstd::prelude::*;

verus! {

/// Everything a player knows of the cards in one betting round: the board's
/// own shape and how the hole cards connect with it.
#[derive(Debug, PartialEq, Eq, Structural, Clone, Copy)]
pub struct CardRoundAbstraction {
    pub board_abstraction: BoardAbstraction,
    pub connected_cards_abstraction: Option<ConnectedCardsAbstraction>,
    pub straight_abstraction: Option<StraightAbstraction>,
    pub flush_abstraction: Option<FlushAbstraction>,
}

impl Default for CardRoundAbstraction {
    fn default() -> (r: CardRoundAbstraction)
        ensures
            r.board_abstraction.max_consecutive_cards == 0,
            r.board_abstraction.suit_count_abstraction == 0,
            r.connected_cards_abstraction is None,
            r.straight_abstraction is None,
            r.flush_abstraction is None,
    {
        CardRoundAbstraction {
            board_abstraction: BoardAbstraction::default(),
            connected_cards_abstraction: None,
            straight_abstraction: None,
            flush_abstraction: None,
        }
    }
}

/// The hands the round abstraction is defined on: at most five board cards,
/// no rank held five times, and a flush score that can be computed.
pub open spec fn card_round_defined(hole: Seq<Card>, board: Seq<Card>) -> bool {
    &&& hole.len() == 2
    &&& board.len() <= 5
    &&& board_abstraction_defined(board)
    &&& connected_abstraction_defined(hole, board)
    &&& flush_abstraction_defined(hole, board)
}

/// The round abstraction of hole cards against a board.
pub open spec fn card_round_of(hole: Seq<Card>, board: Seq<Card>) -> CardRoundAbstraction {
    CardRoundAbstraction {
        board_abstraction: BoardAbstraction {
            max_consecutive_cards: board_max_run(board, 14) as u8,
            suit_count_abstraction: suit_count_abstraction_of(board),
            board_hand_type: board_hand_type_of(board),
        },
        connected_cards_abstraction: connected_abstraction_of(hole, board),
        straight_abstraction: straight_abstraction_of(hole, board),
        flush_abstraction: flush_abstraction_of(hole, board),
    }
}

/// Whether the parts of a round abstraction fit their bytes.
pub open spec fn round_serialisable(r: CardRoundAbstraction) -> bool {
    &&& (r.straight_abstraction matches Some(s) ==> s.cards_in_straight < 8)
    &&& (r.flush_abstraction matches Some(f) ==> f.cards_to_draw < 255)
}

/// The six bytes of a round abstraction: the board's three, then one each for
/// the connected cards, the straight and the flush, 0 standing for none.
pub open spec fn round_bytes(r: CardRoundAbstraction) -> Seq<u8> {
    board_bytes(r.board_abstraction) + seq![
        match r.connected_cards_abstraction {
            Some(c) => connected_byte(c),
            None => 0u8,
        },
        match r.straight_abstraction {
            Some(s) => straight_byte(s) as u8,
            None => 0u8,
        },
        match r.flush_abstraction {
            Some(f) => ((f.flush_score << 2u8) | ((f.cards_to_draw + 1) as u8)) as u8,
            None => 0u8,
        },
    ]
}

/// The bytes `CardRoundAbstraction::deserialise` reads: at least six, the
/// connected-cards and straight bytes each 0 or readable, and when the flush
/// byte is set, a seventh byte with a nonzero draw count.
pub open spec fn readable_round_bytes(b: Seq<u8>) -> bool {
    &&& b.len() >= 6
    &&& (b[3] == 0 || readable_connected_byte(b[3]))
    &&& (b[4] == 0 || b[4] >> 4u8 < 13)
    &&& (b[5] == 0 || (b.len() >= 7 && b[6] & 0b11u8 != 0))
}

impl CardRoundAbstraction {
    /// The abstraction of a player's hole cards against the board.
    pub fn new(hole_cards: &[Card; 2], board_cards: &[Card]) -> (r: CardRoundAbstraction)
        requires
            card_round_defined(hole_cards@, board_cards@),
        ensures
            r.board_abstraction.max_consecutive_cards == board_max_run(board_cards@, 14),
            r.board_abstraction.suit_count_abstraction == suit_count_abstraction_of(board_cards@),
            r.board_abstraction.board_hand_type == board_hand_type_of(board_cards@),
            r.connected_cards_abstraction == connected_abstraction_of(hole_cards@, board_cards@),
            r.straight_abstraction == straight_abstraction_of(hole_cards@, board_cards@),
            r.flush_abstraction == flush_abstraction_of(hole_cards@, board_cards@),
            r == card_round_of(hole_cards@, board_cards@),
            round_serialisable(r),
    {
        let board_abstraction = BoardAbstraction::new(board_cards);
        let connected_cards_abstraction = get_connected_card_abstraction(hole_cards, board_cards);
        let straight_abstraction = get_straight_abstraction(hole_cards, board_cards);
        let flush_abstraction = get_flush_abstraction(hole_cards, board_cards);
        CardRoundAbstraction {
            board_abstraction,
            connected_cards_abstraction,
            straight_abstraction,
            flush_abstraction,
        }
    }

    pub fn serialise(&self) -> (v: Vec<u8>)
        requires
            round_serialisable(*self),
        ensures
            v@ == round_bytes(*self),
    {
        let mut serialised = self.board_abstraction.serialise();
        match &self.connected_cards_abstraction {
            Some(c) => serialised.push(c.serialise()),
            None => serialised.push(0),
        }
        match &self.straight_abstraction {
            Some(s) => serialised.push(s.serialise()),
            None => serialised.push(0),
        }
        match &self.flush_abstraction {
            Some(f) => serialised.push(f.serialise()),
            None => serialised.push(0),
        }
        serialised
    }

    /// Reads a round abstraction back. The flush is read from the byte after
    /// the flush marker.
    pub fn deserialise(serialised: &[u8]) -> (r: CardRoundAbstraction)
        requires
            readable_round_bytes(serialised@),
        ensures
            r.board_abstraction.max_consecutive_cards == serialised@[0],
            r.board_abstraction.suit_count_abstraction == serialised@[1],
            r.board_abstraction.board_hand_type == byte_hand_type(serialised@[2]),
            r.connected_cards_abstraction == if serialised@[3] == 0 {
                None
            } else {
                Some(byte_connected(serialised@[3]))
            },
            r.straight_abstraction == if serialised@[4] == 0 {
                None
            } else {
                Some(
                    StraightAbstraction {
                        bucketed_high_card: Rank::spec_from_int(serialised@[4] >> 4u8),
                        cards_in_straight: (serialised@[4] >> 1u8) & 0b111u8,
                        requires_gutshot: serialised@[4] & 0b1u8 == 1u8,
                    },
                )
            },
            r.flush_abstraction == if serialised@[5] == 0 {
                None
            } else {
                Some(
                    FlushAbstraction {
                        flush_score: (serialised@[6] >> 2u8) & 0b11u8,
                        cards_to_draw: ((serialised@[6] & 0b11u8) - 1) as u8,
                    },
                )
            },
    {
        let board_abstraction = BoardAbstraction::deserialise(&serialised[0..3]);
        let connected_cards_abstraction = if serialised[3] == 0 {
            None
        } else {
            Some(ConnectedCardsAbstraction::deserialise(&serialised[3]))
        };
        let straight_abstraction = if serialised[4] == 0 {
            None
        } else {
            Some(StraightAbstraction::deserialise(&serialised[4]))
        };
        let flush_abstraction = if serialised[5] == 0 {
            None
        } else {
            Some(FlushAbstraction::deserialise(&serialised[6]))
        };
        CardRoundAbstraction {
            board_abstraction,
            connected_cards_abstraction,
            straight_abstraction,
            flush_abstraction,
        }
    }
}

/// A round abstraction without a flush, whose connected cards are not four of a
/// kind (a four of a kind writes a byte that reads back as nothing) and whose
/// scores fit their bits, and whose straight counts at least one card, reads back from its bytes unchanged but for the ranks
/// of the board's hand type, which come back as the default.
pub proof fn lemma_round_roundtrip(r: CardRoundAbstraction)
    requires
        round_serialisable(r),
        r.flush_abstraction is None,
        r.connected_cards_abstraction matches Some(c) ==> connected_scores_fit(c) && !(c is FourOfAKind),
        r.straight_abstraction matches Some(s) ==> 0 < s.cards_in_straight < 8,
    ensures
        readable_round_bytes(round_bytes(r)),
        round_bytes(r)[0] == r.board_abstraction.max_consecutive_cards,
        round_bytes(r)[1] == r.board_abstraction.suit_count_abstraction,
        crate::traversal::action_history::board_abstraction::hand_type_byte(
            byte_hand_type(round_bytes(r)[2]),
        ) == crate::traversal::action_history::board_abstraction::hand_type_byte(
            r.board_abstraction.board_hand_type,
        ),
        (if round_bytes(r)[3] == 0 {
            None
        } else {
            Some(byte_connected(round_bytes(r)[3]))
        }) == r.connected_cards_abstraction,
        (if round_bytes(r)[4] == 0 {
            None
        } else {
            Some(
                StraightAbstraction {
                    bucketed_high_card: Rank::spec_from_int(round_bytes(r)[4] >> 4u8),
                    cards_in_straight: (round_bytes(r)[4] >> 1u8) & 0b111u8,
                    requires_gutshot: round_bytes(r)[4] & 0b1u8 == 1u8,
                },
            )
        }) == r.straight_abstraction,
        round_bytes(r)[5] == 0,
{
    let b = round_bytes(r);
    match r.connected_cards_abstraction {
        Some(c) => {
            crate::traversal::action_history::card_abstraction::lemma_connected_roundtrip(c);
            assert(connected_byte(c) >> 4u8 >= 1);
            assert(connected_byte(c) != 0) by {
                let x = connected_byte(c);
                assert(x >> 4u8 >= 1 ==> x != 0) by (bit_vector);
            }
        },
        None => {},
    }
    match r.straight_abstraction {
        Some(s) => {
            crate::traversal::action_history::card_abstraction::lemma_straight_roundtrip(s);
            assert(Rank::spec_from_int(s.bucketed_high_card.spec_to_int()) == s.bucketed_high_card);
        },
        None => {},
    }
}

/// The text of a round abstraction: `Board `, the board's text, then
/// ` Connected Cards: `, ` Straight: ` and ` Flush: ` each with its part's
/// text or `None`.
pub open spec fn round_text(r: CardRoundAbstraction) -> Seq<char> {
    "Board "@ + board_text(r.board_abstraction) + " Connected Cards: "@ + match r.connected_cards_abstraction {
        Some(c) => connected_text(c),
        None => "None"@,
    } + " Straight: "@ + match r.straight_abstraction {
        Some(s) => straight_text(s),
        None => "None"@,
    } + " Flush: "@ + match r.flush_abstraction {
        Some(f) => flush_text(f),
        None => "None"@,
    }
}

impl CardRoundAbstraction {
    /// The text of the abstraction (see `round_text`); a flush score is one of
    /// the three.
    pub fn to_display_string(&self) -> (s: String)
        requires
            self.flush_abstraction matches Some(f) ==> f.flush_score <= 2,
        ensures
            s@ == round_text(*self),
    {
        let mut s = String::from_str("Board ");
        s.append(self.board_abstraction.to_display_string().as_str());
        s.append(" Connected Cards: ");
        match &self.connected_cards_abstraction {
            Some(c) => s.append(c.to_display_string().as_str()),
            None => s.append("None"),
        }
        s.append(" Straight: ");
        match &self.straight_abstraction {
            Some(st) => s.append(st.to_display_string().as_str()),
            None => s.append("None"),
        }
        s.append(" Flush: ");
        match &self.flush_abstraction {
            Some(f) => s.append(f.to_display_string().as_str()),
            None => s.append("None"),
        }
        s
    }
}

} // verus!
