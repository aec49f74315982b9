use crate::models::card::{card_byte, Card, Rank, Suit};
use vstd::prelude::*;

verus! {

/// The number of actions a player chooses from at most: check or fold,
/// call, bet.
pub const DEFAULT_ACTION_COUNT: usize = 3;

/// The top two bits of a check-or-fold byte.
pub const CHECKFOLD_BYTE: u8 = 0b00000000;

/// The top two bits of a call byte.
pub const CALL_BYTE: u8 = 0b01000000;

/// The top two bits of a bet byte.
pub const BET_BYTE: u8 = 0b10000000;

/// The top two bits of a deal byte; the card is in the low six bits.
pub const DEAL_BYTE: u8 = 0b11000000;

/// The bits that tell the kind of an action.
pub const ACTION_MASK: u8 = 0b11000000;

/// The bits that hold the card of a deal.
pub const CARD_MASK: u8 = 0b00111111;

/// An action of a hand: a player checks or folds, calls or bets, or a card is
/// dealt.
#[derive(Debug, PartialEq, Eq, Structural, Clone, Copy, Hash)]
pub enum Action {
    CheckFold,
    Call,
    Bet,
    Deal(Card),
}

/// The byte of an action: the kind in the top two bits, and for a deal the
/// card's byte in the low six bits.
pub open spec fn action_byte(action: Action) -> u8 {
    match action {
        Action::CheckFold => CHECKFOLD_BYTE,
        Action::Call => CALL_BYTE,
        Action::Bet => BET_BYTE,
        Action::Deal(card) => (card_byte(card) + DEAL_BYTE) as u8,
    }
}

/// A byte can be read as an action: it is not a deal, or its card bits name
/// a rank.
pub open spec fn readable_action_byte(byte: u8) -> bool {
    (byte & ACTION_MASK) != DEAL_BYTE || (byte & 0b00111100u8) >> 2u8 < 13
}

/// The action a byte stands for.
pub open spec fn byte_action(byte: u8) -> Action {
    if byte & ACTION_MASK == CHECKFOLD_BYTE {
        Action::CheckFold
    } else if byte & ACTION_MASK == CALL_BYTE {
        Action::Call
    } else if byte & ACTION_MASK == BET_BYTE {
        Action::Bet
    } else {
        Action::Deal(
            Card {
                rank: Rank::spec_from_int(((byte & 0b00111100u8) >> 2u8) as u8),
                suit: Suit::spec_from_int(byte & 0b00000011u8),
            },
        )
    }
}

impl Action {
    pub fn serialise(&self) -> (b: u8)
        ensures
            b == action_byte(*self),
            readable_action_byte(b),
    {
        match self {
            Action::CheckFold => {
                assert(readable_action_byte(0u8)) by (bit_vector);
                CHECKFOLD_BYTE
            },
            Action::Call => {
                assert(readable_action_byte(0b01000000u8)) by (bit_vector);
                CALL_BYTE
            },
            Action::Bet => {
                assert(readable_action_byte(0b10000000u8)) by (bit_vector);
                BET_BYTE
            },
            Action::Deal(card) => {
                let c = card.serialise();
                assert(c < 52 ==> c | 0b11000000u8 == c + 0b11000000u8) by (bit_vector);
                assert(c < 52 ==> readable_action_byte(c | 0b11000000u8)) by (bit_vector);
                c | DEAL_BYTE
            },
        }
    }

    pub fn deserialise(byte: &u8) -> (a: Action)
        requires
            readable_action_byte(*byte),
        ensures
            a == byte_action(*byte),
    {
        let kind = *byte & ACTION_MASK;
        if kind == CHECKFOLD_BYTE {
            Action::CheckFold
        } else if kind == CALL_BYTE {
            Action::Call
        } else if kind == BET_BYTE {
            Action::Bet
        } else {
            let b = *byte;
            assert(kind == b & 0b11000000u8 && kind != 0u8 && kind != 0b01000000u8 && kind
                != 0b10000000u8 ==> kind == 0b11000000u8) by (bit_vector);
            Action::Deal(Card::deserialise(*byte))
        }
    }

    pub fn is_deal(&self) -> (b: bool)
        ensures
            b == (*self is Deal),
    {
        match self {
            Action::Deal(_) => true,
            _ => false,
        }
    }

    pub fn is_call(&self) -> (b: bool)
        ensures
            b == (*self == Action::Call),
    {
        match self {
            Action::Call => true,
            _ => false,
        }
    }

    pub fn is_bet(&self) -> (b: bool)
        ensures
            b == (*self == Action::Bet),
    {
        match self {
            Action::Bet => true,
            _ => false,
        }
    }

    pub fn is_checkfold(&self) -> (b: bool)
        ensures
            b == (*self == Action::CheckFold),
    {
        match self {
            Action::CheckFold => true,
            _ => false,
        }
    }

    /// The short name of the action: `ChF`, `Cal`, `Bet`, or `D(` the card `)`.
    pub fn to_display_string(&self) -> (s: String)
        ensures
            *self == Action::CheckFold ==> s@ == "ChF"@,
            *self == Action::Call ==> s@ == "Cal"@,
            *self == Action::Bet ==> s@ == "Bet"@,
            self matches Action::Deal(card) ==> s@ == "D("@ + seq![card.rank.spec_char()]
                + card.suit.spec_str() + ")"@,
    {
        match self {
            Action::CheckFold => String::from_str("ChF"),
            Action::Call => String::from_str("Cal"),
            Action::Bet => String::from_str("Bet"),
            Action::Deal(card) => {
                let mut s = String::from_str("D(");
                let c = card.to_display_string();
                s.append(c.as_str());
                s.append(")");
                s
            },
        }
    }
}

/// Every action is read back from its byte unchanged.
pub proof fn lemma_action_roundtrip(action: Action)
    ensures
        readable_action_byte(action_byte(action)),
        byte_action(action_byte(action)) == action,
{
    match action {
        Action::CheckFold => {
            assert(readable_action_byte(0u8)) by (bit_vector);
            assert(0u8 & 0b11000000u8 == 0u8) by (bit_vector);
        },
        Action::Call => {
            assert(readable_action_byte(0b01000000u8)) by (bit_vector);
            assert(0b01000000u8 & 0b11000000u8 == 0b01000000u8) by (bit_vector);
        },
        Action::Bet => {
            assert(readable_action_byte(0b10000000u8)) by (bit_vector);
            assert(0b10000000u8 & 0b11000000u8 == 0b10000000u8) by (bit_vector);
        },
        Action::Deal(card) => {
            let r = card.rank.spec_to_int();
            let s = card.suit.spec_to_int();
            let b: u8 = (r * 4 + s + 192) as u8;
            assert(r < 13 && s < 4 && b == r * 4 + s + 192 ==> readable_action_byte(b)
                && b & 0b11000000u8 == 0b11000000u8 && (b & 0b00111100u8) >> 2u8 == r
                && b & 0b00000011u8 == s) by (bit_vector);
        },
    }
}

} // verus!
