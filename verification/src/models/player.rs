use vstd::prelude::*;

verus! {

/// The byte that stands for the traverser.
pub const TRAVERSER_BYTE: u8 = 0b10000000;

/// The byte that stands for the opponent.
pub const OPPONENT_BYTE: u8 = 0b01000000;

/// One of the two players of a heads-up game.
#[derive(Debug, Copy, Clone, PartialEq, Eq, Structural, Hash)]
pub enum Player {
    Traverser,
    Opponent,
}

impl Default for Player {
    fn default() -> (p: Player)
        ensures
            p == Player::Traverser,
    {
        Player::Traverser
    }
}

impl Player {
    pub open spec fn spec_opposite(self) -> Player {
        match self {
            Player::Traverser => Player::Opponent,
            Player::Opponent => Player::Traverser,
        }
    }

    pub open spec fn spec_byte(self) -> u8 {
        match self {
            Player::Traverser => TRAVERSER_BYTE,
            Player::Opponent => OPPONENT_BYTE,
        }
    }

    pub fn serialise(&self) -> (b: u8)
        ensures
            b == self.spec_byte(),
    {
        match self {
            Player::Traverser => TRAVERSER_BYTE,
            Player::Opponent => OPPONENT_BYTE,
        }
    }

    /// Reads a player back from its byte; only the two player bytes are read.
    pub fn deserialise(byte: &u8) -> (p: Player)
        requires
            *byte == TRAVERSER_BYTE || *byte == OPPONENT_BYTE,
        ensures
            p.spec_byte() == *byte,
    {
        if *byte == TRAVERSER_BYTE {
            Player::Traverser
        } else {
            Player::Opponent
        }
    }

    pub fn get_opposite(&self) -> (p: Player)
        ensures
            p == self.spec_opposite(),
            p != *self,
    {
        match self {
            Player::Traverser => Player::Opponent,
            Player::Opponent => Player::Traverser,
        }
    }

    pub fn is_opponent(&self) -> (b: bool)
        ensures
            b == (*self == Player::Opponent),
    {
        match self {
            Player::Traverser => false,
            Player::Opponent => true,
        }
    }

    /// The short name of the player: `Tra` or `Opp`.
    pub fn to_str(&self) -> (s: &'static str)
        ensures
            *self == Player::Traverser ==> s@ == "Tra"@,
            *self == Player::Opponent ==> s@ == "Opp"@,
    {
        match self {
            Player::Traverser => "Tra",
            Player::Opponent => "Opp",
        }
    }
}

/// Reading a player's byte gives the player back, and the opposite of the
/// opposite player is the player.
pub proof fn lemma_player_roundtrip(p: Player)
    ensures
        p.spec_byte() == TRAVERSER_BYTE || p.spec_byte() == OPPONENT_BYTE,
        p.spec_opposite().spec_opposite() == p,
        p.spec_opposite() != p,
{
}

} // verus!
