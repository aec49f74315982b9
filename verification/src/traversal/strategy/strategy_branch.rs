use crate::models::card::Rank;
use vstd::prelude::*;

verus! {

/// The key of a strategy branch: a starting hand by its ranks and whether it
/// is suited, and the blind of its player.
#[derive(Debug, PartialEq, Eq, Structural, Clone, Copy, Hash, PartialOrd, Ord)]
pub struct StrategyHubKey {
    pub low_rank: Rank,
    pub high_rank: Rank,
    pub is_suited: bool,
    pub is_sb: bool,
}

impl StrategyHubKey {
    /// The text of the key: the two rank letters, `s` or `o`, `SB` or `BB`.
    pub open spec fn key_text(self) -> Seq<char> {
        seq![self.low_rank.spec_char(), self.high_rank.spec_char()] + (if self.is_suited {
            "s"@
        } else {
            "o"@
        }) + (if self.is_sb {
            "SB"@
        } else {
            "BB"@
        })
    }

    /// The text of the key (see `key_text`).
    pub fn to_display_string(&self) -> (s: String)
        ensures
            s@ == self.key_text(),
    {
        let mut s = String::from_str(self.low_rank.to_str());
        s.append(self.high_rank.to_str());
        s.append(if self.is_suited {
            "s"
        } else {
            "o"
        });
        s.append(if self.is_sb {
            "SB"
        } else {
            "BB"
        });
        s
    }
}

impl Default for StrategyHubKey {
    fn default() -> (k: StrategyHubKey)
        ensures
            k.low_rank == Rank::Two,
            k.high_rank == Rank::Two,
            !k.is_suited,
            !k.is_sb,
    {
        StrategyHubKey { low_rank: Rank::Two, high_rank: Rank::Two, is_suited: false, is_sb: false }
    }
}

} // verus!
