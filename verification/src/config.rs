use vstd::prelude::*;

verus! {

/// Chips the small blind posts before the first action.
pub const SMALL_BLIND_SIZE: u8 = 1;

/// Chips the big blind posts before the first action.
pub const BIG_BLIND_SIZE: u8 = 2;

/// Number of bets allowed in one betting round.
pub const MAX_RAISES: u8 = 4;

} // verus!
