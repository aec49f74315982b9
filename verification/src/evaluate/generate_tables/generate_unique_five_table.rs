use super::generate_flush_table::{generate_unique_fives, unique_five_entry};
use crate::evaluate::evaluate_hand::BIT_REP_LIMIT;
use vstd::prelude::*;

verus! {

/// The table of the hands of five distinct ranks that are not flushes: the
/// high-card hands take 1 to 1277 and the straights 5854 to 5863.
pub fn generate_unique_five_table() -> (table: Vec<u16>)
    ensures
        table@.len() == BIT_REP_LIMIT + 1,
        forall|m: int| 0 <= m <= BIT_REP_LIMIT ==> table@[m] == unique_five_entry(m as u32, 1, 5854),
{
    let lower_take_index: usize = 0;
    let upper_take_index: usize = 5853;
    generate_unique_fives(lower_take_index + 1, upper_take_index + 1)
}

} // verus!
