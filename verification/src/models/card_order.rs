use crate::models::card::{card_byte, Card};
use core::cmp::Ordering;
use vstd::prelude::*;
use vstd::std_specs::cmp::PartialOrdSpecImpl;

verus! {

/// The order of two bytes.
pub open spec fn byte_order(a: u8, b: u8) -> Ordering {
    if a < b {
        Ordering::Less
    } else if a == b {
        Ordering::Equal
    } else {
        Ordering::Greater
    }
}

/// Cards compare by their serialised byte: by rank first, then spades,
/// hearts, diamonds, clubs.
impl PartialOrd for Card {
    fn partial_cmp(&self, other: &Card) -> (r: Option<Ordering>) {
        let a = self.serialise();
        let b = other.serialise();
        if a < b {
            Some(Ordering::Less)
        } else if a == b {
            Some(Ordering::Equal)
        } else {
            Some(Ordering::Greater)
        }
    }
}

impl PartialOrdSpecImpl for Card {
    open spec fn obeys_partial_cmp_spec() -> bool {
        true
    }

    open spec fn partial_cmp_spec(&self, other: &Card) -> Option<Ordering> {
        Some(byte_order(card_byte(*self), card_byte(*other)))
    }
}

} // verus!
