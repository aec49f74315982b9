use vstd::prelude::*;

verus! {

/// How a betting round or the game ends, or that it goes on.
#[derive(Debug, PartialEq, Eq, Structural, Clone, Copy)]
pub enum TerminalState {
    Showdown,
    Fold,
    RoundOver,
    NotTerminal,
}

} // verus!
