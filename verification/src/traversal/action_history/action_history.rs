use crate::traversal::action_history::action::{
    action_byte, byte_action, lemma_action_roundtrip, readable_action_byte, Action, BET_BYTE,
    CALL_BYTE, DEAL_BYTE,
};
use crate::models::card::{card_byte, cards_distinct, Card, Rank, Suit};
use vstd::prelude::*;

verus! {

/// A record of a hand as its list of actions, starting with the two hole
/// cards dealt to the player.
#[derive(Debug, Clone, PartialEq, Eq)]
pub struct ActionHistory {
    pub history: Vec<Action>,
}

/// The byte that closes a serialised history ending in `last`: an action that
/// cannot follow it (a call after a check or fold, a bet after a call, a deal
/// after a bet or a deal).
pub open spec fn terminal_byte(last: Action) -> u8 {
    match last {
        Action::CheckFold => CALL_BYTE,
        Action::Call => BET_BYTE,
        Action::Bet => DEAL_BYTE,
        Action::Deal(_) => DEAL_BYTE,
    }
}

/// The bytes of a history: one per action, then the closing byte, which is a
/// deal byte after the big blind's preflop call.
pub open spec fn history_bytes(h: Seq<Action>) -> Seq<u8> {
    h.map_values(|a: Action| action_byte(a)) + seq![
        if h.len() == 3 && h[2] == Action::Call {
            DEAL_BYTE
        } else {
            terminal_byte(h.last())
        },
    ]
}

/// Whether `cur` cannot follow `prev` in a history, so that it closes one.
pub open spec fn closes_history(prev: Action, cur: Action) -> bool {
    match prev {
        Action::CheckFold => cur == Action::Call,
        Action::Call => cur == Action::Bet,
        Action::Bet => cur is Deal,
        Action::Deal(_) => cur is Deal,
    }
}

/// The reading of a history after the flop, from byte `pos` on, with `hist`
/// read so far: actions up to the first that closes the history, whose byte
/// is consumed. None where the bytes run out or one is unreadable.
pub open spec fn parse_after_flop(bytes: Seq<u8>, pos: int, hist: Seq<Action>) -> Option<(Seq<Action>, int)>
    decreases bytes.len() - pos,
{
    if pos < 0 || pos >= bytes.len() || !readable_action_byte(bytes[pos]) {
        None
    } else {
        let a = byte_action(bytes[pos]);
        if closes_history(hist.last(), a) {
            Some((hist, pos + 1))
        } else {
            parse_after_flop(bytes, pos + 1, hist.push(a))
        }
    }
}

/// The reading of a history before the flop, from byte `pos` on: actions up to
/// the first that closes the history; a deal starts the flop, whose other two
/// cards follow at once.
pub open spec fn parse_before_flop(bytes: Seq<u8>, pos: int, hist: Seq<Action>) -> Option<(Seq<Action>, int)>
    decreases bytes.len() - pos,
{
    if pos < 0 || pos >= bytes.len() || !readable_action_byte(bytes[pos]) {
        None
    } else {
        let a = byte_action(bytes[pos]);
        if closes_history(hist.last(), a) {
            Some((hist, pos + 1))
        } else if a is Deal {
            if pos + 2 < bytes.len() && readable_action_byte(bytes[pos + 1]) && readable_action_byte(bytes[pos + 2])
                && byte_action(bytes[pos + 1]) is Deal && byte_action(bytes[pos + 2]) is Deal {
                parse_after_flop(bytes, pos + 3, hist.push(a).push(byte_action(bytes[pos + 1])).push(byte_action(bytes[pos + 2])))
            } else {
                None
            }
        } else {
            parse_before_flop(bytes, pos + 1, hist.push(a))
        }
    }
}

/// The history read from byte `pos` on, and the position after it: two hole
/// cards; then nothing if a deal follows; the first action alone if it is a
/// call and a deal follows; else the actions up to the closing one. None where
/// the reading fails.
pub open spec fn parse_history(bytes: Seq<u8>, pos: int) -> Option<(Seq<Action>, int)> {
    if pos < 0 || pos + 3 > bytes.len() || !readable_action_byte(bytes[pos]) || !readable_action_byte(bytes[pos + 1])
        || !readable_action_byte(bytes[pos + 2]) {
        None
    } else {
        let h0 = byte_action(bytes[pos]);
        let h1 = byte_action(bytes[pos + 1]);
        let a1 = byte_action(bytes[pos + 2]);
        if !(h0 is Deal) || !(h1 is Deal) {
            None
        } else if a1 is Deal {
            Some((seq![h0, h1], pos + 3))
        } else if pos + 4 > bytes.len() || !readable_action_byte(bytes[pos + 3]) {
            None
        } else {
            let a2 = byte_action(bytes[pos + 3]);
            if a1 == Action::Call && a2 is Deal {
                Some((seq![h0, h1, a1], pos + 4))
            } else {
                parse_before_flop(bytes, pos + 4, seq![h0, h1, a1, a2])
            }
        }
    }
}

/// Whether the actions after the flop read back: none closes the history.
pub open spec fn after_flop_ok(prev: Action, rest: Seq<Action>) -> bool
    decreases rest.len(),
{
    rest.len() == 0 || (!closes_history(prev, rest[0]) && after_flop_ok(rest[0], rest.drop_first()))
}

/// Whether the actions before the flop read back: none closes the history,
/// and a deal comes with the two other flop cards.
pub open spec fn before_flop_ok(prev: Action, rest: Seq<Action>) -> bool
    decreases rest.len(),
{
    if rest.len() == 0 {
        true
    } else if closes_history(prev, rest[0]) {
        false
    } else if rest[0] is Deal {
        rest.len() >= 3 && rest[1] is Deal && rest[2] is Deal && after_flop_ok(rest[2], rest.skip(3))
    } else {
        before_flop_ok(rest[0], rest.drop_first())
    }
}

/// The histories that serialise to bytes reading back as themselves: two hole
/// cards, then nothing, or the big blind's call alone, or a first action that is
/// no deal, a second that is no deal after a call, and later actions of which
/// none would close the history, the flop dealt as three cards in a row.
pub open spec fn readable_history(h: Seq<Action>) -> bool {
    &&& h.len() >= 2
    &&& h[0] is Deal
    &&& h[1] is Deal
    &&& (h.len() == 2 || (h.len() == 3 && h[2] == Action::Call) || (h.len() >= 4 && !(h[2] is Deal)
        && !(h[2] == Action::Call && h[3] is Deal) && before_flop_ok(h[3], h.skip(4))))
}

impl ActionHistory {
    pub fn new(history: Vec<Action>) -> (a: ActionHistory)
        ensures
            a.history@ == history@,
    {
        ActionHistory { history }
    }

    /// Puts the two hole cards in place.
    pub fn set_hole_cards(&mut self, hole_card_one: Action, hole_card_two: Action)
        requires
            old(self).history@.len() >= 2,
        ensures
            final(self).history@ == old(self).history@.update(0, hole_card_one).update(1, hole_card_two),
    {
        self.history.set(0, hole_card_one);
        self.history.set(1, hole_card_two);
    }

    /// The bytes of the history (see `history_bytes`).
    pub fn serialise(&self) -> (v: Vec<u8>)
        requires
            self.history@.len() > 0,
        ensures
            v@ == history_bytes(self.history@),
    {
        let is_special = self.history.len() == 3 && self.history[2].is_call();
        let mut serialised_history: Vec<u8> = Vec::new();
        let mut i: usize = 0;
        while i < self.history.len()
            invariant
                i <= self.history@.len(),
                serialised_history@ == self.history@.take(i as int).map_values(|a: Action| action_byte(a)),
            decreases self.history@.len() - i,
        {
            serialised_history.push(self.history[i].serialise());
            i = i + 1;
            assert(serialised_history@ =~= self.history@.take(i as int).map_values(|a: Action| action_byte(a)));
        }
        assert(self.history@.take(self.history@.len() as int) == self.history@);
        let last_action = self.history[self.history.len() - 1];
        if is_special {
            serialised_history.push(DEAL_BYTE);
        } else {
            serialised_history.push(Self::get_terminal_serialisation(&last_action));
        }
        serialised_history
    }

    fn get_terminal_serialisation(action: &Action) -> (b: u8)
        ensures
            b == terminal_byte(*action),
    {
        match action {
            Action::CheckFold => CALL_BYTE,
            Action::Call => BET_BYTE,
            Action::Bet => DEAL_BYTE,
            Action::Deal(_) => DEAL_BYTE,
        }
    }
}

/// Reads histories one after another from a stream of bytes.
pub struct ActionHistoryByteStreamIterator<'a> {
    byte_stream: &'a Vec<u8>,
    position: usize,
}

impl<'a> ActionHistoryByteStreamIterator<'a> {
    /// The bytes being read.
    pub closed spec fn bytes(&self) -> Seq<u8> {
        self.byte_stream@
    }

    /// The position of the next byte to read.
    pub closed spec fn pos(&self) -> int {
        self.position as int
    }

    pub fn new(byte_stream: &'a Vec<u8>) -> (it: ActionHistoryByteStreamIterator<'a>)
        ensures
            it.bytes() == byte_stream@,
            it.pos() == 0,
    {
        ActionHistoryByteStreamIterator { byte_stream, position: 0 }
    }

    fn is_terminal_serialiastion(prev_action: &Action, current_action: &Action) -> (b: bool)
        ensures
            b == closes_history(*prev_action, *current_action),
    {
        match prev_action {
            Action::CheckFold => current_action.is_call(),
            Action::Call => current_action.is_bet(),
            Action::Bet => current_action.is_deal(),
            Action::Deal(_) => current_action.is_deal(),
        }
    }

    /// Reads the action at the current position and moves past it.
    fn read_action(&mut self) -> (a: Action)
        requires
            old(self).pos() < old(self).bytes().len(),
            readable_action_byte(old(self).bytes()[old(self).pos()]),
        ensures
            a == byte_action(old(self).bytes()[old(self).pos()]),
            final(self).bytes() == old(self).bytes(),
            final(self).pos() == old(self).pos() + 1,
    {
        let n = self.byte_stream.len();
        let a = Action::deserialise(&self.byte_stream[self.position]);
        self.position = self.position + 1;
        a
    }

    /// Reads the next history (see `parse_history`) and moves past its bytes.
    pub fn next(&mut self) -> (h: Option<ActionHistory>)
        requires
            parse_history(old(self).bytes(), old(self).pos()) is Some,
        ensures
            final(self).bytes() == old(self).bytes(),
            ({
                let r = parse_history(old(self).bytes(), old(self).pos())->0;
                &&& h matches Some(history) && history.history@ == r.0
                &&& final(self).pos() == r.1
            }),
    {
        let ghost bytes = self.bytes();
        let ghost target = parse_history(self.bytes(), self.pos());
        let mut history: Vec<Action> = Vec::new();
        let hole_card_one = self.read_action();
        let hole_card_two = self.read_action();
        history.push(hole_card_one);
        history.push(hole_card_two);
        let first_action = self.read_action();
        if first_action.is_deal() {
            return Some(ActionHistory::new(history));
        }
        history.push(first_action);
        let second_action = self.read_action();
        if first_action.is_call() && second_action.is_deal() {
            return Some(ActionHistory::new(history));
        }
        history.push(second_action);
        assert(history@ == seq![hole_card_one, hole_card_two, first_action, second_action]);
        let mut flop_read = false;
        while !flop_read
            invariant
                self.bytes() == bytes,
                bytes == old(self).bytes(),
                target == parse_history(old(self).bytes(), old(self).pos()),
                history@.len() >= 4,
                target is Some,
                !flop_read ==> parse_before_flop(bytes, self.pos(), history@) == target,
                flop_read ==> parse_after_flop(bytes, self.pos(), history@) == target,
            decreases bytes.len() - self.pos(), if flop_read { 0int } else { 1int },
        {
            if self.position >= self.byte_stream.len() {
                proof {
                    assert(false);
                }
                return None;
            }
            let action = self.read_action();
            let last = history[history.len() - 1];
            if Self::is_terminal_serialiastion(&last, &action) {
                return Some(ActionHistory::new(history));
            } else if action.is_deal() {
                history.push(action);
                let second_flop_card = self.read_action();
                let third_flop_card = self.read_action();
                history.push(second_flop_card);
                history.push(third_flop_card);
                flop_read = true;
            } else {
                history.push(action);
            }
        }
        while self.position < self.byte_stream.len()
            invariant
                self.bytes() == bytes,
                bytes == old(self).bytes(),
                target == parse_history(old(self).bytes(), old(self).pos()),
                history@.len() >= 4,
                target is Some,
                parse_after_flop(bytes, self.pos(), history@) == target,
            decreases bytes.len() - self.pos(),
        {
            let action = self.read_action();
            let last = history[history.len() - 1];
            if Self::is_terminal_serialiastion(&last, &action) {
                return Some(ActionHistory::new(history));
            }
            history.push(action);
        }
        proof {
            assert(false);
        }
        None
    }
}

proof fn lemma_terminal_byte(a: Action)
    ensures
        readable_action_byte(terminal_byte(a)),
        readable_action_byte(DEAL_BYTE),
        byte_action(DEAL_BYTE) is Deal,
        closes_history(a, byte_action(terminal_byte(a))),
{
    lemma_action_roundtrip(Action::Call);
    lemma_action_roundtrip(Action::Bet);
    let c = Card { rank: Rank::Two, suit: Suit::Spades };
    lemma_action_roundtrip(Action::Deal(c));
    assert(action_byte(Action::Deal(c)) == DEAL_BYTE);
}

proof fn lemma_after_flop_reads(bytes: Seq<u8>, p0: int, h: Seq<Action>, m: int)
    requires
        1 <= m <= h.len(),
        0 <= p0,
        p0 + h.len() < bytes.len(),
        forall|i: int| 0 <= i < h.len() ==> #[trigger] bytes[p0 + i] == action_byte(h[i]),
        bytes[p0 + h.len()] == terminal_byte(h.last()),
        after_flop_ok(h[m - 1], h.skip(m)),
    ensures
        parse_after_flop(bytes, p0 + m, h.take(m)) == Some((h, p0 + h.len() + 1)),
    decreases h.len() - m,
{
    assert(h.take(m).last() == h[m - 1]);
    if m == h.len() {
        lemma_terminal_byte(h.last());
        assert(h.take(m) == h);
    } else {
        assert(bytes[p0 + m] == action_byte(h[m]));
        lemma_action_roundtrip(h[m]);
        assert(h.skip(m)[0] == h[m]);
        assert(h.skip(m).drop_first() == h.skip(m + 1));
        assert(h.take(m).push(h[m]) == h.take(m + 1));
        lemma_after_flop_reads(bytes, p0, h, m + 1);
    }
}

proof fn lemma_before_flop_reads(bytes: Seq<u8>, p0: int, h: Seq<Action>, m: int)
    requires
        1 <= m <= h.len(),
        0 <= p0,
        p0 + h.len() < bytes.len(),
        forall|i: int| 0 <= i < h.len() ==> #[trigger] bytes[p0 + i] == action_byte(h[i]),
        bytes[p0 + h.len()] == terminal_byte(h.last()),
        before_flop_ok(h[m - 1], h.skip(m)),
    ensures
        parse_before_flop(bytes, p0 + m, h.take(m)) == Some((h, p0 + h.len() + 1)),
    decreases h.len() - m,
{
    assert(h.take(m).last() == h[m - 1]);
    if m == h.len() {
        lemma_terminal_byte(h.last());
        assert(h.take(m) == h);
    } else {
        assert(bytes[p0 + m] == action_byte(h[m]));
        lemma_action_roundtrip(h[m]);
        assert(h.skip(m)[0] == h[m]);
        if h[m] is Deal {
            assert(h.skip(m).len() >= 3);
            assert(m + 2 < h.len());
            let i1 = m + 1;
            let i2 = m + 2;
            assert(bytes[p0 + i1] == action_byte(h[i1]));
            assert(bytes[p0 + i2] == action_byte(h[i2]));
            assert(h.skip(m)[1] == h[m + 1]);
            assert(h.skip(m)[2] == h[m + 2]);
            assert(h.skip(m).skip(3) == h.skip(m + 3));
            assert(bytes[p0 + m + 1] == action_byte(h[m + 1]));
            assert(bytes[p0 + m + 2] == action_byte(h[m + 2]));
            lemma_action_roundtrip(h[m + 1]);
            lemma_action_roundtrip(h[m + 2]);
            assert(h.take(m).push(h[m]).push(h[m + 1]).push(h[m + 2]) == h.take(m + 3));
            lemma_after_flop_reads(bytes, p0, h, m + 3);
        } else {
            assert(h.skip(m).drop_first() == h.skip(m + 1));
            assert(h.take(m).push(h[m]) == h.take(m + 1));
            lemma_before_flop_reads(bytes, p0, h, m + 1);
        }
    }
}

/// A history that reads back (see `readable_history`), serialised anywhere in
/// a stream of bytes, is read back unchanged from where it starts, and the
/// reading stops right after its closing byte.
pub proof fn lemma_history_roundtrip(h: Seq<Action>, pre: Seq<u8>, rest: Seq<u8>)
    requires
        readable_history(h),
    ensures
        parse_history(pre + history_bytes(h) + rest, pre.len() as int) == Some((h, (pre.len() + history_bytes(h).len()) as int)),
{
    let bytes = pre + history_bytes(h) + rest;
    let p0 = pre.len() as int;
    let n = h.len() as int;
    assert forall|i: int| 0 <= i < n implies #[trigger] bytes[p0 + i] == action_byte(h[i]) by {
        assert(bytes[p0 + i] == history_bytes(h)[i]);
    }
    assert(bytes[p0 + n] == history_bytes(h)[n]);
    lemma_action_roundtrip(h[0]);
    lemma_action_roundtrip(h[1]);
    assert(bytes[p0] == action_byte(h[0]));
    assert(bytes[p0 + 1] == action_byte(h[1]));
    lemma_terminal_byte(h.last());
    if n == 2 {
        assert(seq![h[0], h[1]] == h);
    } else if n == 3 {
        lemma_action_roundtrip(h[2]);
        assert(bytes[p0 + 2] == action_byte(h[2]));
        assert(seq![h[0], h[1], h[2]] == h);
    } else {
        lemma_action_roundtrip(h[2]);
        lemma_action_roundtrip(h[3]);
        assert(bytes[p0 + 2] == action_byte(h[2]));
        assert(bytes[p0 + 3] == action_byte(h[3]));
        assert(seq![h[0], h[1], h[2], h[3]] == h.take(4));
        assert(bytes[p0 + n] == terminal_byte(h.last()));
        lemma_before_flop_reads(bytes, p0, h, 4);
    }
}

/// Why a history is not one of a hand of heads-up limit hold'em.
#[derive(Debug, PartialEq, Eq, Structural, Clone, Copy)]
pub enum HistoryError {
    /// The first action is not the first hole card.
    FirstActionNotDeal,
    /// The second action is not the second hole card.
    SecondActionNotDeal,
    /// The hole cards are not in increasing order of their bytes.
    HoleCardsNotSorted,
    /// Nothing follows the hole cards.
    NotEnoughActions,
    /// The small blind folds preflop and the history goes on.
    PreflopCheckFold,
    /// The flop is dealt with no action preflop.
    NoPreflopAction,
    /// The second flop card does not follow the first.
    OneFlopCard,
    /// The third flop card does not follow the second.
    TwoFlopCards,
    /// The turn is dealt with no action on the flop.
    NoFlopAction,
    /// The river is dealt with no action on the turn.
    NoTurnAction,
    /// A card is dealt after the river.
    TooManyDeals,
    /// A card is dealt after a fold.
    DealAfterFold,
    /// A card is dealt before the betting round is over.
    RoundNotOver,
    /// A check or fold follows a check or fold after a bet.
    DoubleCheckFold,
    /// A call follows a call.
    DoubleCall,
    /// A fifth bet in one round.
    TooManyBets,
    /// A card is dealt twice.
    DuplicateCard(Card),
}

/// Whether the two last actions end a betting round: two checks, a call of a
/// bet, or a check after a call.
pub open spec fn round_over(prev_prev: Action, prev: Action) -> bool {
    (prev_prev == Action::CheckFold && prev == Action::CheckFold) || (prev_prev == Action::Bet && prev
        == Action::Call) || (prev_prev == Action::Call && prev == Action::CheckFold)
}

/// The first rule the actions from index `i` on break, given the two actions
/// before, the cards dealt after the hole cards and the bets this round.
pub open spec fn actions_error(h: Seq<Action>, i: int, prev: Action, prev_prev: Action, deals: int, bets: int) -> Option<HistoryError>
    decreases h.len() - i,
{
    if i < 0 || i >= h.len() {
        None
    } else {
        match h[i] {
            Action::Deal(_) => {
                let d = deals + 1;
                if d == 1 && prev is Deal {
                    Some(HistoryError::NoPreflopAction)
                } else if d == 2 && !(prev is Deal) {
                    Some(HistoryError::OneFlopCard)
                } else if d == 3 && !(prev is Deal) {
                    Some(HistoryError::TwoFlopCards)
                } else if d == 4 && prev is Deal {
                    Some(HistoryError::NoFlopAction)
                } else if d == 5 && prev is Deal {
                    Some(HistoryError::NoTurnAction)
                } else if d > 5 {
                    Some(HistoryError::TooManyDeals)
                } else if prev_prev == Action::Bet && prev == Action::CheckFold {
                    Some(HistoryError::DealAfterFold)
                } else if (d == 1 || d > 3) && !round_over(prev_prev, prev) {
                    Some(HistoryError::RoundNotOver)
                } else {
                    actions_error(h, i + 1, h[i], prev, d, 0)
                }
            },
            Action::CheckFold => {
                if bets > 0 && prev == Action::CheckFold {
                    Some(HistoryError::DoubleCheckFold)
                } else {
                    actions_error(h, i + 1, h[i], prev, deals, bets)
                }
            },
            Action::Call => {
                if prev == Action::Call {
                    Some(HistoryError::DoubleCall)
                } else {
                    actions_error(h, i + 1, h[i], prev, deals, bets)
                }
            },
            Action::Bet => {
                if bets + 1 > 4 {
                    Some(HistoryError::TooManyBets)
                } else {
                    actions_error(h, i + 1, h[i], prev, deals, bets + 1)
                }
            },
        }
    }
}

/// The cards dealt in a history, in order.
pub open spec fn dealt_cards(h: Seq<Action>) -> Seq<Card>
    decreases h.len(),
{
    if h.len() == 0 {
        Seq::empty()
    } else {
        match h.last() {
            Action::Deal(c) => dealt_cards(h.drop_last()).push(c),
            _ => dealt_cards(h.drop_last()),
        }
    }
}

/// The last card that also appears before it, if any.
pub open spec fn last_duplicate(cards: Seq<Card>) -> Option<Card>
    decreases cards.len(),
{
    if cards.len() == 0 {
        None
    } else if cards.drop_last().contains(cards.last()) {
        Some(cards.last())
    } else {
        last_duplicate(cards.drop_last())
    }
}

/// The first rule of a hand a history breaks, checked in order: two hole cards
/// in increasing order, something after them, no preflop fold that goes on,
/// then the rules of `actions_error`, then no card dealt twice.
pub open spec fn history_error(h: Seq<Action>) -> Option<HistoryError> {
    if !(h[0] is Deal) {
        Some(HistoryError::FirstActionNotDeal)
    } else if !(h[1] is Deal) {
        Some(HistoryError::SecondActionNotDeal)
    } else if card_byte(h[1]->0) <= card_byte(h[0]->0) {
        Some(HistoryError::HoleCardsNotSorted)
    } else if h.len() < 3 {
        Some(HistoryError::NotEnoughActions)
    } else if h.len() > 3 && h[2] == Action::CheckFold {
        Some(HistoryError::PreflopCheckFold)
    } else {
        match actions_error(h, 2, h[1], h[0], 0, 0) {
            Some(e) => Some(e),
            None => match last_duplicate(dealt_cards(h)) {
                Some(c) => Some(HistoryError::DuplicateCard(c)),
                None => None,
            },
        }
    }
}

/// Two checks end a betting round: a flop, turn or river card dealt right
/// after two checks is no error, and the check goes on with the next action
/// in a new round.
pub proof fn lemma_deal_after_two_checks(h: Seq<Action>, i: int, deals: int, bets: int)
    requires
        0 <= i < h.len(),
        h[i] is Deal,
        deals == 0 || deals == 3 || deals == 4,
    ensures
        actions_error(h, i, Action::CheckFold, Action::CheckFold, deals, bets) == actions_error(
            h,
            i + 1,
            h[i],
            Action::CheckFold,
            deals + 1,
            0,
        ),
{
}

/// A hand whose preflop ends with a call and a check and whose flop is
/// checked through goes on to the turn: with six different cards, the hole
/// cards in order, the history is accepted.
pub proof fn lemma_checked_flop_then_turn_accepted(a: Card, b: Card, c: Card, d: Card, e: Card, f: Card)
    requires
        card_byte(a) < card_byte(b),
        cards_distinct(seq![a, b, c, d, e, f]),
    ensures
        history_error(
            seq![
                Action::Deal(a),
                Action::Deal(b),
                Action::Call,
                Action::CheckFold,
                Action::Deal(c),
                Action::Deal(d),
                Action::Deal(e),
                Action::CheckFold,
                Action::CheckFold,
                Action::Deal(f),
            ],
        ) is None,
{
    let h = seq![
        Action::Deal(a),
        Action::Deal(b),
        Action::Call,
        Action::CheckFold,
        Action::Deal(c),
        Action::Deal(d),
        Action::Deal(e),
        Action::CheckFold,
        Action::CheckFold,
        Action::Deal(f),
    ];
    reveal_with_fuel(actions_error, 9);
    assert(actions_error(h, 10, h[9], h[8], 4, 0) is None);
    assert(actions_error(h, 2, h[1], h[0], 0, 0) is None);
    reveal_with_fuel(dealt_cards, 11);
    let cards = seq![a, b, c, d, e, f];
    assert(h.drop_last() =~= h.take(9));
    assert(dealt_cards(h) =~= cards) by {
        assert(h.take(9).drop_last() =~= h.take(8));
        assert(h.take(8).drop_last() =~= h.take(7));
        assert(h.take(7).drop_last() =~= h.take(6));
        assert(h.take(6).drop_last() =~= h.take(5));
        assert(h.take(5).drop_last() =~= h.take(4));
        assert(h.take(4).drop_last() =~= h.take(3));
        assert(h.take(3).drop_last() =~= h.take(2));
        assert(h.take(2).drop_last() =~= h.take(1));
        assert(h.take(1).drop_last() =~= h.take(0));
    }
    reveal_with_fuel(last_duplicate, 7);
    assert(cards.drop_last() =~= seq![a, b, c, d, e]);
    assert(seq![a, b, c, d, e].drop_last() =~= seq![a, b, c, d]);
    assert(seq![a, b, c, d].drop_last() =~= seq![a, b, c]);
    assert(seq![a, b, c].drop_last() =~= seq![a, b]);
    assert(seq![a, b].drop_last() =~= seq![a]);
    assert(seq![a].drop_last() =~= Seq::<Card>::empty());
    assert(cards[0] == a && cards[1] == b && cards[2] == c && cards[3] == d && cards[4] == e && cards[5] == f);
    assert(!seq![a, b, c, d, e].contains(f));
    assert(!seq![a, b, c, d].contains(e));
    assert(!seq![a, b, c].contains(d));
    assert(!seq![a, b].contains(c));
    assert(!seq![a].contains(b));
    assert(last_duplicate(cards) is None);
}

/// Whether the two last actions end a betting round (see `round_over`).
fn is_round_over(prev_prev: &Action, prev: &Action) -> (b: bool)
    ensures
        b == round_over(*prev_prev, *prev),
{
    (prev_prev.is_checkfold() && prev.is_checkfold()) || (prev_prev.is_bet() && prev.is_call()) || (
    prev_prev.is_call() && prev.is_checkfold())
}

/// Checks that a history is one of a hand of heads-up limit hold'em, and
/// names the first rule it breaks (see `history_error`).
pub fn validate_history(history: &Vec<Action>) -> (r: Result<(), HistoryError>)
    requires
        history@.len() >= 1,
        history@[0] is Deal ==> history@.len() >= 2,
    ensures
        r == match history_error(history@) {
            Some(e) => Err(e),
            None => Ok(()),
        },
{
    let ghost h = history@;
    let mut seen: Vec<Card> = Vec::new();
    let first = history[0];
    match first {
        Action::Deal(card) => {
            seen.push(card);
        },
        _ => {
            return Err(HistoryError::FirstActionNotDeal);
        },
    }
    let second = history[1];
    match second {
        Action::Deal(card) => {
            seen.push(card);
            if card.serialise() <= seen[0].serialise() {
                return Err(HistoryError::HoleCardsNotSorted);
            }
        },
        _ => {
            return Err(HistoryError::SecondActionNotDeal);
        },
    }
    if history.len() < 3 {
        return Err(HistoryError::NotEnoughActions);
    }
    if history.len() > 3 && history[2].is_checkfold() {
        return Err(HistoryError::PreflopCheckFold);
    }
    proof {
        reveal_with_fuel(dealt_cards, 3);
        assert(h.take(2).drop_last() == h.take(1));
        assert(h.take(1).drop_last() == h.take(0));
        assert(seen@ == dealt_cards(h.take(2)));
    }
    let mut prev = history[1];
    let mut prev_prev = history[0];
    let mut deal_count: u8 = 0;
    let mut bets_this_turn: u8 = 0;
    let mut i: usize = 2;
    while i < history.len()
        invariant
            2 <= i <= h.len(),
            h == history@,
            h.len() >= 3,
            history_error(h) == match actions_error(h, 2, h[1], h[0], 0, 0) {
                Some(e) => Some(e),
                None => match last_duplicate(dealt_cards(h)) {
                    Some(c) => Some(HistoryError::DuplicateCard(c)),
                    None => None,
                },
            },
            deal_count <= 5,
            bets_this_turn <= 4,
            actions_error(h, i as int, prev, prev_prev, deal_count as int, bets_this_turn as int)
                == actions_error(h, 2, h[1], h[0], 0, 0),
            seen@ == dealt_cards(h.take(i as int)),
            seen@.len() <= i,
        decreases h.len() - i,
    {
        let action = history[i];
        proof {
            assert(h.take(i + 1).drop_last() == h.take(i as int));
            assert(h.take(i + 1).last() == action);
        }
        match action {
            Action::Deal(card) => {
                bets_this_turn = 0;
                seen.push(card);
                deal_count = deal_count + 1;
                if deal_count == 1 {
                    if prev.is_deal() {
                        return Err(HistoryError::NoPreflopAction);
                    }
                } else if deal_count == 2 {
                    if !prev.is_deal() {
                        return Err(HistoryError::OneFlopCard);
                    }
                } else if deal_count == 3 {
                    if !prev.is_deal() {
                        return Err(HistoryError::TwoFlopCards);
                    }
                } else if deal_count == 4 {
                    if prev.is_deal() {
                        return Err(HistoryError::NoFlopAction);
                    }
                } else if deal_count == 5 {
                    if prev.is_deal() {
                        return Err(HistoryError::NoTurnAction);
                    }
                } else {
                    return Err(HistoryError::TooManyDeals);
                }
                if prev_prev.is_bet() && prev.is_checkfold() {
                    return Err(HistoryError::DealAfterFold);
                }
                if (deal_count == 1 || deal_count > 3) && !is_round_over(&prev_prev, &prev) {
                    return Err(HistoryError::RoundNotOver);
                }
            },
            Action::CheckFold => {
                if bets_this_turn > 0 && prev.is_checkfold() {
                    return Err(HistoryError::DoubleCheckFold);
                }
            },
            Action::Call => {
                if prev.is_call() {
                    return Err(HistoryError::DoubleCall);
                }
            },
            Action::Bet => {
                bets_this_turn = bets_this_turn + 1;
                if bets_this_turn > 4 {
                    return Err(HistoryError::TooManyBets);
                }
            },
        }
        prev_prev = prev;
        prev = action;
        i = i + 1;
    }
    assert(h.take(h.len() as int) == h);
    let ghost all_seen = seen@;
    assert(actions_error(h, h.len() as int, prev, prev_prev, deal_count as int, bets_this_turn as int) is None);
    while seen.len() > 0
        invariant
            h == history@,
            last_duplicate(seen@) == last_duplicate(all_seen),
            history_error(h) == match last_duplicate(all_seen) {
                Some(c) => Some(HistoryError::DuplicateCard(c)),
                None => None,
            },
        decreases seen@.len(),
    {
        let ghost before = seen@;
        let cand = seen.pop().unwrap();
        assert(seen@ == before.drop_last());
        assert(cand == before.last());
        if contains_card(&seen, cand) {
            assert(last_duplicate(before) == Some(cand));
            return Err(HistoryError::DuplicateCard(cand));
        }
    }
    Ok(())
}

/// Whether `card` is among `cards`.
fn contains_card(cards: &Vec<Card>, card: Card) -> (b: bool)
    ensures
        b == cards@.contains(card),
{
    let mut i: usize = 0;
    while i < cards.len()
        invariant
            i <= cards@.len(),
            forall|j: int| 0 <= j < i ==> cards@[j] != card,
        decreases cards@.len() - i,
    {
        if cards[i] == card {
            return true;
        }
        i = i + 1;
    }
    false
}

} // verus!
