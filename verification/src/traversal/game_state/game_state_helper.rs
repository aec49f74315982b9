use crate::config::{BIG_BLIND_SIZE, MAX_RAISES, SMALL_BLIND_SIZE};
use crate::evaluate::evaluate_hand::{seven_ok, HandEvaluator, HandEvaluatorLookup};
use crate::models::card::{cards_string, cards_text, Card, NineCardDeal};
use crate::text::{decimal_text, u8_to_string};
use crate::models::player::Player;
use crate::traversal::action_history::action::Action;
use crate::traversal::action_history::game_abstraction::{
    abstraction_key, convert_deal_into_abstraction, deal_abstraction_defined, deal_round_bytes,
    player_round_bytes, GameAbstraction,
};
use crate::traversal::game_state::terminal_state::TerminalState;
use vstd::prelude::*;

verus! {

/// The state of a heads-up limit hand during a traversal: pots, whose turn it
/// is, how far the board is dealt, and the round's bets and checks. Actions
/// change it in place and `undo`, `undeal` and `undeal_flop` change it back.
#[derive(Debug, Clone)]
pub struct GameStateHelper {
    pub game_abstraction: GameAbstraction,
    pub traverser_pot: u8,
    pub opponent_pot: u8,
    pub cards: NineCardDeal,
    pub cards_dealt: u8,
    pub current_player: Player,
    pub small_blind_player: Player,
    pub big_blind_player: Player,
    pub bets_this_round: u8,
    pub winner: Option<Option<Player>>,
    pub checks_this_round: u8,
    pub folded: bool,
}

impl GameStateHelper {
    /// The pot of the player to act.
    pub open spec fn current_pot(self) -> u8 {
        match self.current_player {
            Player::Traverser => self.traverser_pot,
            Player::Opponent => self.opponent_pot,
        }
    }

    /// The pot of the player not to act.
    pub open spec fn other_pot(self) -> u8 {
        match self.current_player {
            Player::Traverser => self.opponent_pot,
            Player::Opponent => self.traverser_pot,
        }
    }

    /// The state with the pot of `player` set to `pot`.
    pub open spec fn with_pot(self, player: Player, pot: u8) -> GameStateHelper {
        match player {
            Player::Traverser => GameStateHelper { traverser_pot: pot, ..self },
            Player::Opponent => GameStateHelper { opponent_pot: pot, ..self },
        }
    }

    /// The raise of a bet: one big blind before the turn, two from the turn on.
    pub open spec fn raise_size(self) -> u8 {
        if self.cards_dealt < 4 {
            BIG_BLIND_SIZE
        } else {
            (BIG_BLIND_SIZE * 2) as u8
        }
    }

    /// The state after the player to act bets: one more bet this round and the
    /// player's pot raised above the other's.
    pub open spec fn after_bet(self) -> GameStateHelper {
        GameStateHelper {
            bets_this_round: (self.bets_this_round + 1) as u8,
            ..self
        }.with_pot(self.current_player, (self.other_pot() + self.raise_size()) as u8)
    }

    /// Whether a bet fits the byte counters.
    pub open spec fn can_bet(self) -> bool {
        self.bets_this_round < 255 && self.other_pot() + self.raise_size() <= 255
    }

    /// The state after the player to act calls: their pot matches the other's.
    pub open spec fn after_call(self) -> GameStateHelper {
        self.with_pot(self.current_player, self.other_pot())
    }

    /// Whether the small blind's first action is pending.
    pub open spec fn at_small_blind_call(self) -> bool {
        self.current_pot() == SMALL_BLIND_SIZE
    }

    /// The state after the player to act calls or, with no bet this round,
    /// bets; the small blind's first call also counts as a check.
    pub open spec fn after_call_or_bet(self) -> GameStateHelper {
        if self.at_small_blind_call() {
            GameStateHelper { checks_this_round: (self.checks_this_round + 1) as u8, ..self }.after_call()
        } else if self.bets_this_round == 0 {
            self.after_bet()
        } else {
            self.after_call()
        }
    }

    /// Whether a call or bet fits the byte counters.
    pub open spec fn can_call_or_bet(self) -> bool {
        if self.at_small_blind_call() {
            self.checks_this_round < 255
        } else if self.bets_this_round == 0 {
            self.can_bet()
        } else {
            true
        }
    }

    /// Whether checking folds: there is a bet to answer or the small blind's
    /// first action is pending.
    pub open spec fn checkfold_folds(self) -> bool {
        !(self.bets_this_round == 0 && !self.at_small_blind_call())
    }

    /// The state after the player to act checks or folds.
    pub open spec fn after_checkfold(self) -> GameStateHelper {
        if self.checkfold_folds() {
            GameStateHelper { folded: true, ..self }
        } else {
            GameStateHelper { checks_this_round: (self.checks_this_round + 1) as u8, ..self }
        }
    }

    /// The state put back to before an action of `acting_player`.
    pub open spec fn after_undo(self, acting_player: Player, previous_pot: u8, previous_bets: u8, previous_checks: u8) -> GameStateHelper {
        GameStateHelper {
            bets_this_round: previous_bets,
            current_player: acting_player,
            checks_this_round: previous_checks,
            folded: false,
            ..self
        }.with_pot(acting_player, previous_pot)
    }

    /// The state after one more board card: a new round that the big blind
    /// opens.
    pub open spec fn after_deal(self) -> GameStateHelper {
        GameStateHelper {
            cards_dealt: (self.cards_dealt + 1) as u8,
            checks_this_round: 0,
            bets_this_round: 0,
            current_player: self.big_blind_player,
            ..self
        }
    }

    /// The state put back to before a card was dealt.
    pub open spec fn after_undeal(self, previous_bets: u8, previous_player: Player, previous_checks: u8) -> GameStateHelper {
        GameStateHelper {
            cards_dealt: (self.cards_dealt - 1) as u8,
            bets_this_round: previous_bets,
            current_player: previous_player,
            checks_this_round: previous_checks,
            ..self
        }
    }

    /// The state after the flop: three board cards and a new round that the
    /// big blind opens.
    pub open spec fn after_deal_flop(self) -> GameStateHelper {
        GameStateHelper {
            cards_dealt: 3,
            bets_this_round: 0,
            checks_this_round: 0,
            current_player: self.big_blind_player,
            ..self
        }
    }

    /// The state put back to before the flop.
    pub open spec fn after_undeal_flop(self, previous_bets: u8, previous_player: Player, previous_checks: u8) -> GameStateHelper {
        GameStateHelper {
            cards_dealt: 0,
            bets_this_round: previous_bets,
            current_player: previous_player,
            checks_this_round: previous_checks,
            ..self
        }
    }

    /// Whether the round's state is one `check_round_terminal` can judge: two
    /// checks, equal pots, the player to act behind, or a fold.
    pub open spec fn terminal_defined(self) -> bool {
        self.checks_this_round == 2 || self.traverser_pot == self.opponent_pot || self.current_pot()
            < self.other_pot() || self.folded
    }

    /// How the round stands: two checks end the round (a showdown on the
    /// river); equal pots after a bet end it too; a player behind is to act; a
    /// player ahead has just seen the other fold. Before the river a showdown
    /// is only the end of the round.
    pub open spec fn terminal_of(self) -> TerminalState {
        if self.checks_this_round == 2 {
            if self.cards_dealt == 5 {
                TerminalState::Showdown
            } else {
                TerminalState::RoundOver
            }
        } else {
            let t = if self.opponent_pot == self.traverser_pot {
                if self.bets_this_round > 0 {
                    TerminalState::Showdown
                } else {
                    TerminalState::NotTerminal
                }
            } else if self.current_pot() < self.other_pot() {
                TerminalState::NotTerminal
            } else {
                TerminalState::Fold
            };
            if self.cards_dealt != 5 {
                match t {
                    TerminalState::Fold => TerminalState::Fold,
                    TerminalState::Showdown => TerminalState::RoundOver,
                    _ => TerminalState::NotTerminal,
                }
            } else {
                t
            }
        }
    }

    /// The state at the start of a deal: blinds posted, the small blind to
    /// act, nothing dealt to the board.
    pub fn new(nine_card_deal: NineCardDeal, small_blind_player: Player) -> (s: GameStateHelper)
        requires
            deal_abstraction_defined(nine_card_deal@),
        ensures
            forall|round: int| 0 <= round < 4 ==> (#[trigger] s.game_abstraction.traverser_round_abstractions@[round])@ == deal_round_bytes(nine_card_deal@, 0, round),
            forall|round: int| 0 <= round < 4 ==> (#[trigger] s.game_abstraction.opponent_round_abstractions@[round])@ == deal_round_bytes(nine_card_deal@, 1, round),
            s.traverser_pot == (if small_blind_player == Player::Traverser { SMALL_BLIND_SIZE } else { BIG_BLIND_SIZE }),
            s.opponent_pot == (if small_blind_player == Player::Opponent { SMALL_BLIND_SIZE } else { BIG_BLIND_SIZE }),
            s.cards == nine_card_deal,
            s.cards_dealt == 0,
            s.current_player == small_blind_player,
            s.small_blind_player == small_blind_player,
            s.big_blind_player == small_blind_player.spec_opposite(),
            s.bets_this_round == 0,
            s.winner is None,
            s.checks_this_round == 0,
            !s.folded,
    {
        GameStateHelper {
            game_abstraction: convert_deal_into_abstraction(nine_card_deal),
            traverser_pot: match small_blind_player {
                Player::Traverser => SMALL_BLIND_SIZE,
                Player::Opponent => BIG_BLIND_SIZE,
            },
            opponent_pot: match small_blind_player {
                Player::Opponent => SMALL_BLIND_SIZE,
                Player::Traverser => BIG_BLIND_SIZE,
            },
            cards: nine_card_deal,
            cards_dealt: 0,
            current_player: small_blind_player,
            small_blind_player,
            big_blind_player: small_blind_player.get_opposite(),
            bets_this_round: 0,
            winner: None,
            checks_this_round: 0,
            folded: false,
        }
    }

    pub fn get_current_player(&self) -> (p: Player)
        ensures
            p == self.current_player,
    {
        self.current_player
    }

    pub fn switch_current_player(&mut self)
        ensures
            *final(self) == (GameStateHelper { current_player: old(self).current_player.spec_opposite(), ..*old(self) }),
    {
        self.current_player = self.current_player.get_opposite();
    }

    pub fn set_current_player_to_big_blind(&mut self)
        ensures
            *final(self) == (GameStateHelper { current_player: old(self).big_blind_player, ..*old(self) }),
    {
        self.current_player = self.big_blind_player;
    }

    pub fn set_current_player_to_small_blind(&mut self)
        ensures
            *final(self) == (GameStateHelper { current_player: old(self).small_blind_player, ..*old(self) }),
    {
        self.current_player = self.small_blind_player;
    }

    /// The three flop cards of the deal.
    pub fn get_flop(&self) -> (f: [Card; 3])
        ensures
            f@ == self.cards@.subrange(4, 7),
    {
        let f = [self.cards[4], self.cards[5], self.cards[6]];
        assert(f@ =~= self.cards@.subrange(4, 7));
        f
    }

    pub fn is_flop(&self) -> (b: bool)
        ensures
            b == (self.cards_dealt == 3),
    {
        self.cards_dealt == 3
    }

    pub fn is_turn(&self) -> (b: bool)
        ensures
            b == (self.cards_dealt == 4),
    {
        self.cards_dealt == 4
    }

    pub fn is_preflop(&self) -> (b: bool)
        ensures
            b == (self.cards_dealt == 0),
    {
        self.cards_dealt == 0
    }

    pub fn is_preturn(&self) -> (b: bool)
        ensures
            b == (self.cards_dealt < 4),
    {
        self.cards_dealt < 4
    }

    pub fn is_river(&self) -> (b: bool)
        ensures
            b == (self.cards_dealt == 5),
    {
        self.cards_dealt == 5
    }

    /// Three actions (check or fold, call, bet) while a raise is possible,
    /// two when there is no bet to answer or the raises are used up; the small
    /// blind's first action has three.
    pub fn get_num_available_actions(&self) -> (n: usize)
        ensures
            n == if self.at_small_blind_call() {
                3usize
            } else if self.bets_this_round == 0 || self.bets_this_round == MAX_RAISES {
                2usize
            } else {
                3usize
            },
    {
        if self.get_current_player_pot() == SMALL_BLIND_SIZE {
            return 3;
        }
        if self.bets_this_round == 0 || self.bets_this_round == MAX_RAISES {
            2
        } else {
            3
        }
    }

    pub fn get_current_player_cards(&self) -> (c: [Card; 2])
        ensures
            c@ == match self.current_player {
                Player::Traverser => seq![self.cards@[0], self.cards@[1]],
                Player::Opponent => seq![self.cards@[2], self.cards@[3]],
            },
    {
        match self.current_player {
            Player::Traverser => [self.cards[0], self.cards[1]],
            Player::Opponent => [self.cards[2], self.cards[3]],
        }
    }

    pub fn get_non_current_player_cards(&self) -> (c: [Card; 2])
        ensures
            c@ == match self.current_player {
                Player::Opponent => seq![self.cards@[0], self.cards@[1]],
                Player::Traverser => seq![self.cards@[2], self.cards@[3]],
            },
    {
        match self.current_player {
            Player::Opponent => [self.cards[0], self.cards[1]],
            Player::Traverser => [self.cards[2], self.cards[3]],
        }
    }

    /// The information-state key of the player to act: the round (two board
    /// cards fewer than dealt, at least 0), their pot and the round's bets,
    /// then their round abstraction.
    pub fn serialise_history_with_current_player(&self) -> (v: Vec<u8>)
        requires
            self.cards_dealt <= 5,
        ensures
            ({
                let round: usize = if self.cards_dealt >= 2 {
                    (self.cards_dealt - 2) as usize
                } else {
                    0usize
                };
                v@ == abstraction_key(round, self.current_pot(), self.bets_this_round,
                    player_round_bytes(self.game_abstraction, round as int, self.current_player))
            }),
    {
        let round: u8 = if self.cards_dealt >= 2 {
            self.cards_dealt - 2
        } else {
            0
        };
        self.game_abstraction.get_abstraction(
            round as usize,
            self.get_current_player_pot(),
            self.bets_this_round,
            &self.current_player,
        )
    }

    /// Whether `check_round_terminal` can judge the round (see
    /// `terminal_defined`); a player ahead who is to act without a fold is a
    /// logic error of the caller.
    pub fn round_state_known(&self) -> (b: bool)
        ensures
            b == self.terminal_defined(),
    {
        self.checks_this_round == 2 || self.traverser_pot == self.opponent_pot
            || self.get_current_player_pot() < self.get_non_current_player_pot() || self.folded
    }

    /// How the round stands (see `terminal_of`).
    pub fn check_round_terminal(&self) -> (t: TerminalState)
        requires
            self.terminal_defined(),
        ensures
            t == self.terminal_of(),
    {
        if self.checks_this_round == 2 {
            return if self.is_river() {
                TerminalState::Showdown
            } else {
                TerminalState::RoundOver
            };
        }
        let terminal_state = if self.opponent_pot == self.traverser_pot {
            if self.bets_this_round > 0 {
                TerminalState::Showdown
            } else {
                TerminalState::NotTerminal
            }
        } else if self.get_current_player_pot() < self.get_non_current_player_pot() {
            TerminalState::NotTerminal
        } else {
            TerminalState::Fold
        };
        if !self.is_river() {
            match terminal_state {
                TerminalState::Fold => TerminalState::Fold,
                TerminalState::Showdown => TerminalState::RoundOver,
                _ => TerminalState::NotTerminal,
            }
        } else {
            terminal_state
        }
    }

    /// The traverser's chips won after a fold: the opponent's pot when the
    /// traverser is to act (the opponent folded), else minus the traverser's.
    pub fn fold_payoff(&self) -> (p: i16)
        ensures
            p == match self.current_player {
                Player::Traverser => self.opponent_pot as int,
                Player::Opponent => -(self.traverser_pot as int),
            },
    {
        match self.current_player {
            Player::Traverser => self.opponent_pot as i16,
            Player::Opponent => -(self.traverser_pot as i16),
        }
    }

    /// The traverser's chips won at showdown: the opponent's pot if the
    /// traverser's best hand wins, minus the traverser's pot if it loses, 0 on
    /// a split. The winner is found once and kept.
    pub fn showdown_payoff(&mut self, evaluator: &HandEvaluatorLookup) -> (p: i16)
        requires
            evaluator.hand_lookup.wf(),
            seven_ok(seq![old(self).cards@[0], old(self).cards@[1]] + old(self).cards@.subrange(4, 9)),
            seven_ok(seq![old(self).cards@[2], old(self).cards@[3]] + old(self).cards@.subrange(4, 9)),
        ensures
            ({
                let t = evaluator.best_of_seven(seq![old(self).cards@[0], old(self).cards@[1]], old(self).cards@.subrange(4, 9));
                let o = evaluator.best_of_seven(seq![old(self).cards@[2], old(self).cards@[3]], old(self).cards@.subrange(4, 9));
                let fresh = if t > o {
                    Some(Player::Traverser)
                } else if t < o {
                    Some(Player::Opponent)
                } else {
                    None
                };
                let w = match old(self).winner {
                    Some(w) => w,
                    None => fresh,
                };
                &&& *final(self) == (GameStateHelper { winner: Some(w), ..*old(self) })
                &&& p == match w {
                    Some(Player::Traverser) => old(self).opponent_pot as int,
                    Some(Player::Opponent) => -(old(self).traverser_pot as int),
                    None => 0,
                }
            }),
    {
        let w = match self.winner {
            Some(w) => w,
            None => {
                let fresh = evaluator.evaluate_nine(&self.cards);
                self.winner = Some(fresh);
                fresh
            },
        };
        match w {
            Some(Player::Traverser) => self.opponent_pot as i16,
            Some(Player::Opponent) => -(self.traverser_pot as i16),
            None => 0,
        }
    }

    /// The player to act bets (see `after_bet`).
    pub fn bet(&mut self) -> (a: Action)
        requires
            old(self).can_bet(),
        ensures
            *final(self) == old(self).after_bet(),
            a == Action::Bet,
    {
        self.bets_this_round = self.bets_this_round + 1;
        let raise: u8 = if self.is_preturn() {
            BIG_BLIND_SIZE
        } else {
            BIG_BLIND_SIZE * 2
        };
        match self.current_player {
            Player::Traverser => {
                self.traverser_pot = self.opponent_pot + raise;
            },
            Player::Opponent => {
                self.opponent_pot = self.traverser_pot + raise;
            },
        }
        Action::Bet
    }

    pub fn get_current_player_pot(&self) -> (p: u8)
        ensures
            p == self.current_pot(),
    {
        match self.current_player {
            Player::Traverser => self.traverser_pot,
            Player::Opponent => self.opponent_pot,
        }
    }

    pub fn get_non_current_player_pot(&self) -> (p: u8)
        ensures
            p == self.other_pot(),
    {
        match self.current_player {
            Player::Traverser => self.opponent_pot,
            Player::Opponent => self.traverser_pot,
        }
    }

    /// The player to act calls, or bets when nobody has (see
    /// `after_call_or_bet`).
    pub fn call_or_bet(&mut self) -> (a: Action)
        requires
            old(self).can_call_or_bet(),
        ensures
            *final(self) == old(self).after_call_or_bet(),
            a == if !old(self).at_small_blind_call() && old(self).bets_this_round == 0 {
                Action::Bet
            } else {
                Action::Call
            },
    {
        if self.get_current_player_pot() == SMALL_BLIND_SIZE {
            self.checks_this_round = self.checks_this_round + 1;
            return self.call();
        }
        if self.bets_this_round == 0 {
            self.bet()
        } else {
            self.call()
        }
    }

    /// The player to act calls (see `after_call`).
    pub fn call(&mut self) -> (a: Action)
        ensures
            *final(self) == old(self).after_call(),
            a == Action::Call,
    {
        match self.current_player {
            Player::Traverser => {
                self.traverser_pot = self.opponent_pot;
            },
            Player::Opponent => {
                self.opponent_pot = self.traverser_pot;
            },
        }
        Action::Call
    }

    /// The player to act checks, or folds when there is something to answer
    /// (see `after_checkfold`).
    pub fn checkfold(&mut self)
        requires
            !old(self).checkfold_folds() ==> old(self).checks_this_round < 255,
        ensures
            *final(self) == old(self).after_checkfold(),
    {
        if self.bets_this_round == 0 && self.get_current_player_pot() != SMALL_BLIND_SIZE {
            self.checks_this_round = self.checks_this_round + 1;
        } else {
            self.folded = true;
        }
    }

    /// Puts the state back to before an action (see `after_undo`).
    pub fn undo(&mut self, acting_player: Player, previous_pot: u8, previous_bets: u8, previous_checks: u8)
        ensures
            *final(self) == old(self).after_undo(acting_player, previous_pot, previous_bets, previous_checks),
    {
        match acting_player {
            Player::Traverser => {
                self.traverser_pot = previous_pot;
            },
            Player::Opponent => {
                self.opponent_pot = previous_pot;
            },
        }
        self.bets_this_round = previous_bets;
        self.current_player = acting_player;
        self.checks_this_round = previous_checks;
        self.folded = false;
    }

    /// Deals one more board card (see `after_deal`).
    pub fn deal(&mut self)
        requires
            old(self).cards_dealt < 255,
        ensures
            *final(self) == old(self).after_deal(),
    {
        self.cards_dealt = self.cards_dealt + 1;
        self.checks_this_round = 0;
        self.bets_this_round = 0;
        self.set_current_player_to_big_blind();
    }

    /// Takes back the last board card (see `after_undeal`).
    pub fn undeal(&mut self, previous_bets: u8, previous_player: Player, previous_checks: u8)
        requires
            old(self).cards_dealt > 0,
        ensures
            *final(self) == old(self).after_undeal(previous_bets, previous_player, previous_checks),
    {
        self.cards_dealt = self.cards_dealt - 1;
        self.bets_this_round = previous_bets;
        self.current_player = previous_player;
        self.checks_this_round = previous_checks;
    }

    /// Deals the flop (see `after_deal_flop`).
    pub fn deal_flop(&mut self)
        ensures
            *final(self) == old(self).after_deal_flop(),
    {
        self.cards_dealt = 3;
        self.bets_this_round = 0;
        self.checks_this_round = 0;
        self.set_current_player_to_big_blind();
    }

    /// Takes back the flop (see `after_undeal_flop`).
    pub fn undeal_flop(&mut self, previous_bets: u8, previous_player: Player, previous_checks: u8)
        ensures
            *final(self) == old(self).after_undeal_flop(previous_bets, previous_player, previous_checks),
    {
        self.cards_dealt = 0;
        self.bets_this_round = previous_bets;
        self.current_player = previous_player;
        self.checks_this_round = previous_checks;
    }
}

impl GameStateHelper {
    /// The text of the state: the cards of the player to act, the board cards
    /// dealt, the player to act, and on a second line the pots, bets and
    /// checks.
    pub open spec fn state_text(self) -> Seq<char> {
        let hole = match self.current_player {
            Player::Traverser => seq![self.cards@[0], self.cards@[1]],
            Player::Opponent => seq![self.cards@[2], self.cards@[3]],
        };
        "Current state: Player Cards: "@ + cards_text(hole) + " Cards dealt: "@ + cards_text(
            self.cards@.subrange(4, 4 + self.cards_dealt),
        ) + " Current player: "@ + (if self.current_player == Player::Traverser {
            "Tra"@
        } else {
            "Opp"@
        }) + "\nTraverser pot: "@ + decimal_text(self.traverser_pot as nat) + " Opponent pot: "@
            + decimal_text(self.opponent_pot as nat) + " Bets this round: "@ + decimal_text(
            self.bets_this_round as nat,
        ) + " Checks this round: "@ + decimal_text(self.checks_this_round as nat)
    }

    /// The text of the state (see `state_text`).
    pub fn to_display_string(&self) -> (s: String)
        requires
            self.cards_dealt <= 5,
        ensures
            s@ == self.state_text(),
    {
        let hole = self.get_current_player_cards();
        let n = 4 + self.cards_dealt as usize;
        let board = &self.cards[4..n];
        let mut s = String::from_str("Current state: Player Cards: ");
        s.append(cards_string(&hole).as_str());
        s.append(" Cards dealt: ");
        s.append(cards_string(board).as_str());
        s.append(" Current player: ");
        s.append(self.current_player.to_str());
        s.append("\nTraverser pot: ");
        s.append(u8_to_string(self.traverser_pot).as_str());
        s.append(" Opponent pot: ");
        s.append(u8_to_string(self.opponent_pot).as_str());
        s.append(" Bets this round: ");
        s.append(u8_to_string(self.bets_this_round).as_str());
        s.append(" Checks this round: ");
        s.append(u8_to_string(self.checks_this_round).as_str());
        s
    }
}

/// Whether the action with number `index` (0 check or fold, 1 call or bet,
/// 2 bet) fits the byte counters.
pub open spec fn chosen_action_fits(s: GameStateHelper, index: int) -> bool {
    if index == 0 {
        !s.checkfold_folds() ==> s.checks_this_round < 255
    } else if index == 1 {
        s.can_call_or_bet()
    } else {
        s.can_bet()
    }
}

/// The state after the action with number `index` of the player to act, the
/// turn then passing to the other player.
pub open spec fn after_chosen_action(s: GameStateHelper, index: int) -> GameStateHelper {
    let t = if index == 0 {
        s.after_checkfold()
    } else if index == 1 {
        s.after_call_or_bet()
    } else {
        s.after_bet()
    };
    GameStateHelper { current_player: t.current_player.spec_opposite(), ..t }
}

/// The action that the number `index` stands for in a state.
pub open spec fn chosen_action(s: GameStateHelper, index: int) -> Action {
    if index == 0 {
        Action::CheckFold
    } else if index == 1 && (s.at_small_blind_call() || s.bets_this_round != 0) {
        Action::Call
    } else {
        Action::Bet
    }
}

/// Whether the action with number `index` fits the byte counters (see
/// `chosen_action_fits`).
pub fn check_chosen_action_fits(game_state: &GameStateHelper, index: usize) -> (b: bool)
    requires
        index < 3,
    ensures
        b == chosen_action_fits(*game_state, index as int),
{
    let small_blind_call = game_state.get_current_player_pot() == SMALL_BLIND_SIZE;
    let other = game_state.get_non_current_player_pot();
    let raise: u8 = if game_state.is_preturn() {
        BIG_BLIND_SIZE
    } else {
        BIG_BLIND_SIZE * 2
    };
    let bet_fits = game_state.bets_this_round < 255 && other <= 255 - raise;
    if index == 0 {
        !(game_state.bets_this_round == 0 && !small_blind_call) || game_state.checks_this_round < 255
    } else if index == 1 {
        if small_blind_call {
            game_state.checks_this_round < 255
        } else if game_state.bets_this_round == 0 {
            bet_fits
        } else {
            true
        }
    } else {
        bet_fits
    }
}

/// Takes the action with number `index` for the player to act and passes the
/// turn (see `after_chosen_action`); returns the action taken.
pub fn apply_chosen_action(game_state: &mut GameStateHelper, index: usize) -> (a: Action)
    requires
        index < 3,
        chosen_action_fits(*old(game_state), index as int),
    ensures
        *final(game_state) == after_chosen_action(*old(game_state), index as int),
        a == chosen_action(*old(game_state), index as int),
{
    let a = if index == 0 {
        game_state.checkfold();
        Action::CheckFold
    } else if index == 1 {
        game_state.call_or_bet()
    } else {
        game_state.bet()
    };
    game_state.switch_current_player();
    a
}

/// Undoing a chosen action with the acting player, their pot, the bets and
/// the checks from before it gives back the state before it, if nobody had
/// folded.
pub proof fn lemma_undo_chosen_action(s: GameStateHelper, index: int)
    requires
        0 <= index < 3,
        chosen_action_fits(s, index),
        !s.folded,
    ensures
        after_chosen_action(s, index).after_undo(s.current_player, s.current_pot(), s.bets_this_round, s.checks_this_round) == s,
{
    if index == 0 {
        lemma_undo_checkfold(s);
    } else if index == 1 {
        lemma_undo_call_or_bet(s);
    } else {
        lemma_undo_bet(s);
    }
}

/// Undoing a bet with the acting player, their pot, the bets and the checks
/// from before it gives back the state before it, if nobody had folded.
pub proof fn lemma_undo_bet(s: GameStateHelper)
    requires
        s.can_bet(),
        !s.folded,
    ensures
        s.after_bet().after_undo(s.current_player, s.current_pot(), s.bets_this_round, s.checks_this_round) == s,
{
}

/// Undoing a call gives back the state before it, if nobody had folded.
pub proof fn lemma_undo_call(s: GameStateHelper)
    requires
        !s.folded,
    ensures
        s.after_call().after_undo(s.current_player, s.current_pot(), s.bets_this_round, s.checks_this_round) == s,
{
}

/// Undoing a call or bet gives back the state before it, if nobody had
/// folded.
pub proof fn lemma_undo_call_or_bet(s: GameStateHelper)
    requires
        s.can_call_or_bet(),
        !s.folded,
    ensures
        s.after_call_or_bet().after_undo(s.current_player, s.current_pot(), s.bets_this_round, s.checks_this_round) == s,
{
}

/// Undoing a check or fold gives back the state before it, if nobody had
/// folded.
pub proof fn lemma_undo_checkfold(s: GameStateHelper)
    requires
        !s.checkfold_folds() ==> s.checks_this_round < 255,
        !s.folded,
    ensures
        s.after_checkfold().after_undo(s.current_player, s.current_pot(), s.bets_this_round, s.checks_this_round) == s,
{
}

/// Taking back a dealt card with the bets, player and checks from before the
/// deal gives back the state before it.
pub proof fn lemma_undeal_deal(s: GameStateHelper)
    requires
        s.cards_dealt < 255,
    ensures
        s.after_deal().after_undeal(s.bets_this_round, s.current_player, s.checks_this_round) == s,
{
}

/// Taking back the flop, dealt preflop, gives back the state before it.
pub proof fn lemma_undeal_flop_deal_flop(s: GameStateHelper)
    requires
        s.cards_dealt == 0,
    ensures
        s.after_deal_flop().after_undeal_flop(s.bets_this_round, s.current_player, s.checks_this_round) == s,
{
}

/// The turn passed to the other player.
pub open spec fn with_turn_passed(s: GameStateHelper) -> GameStateHelper {
    GameStateHelper { current_player: s.current_player.spec_opposite(), ..s }
}

/// A player's action (bet, call, call or bet, check or fold) followed by
/// passing the turn is undone exactly by `undo` with the acting player, their
/// pot, the bets and the checks from before it, if nobody had folded and the
/// action fits the byte counters: every field comes back, the cards, the
/// cards dealt and the game abstraction included.
pub proof fn lemma_undo_action_and_turn(s: GameStateHelper)
    requires
        !s.folded,
    ensures
        s.can_bet() ==> with_turn_passed(s.after_bet()).after_undo(s.current_player, s.current_pot(), s.bets_this_round, s.checks_this_round) == s,
        with_turn_passed(s.after_call()).after_undo(s.current_player, s.current_pot(), s.bets_this_round, s.checks_this_round) == s,
        s.can_call_or_bet() ==> with_turn_passed(s.after_call_or_bet()).after_undo(s.current_player, s.current_pot(), s.bets_this_round, s.checks_this_round) == s,
        (!s.checkfold_folds() ==> s.checks_this_round < 255) ==> with_turn_passed(s.after_checkfold()).after_undo(s.current_player, s.current_pot(), s.bets_this_round, s.checks_this_round) == s,
{
}

/// A bet raises the bettor's pot to the other pot plus one big blind before
/// the flop and on it (at most three cards dealt), and plus two big blinds on
/// the turn and the river; the other pot stays and one more bet is counted.
pub proof fn lemma_bet_raises_by_street(s: GameStateHelper)
    requires
        s.can_bet(),
    ensures
        s.after_bet().current_player == s.current_player,
        s.after_bet().current_pot() == s.other_pot() + if s.cards_dealt <= 3 {
            BIG_BLIND_SIZE as int
        } else {
            2 * BIG_BLIND_SIZE
        },
        s.after_bet().other_pot() == s.other_pot(),
        s.after_bet().bets_this_round == s.bets_this_round + 1,
{
}

/// A call leaves both pots equal; a bet leaves the bettor ahead by the raise.
pub proof fn lemma_call_and_bet_pots(s: GameStateHelper)
    ensures
        s.after_call().current_pot() == s.after_call().other_pot(),
        s.can_bet() ==> s.after_bet().current_pot() == s.other_pot() + s.raise_size()
            && s.after_bet().other_pot() == s.other_pot(),
{
}

} // verus!
