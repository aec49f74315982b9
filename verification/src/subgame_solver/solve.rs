use crate::config::BIG_BLIND_SIZE;
use crate::models::card::{
    card_byte, card_from_int, card_int, cards_distinct, lemma_card_byte_roundtrip, lemma_card_int_roundtrip, Card, NineCardDeal, Rank, Suit,
};
use crate::models::combinations::{combinations_of_range, lemma_combinations_from_shape, spec_combinations};
use crate::models::player::Player;
use crate::traversal::action_history::action::Action;
use crate::traversal::action_history::game_abstraction::GameAbstraction;
use crate::traversal::game_state::game_state_helper::GameStateHelper;
use crate::traversal::strategy::strategy_branch::StrategyHubKey;
use vstd::prelude::*;

verus! {

/// A game state rebuilt from a list of actions: the board cards dealt, the
/// pots, whose turn it is and the round's bets and checks. The hole cards are
/// placeholders.
#[derive(Debug, Clone, Copy)]
pub struct GameStateFromActions {
    pub partial_deal: NineCardDeal,
    pub traverser_pot: u8,
    pub opponent_pot: u8,
    pub cards_dealt: u8,
    pub small_blind_player: Player,
    pub big_blind_player: Player,
    pub bets_this_round: u8,
    pub checks_this_round: u8,
    pub current_player: Player,
}

/// The state a replay of actions reaches, with unbounded counters.
pub struct ReplayState {
    pub traverser_pot: int,
    pub opponent_pot: int,
    pub cards_dealt: int,
    pub bets: int,
    pub checks: int,
    pub current: Player,
    pub board: Seq<Card>,
}

/// The state before any action: the blinds posted and the small blind to act.
pub open spec fn replay_start(sb: Player) -> ReplayState {
    ReplayState {
        traverser_pot: if sb == Player::Traverser { 1 } else { 2 },
        opponent_pot: if sb == Player::Opponent { 1 } else { 2 },
        cards_dealt: 0,
        bets: 0,
        checks: 0,
        current: sb,
        board: Seq::empty(),
    }
}

/// One action of a replay: a deal adds a board card and opens a round for the
/// big blind; a bet raises the bettor one big blind above the other pot (two
/// once five cards are out); a call matches the other pot; a check counts
/// while no bet is open and the pots are level. Each action but a deal passes
/// the turn.
pub open spec fn replay_step(s: ReplayState, a: Action, sb: Player) -> ReplayState {
    match a {
        Action::Deal(card) => ReplayState {
            board: s.board.push(card),
            current: sb.spec_opposite(),
            cards_dealt: s.cards_dealt + 1,
            bets: 0,
            checks: 0,
            ..s
        },
        Action::Bet => {
            let raise = BIG_BLIND_SIZE * (if s.cards_dealt < 5 { 1int } else { 2int });
            let t = ReplayState { bets: s.bets + 1, current: s.current.spec_opposite(), ..s };
            if s.current == Player::Traverser {
                ReplayState { traverser_pot: s.opponent_pot + raise, ..t }
            } else {
                ReplayState { opponent_pot: s.traverser_pot + raise, ..t }
            }
        },
        Action::Call => {
            let t = ReplayState { current: s.current.spec_opposite(), ..s };
            if s.current == Player::Traverser {
                ReplayState { traverser_pot: s.opponent_pot, ..t }
            } else {
                ReplayState { opponent_pot: s.traverser_pot, ..t }
            }
        },
        Action::CheckFold => ReplayState {
            checks: if s.bets == 0 && s.traverser_pot == s.opponent_pot { s.checks + 1 } else { s.checks },
            current: s.current.spec_opposite(),
            ..s
        },
    }
}

/// The state after replaying the actions.
pub open spec fn replay(actions: Seq<Action>, sb: Player) -> ReplayState
    decreases actions.len(),
{
    if actions.len() == 0 {
        replay_start(sb)
    } else {
        replay_step(replay(actions.drop_last(), sb), actions.last(), sb)
    }
}

/// Whether a replay state fits the byte counters and the deal.
pub open spec fn replay_state_fits(s: ReplayState) -> bool {
    &&& s.traverser_pot <= 255
    &&& s.opponent_pot <= 255
    &&& s.bets <= 255
    &&& s.checks <= 255
    &&& s.board.len() <= 5
}

/// Whether every prefix of the actions replays within the byte counters and
/// deals at most five board cards.
pub open spec fn replay_fits(actions: Seq<Action>, sb: Player) -> bool
    decreases actions.len(),
{
    replay_state_fits(replay(actions, sb)) && (actions.len() > 0 ==> replay_fits(actions.drop_last(), sb))
}

proof fn lemma_replay_bounds(actions: Seq<Action>, sb: Player)
    ensures
        replay(actions, sb).cards_dealt == replay(actions, sb).board.len(),
        replay(actions, sb).traverser_pot >= 0,
        replay(actions, sb).opponent_pot >= 0,
        replay(actions, sb).bets >= 0,
        replay(actions, sb).checks >= 0,
    decreases actions.len(),
{
    if actions.len() > 0 {
        lemma_replay_bounds(actions.drop_last(), sb);
    }
}

/// The placeholder deal of a replay: the ace of spades and the ace of clubs as
/// second hole cards, the board cards from index 4 on, and twos of spades
/// elsewhere.
pub open spec fn replay_deal(board: Seq<Card>) -> Seq<Card> {
    Seq::new(
        9,
        |i: int|
            if i == 1 {
                Card { rank: Rank::Ace, suit: Suit::Spades }
            } else if i == 3 {
                Card { rank: Rank::Ace, suit: Suit::Clubs }
            } else if 4 <= i < 4 + board.len() {
                board[i - 4]
            } else {
                Card { rank: Rank::Two, suit: Suit::Spades }
            },
    )
}

/// Replays the actions from the start of a hand (see `replay_step`).
pub fn actions_to_state(actions: &[Action], small_blind_player: Player) -> (s: GameStateFromActions)
    requires
        replay_fits(actions@, small_blind_player),
    ensures
        ({
            let r = replay(actions@, small_blind_player);
            &&& s.partial_deal@ == replay_deal(r.board)
            &&& s.traverser_pot == r.traverser_pot
            &&& s.opponent_pot == r.opponent_pot
            &&& s.cards_dealt == r.cards_dealt
            &&& s.small_blind_player == small_blind_player
            &&& s.big_blind_player == small_blind_player.spec_opposite()
            &&& s.bets_this_round == r.bets
            &&& s.checks_this_round == r.checks
            &&& s.current_player == r.current
        }),
{
    let d = Card::default();
    let mut partial_deal: [Card; 9] = [d, d, d, d, d, d, d, d, d];
    partial_deal[1] = Card::new(Suit::Spades, Rank::Ace);
    partial_deal[3] = Card::new(Suit::Clubs, Rank::Ace);
    let mut deal_index: usize = 4;
    let mut cards_dealt: u8 = 0;
    let mut traverser_pot: u8 = match small_blind_player {
        Player::Traverser => 1,
        Player::Opponent => 2,
    };
    let mut opponent_pot: u8 = match small_blind_player {
        Player::Opponent => 1,
        Player::Traverser => 2,
    };
    let mut checks_this_round: u8 = 0;
    let mut bets_this_round: u8 = 0;
    let mut current_player = small_blind_player;
    let ghost sb = small_blind_player;
    assert(partial_deal@ == replay_deal(Seq::empty()));
    let mut i: usize = 0;
    while i < actions.len()
        invariant
            i <= actions@.len(),
            replay_fits(actions@, sb),
            sb == small_blind_player,
            ({
                let r = replay(actions@.take(i as int), sb);
                &&& partial_deal@ == replay_deal(r.board)
                &&& deal_index == 4 + r.board.len()
                &&& traverser_pot == r.traverser_pot
                &&& opponent_pot == r.opponent_pot
                &&& cards_dealt == r.cards_dealt
                &&& bets_this_round == r.bets
                &&& checks_this_round == r.checks
                &&& current_player == r.current
            }),
        decreases actions@.len() - i,
    {
        let ghost prefix = actions@.take(i as int);
        let ghost next = actions@.take(i + 1);
        proof {
            assert(next.drop_last() == prefix);
            assert(next.last() == actions@[i as int]);
            lemma_replay_prefix_fits(actions@, sb, i + 1);
            lemma_replay_bounds(prefix, sb);
            lemma_replay_bounds(next, sb);
        }
        let action = actions[i];
        match action {
            Action::Deal(card) => {
                partial_deal[deal_index] = card;
                current_player = small_blind_player.get_opposite();
                cards_dealt = cards_dealt + 1;
                deal_index = deal_index + 1;
                bets_this_round = 0;
                checks_this_round = 0;
                proof {
                    assert(partial_deal@ =~= replay_deal(replay(next, sb).board));
                }
            },
            Action::Bet => {
                bets_this_round = bets_this_round + 1;
                let multiplier: u8 = if cards_dealt < 5 {
                    1
                } else {
                    2
                };
                match current_player {
                    Player::Traverser => {
                        traverser_pot = opponent_pot + BIG_BLIND_SIZE * multiplier;
                    },
                    Player::Opponent => {
                        opponent_pot = traverser_pot + BIG_BLIND_SIZE * multiplier;
                    },
                }
                current_player = current_player.get_opposite();
            },
            Action::Call => {
                match current_player {
                    Player::Traverser => {
                        traverser_pot = opponent_pot;
                    },
                    Player::Opponent => {
                        opponent_pot = traverser_pot;
                    },
                }
                current_player = current_player.get_opposite();
            },
            Action::CheckFold => {
                if bets_this_round == 0 && traverser_pot == opponent_pot {
                    checks_this_round = checks_this_round + 1;
                }
                current_player = current_player.get_opposite();
            },
        }
        i = i + 1;
    }
    assert(actions@.take(actions@.len() as int) == actions@);
    GameStateFromActions {
        partial_deal,
        traverser_pot,
        opponent_pot,
        cards_dealt,
        small_blind_player,
        big_blind_player: small_blind_player.get_opposite(),
        bets_this_round,
        checks_this_round,
        current_player,
    }
}

proof fn lemma_replay_prefix_fits(actions: Seq<Action>, sb: Player, n: int)
    requires
        replay_fits(actions, sb),
        0 <= n <= actions.len(),
    ensures
        replay_fits(actions.take(n), sb),
        replay_state_fits(replay(actions.take(n), sb)),
    decreases actions.len() - n,
{
    if n == actions.len() {
        assert(actions.take(n) == actions);
    } else {
        lemma_replay_prefix_fits(actions, sb, n + 1);
        let longer = actions.take(n + 1);
        assert(longer.drop_last() == actions.take(n));
        assert(replay_fits(longer.drop_last(), sb));
    }
    let prefix = actions.take(n);
    assert(replay_state_fits(replay(prefix, sb)));
}

/// Whether a list of actions replays within the byte counters and deals at
/// most five board cards (see `replay_fits`).
pub fn check_replay_fits(actions: &[Action], small_blind_player: Player) -> (b: bool)
    ensures
        b == replay_fits(actions@, small_blind_player),
{
    let ghost sb = small_blind_player;
    let mut traverser_pot: u16 = match small_blind_player {
        Player::Traverser => 1,
        Player::Opponent => 2,
    };
    let mut opponent_pot: u16 = match small_blind_player {
        Player::Opponent => 1,
        Player::Traverser => 2,
    };
    let mut cards_dealt: u16 = 0;
    let mut bets: u16 = 0;
    let mut checks: u16 = 0;
    let mut current_player = small_blind_player;
    assert(actions@.take(0) == Seq::<Action>::empty());
    let mut i: usize = 0;
    while i < actions.len()
        invariant
            i <= actions@.len(),
            sb == small_blind_player,
            replay_fits(actions@.take(i as int), sb),
            ({
                let r = replay(actions@.take(i as int), sb);
                &&& traverser_pot == r.traverser_pot
                &&& opponent_pot == r.opponent_pot
                &&& cards_dealt == r.board.len()
                &&& cards_dealt == r.cards_dealt
                &&& bets == r.bets
                &&& checks == r.checks
                &&& current_player == r.current
            }),
        decreases actions@.len() - i,
    {
        let ghost prefix = actions@.take(i as int);
        let ghost next = actions@.take(i + 1);
        proof {
            assert(next.drop_last() == prefix);
            assert(next.last() == actions@[i as int]);
            lemma_replay_bounds(prefix, sb);
        }
        match actions[i] {
            Action::Deal(_) => {
                if cards_dealt == 5 {
                    proof {
                        assert(!replay_state_fits(replay(next, sb)));
                        if replay_fits(actions@, sb) {
                            lemma_replay_prefix_fits(actions@, sb, i + 1);
                        }
                    }
                    return false;
                }
                current_player = small_blind_player.get_opposite();
                cards_dealt = cards_dealt + 1;
                bets = 0;
                checks = 0;
            },
            Action::Bet => {
                let raise: u16 = if cards_dealt < 5 {
                    2
                } else {
                    4
                };
                let new_pot: u16 = match current_player {
                    Player::Traverser => opponent_pot + raise,
                    Player::Opponent => traverser_pot + raise,
                };
                if bets == 255 || new_pot > 255 {
                    proof {
                        assert(!replay_state_fits(replay(next, sb)));
                        if replay_fits(actions@, sb) {
                            lemma_replay_prefix_fits(actions@, sb, i + 1);
                        }
                    }
                    return false;
                }
                bets = bets + 1;
                match current_player {
                    Player::Traverser => {
                        traverser_pot = new_pot;
                    },
                    Player::Opponent => {
                        opponent_pot = new_pot;
                    },
                }
                current_player = current_player.get_opposite();
            },
            Action::Call => {
                match current_player {
                    Player::Traverser => {
                        traverser_pot = opponent_pot;
                    },
                    Player::Opponent => {
                        opponent_pot = traverser_pot;
                    },
                }
                current_player = current_player.get_opposite();
            },
            Action::CheckFold => {
                if bets == 0 && traverser_pot == opponent_pot {
                    if checks == 255 {
                        proof {
                            assert(!replay_state_fits(replay(next, sb)));
                            if replay_fits(actions@, sb) {
                                lemma_replay_prefix_fits(actions@, sb, i + 1);
                            }
                        }
                        return false;
                    }
                    checks = checks + 1;
                }
                current_player = current_player.get_opposite();
            },
        }
        i = i + 1;
        proof {
            assert(replay_state_fits(replay(next, sb)));
            assert(replay_fits(next, sb));
        }
    }
    assert(actions@.take(actions@.len() as int) == actions@);
    true
}

/// The game state a list of actions leads to (see `actions_to_state`), with an
/// empty game abstraction and no winner known.
pub fn convert_actions_to_game_state(actions: &[Action], sb_player: Player) -> (g: GameStateHelper)
    requires
        replay_fits(actions@, sb_player),
    ensures
        ({
            let r = replay(actions@, sb_player);
            &&& g.cards@ == replay_deal(r.board)
            &&& g.traverser_pot == r.traverser_pot
            &&& g.opponent_pot == r.opponent_pot
            &&& g.cards_dealt == r.cards_dealt
            &&& g.current_player == r.current
            &&& g.small_blind_player == sb_player
            &&& g.big_blind_player == sb_player.spec_opposite()
            &&& g.bets_this_round == r.bets
            &&& g.checks_this_round == r.checks
            &&& g.winner is None
            &&& !g.folded
            &&& forall|k: int| 0 <= k < 4 ==> (#[trigger] g.game_abstraction.traverser_round_abstractions@[k])@.len() == 0
            &&& forall|k: int| 0 <= k < 4 ==> (#[trigger] g.game_abstraction.opponent_round_abstractions@[k])@.len() == 0
        }),
{
    let s = actions_to_state(actions, sb_player);
    GameStateHelper {
        game_abstraction: GameAbstraction::default(),
        traverser_pot: s.traverser_pot,
        opponent_pot: s.opponent_pot,
        cards: s.partial_deal,
        cards_dealt: s.cards_dealt,
        current_player: s.current_player,
        small_blind_player: s.small_blind_player,
        big_blind_player: s.big_blind_player,
        bets_this_round: s.bets_this_round,
        winner: None,
        checks_this_round: s.checks_this_round,
        folded: false,
    }
}

/// The cards of the deck, in deck order, from number `n` down to 0 excluded,
/// that are not among `dealt`.
pub open spec fn undealt_below(dealt: Seq<Card>, n: int) -> Seq<Card>
    decreases n,
{
    if n <= 0 {
        Seq::empty()
    } else if dealt.contains(card_from_int(n - 1)) {
        undealt_below(dealt, n - 1)
    } else {
        undealt_below(dealt, n - 1).push(card_from_int(n - 1))
    }
}

/// The cards of the deck that are not among `dealt`, in deck order.
pub fn get_potential_next_cards(dealt: &[Card]) -> (cards: Vec<Card>)
    ensures
        cards@ == undealt_below(dealt@, 52),
{
    let mut cards: Vec<Card> = Vec::new();
    let mut i: u8 = 0;
    while i < 52
        invariant
            i <= 52,
            cards@ == undealt_below(dealt@, i as int),
        decreases 52 - i,
    {
        let card = Card::from_int(i);
        let mut found = false;
        let mut j: usize = 0;
        while j < dealt.len()
            invariant
                j <= dealt@.len(),
                found == exists|k: int| 0 <= k < j && dealt@[k] == card,
            decreases dealt@.len() - j,
        {
            if dealt[j] == card {
                found = true;
            }
            j = j + 1;
        }
        proof {
            if dealt@.contains(card) {
                let k = choose|k: int| 0 <= k < dealt@.len() && dealt@[k] == card;
                assert(found);
            }
        }
        if !found {
            cards.push(card);
        }
        i = i + 1;
    }
    cards
}

/// The cards missing from a deal are different cards, numbered below `n`,
/// and none of them was dealt.
pub proof fn lemma_undealt_below(dealt: Seq<Card>, n: int)
    requires
        0 <= n <= 52,
    ensures
        undealt_below(dealt, n).len() <= n,
        cards_distinct(undealt_below(dealt, n)),
        forall|k: int| 0 <= k < undealt_below(dealt, n).len() ==> card_int(#[trigger] undealt_below(dealt, n)[k]) < n,
        forall|k: int| 0 <= k < undealt_below(dealt, n).len() ==> !dealt.contains(#[trigger] undealt_below(dealt, n)[k]),
    decreases n,
{
    if n > 0 {
        lemma_undealt_below(dealt, n - 1);
        let c = card_from_int(n - 1);
        lemma_card_int_roundtrip(c, n - 1);
        let u = undealt_below(dealt, n - 1);
        if !dealt.contains(c) {
            let v = u.push(c);
            assert forall|k: int| 0 <= k < v.len() implies card_int(#[trigger] v[k]) < n by {
                if k < u.len() {
                    assert(v[k] == u[k]);
                }
            }
            assert forall|i: int, j: int| 0 <= i < j < v.len() implies v[i] != v[j] by {
                if j == u.len() {
                    assert(card_int(u[i]) < n - 1);
                } else {
                    assert(v[i] == u[i] && v[j] == u[j]);
                }
            }
        }
    }
}

/// Two cards as a hole card pair, the one with the lower byte first.
pub open spec fn ordered_pair(a: Card, b: Card) -> (Card, Card) {
    if card_byte(a) <= card_byte(b) {
        (a, b)
    } else {
        (b, a)
    }
}

/// Every two of the cards as an ordered pair, in the order of the two-card
/// combinations of their positions.
pub open spec fn spec_hole_card_pairs(cards: Seq<Card>) -> Seq<(Card, Card)> {
    spec_combinations(cards.len(), 2).map_values(
        |c: Seq<usize>| ordered_pair(cards[c[0] as int], cards[c[1] as int]),
    )
}

/// The hole card pairs that the cards not yet dealt can make: every two of
/// them (see `spec_hole_card_pairs`), each with its lower card first.
pub fn remaining_hole_card_pairs(dealt: &[Card]) -> (pairs: Vec<(Card, Card)>)
    ensures
        pairs@ == spec_hole_card_pairs(undealt_below(dealt@, 52)),
        forall|k: int| 0 <= k < pairs@.len() ==> card_byte((#[trigger] pairs@[k]).0) < card_byte(pairs@[k].1),
        forall|k: int| 0 <= k < pairs@.len() ==> !dealt@.contains((#[trigger] pairs@[k]).0) && !dealt@.contains(pairs@[k].1),
{
    let cards = get_potential_next_cards(dealt);
    proof {
        lemma_undealt_below(dealt@, 52);
    }
    let combos = combinations_of_range(cards.len(), 2);
    proof {
        lemma_combinations_from_shape(0, cards@.len() as int, 2);
    }
    let ghost target = spec_hole_card_pairs(cards@);
    let mut pairs: Vec<(Card, Card)> = Vec::new();
    let mut i: usize = 0;
    while i < combos.len()
        invariant
            i <= combos@.len(),
            combos.deep_view() == spec_combinations(cards@.len(), 2),
            forall|k: int| 0 <= k < combos@.len() ==> (#[trigger] combos.deep_view()[k]).len() == 2
                && combos.deep_view()[k][0] < cards@.len() && combos.deep_view()[k][1] < cards@.len()
                && combos.deep_view()[k][0] < combos.deep_view()[k][1],
            target == spec_hole_card_pairs(cards@),
            pairs@ == target.take(i as int),
            forall|k: int| 0 <= k < pairs@.len() ==> card_byte((#[trigger] pairs@[k]).0) < card_byte(pairs@[k].1),
            cards@ == undealt_below(dealt@, 52),
            cards_distinct(cards@),
            forall|k: int| 0 <= k < cards@.len() ==> !dealt@.contains(#[trigger] cards@[k]),
            forall|k: int| 0 <= k < pairs@.len() ==> !dealt@.contains((#[trigger] pairs@[k]).0) && !dealt@.contains(pairs@[k].1),
        decreases combos@.len() - i,
    {
        let c = &combos[i];
        assert(c@ == combos.deep_view()[i as int]);
        let a = cards[c[0]];
        let b = cards[c[1]];
        proof {
            assert(c@[0] < c@[1]);
            assert(a != b);
            lemma_card_byte_roundtrip(a);
            lemma_card_byte_roundtrip(b);
            assert(card_byte(a) != card_byte(b));
        }
        let pair = if a.serialise() <= b.serialise() {
            (a, b)
        } else {
            (b, a)
        };
        pairs.push(pair);
        i = i + 1;
        assert(pairs@ =~= target.take(i as int));
    }
    assert(target.take(combos@.len() as int) =~= target);
    pairs
}

/// Whether two hole card pairs share a card.
pub fn hole_cards_conflict(first: &(Card, Card), second: &(Card, Card)) -> (b: bool)
    ensures
        b == (first.0 == second.0 || first.0 == second.1 || first.1 == second.0 || first.1 == second.1),
{
    first.0 == second.0 || first.0 == second.1 || first.1 == second.0 || first.1 == second.1
}

/// The traverser's chips against one opponent hand at showdown: the pot when
/// the traverser's hand ranks higher, minus it when lower, 0 when equal.
pub fn showdown_utility(player_pot: u8, traverser_rank: u16, opponent_rank: u16) -> (u: i16)
    ensures
        u == if traverser_rank < opponent_rank {
            -(player_pot as int)
        } else if traverser_rank == opponent_rank {
            0
        } else {
            player_pot as int
        },
{
    if traverser_rank < opponent_rank {
        -(player_pot as i16)
    } else if traverser_rank == opponent_rank {
        0
    } else {
        player_pot as i16
    }
}

/// Which entry of a strategy gives the probability of an action taken: 0 for
/// a check or fold, 1 for a call, and for a bet the last available action,
/// at most 2. A deal has none.
pub fn strategy_action_index(action: Action, num_available_actions: usize) -> (i: Option<usize>)
    requires
        num_available_actions >= 1,
    ensures
        i == match action {
            Action::CheckFold => Some(0usize),
            Action::Call => Some(1usize),
            Action::Bet => Some(if num_available_actions - 1 < 2 { (num_available_actions - 1) as usize } else { 2usize }),
            Action::Deal(_) => None,
        },
{
    match action {
        Action::CheckFold => Some(0),
        Action::Call => Some(1),
        Action::Bet => {
            let last = num_available_actions - 1;
            Some(if last < 2 { last } else { 2 })
        },
        Action::Deal(_) => None,
    }
}

/// The strategy key of hole cards: their ranks in the order given, whether
/// they share a suit, and the blind.
pub fn get_strategy_hub_key(hole_cards: &(Card, Card), is_sb: bool) -> (k: StrategyHubKey)
    ensures
        k == (StrategyHubKey {
            low_rank: hole_cards.0.rank,
            high_rank: hole_cards.1.rank,
            is_suited: hole_cards.0.suit == hole_cards.1.suit,
            is_sb,
        }),
{
    StrategyHubKey {
        low_rank: hole_cards.0.rank,
        high_rank: hole_cards.1.rank,
        is_suited: hole_cards.0.suit == hole_cards.1.suit,
        is_sb,
    }
}

/// The cards dealt in a list of actions, in order.
pub open spec fn deals_of(actions: Seq<Action>) -> Seq<Card>
    decreases actions.len(),
{
    if actions.len() == 0 {
        Seq::empty()
    } else {
        match actions.last() {
            Action::Deal(c) => deals_of(actions.drop_last()).push(c),
            _ => deals_of(actions.drop_last()),
        }
    }
}

/// The cards dealt in a list of actions (see `deals_of`).
pub fn dealt_board_cards(actions: &[Action]) -> (cards: Vec<Card>)
    ensures
        cards@ == deals_of(actions@),
{
    let mut cards: Vec<Card> = Vec::new();
    let mut i: usize = 0;
    while i < actions.len()
        invariant
            i <= actions@.len(),
            cards@ == deals_of(actions@.take(i as int)),
        decreases actions@.len() - i,
    {
        proof {
            assert(actions@.take(i + 1).drop_last() == actions@.take(i as int));
        }
        match actions[i] {
            Action::Deal(card) => cards.push(card),
            _ => {},
        }
        i = i + 1;
    }
    assert(actions@.take(actions@.len() as int) == actions@);
    cards
}

/// A path of the game tree: its abstraction, the winner at showdown, the key
/// of its strategy and how often it was met.
#[derive(Debug, Clone)]
pub struct GameTreePath {
    pub abstraction: GameAbstraction,
    pub evaluation: Option<Player>,
    pub strategy_hub_key: StrategyHubKey,
    pub weight: usize,
}

/// The byte of a showdown result: 0 for a split, 1 when the traverser wins,
/// 2 when the opponent does.
pub open spec fn evaluation_byte(e: Option<Player>) -> u8 {
    match e {
        None => 0,
        Some(Player::Traverser) => 1,
        Some(Player::Opponent) => 2,
    }
}

/// A copy of a list of bytes.
fn copy_bytes(src: &Vec<u8>) -> (dst: Vec<u8>)
    ensures
        dst@ == src@,
{
    let mut dst: Vec<u8> = Vec::new();
    let mut i: usize = 0;
    while i < src.len()
        invariant
            i <= src@.len(),
            dst@ == src@.take(i as int),
        decreases src@.len() - i,
    {
        dst.push(src[i]);
        i = i + 1;
        assert(dst@ == src@.take(i as int));
    }
    assert(src@.take(src@.len() as int) == src@);
    dst
}

impl GameTreePath {
    /// The key of the path: its strategy key, its result's byte, and copies of
    /// both players' round abstractions.
    pub fn get_game_path_key(&self) -> (k: (StrategyHubKey, u8, [Vec<u8>; 4], [Vec<u8>; 4]))
        ensures
            k.0 == self.strategy_hub_key,
            k.1 == evaluation_byte(self.evaluation),
            forall|r: int| 0 <= r < 4 ==> (#[trigger] k.2@[r])@ == self.abstraction.traverser_round_abstractions@[r]@,
            forall|r: int| 0 <= r < 4 ==> (#[trigger] k.3@[r])@ == self.abstraction.opponent_round_abstractions@[r]@,
    {
        let t = &self.abstraction.traverser_round_abstractions;
        let o = &self.abstraction.opponent_round_abstractions;
        let traverser = [copy_bytes(&t[0]), copy_bytes(&t[1]), copy_bytes(&t[2]), copy_bytes(&t[3])];
        let opponent = [copy_bytes(&o[0]), copy_bytes(&o[1]), copy_bytes(&o[2]), copy_bytes(&o[3])];
        let evaluation: u8 = match self.evaluation {
            None => 0,
            Some(Player::Traverser) => 1,
            Some(Player::Opponent) => 2,
        };
        let k = (self.strategy_hub_key, evaluation, traverser, opponent);
        assert forall|r: int| 0 <= r < 4 implies (#[trigger] k.2@[r])@ == self.abstraction.traverser_round_abstractions@[r]@ by {
            if r == 0 {} else if r == 1 {} else if r == 2 {} else {}
        }
        assert forall|r: int| 0 <= r < 4 implies (#[trigger] k.3@[r])@ == self.abstraction.opponent_round_abstractions@[r]@ by {
            if r == 0 {} else if r == 1 {} else if r == 2 {} else {}
        }
        k
    }
}

} // verus!
