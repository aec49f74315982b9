use rust_poker::models::card::{Card, Rank, Suit};
use rust_poker::models::player::Player;
use rust_poker::subgame_solver::solve::{
    actions_to_state, check_replay_fits, convert_actions_to_game_state, dealt_board_cards,
    get_potential_next_cards, get_strategy_hub_key, hole_cards_conflict, remaining_hole_card_pairs,
    showdown_utility, strategy_action_index, GameTreePath,
};
use rust_poker::traversal::action_history::action::Action;
use rust_poker::traversal::action_history::game_abstraction::GameAbstraction;
use rust_poker::traversal::game_state::game_state_helper::{
    apply_chosen_action, check_chosen_action_fits, GameStateHelper,
};
use rust_poker::traversal::strategy::strategy_branch::StrategyHubKey;

fn c(suit: Suit, rank: Rank) -> Card {
    Card::new(suit, rank)
}

fn four_aces_history() -> Vec<Action> {
    vec![
        Action::Bet,
        Action::Bet,
        Action::Bet,
        Action::Bet,
        Action::Call,
        Action::Deal(c(Suit::Clubs, Rank::Ace)),
        Action::Deal(c(Suit::Spades, Rank::Ace)),
        Action::Deal(c(Suit::Hearts, Rank::Ace)),
        Action::CheckFold,
        Action::Bet,
        Action::Call,
        Action::Deal(c(Suit::Diamonds, Rank::Ace)),
        Action::CheckFold,
        Action::Bet,
        Action::Call,
    ]
}

fn sample_deal() -> [Card; 9] {
    [
        c(Suit::Spades, Rank::Two),
        c(Suit::Hearts, Rank::Seven),
        c(Suit::Clubs, Rank::King),
        c(Suit::Diamonds, Rank::King),
        c(Suit::Spades, Rank::Nine),
        c(Suit::Hearts, Rank::Ten),
        c(Suit::Clubs, Rank::Three),
        c(Suit::Diamonds, Rank::Four),
        c(Suit::Spades, Rank::Jack),
    ]
}

#[test]
fn actions_to_state_replays_a_hand() {
    let history = four_aces_history();
    assert!(check_replay_fits(&history, Player::Opponent));
    let s = actions_to_state(&history, Player::Opponent);
    assert_eq!(s.traverser_pot, 14);
    assert_eq!(s.opponent_pot, 14);
    assert_eq!(s.cards_dealt, 4);
    assert_eq!(s.bets_this_round, 1);
    assert_eq!(s.checks_this_round, 1);
    assert_eq!(s.current_player, Player::Opponent);
    assert_eq!(s.small_blind_player, Player::Opponent);
    assert_eq!(s.big_blind_player, Player::Traverser);
    let two = c(Suit::Spades, Rank::Two);
    let expected = [
        two,
        c(Suit::Spades, Rank::Ace),
        two,
        c(Suit::Clubs, Rank::Ace),
        c(Suit::Clubs, Rank::Ace),
        c(Suit::Spades, Rank::Ace),
        c(Suit::Hearts, Rank::Ace),
        c(Suit::Diamonds, Rank::Ace),
        two,
    ];
    assert_eq!(s.partial_deal, expected);
}

#[test]
fn actions_to_state_starts_with_the_blinds() {
    let s = actions_to_state(&[], Player::Traverser);
    assert_eq!(s.traverser_pot, 1);
    assert_eq!(s.opponent_pot, 2);
    assert_eq!(s.current_player, Player::Traverser);
    assert_eq!(s.cards_dealt, 0);
    let s = actions_to_state(&[Action::Call, Action::CheckFold], Player::Traverser);
    assert_eq!(s.traverser_pot, 2);
    assert_eq!(s.opponent_pot, 2);
    assert_eq!(s.checks_this_round, 1);
    assert_eq!(s.current_player, Player::Traverser);
}

#[test]
fn river_bets_raise_by_two_big_blinds() {
    let mut history = vec![Action::Call, Action::CheckFold];
    for card in [
        c(Suit::Clubs, Rank::Two),
        c(Suit::Clubs, Rank::Three),
        c(Suit::Clubs, Rank::Four),
        c(Suit::Clubs, Rank::Five),
        c(Suit::Clubs, Rank::Six),
    ] {
        history.push(Action::Deal(card));
    }
    history.push(Action::Bet);
    let s = actions_to_state(&history, Player::Opponent);
    assert_eq!(s.current_player, Player::Opponent);
    assert_eq!(s.traverser_pot, 6);
    assert_eq!(s.opponent_pot, 2);
}

#[test]
fn replay_check_refuses_overflow_and_sixth_card() {
    let too_many_bets = vec![Action::Bet; 200];
    assert!(!check_replay_fits(&too_many_bets, Player::Traverser));
    let six_cards = vec![Action::Deal(c(Suit::Clubs, Rank::Two)); 6];
    assert!(!check_replay_fits(&six_cards, Player::Traverser));
    let five_cards = vec![Action::Deal(c(Suit::Clubs, Rank::Two)); 5];
    assert!(check_replay_fits(&five_cards, Player::Traverser));
}

#[test]
fn converted_game_state_has_no_abstraction_or_winner() {
    let history = four_aces_history();
    let g = convert_actions_to_game_state(&history, Player::Opponent);
    assert_eq!(g.traverser_pot, 14);
    assert_eq!(g.opponent_pot, 14);
    assert_eq!(g.cards_dealt, 4);
    assert_eq!(g.current_player, Player::Opponent);
    assert_eq!(g.bets_this_round, 1);
    assert_eq!(g.checks_this_round, 1);
    assert!(g.winner.is_none());
    assert!(!g.folded);
    for r in 0..4 {
        assert!(g.game_abstraction.traverser_round_abstractions[r].is_empty());
        assert!(g.game_abstraction.opponent_round_abstractions[r].is_empty());
    }
}

#[test]
fn potential_next_cards_skip_dealt_cards() {
    let all = get_potential_next_cards(&[]);
    assert_eq!(all.len(), 52);
    for i in 0..52u8 {
        assert_eq!(all[i as usize], Card::from_int(i));
    }
    let dealt = [c(Suit::Spades, Rank::Two), c(Suit::Clubs, Rank::Ace)];
    let rest = get_potential_next_cards(&dealt);
    assert_eq!(rest.len(), 50);
    assert!(!rest.contains(&dealt[0]));
    assert!(!rest.contains(&dealt[1]));
    assert_eq!(rest[0], Card::from_int(1));
}

#[test]
fn hole_card_pairs_of_the_remaining_deck() {
    let pairs = remaining_hole_card_pairs(&[]);
    assert_eq!(pairs.len(), 1326);
    assert_eq!(pairs[0], (c(Suit::Spades, Rank::Two), c(Suit::Spades, Rank::Three)));
    for (a, b) in pairs.iter() {
        assert!(a.serialise() < b.serialise());
    }
    // Two of spades (byte 0) against two of hearts (byte 1): the spade comes first.
    assert!(pairs.contains(&(c(Suit::Spades, Rank::Two), c(Suit::Hearts, Rank::Two))));
    // The king of spades comes before the two of hearts in the deck, but after it by byte.
    assert!(pairs.contains(&(c(Suit::Hearts, Rank::Two), c(Suit::Spades, Rank::King))));
    let board = [
        c(Suit::Clubs, Rank::Ace),
        c(Suit::Spades, Rank::Ace),
        c(Suit::Hearts, Rank::Ace),
        c(Suit::Diamonds, Rank::Ace),
        c(Suit::Clubs, Rank::Queen),
    ];
    let pairs = remaining_hole_card_pairs(&board);
    assert_eq!(pairs.len(), 47 * 46 / 2);
    for (a, b) in pairs.iter() {
        assert!(!board.contains(a) && !board.contains(b));
    }
}

#[test]
fn hole_cards_conflict_on_a_shared_card() {
    let a = (c(Suit::Spades, Rank::Two), c(Suit::Hearts, Rank::Ace));
    let b = (c(Suit::Hearts, Rank::Ace), c(Suit::Clubs, Rank::King));
    let d = (c(Suit::Clubs, Rank::Two), c(Suit::Clubs, Rank::King));
    assert!(hole_cards_conflict(&a, &b));
    assert!(hole_cards_conflict(&b, &d));
    assert!(!hole_cards_conflict(&a, &d));
}

#[test]
fn showdown_utility_follows_the_ranks() {
    assert_eq!(showdown_utility(7, 100, 200), -7);
    assert_eq!(showdown_utility(7, 200, 100), 7);
    assert_eq!(showdown_utility(7, 150, 150), 0);
    assert_eq!(showdown_utility(255, 0, 1), -255);
}

#[test]
fn strategy_index_of_each_action() {
    assert_eq!(strategy_action_index(Action::CheckFold, 3), Some(0));
    assert_eq!(strategy_action_index(Action::Call, 2), Some(1));
    assert_eq!(strategy_action_index(Action::Bet, 3), Some(2));
    assert_eq!(strategy_action_index(Action::Bet, 2), Some(1));
    assert_eq!(strategy_action_index(Action::Deal(c(Suit::Clubs, Rank::Two)), 3), None);
}

#[test]
fn chosen_actions_are_undone() {
    let start = GameStateHelper::new(sample_deal(), Player::Traverser);
    for index in 0..3usize {
        let mut g = start.clone();
        assert!(check_chosen_action_fits(&g, index));
        let acting = g.current_player;
        let pot = g.get_current_player_pot();
        let bets = g.bets_this_round;
        let checks = g.checks_this_round;
        let action = apply_chosen_action(&mut g, index);
        assert_eq!(g.current_player, Player::Opponent);
        g.undo(acting, pot, bets, checks);
        assert_eq!(g.traverser_pot, start.traverser_pot);
        assert_eq!(g.opponent_pot, start.opponent_pot);
        assert_eq!(g.bets_this_round, start.bets_this_round);
        assert_eq!(g.checks_this_round, start.checks_this_round);
        assert_eq!(g.current_player, start.current_player);
        assert_eq!(g.folded, start.folded);
        match index {
            0 => assert_eq!(action, Action::CheckFold),
            // The small blind's first call or bet is a call.
            1 => assert_eq!(action, Action::Call),
            _ => assert_eq!(action, Action::Bet),
        }
    }
}

#[test]
fn chosen_bet_raises_the_pot() {
    let mut g = GameStateHelper::new(sample_deal(), Player::Traverser);
    assert_eq!(apply_chosen_action(&mut g, 2), Action::Bet);
    assert_eq!(g.traverser_pot, 4);
    assert_eq!(g.bets_this_round, 1);
    // The opponent answers a bet: index 1 calls.
    assert_eq!(apply_chosen_action(&mut g, 1), Action::Call);
    assert_eq!(g.opponent_pot, 4);
    assert_eq!(g.current_player, Player::Traverser);
}

#[test]
fn chosen_action_check_refuses_a_full_counter() {
    let mut g = GameStateHelper::new(sample_deal(), Player::Traverser);
    g.bets_this_round = 255;
    g.traverser_pot = 2;
    g.opponent_pot = 4;
    assert!(!check_chosen_action_fits(&g, 2));
    assert!(check_chosen_action_fits(&g, 1));
    g.bets_this_round = 1;
    g.opponent_pot = 254;
    assert!(!check_chosen_action_fits(&g, 2));
}

#[test]
fn strategy_hub_key_of_hole_cards() {
    let k = get_strategy_hub_key(&(c(Suit::Hearts, Rank::Ten), c(Suit::Hearts, Rank::Jack)), true);
    assert_eq!(
        k,
        StrategyHubKey { low_rank: Rank::Ten, high_rank: Rank::Jack, is_suited: true, is_sb: true }
    );
    let k = get_strategy_hub_key(&(c(Suit::Hearts, Rank::Ten), c(Suit::Clubs, Rank::Jack)), false);
    assert!(!k.is_suited);
    assert!(!k.is_sb);
}

#[test]
fn dealt_board_cards_in_order() {
    let cards = dealt_board_cards(&four_aces_history());
    assert_eq!(
        cards,
        vec![
            c(Suit::Clubs, Rank::Ace),
            c(Suit::Spades, Rank::Ace),
            c(Suit::Hearts, Rank::Ace),
            c(Suit::Diamonds, Rank::Ace)
        ]
    );
    assert!(dealt_board_cards(&[Action::Bet, Action::Call]).is_empty());
}

#[test]
fn game_path_key_copies_the_abstraction() {
    let mut abstraction = GameAbstraction::default();
    abstraction.traverser_round_abstractions[1] = vec![1, 2, 3];
    abstraction.opponent_round_abstractions[3] = vec![9];
    let key = StrategyHubKey { low_rank: Rank::Two, high_rank: Rank::Seven, is_suited: false, is_sb: true };
    let path = GameTreePath { abstraction, evaluation: Some(Player::Opponent), strategy_hub_key: key, weight: 3 };
    let (k, evaluation, traverser, opponent) = path.get_game_path_key();
    assert_eq!(k, key);
    assert_eq!(evaluation, 2);
    assert_eq!(traverser[1], vec![1, 2, 3]);
    assert!(traverser[0].is_empty());
    assert_eq!(opponent[3], vec![9]);
    let split = GameTreePath { evaluation: None, ..path.clone() };
    assert_eq!(split.get_game_path_key().1, 0);
    let won = GameTreePath { evaluation: Some(Player::Traverser), ..path };
    assert_eq!(won.get_game_path_key().1, 1);
}

#[test]
fn round_state_known_unless_ahead_without_a_fold() {
    let mut g = GameStateHelper::new(sample_deal(), Player::Traverser);
    assert!(g.round_state_known());
    g.traverser_pot = 6;
    g.opponent_pot = 4;
    assert!(!g.round_state_known());
    g.folded = true;
    assert!(g.round_state_known());
    g.folded = false;
    g.checks_this_round = 2;
    assert!(g.round_state_known());
}

#[test]
fn each_action_then_turn_is_undone() {
    let start = GameStateHelper::new(sample_deal(), Player::Opponent);
    for action in 0..4 {
        let mut g = start.clone();
        let p = g.current_player;
        let pot = g.get_current_player_pot();
        let (b, c) = (g.bets_this_round, g.checks_this_round);
        match action {
            0 => {
                g.bet();
            }
            1 => {
                g.call();
            }
            2 => {
                g.call_or_bet();
            }
            _ => g.checkfold(),
        }
        g.switch_current_player();
        g.undo(p, pot, b, c);
        assert_eq!(g.traverser_pot, start.traverser_pot);
        assert_eq!(g.opponent_pot, start.opponent_pot);
        assert_eq!(g.bets_this_round, start.bets_this_round);
        assert_eq!(g.checks_this_round, start.checks_this_round);
        assert_eq!(g.current_player, start.current_player);
        assert_eq!(g.folded, start.folded);
        assert_eq!(g.cards, start.cards);
        assert_eq!(g.cards_dealt, start.cards_dealt);
    }
}
