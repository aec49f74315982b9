use rust_poker::evaluate::evaluate_hand::{id_mask_to_string, prime_product_to_rank_string, HandEvaluatorLookup};
use rust_poker::models::card::{
    all_distinct, all_pocket_pairs, cards_string, deal_string, new_random_nine_card_game, Card, Rank,
    Suit,
};
use rust_poker::models::deal::Deal;
use rust_poker::models::deck::Deck;
use rust_poker::models::player::Player;
use rust_poker::text::u8_to_string;
use rust_poker::traversal::action_history::action::Action;
use rust_poker::traversal::action_history::action_history::{validate_history, HistoryError};
use rust_poker::traversal::action_history::board_abstraction::BoardAbstraction;
use rust_poker::traversal::action_history::card_round_abstraction::CardRoundAbstraction;
use rust_poker::traversal::action_history::game_abstraction::{
    convert_deal_into_abstraction, get_current_abstraction, to_string_game_abstraction, GameAbstraction,
};
use rust_poker::traversal::game_state::game_state_helper::GameStateHelper;
use rust_poker::traversal::game_state::terminal_state::TerminalState;
use rust_poker::traversal::main_train::get_all_combos_by_blind;
use rust_poker::traversal::strategy::strategy_branch::StrategyHubKey;
use rust_poker::validation::generate_preflop_abstractions;

fn c(suit: Suit, rank: Rank) -> Card {
    Card::new(suit, rank)
}

fn d(suit: Suit, rank: Rank) -> Action {
    Action::Deal(Card::new(suit, rank))
}

fn fixed_deal() -> [Card; 9] {
    [
        c(Suit::Spades, Rank::Two),
        c(Suit::Hearts, Rank::Three),
        c(Suit::Diamonds, Rank::Four),
        c(Suit::Clubs, Rank::Five),
        c(Suit::Spades, Rank::Six),
        c(Suit::Hearts, Rank::Seven),
        c(Suit::Diamonds, Rank::Eight),
        c(Suit::Clubs, Rank::Nine),
        c(Suit::Spades, Rank::Ten),
    ]
}

#[test]
fn card_and_deal_text() {
    assert_eq!(c(Suit::Spades, Rank::Ten).to_display_string(), "Ts");
    assert_eq!(cards_string(&[c(Suit::Spades, Rank::Two), c(Suit::Hearts, Rank::Three)]), "2s 3h");
    assert_eq!(cards_string(&[]), "");
    assert_eq!(
        deal_string(&fixed_deal()),
        "P1 [2s, 3h] P2 [4d, 5c] Board [6s, 7h, 8d, 9c, Ts]"
    );
}

#[test]
fn byte_text() {
    assert_eq!(u8_to_string(0), "0");
    assert_eq!(u8_to_string(42), "42");
    assert_eq!(u8_to_string(255), "255");
}

#[test]
fn mask_and_product_text() {
    assert_eq!(id_mask_to_string(0b11111 << 12), "23456S");
    assert_eq!(id_mask_to_string(0b1_0000_0000_0001 << 12), "2AS");
    assert_eq!(prime_product_to_rank_string(2 * 3 * 5 * 7 * 11), "2 3 4 5 6 ");
    assert_eq!(prime_product_to_rank_string(41 * 41 * 2), "2 A A ");
    assert_eq!(prime_product_to_rank_string(1), "");
}

#[test]
fn deck_in_deck_number_order() {
    let deck = Deck::new();
    assert_eq!(deck.cards.len(), 52);
    assert_eq!(deck.cards[0], c(Suit::Spades, Rank::Two));
    assert_eq!(deck.cards[13], c(Suit::Hearts, Rank::Two));
    assert_eq!(deck.cards[51], c(Suit::Clubs, Rank::Ace));
    for (i, card) in deck.cards.iter().enumerate() {
        assert_eq!(card.to_int() as usize, i);
    }
}

#[test]
fn shuffled_deck_is_a_permutation() {
    let mut shuffled = Card::shuffle_deck().to_vec();
    assert_ne!(shuffled, Deck::new().cards);
    shuffled.sort_by_key(|card| card.to_int());
    assert_eq!(shuffled, Deck::new().cards);
}

#[test]
fn pre_flop_deal_has_four_cards() {
    let deal = Deal::new_pre_flop();
    let cards = [deal.traverser.0, deal.traverser.1, deal.opponent.0, deal.opponent.1];
    assert!(all_distinct(&cards));
    assert!(deal.community.is_empty());
}

#[test]
fn distinctness_check() {
    assert!(all_distinct(&fixed_deal()));
    let mut deal = fixed_deal();
    deal[8] = deal[0];
    assert!(!all_distinct(&deal));
    assert!(all_distinct(&new_random_nine_card_game()));
}

#[test]
fn random_suits_are_suits() {
    for _ in 0..100 {
        let suit = Suit::random();
        assert!(suit.to_int() < 4);
    }
}

#[test]
fn pocket_pairs_and_blind_keys() {
    let pairs = all_pocket_pairs();
    assert_eq!(pairs.len(), 13);
    assert_eq!(pairs[12], (Rank::Ace, Rank::Ace));
    let keys = get_all_combos_by_blind(true);
    assert_eq!(keys.len(), 169);
    assert_eq!(
        keys[0],
        StrategyHubKey { low_rank: Rank::Two, high_rank: Rank::Three, is_suited: true, is_sb: true }
    );
    assert!(!keys[78].is_suited);
    assert_eq!(keys[168].low_rank, Rank::Ace);
    assert_eq!(keys[168].high_rank, Rank::Ace);
    assert_eq!(keys[0].to_display_string(), "23sSB");
}

#[test]
fn preflop_abstractions_of_offsuit_hands() {
    let abstractions = generate_preflop_abstractions();
    assert_eq!(abstractions.len(), 91);
    assert_eq!(
        abstractions[0].0,
        StrategyHubKey { low_rank: Rank::Two, high_rank: Rank::Three, is_suited: false, is_sb: true }
    );
    assert_eq!(abstractions[0].1, vec![0, 2, 1, 0, 0, 0, 0, 0, 0]);
}

#[test]
fn key_and_its_text() {
    let key = get_current_abstraction(
        &(c(Suit::Hearts, Rank::Ten), c(Suit::Hearts, Rank::Jack)),
        &[c(Suit::Clubs, Rank::Nine), c(Suit::Diamonds, Rank::Eight), c(Suit::Spades, Rank::Seven)],
        1,
        4,
        0,
    );
    assert_eq!(key, vec![1, 4, 0, 3, 0, 0, 0, 170, 0]);
    let text = to_string_game_abstraction(Rank::Ten, Rank::Jack, true, false, &key);
    assert_eq!(
        text,
        "TJsBB F p-bet: 4 r-bets: 0 Board Consecutive: 3, Suits: 0, Hand type: None Connected Cards: None Straight: Q-high straight, 5 cards, gutshot: false Flush: None"
    );
}

#[test]
fn round_abstraction_reads_back() {
    let hole = [c(Suit::Hearts, Rank::Ten), c(Suit::Hearts, Rank::Jack)];
    let board = [c(Suit::Clubs, Rank::Nine), c(Suit::Diamonds, Rank::Eight), c(Suit::Spades, Rank::Seven)];
    let round = CardRoundAbstraction::new(&hole, &board);
    let bytes = round.serialise();
    assert_eq!(bytes.len(), 6);
    assert_eq!(CardRoundAbstraction::deserialise(&bytes), round);
}

#[test]
fn board_abstraction_text() {
    let cards = vec![
        c(Suit::Hearts, Rank::Two),
        c(Suit::Diamonds, Rank::Two),
        c(Suit::Clubs, Rank::Three),
        c(Suit::Spades, Rank::Four),
        c(Suit::Hearts, Rank::Five),
    ];
    let board = BoardAbstraction::new(&cards);
    assert_eq!(board.to_display_string(), "Consecutive: 4, Suits: 0, Hand type: Pair(Two)");
    assert_eq!(board.serialise(), vec![4, 0, 1]);
}

#[test]
fn game_abstraction_replaces_round() {
    let game = convert_deal_into_abstraction(fixed_deal());
    let mut key = game.get_abstraction(0, 1, 0, &Player::Traverser);
    assert_eq!(key.len(), 9);
    assert!(game.replace_round_abstraction(&mut key, 0, &Player::Traverser));
    let changed = game.replace_round_abstraction(&mut key, 3, &Player::Traverser);
    assert_eq!(key[..3], [0, 1, 0]);
    assert_eq!(key[3..], game.traverser_round_abstractions[3][..]);
    assert_eq!(changed, game.traverser_round_abstractions[0] == game.traverser_round_abstractions[3]);
    let empty = GameAbstraction::default();
    assert!(empty.opponent_round_abstractions[2].is_empty());
    let from_round = GameAbstraction::get_abstraction_from_round(2, 6, 1, vec![9, 9]);
    assert_eq!(from_round, vec![2, 6, 1, 9, 9]);
}

#[test]
fn game_state_preflop_actions_and_undo() {
    let mut state = GameStateHelper::new(fixed_deal(), Player::Traverser);
    assert_eq!(state.traverser_pot, 1);
    assert_eq!(state.opponent_pot, 2);
    assert_eq!(state.get_num_available_actions(), 3);
    assert_eq!(state.check_round_terminal(), TerminalState::NotTerminal);
    let before = state.clone();
    assert_eq!(state.call_or_bet(), Action::Call);
    assert_eq!(state.traverser_pot, 2);
    assert_eq!(state.checks_this_round, 1);
    state.undo(Player::Traverser, 1, 0, 0);
    assert_eq!(state.traverser_pot, before.traverser_pot);
    assert_eq!(state.checks_this_round, before.checks_this_round);
    assert_eq!(state.bet(), Action::Bet);
    assert_eq!(state.traverser_pot, 4);
    assert_eq!(state.bets_this_round, 1);
    state.undo(Player::Traverser, 1, 0, 0);
    assert_eq!(state.traverser_pot, 1);
    assert_eq!(state.bets_this_round, 0);
    state.call_or_bet();
    state.switch_current_player();
    assert_eq!(state.get_current_player(), Player::Opponent);
    assert_eq!(state.check_round_terminal(), TerminalState::NotTerminal);
    state.checkfold();
    assert_eq!(state.checks_this_round, 2);
    assert_eq!(state.check_round_terminal(), TerminalState::RoundOver);
    state.deal_flop();
    assert!(state.is_flop());
    assert_eq!(state.get_current_player(), Player::Opponent);
    assert_eq!(state.get_flop(), [fixed_deal()[4], fixed_deal()[5], fixed_deal()[6]]);
    let key = state.serialise_history_with_current_player();
    assert_eq!(key[0], 1);
    assert_eq!(key[1], 2);
    state.deal();
    assert!(state.is_turn());
    state.undeal(0, Player::Opponent, 0);
    assert!(state.is_flop());
    state.undeal_flop(0, Player::Opponent, 2);
    assert!(state.is_preflop());
}

#[test]
fn game_state_fold_and_showdown_payoffs() {
    let mut state = GameStateHelper::new(fixed_deal(), Player::Traverser);
    state.checkfold();
    assert!(state.folded);
    state.switch_current_player();
    assert_eq!(state.check_round_terminal(), TerminalState::Fold);
    assert_eq!(state.fold_payoff(), -1);
    let evaluator = HandEvaluatorLookup::new();
    let split = [
        c(Suit::Spades, Rank::Jack),
        c(Suit::Clubs, Rank::Jack),
        c(Suit::Spades, Rank::King),
        c(Suit::Clubs, Rank::King),
        c(Suit::Hearts, Rank::Two),
        c(Suit::Diamonds, Rank::Three),
        c(Suit::Hearts, Rank::Four),
        c(Suit::Diamonds, Rank::Five),
        c(Suit::Hearts, Rank::Six),
    ];
    let mut showdown = GameStateHelper::new(split, Player::Opponent);
    assert_eq!(showdown.showdown_payoff(&evaluator), 0);
    assert_eq!(showdown.winner, Some(None));
    let mut won = GameStateHelper::new(fixed_deal(), Player::Opponent);
    let payoff = won.showdown_payoff(&evaluator);
    assert!(payoff == 1 || payoff == -2 || payoff == 0);
}

#[test]
fn game_state_text() {
    let state = GameStateHelper::new(fixed_deal(), Player::Traverser);
    assert_eq!(
        state.to_display_string(),
        "Current state: Player Cards: 2s 3h Cards dealt:  Current player: Tra\nTraverser pot: 1 Opponent pot: 2 Bets this round: 0 Checks this round: 0"
    );
}

#[test]
fn history_validation() {
    let flop = vec![
        d(Suit::Spades, Rank::Two),
        d(Suit::Hearts, Rank::Three),
        Action::Call,
        Action::Bet,
        Action::Bet,
        Action::Bet,
        Action::Bet,
        Action::Call,
        d(Suit::Clubs, Rank::Four),
        d(Suit::Diamonds, Rank::Five),
        d(Suit::Spades, Rank::Six),
    ];
    assert_eq!(validate_history(&flop), Ok(()));
    assert_eq!(
        validate_history(&vec![d(Suit::Hearts, Rank::Three), d(Suit::Spades, Rank::Two), Action::Call]),
        Err(HistoryError::HoleCardsNotSorted)
    );
    assert_eq!(validate_history(&vec![Action::CheckFold]), Err(HistoryError::FirstActionNotDeal));
    assert_eq!(
        validate_history(&vec![d(Suit::Spades, Rank::Two), Action::Call]),
        Err(HistoryError::SecondActionNotDeal)
    );
    assert_eq!(
        validate_history(&vec![d(Suit::Spades, Rank::Two), d(Suit::Hearts, Rank::Three)]),
        Err(HistoryError::NotEnoughActions)
    );
    assert_eq!(
        validate_history(&vec![
            d(Suit::Spades, Rank::Two),
            d(Suit::Hearts, Rank::Three),
            Action::CheckFold,
            Action::Bet
        ]),
        Err(HistoryError::PreflopCheckFold)
    );
    assert_eq!(
        validate_history(&vec![
            d(Suit::Spades, Rank::Two),
            d(Suit::Hearts, Rank::Three),
            Action::Call,
            Action::Call
        ]),
        Err(HistoryError::DoubleCall)
    );
    assert_eq!(
        validate_history(&vec![
            d(Suit::Spades, Rank::Two),
            d(Suit::Hearts, Rank::Three),
            Action::Bet,
            Action::Bet,
            Action::Bet,
            Action::Bet,
            Action::Bet
        ]),
        Err(HistoryError::TooManyBets)
    );
    assert_eq!(
        validate_history(&vec![
            d(Suit::Spades, Rank::Two),
            d(Suit::Hearts, Rank::Three),
            Action::Call,
            Action::CheckFold,
            d(Suit::Spades, Rank::Two),
            d(Suit::Clubs, Rank::Four),
            d(Suit::Diamonds, Rank::Five)
        ]),
        Err(HistoryError::DuplicateCard(c(Suit::Spades, Rank::Two)))
    );
    assert_eq!(
        validate_history(&vec![
            d(Suit::Spades, Rank::Two),
            d(Suit::Hearts, Rank::Three),
            Action::Call,
            d(Suit::Clubs, Rank::Four)
        ]),
        Err(HistoryError::RoundNotOver)
    );
}
