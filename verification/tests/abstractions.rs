use rust_poker::evaluate::generate_tables::remaining_hand_types::HandType;
use rust_poker::models::card::{Card, Rank, Suit};
use rust_poker::traversal::action_history::action::Action;
use rust_poker::traversal::action_history::action_history::{
    ActionHistory, ActionHistoryByteStreamIterator,
};
use rust_poker::traversal::action_history::board_abstraction::BoardAbstraction;
use rust_poker::traversal::action_history::card_abstraction::{
    bucket_rank, get_connected_card_abstraction, get_flush_abstraction, get_straight_abstraction,
    ConnectedCardsAbstraction,
};

fn c(rank: Rank, suit: Suit) -> Card {
    Card { rank, suit }
}

#[test]
fn test_board_abstraction_pair() {
    let cards = vec![
        Card::new(Suit::Hearts, Rank::Two),
        Card::new(Suit::Diamonds, Rank::Two),
        Card::new(Suit::Clubs, Rank::Three),
        Card::new(Suit::Spades, Rank::Four),
        Card::new(Suit::Hearts, Rank::Five),
    ];
    let board_abstraction = BoardAbstraction::new(&cards);
    assert_eq!(board_abstraction.max_consecutive_cards, 4);
    assert_eq!(board_abstraction.suit_count_abstraction, 0);
    assert!(matches!(board_abstraction.board_hand_type, HandType::Pair(_)));
}

#[test]
fn test_board_abstraction_two_pair() {
    let cards = vec![
        Card::new(Suit::Hearts, Rank::Two),
        Card::new(Suit::Diamonds, Rank::Two),
        Card::new(Suit::Clubs, Rank::Three),
        Card::new(Suit::Spades, Rank::Three),
        Card::new(Suit::Hearts, Rank::Five),
    ];
    let board_abstraction = BoardAbstraction::new(&cards);
    assert_eq!(board_abstraction.max_consecutive_cards, 2);
    assert_eq!(board_abstraction.suit_count_abstraction, 0);
    assert!(matches!(board_abstraction.board_hand_type, HandType::TwoPair(_, _)));
}

#[test]
fn test_board_abstraction_three_of_a_kind() {
    let cards = vec![
        Card::new(Suit::Hearts, Rank::Two),
        Card::new(Suit::Hearts, Rank::Two),
        Card::new(Suit::Hearts, Rank::Two),
        Card::new(Suit::Spades, Rank::Four),
        Card::new(Suit::Hearts, Rank::Five),
    ];
    let board_abstraction = BoardAbstraction::new(&cards);
    assert_eq!(board_abstraction.max_consecutive_cards, 2);
    assert_eq!(board_abstraction.suit_count_abstraction, 4);
    assert!(matches!(board_abstraction.board_hand_type, HandType::ThreeOfAKind(_)));
}

#[test]
fn test_board_abstraction_full_house() {
    let cards = vec![
        Card::new(Suit::Hearts, Rank::Two),
        Card::new(Suit::Diamonds, Rank::Two),
        Card::new(Suit::Clubs, Rank::Three),
        Card::new(Suit::Spades, Rank::Three),
        Card::new(Suit::Hearts, Rank::Three),
    ];
    let board_abstraction = BoardAbstraction::new(&cards);
    assert_eq!(board_abstraction.max_consecutive_cards, 2);
    assert_eq!(board_abstraction.suit_count_abstraction, 0);
    assert!(matches!(board_abstraction.board_hand_type, HandType::FullHouse(_, _)));
}

#[test]
fn test_board_abstraction_four_of_a_kind() {
    let cards = vec![
        Card::new(Suit::Hearts, Rank::Two),
        Card::new(Suit::Diamonds, Rank::Two),
        Card::new(Suit::Clubs, Rank::Two),
        Card::new(Suit::Spades, Rank::Two),
        Card::new(Suit::Hearts, Rank::Five),
    ];
    let board_abstraction = BoardAbstraction::new(&cards);
    assert_eq!(board_abstraction.max_consecutive_cards, 1);
    assert_eq!(board_abstraction.suit_count_abstraction, 1);
    assert!(matches!(board_abstraction.board_hand_type, HandType::FourOfAKind(_)));
}

#[test]
fn test_board_abstraction_none() {
    let cards = vec![
        Card::new(Suit::Hearts, Rank::Two),
        Card::new(Suit::Diamonds, Rank::Four),
        Card::new(Suit::Clubs, Rank::Six),
        Card::new(Suit::Spades, Rank::Eight),
        Card::new(Suit::Hearts, Rank::Ten),
    ];
    let board_abstraction = BoardAbstraction::new(&cards);
    assert_eq!(board_abstraction.max_consecutive_cards, 1);
    assert_eq!(board_abstraction.suit_count_abstraction, 0);
    assert!(matches!(board_abstraction.board_hand_type, HandType::NoMadeHand));
}

#[test]
fn test_bucket_rank() {
    assert_eq!(bucket_rank(2), Rank::Five);
    assert_eq!(bucket_rank(5), Rank::Eight);
    assert_eq!(bucket_rank(8), Rank::Queen);
    assert_eq!(bucket_rank(11), Rank::Ace);
}

#[test]
fn test_should_not_panic() {
    for rank_int in 2..=12 {
        bucket_rank(rank_int);
    }
}

#[test]
fn test_get_straight_abstraction() {
    let hole_cards = [c(Rank::Ten, Suit::Hearts), c(Rank::Jack, Suit::Hearts)];
    let board_cards = [
        c(Rank::Nine, Suit::Clubs),
        c(Rank::Eight, Suit::Diamonds),
        c(Rank::Seven, Suit::Spades),
    ];
    let abstraction = get_straight_abstraction(&hole_cards, &board_cards).unwrap();
    assert_eq!(abstraction.bucketed_high_card, Rank::Queen);
    assert_eq!(abstraction.cards_in_straight, 5);
    assert!(!abstraction.requires_gutshot);
}

#[test]
fn identifies_open_ended_ace_low_straight() {
    let hole_cards = [c(Rank::Ace, Suit::Hearts), c(Rank::Two, Suit::Hearts)];
    let board_cards = [c(Rank::Three, Suit::Clubs), c(Rank::Four, Suit::Diamonds)];
    let abstraction = get_straight_abstraction(&hole_cards, &board_cards).unwrap();
    assert_eq!(abstraction.bucketed_high_card, Rank::Five);
    assert_eq!(abstraction.cards_in_straight, 4);
    assert!(!abstraction.requires_gutshot);
}

#[test]
fn returns_none_for_2_draw_on_turn() {
    let hole_cards = [c(Rank::Ace, Suit::Hearts), c(Rank::Nine, Suit::Hearts)];
    let board_cards = [
        c(Rank::Three, Suit::Clubs),
        c(Rank::Two, Suit::Diamonds),
        c(Rank::Ten, Suit::Diamonds),
        c(Rank::Jack, Suit::Diamonds),
    ];
    let abstraction = get_straight_abstraction(&hole_cards, &board_cards);
    assert!(abstraction.is_none());
}

#[test]
fn identifies_open_low_ace_straight() {
    let hole_cards = [c(Rank::Ace, Suit::Hearts), c(Rank::Two, Suit::Hearts)];
    let board_cards = [
        c(Rank::Three, Suit::Clubs),
        c(Rank::Four, Suit::Diamonds),
        c(Rank::Five, Suit::Diamonds),
    ];
    let abstraction = get_straight_abstraction(&hole_cards, &board_cards).unwrap();
    assert_eq!(abstraction.bucketed_high_card, Rank::Five);
    assert_eq!(abstraction.cards_in_straight, 5);
    assert!(!abstraction.requires_gutshot);
}

#[test]
fn identifies_nut_straight() {
    let hole_cards = [c(Rank::Ace, Suit::Hearts), c(Rank::Jack, Suit::Hearts)];
    let board_cards = [
        c(Rank::Ten, Suit::Clubs),
        c(Rank::Queen, Suit::Diamonds),
        c(Rank::King, Suit::Diamonds),
    ];
    let abstraction = get_straight_abstraction(&hole_cards, &board_cards).unwrap();
    assert_eq!(abstraction.bucketed_high_card, Rank::Ace);
    assert_eq!(abstraction.cards_in_straight, 5);
    assert!(!abstraction.requires_gutshot);
}

#[test]
fn identifies_gut_shot_low_ace() {
    let hole_cards = [c(Rank::Ace, Suit::Hearts), c(Rank::Two, Suit::Hearts)];
    let board_cards = [c(Rank::Four, Suit::Diamonds), c(Rank::Five, Suit::Diamonds)];
    let abstraction = get_straight_abstraction(&hole_cards, &board_cards).unwrap();
    assert_eq!(abstraction.bucketed_high_card, Rank::Five);
    assert_eq!(abstraction.cards_in_straight, 4);
    assert!(abstraction.requires_gutshot);
}

#[test]
fn test_get_straight_abstraction_with_gutshot() {
    let hole_cards = [c(Rank::Five, Suit::Hearts), c(Rank::Queen, Suit::Hearts)];
    let board_cards = [
        c(Rank::Ten, Suit::Clubs),
        c(Rank::Nine, Suit::Diamonds),
        c(Rank::Eight, Suit::Spades),
        c(Rank::Six, Suit::Hearts),
    ];
    let abstraction = get_straight_abstraction(&hole_cards, &board_cards).unwrap();
    assert_eq!(abstraction.bucketed_high_card, Rank::Queen);
    assert_eq!(abstraction.cards_in_straight, 4);
    assert!(abstraction.requires_gutshot);
}

#[test]
fn test_straight_is_on_the_board() {
    let hole_cards = [c(Rank::Two, Suit::Hearts), c(Rank::Three, Suit::Hearts)];
    let board_cards = [
        c(Rank::Seven, Suit::Clubs),
        c(Rank::Eight, Suit::Diamonds),
        c(Rank::Nine, Suit::Spades),
        c(Rank::Ten, Suit::Hearts),
        c(Rank::Jack, Suit::Hearts),
    ];
    let abstraction = get_straight_abstraction(&hole_cards, &board_cards);
    assert!(abstraction.is_none());
}

#[test]
fn test_high_board_straight_overrules() {
    let hole_cards = [c(Rank::Two, Suit::Hearts), c(Rank::Six, Suit::Hearts)];
    let board_cards = [
        c(Rank::Seven, Suit::Clubs),
        c(Rank::Eight, Suit::Diamonds),
        c(Rank::Nine, Suit::Spades),
        c(Rank::Ten, Suit::Hearts),
        c(Rank::Jack, Suit::Hearts),
    ];
    let abstraction = get_straight_abstraction(&hole_cards, &board_cards);
    assert!(abstraction.is_none());
}

#[test]
fn test_high_hand_straight_overrules() {
    let hole_cards = [c(Rank::Two, Suit::Hearts), c(Rank::Queen, Suit::Hearts)];
    let board_cards = [
        c(Rank::Seven, Suit::Clubs),
        c(Rank::Eight, Suit::Diamonds),
        c(Rank::Nine, Suit::Spades),
        c(Rank::Ten, Suit::Hearts),
        c(Rank::Jack, Suit::Hearts),
    ];
    let abstraction = get_straight_abstraction(&hole_cards, &board_cards)
        .expect("Expected abstraction to be generated");
    assert_eq!(abstraction.bucketed_high_card, Rank::Queen);
    assert_eq!(abstraction.cards_in_straight, 5);
    assert!(!abstraction.requires_gutshot);
}

#[test]
fn get_flush_low_score() {
    let hole_cards = [c(Rank::Ten, Suit::Hearts), c(Rank::Jack, Suit::Hearts)];
    let board_cards = [
        c(Rank::Nine, Suit::Hearts),
        c(Rank::Eight, Suit::Hearts),
        c(Rank::Seven, Suit::Hearts),
        c(Rank::Six, Suit::Hearts),
        c(Rank::Five, Suit::Hearts),
    ];
    let abstraction = get_flush_abstraction(&hole_cards, &board_cards).unwrap();
    assert_eq!(abstraction.cards_to_draw, 0);
    assert_eq!(abstraction.flush_score, 2);
}

#[test]
fn get_flush_mid_score() {
    let hole_cards = [c(Rank::Two, Suit::Hearts), c(Rank::King, Suit::Hearts)];
    let board_cards = [
        c(Rank::Nine, Suit::Hearts),
        c(Rank::Eight, Suit::Hearts),
        c(Rank::Seven, Suit::Hearts),
        c(Rank::Six, Suit::Hearts),
        c(Rank::Five, Suit::Hearts),
    ];
    let abstraction = get_flush_abstraction(&hole_cards, &board_cards).unwrap();
    assert_eq!(abstraction.cards_to_draw, 0);
    assert_eq!(abstraction.flush_score, 1);
}

#[test]
fn get_flush_high_score() {
    let hole_cards = [c(Rank::Ten, Suit::Hearts), c(Rank::Jack, Suit::Hearts)];
    let board_cards = [
        c(Rank::Nine, Suit::Hearts),
        c(Rank::Eight, Suit::Hearts),
        c(Rank::Ace, Suit::Hearts),
        c(Rank::King, Suit::Hearts),
        c(Rank::Queen, Suit::Hearts),
    ];
    let abstraction = get_flush_abstraction(&hole_cards, &board_cards).unwrap();
    assert_eq!(abstraction.cards_to_draw, 0);
    assert_eq!(abstraction.flush_score, 0);
}

#[test]
fn test_full_house_high_hosue() {
    let hole_cards = [c(Rank::Ten, Suit::Hearts), c(Rank::Nine, Suit::Diamonds)];
    let board_cards = [
        c(Rank::Ten, Suit::Clubs),
        c(Rank::Ten, Suit::Diamonds),
        c(Rank::Nine, Suit::Spades),
    ];
    let abstraction = get_connected_card_abstraction(&hole_cards, &board_cards).unwrap();
    match abstraction {
        ConnectedCardsAbstraction::FullHouse(abstraction) => {
            assert!(abstraction.high_card_is_house);
        }
        _ => panic!("Expected FullHouse abstraction"),
    }
}

#[test]
fn test_full_house_low_house() {
    let hole_cards = [c(Rank::Ten, Suit::Hearts), c(Rank::Nine, Suit::Diamonds)];
    let board_cards = [
        c(Rank::Ten, Suit::Clubs),
        c(Rank::Nine, Suit::Diamonds),
        c(Rank::Nine, Suit::Spades),
    ];
    let abstraction = get_connected_card_abstraction(&hole_cards, &board_cards).unwrap();
    match abstraction {
        ConnectedCardsAbstraction::FullHouse(abstraction) => {
            assert!(!abstraction.high_card_is_house);
        }
        _ => panic!("Expected FullHouse abstraction"),
    }
}

#[test]
fn test_get_connected_card_abstraction_four_of_a_kind() {
    let hole_cards = [c(Rank::Ten, Suit::Hearts), c(Rank::Ten, Suit::Diamonds)];
    let board_cards = [
        c(Rank::Ten, Suit::Clubs),
        c(Rank::Ten, Suit::Spades),
        c(Rank::Nine, Suit::Diamonds),
    ];
    let abstraction = get_connected_card_abstraction(&hole_cards, &board_cards).unwrap();
    match abstraction {
        ConnectedCardsAbstraction::FourOfAKind => {}
        _ => panic!("Expected FourOfAKind abstraction"),
    }
}

#[test]
fn test_pair_abstraction() {
    let hole_cards = [c(Rank::Ten, Suit::Hearts), c(Rank::Nine, Suit::Diamonds)];
    let board_cards = [
        c(Rank::Ten, Suit::Clubs),
        c(Rank::Eight, Suit::Spades),
        c(Rank::Ace, Suit::Diamonds),
    ];
    let abstraction = get_connected_card_abstraction(&hole_cards, &board_cards).unwrap();
    match abstraction {
        ConnectedCardsAbstraction::Pair(pair) => {
            assert_eq!(pair.pair_order_score, 1);
        }
        _ => panic!("Expected Pair abstraction"),
    }
}

#[test]
fn test_two_pair_abstraction() {
    let _hole_cards = [c(Rank::Ten, Suit::Hearts), c(Rank::Eight, Suit::Diamonds)];
    let _board_cards = [
        c(Rank::Ten, Suit::Clubs),
        c(Rank::Eight, Suit::Spades),
        c(Rank::Jack, Suit::Diamonds),
        c(Rank::King, Suit::Diamonds),
        c(Rank::Ace, Suit::Diamonds),
    ];
}

#[test]
fn test_toak_abstraction() {
    let hole_cards = [c(Rank::Eight, Suit::Hearts), c(Rank::Eight, Suit::Diamonds)];
    let board_cards = [
        c(Rank::Ten, Suit::Clubs),
        c(Rank::Eight, Suit::Spades),
        c(Rank::Jack, Suit::Diamonds),
        c(Rank::King, Suit::Diamonds),
        c(Rank::Ace, Suit::Diamonds),
    ];
    let abstraction = get_connected_card_abstraction(&hole_cards, &board_cards).unwrap();
    match abstraction {
        ConnectedCardsAbstraction::ThreeOfAKind(toak_abstraction) => {
            assert_eq!(toak_abstraction.toak_order_score, 2);
        }
        _ => panic!("Expected Two pair abstraction"),
    }
}

fn check_history_round_trip(history: Vec<Action>) {
    let action_history = ActionHistory::new(history);
    let serialised = action_history.serialise();
    let mut action_history_iterator = ActionHistoryByteStreamIterator::new(&serialised);
    let deserialised_history = action_history_iterator.next().unwrap();
    assert_eq!(deserialised_history, action_history);
}

fn deal(suit: Suit, rank: Rank) -> Action {
    Action::Deal(Card::new(suit, rank))
}

#[test]
fn test_serialise_history_currentplayer() {
    let history = vec![deal(Suit::Spades, Rank::Two), deal(Suit::Hearts, Rank::Three)];
    check_history_round_trip(history);
}

#[test]
fn test_serialise_history_preflop() {
    let history = vec![
        deal(Suit::Spades, Rank::Two),
        deal(Suit::Hearts, Rank::Three),
        Action::Call,
        Action::Bet,
        Action::Bet,
        Action::Call,
        Action::CheckFold,
    ];
    check_history_round_trip(history);
}

fn flop_history() -> Vec<Action> {
    vec![
        deal(Suit::Spades, Rank::Two),
        deal(Suit::Hearts, Rank::Three),
        Action::Call,
        Action::Bet,
        Action::Bet,
        Action::Bet,
        Action::Bet,
        Action::Call,
        deal(Suit::Clubs, Rank::Four),
        deal(Suit::Diamonds, Rank::Five),
        deal(Suit::Spades, Rank::Six),
    ]
}

#[test]
fn test_serialise_history_flop() {
    check_history_round_trip(flop_history());
}

#[test]
fn test_serialise_history_flop_play() {
    let mut history = flop_history();
    history.extend([Action::CheckFold, Action::Bet, Action::Bet, Action::Call]);
    check_history_round_trip(history);
}

#[test]
fn test_serialise_history_turn() {
    let mut history = flop_history();
    history.extend([
        Action::CheckFold,
        Action::Bet,
        Action::Bet,
        Action::Bet,
        Action::Bet,
        Action::Call,
        deal(Suit::Clubs, Rank::Eight),
    ]);
    check_history_round_trip(history);
}

#[test]
fn test_serialise_history_river() {
    let mut history = flop_history();
    history.extend([
        Action::CheckFold,
        Action::Bet,
        Action::Bet,
        Action::Bet,
        Action::Bet,
        Action::Call,
        deal(Suit::Clubs, Rank::Eight),
        Action::CheckFold,
        Action::Bet,
        Action::Bet,
        Action::Bet,
        Action::Bet,
        Action::Call,
        deal(Suit::Clubs, Rank::Eight),
    ]);
    check_history_round_trip(history);
}

#[test]
fn test_serialise_history_reveal() {
    let mut history = flop_history();
    history.extend([
        Action::CheckFold,
        Action::Bet,
        Action::Bet,
        Action::Bet,
        Action::Bet,
        Action::Call,
        deal(Suit::Clubs, Rank::Eight),
        Action::CheckFold,
        Action::Bet,
        Action::Bet,
        Action::Bet,
        Action::Bet,
        Action::Call,
        deal(Suit::Clubs, Rank::Eight),
        Action::CheckFold,
        Action::Bet,
        Action::Bet,
        Action::Bet,
        Action::Bet,
        Action::Call,
    ]);
    check_history_round_trip(history);
}

#[test]
fn test_serialise_multiple_histories() {
    let history1 = vec![
        deal(Suit::Spades, Rank::Two),
        deal(Suit::Hearts, Rank::Three),
        Action::Call,
        Action::Bet,
    ];
    let history2 = vec![
        deal(Suit::Clubs, Rank::Two),
        deal(Suit::Diamonds, Rank::Three),
        Action::Call,
        Action::Bet,
        Action::Bet,
        Action::Bet,
    ];
    let mut history3 = flop_history();
    history3.extend([Action::CheckFold, Action::Bet, Action::Bet]);

    let mut serialised1 = ActionHistory::new(history1.clone()).serialise();
    let serialised2 = ActionHistory::new(history2.clone()).serialise();
    let serialised3 = ActionHistory::new(history3.clone()).serialise();

    serialised1.extend(serialised2);
    serialised1.extend(serialised3);

    let mut action_history_iterator = ActionHistoryByteStreamIterator::new(&serialised1);

    let deserialised_history1 = action_history_iterator.next().unwrap();
    assert_eq!(deserialised_history1, ActionHistory::new(history1));

    let deserialised_history2 = action_history_iterator.next().unwrap();
    assert_eq!(deserialised_history2, ActionHistory::new(history2));

    let deserialised_history3 = action_history_iterator.next().unwrap();
    assert_eq!(deserialised_history3, ActionHistory::new(history3));
}

#[test]
fn board_abstraction_four_of_a_kind_on_the_turn() {
    let cards = vec![
        Card::new(Suit::Hearts, Rank::Nine),
        Card::new(Suit::Diamonds, Rank::Nine),
        Card::new(Suit::Clubs, Rank::Nine),
        Card::new(Suit::Spades, Rank::Nine),
    ];
    let board_abstraction = BoardAbstraction::new(&cards);
    assert_eq!(board_abstraction.suit_count_abstraction, 0);
    assert!(matches!(board_abstraction.board_hand_type, HandType::FourOfAKind(_)));
}
