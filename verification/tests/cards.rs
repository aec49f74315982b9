use rust_poker::models::card::{
    all_rank_combos, new_random_nine_card_game, new_random_nine_card_game_with, nth_free_card, Card, Rank,
    Suit,
};
use rust_poker::models::player::{Player, OPPONENT_BYTE, TRAVERSER_BYTE};
use rust_poker::traversal::action_history::action::Action;
use std::collections::HashSet;
use std::time::Instant;

#[test]
fn test_suit_from_int() {
    assert_eq!(Suit::from_int(0), Suit::Spades);
    assert_eq!(Suit::from_int(1), Suit::Hearts);
    assert_eq!(Suit::from_int(2), Suit::Diamonds);
    assert_eq!(Suit::from_int(3), Suit::Clubs);
}

#[test]
fn test_rank_from_int() {
    assert_eq!(Rank::from_int(0), Rank::Two);
    assert_eq!(Rank::from_int(1), Rank::Three);
    assert_eq!(Rank::from_int(2), Rank::Four);
    assert_eq!(Rank::from_int(3), Rank::Five);
    assert_eq!(Rank::from_int(4), Rank::Six);
    assert_eq!(Rank::from_int(5), Rank::Seven);
    assert_eq!(Rank::from_int(6), Rank::Eight);
    assert_eq!(Rank::from_int(7), Rank::Nine);
    assert_eq!(Rank::from_int(8), Rank::Ten);
    assert_eq!(Rank::from_int(9), Rank::Jack);
    assert_eq!(Rank::from_int(10), Rank::Queen);
    assert_eq!(Rank::from_int(11), Rank::King);
    assert_eq!(Rank::from_int(12), Rank::Ace);
}

#[test]
fn deck_to_int_roudtrip() {
    let mut seen = HashSet::new();
    for i in 0..52 {
        let card = Card::from_int(i);
        assert!(!seen.contains(&card));
        seen.insert(card);
        assert_eq!(card.to_int(), i);
    }
}

#[test]
fn test_card_new() {
    let card = Card::new(Suit::Spades, Rank::Ace);
    assert_eq!(card.suit, Suit::Spades);
    assert_eq!(card.rank, Rank::Ace);
}

#[test]
fn test_card_serialise_deserialise() {
    for card in [
        Card::new(Suit::Spades, Rank::Two),
        Card::new(Suit::Hearts, Rank::Three),
        Card::new(Suit::Diamonds, Rank::Four),
        Card::new(Suit::Clubs, Rank::King),
    ] {
        let serialised = card.serialise();
        let deserialised = Card::deserialise(serialised);
        assert_eq!(card, deserialised);
    }
}

#[test]
fn test_new_random_9_card() {
    for _ in 0..10_000 {
        let cards = new_random_nine_card_game();
        assert_eq!(cards.len(), 9);
        let mut seen = HashSet::new();
        for card in cards {
            assert!(!seen.contains(&card));
            seen.insert(card);
        }
    }
}

#[test]
fn test_new_random_9_card_with_predicate() {
    let card1 = Card::new(Suit::Spades, Rank::Two);
    let card2 = Card::new(Suit::Hearts, Rank::Three);
    let card3 = Card::new(Suit::Diamonds, Rank::Four);
    let card4 = Card::new(Suit::Clubs, Rank::King);
    for _ in 0..10_000 {
        let cards = new_random_nine_card_game_with(card1, card2, card3, card4);
        assert_eq!(cards.len(), 9);
        let mut seen = HashSet::new();
        for card in cards {
            assert!(!seen.contains(&card));
            seen.insert(card);
        }
    }
}

#[test]
fn test_get_n_more_cards() {
    let existing_cards = Card::new_random_cards(5);
    let new_cards = Card::get_n_more_cards(&existing_cards, 4);
    assert_eq!(new_cards.len(), 4);
    for card in new_cards {
        assert!(!existing_cards.contains(&card));
    }
}

#[test]
fn test_9_random_card_game_with_performance() {
    let existing_cards = Card::new_random_cards(4);
    let start = Instant::now();
    for _ in 0..100_000 {
        _ = new_random_nine_card_game_with(
            existing_cards[0],
            existing_cards[1],
            existing_cards[2],
            existing_cards[3],
        );
    }
    let duration = start.elapsed();
    assert!(
        duration.as_millis() < 500,
        "Performance test failed: took too long to generate cards"
    );
}

#[test]
fn test_get_one_more_card() {
    for _ in 0..10000 {
        let existing_cards = Card::new_random_cards(5);
        let new_card = Card::get_one_more_card(&existing_cards);
        assert!(!existing_cards.contains(&new_card));
    }
}

#[test]
fn test_all_rank_combos() {
    let combos = all_rank_combos();
    assert_eq!(combos.len(), 12 * 13 / 2);
}

#[test]
fn all_suited_hole_card_combos() {
    let combos = Card::all_suited_combos(Suit::Spades);
    assert_eq!(combos.len(), 12 * 13 / 2);
    let mut seen = HashSet::new();
    for combo in combos {
        assert!(!seen.contains(&combo));
        seen.insert(combo);
        assert_eq!(combo.0.suit, Suit::Spades);
        assert_eq!(combo.1.suit, Suit::Spades);
        assert!(combo.0.rank.to_int() < combo.1.rank.to_int());
    }
}

#[test]
fn card_order() {
    assert!(Card::new(Suit::Spades, Rank::Two) < Card::new(Suit::Spades, Rank::Three));
    assert!(Card::new(Suit::Spades, Rank::Two) < Card::new(Suit::Hearts, Rank::Two));
    assert!(Card::new(Suit::Hearts, Rank::Two) < Card::new(Suit::Spades, Rank::Three));

    let cards = [
        Card::new(Suit::Spades, Rank::Two),
        Card::new(Suit::Hearts, Rank::Two),
        Card::new(Suit::Spades, Rank::Three),
        Card::new(Suit::Hearts, Rank::Three),
        Card::new(Suit::Spades, Rank::Ace),
        Card::new(Suit::Hearts, Rank::Ace),
    ];
    assert!(cards.is_sorted());
}

#[test]
fn test_serialise_player() {
    assert_eq!(Player::Traverser.serialise(), TRAVERSER_BYTE);
    assert_eq!(Player::Opponent.serialise(), OPPONENT_BYTE);
}

#[test]
fn test_deserialise_player() {
    assert_eq!(Player::deserialise(&TRAVERSER_BYTE), Player::Traverser);
    assert_eq!(Player::deserialise(&OPPONENT_BYTE), Player::Opponent);
}

const TEST_CARD: Card = Card { suit: Suit::Hearts, rank: Rank::Two };

#[test]
fn test_round_trip_checkfold() {
    let action = Action::CheckFold;
    let byte = action.serialise();
    assert_eq!(Action::deserialise(&byte), action);
}

#[test]
fn test_round_trip_call() {
    let action = Action::Call;
    let byte = action.serialise();
    assert_eq!(Action::deserialise(&byte), action);
}

#[test]
fn test_round_trip_bet() {
    let action = Action::Bet;
    let byte = action.serialise();
    assert_eq!(Action::deserialise(&byte), action);
}

#[test]
fn test_round_trip_deal() {
    for card in [
        Card::new(Suit::Spades, Rank::Two),
        Card::new(Suit::Hearts, Rank::Three),
        Card::new(Suit::Diamonds, Rank::Four),
        Card::new(Suit::Clubs, Rank::Five),
        Card::new(Suit::Spades, Rank::Six),
        Card::new(Suit::Hearts, Rank::Seven),
        Card::new(Suit::Diamonds, Rank::Eight),
        Card::new(Suit::Clubs, Rank::Nine),
        Card::new(Suit::Spades, Rank::Ten),
        Card::new(Suit::Hearts, Rank::Jack),
        Card::new(Suit::Diamonds, Rank::Queen),
        Card::new(Suit::Clubs, Rank::King),
        Card::new(Suit::Spades, Rank::Ace),
        Card::new(Suit::Hearts, Rank::Two),
        Card::new(Suit::Diamonds, Rank::Three),
        Card::new(Suit::Clubs, Rank::Four),
    ] {
        let action = Action::Deal(card);
        let byte = action.serialise();
        assert_eq!(Action::deserialise(&byte), action);
    }
}

#[test]
fn test_is_deal() {
    let card = TEST_CARD;
    let action = Action::Deal(card);
    assert!(action.is_deal());
    assert!(!Action::CheckFold.is_deal());
    assert!(!Action::Call.is_deal());
    assert!(!Action::Bet.is_deal());
}

#[test]
fn test_is_call() {
    let action = Action::Call;
    assert!(action.is_call());
    assert!(!Action::CheckFold.is_call());
    assert!(!Action::Deal(TEST_CARD).is_call());
    assert!(!Action::Bet.is_call());
}

#[test]
fn test_is_bet() {
    let action = Action::Bet;
    assert!(action.is_bet());
    assert!(!Action::CheckFold.is_bet());
    assert!(!Action::Call.is_bet());
    assert!(!Action::Deal(TEST_CARD).is_bet());
}

#[test]
fn cards_compare_by_serialised_byte() {
    let deck: Vec<Card> = (0..52u8).map(Card::from_int).collect();
    for a in deck.iter() {
        for b in deck.iter() {
            assert_eq!(a.partial_cmp(b), a.serialise().partial_cmp(&b.serialise()));
            assert_eq!(a.cmp(b), a.serialise().cmp(&b.serialise()));
        }
    }
    // Clubs sort after diamonds within a rank.
    assert!(Card::new(Suit::Diamonds, Rank::Nine) < Card::new(Suit::Clubs, Rank::Nine));
}

#[test]
fn nth_free_card_skips_taken_cards() {
    let mut taken = vec![false; 52];
    taken[0] = true;
    taken[1] = true;
    taken[3] = true;
    assert_eq!(nth_free_card(&taken, 0), 2);
    assert_eq!(nth_free_card(&taken, 1), 4);
    assert_eq!(nth_free_card(&taken, 48), 51);
}
