use itertools::Itertools;
use rand::seq::SliceRandom;
use rust_poker::evaluate::evaluate_hand::{
    hand_to_id, hand_to_unique_prime_product, id_mask_to_string, prime_product_to_rank_string,
    unique_rank_mask, HandEvaluator, HandEvaluatorLookup, BIT_REP_LIMIT, DISTINCT_CARD_COMBOS,
};
use rust_poker::evaluate::generate_tables::generate_flush_table::{
    evaluate_straight, generate_all_unique_rank_combos, generate_flushes_table, is_straight,
};
use rust_poker::evaluate::generate_tables::generate_remaining_table::generate_remaining_table;
use rust_poker::evaluate::generate_tables::generate_unique_five_table::generate_unique_five_table;
use rust_poker::evaluate::generate_tables::remaining_hand_types::{classify_hand_type, HandType};
use rust_poker::models::card::{new_random_nine_card_game, Card, NineCardDeal, Rank, Suit};
use std::cmp::Ordering;

const EVALS: usize = 1_000;
const NON_STRAIGHT_COUNT: usize = 1277;
const STRAIGHT_COUNT: usize = 10;

fn evaluator() -> HandEvaluatorLookup {
    HandEvaluatorLookup::new()
}

fn hand_of(ranks: [Rank; 5]) -> Vec<Card> {
    ranks.iter().map(|r| Card::new(Suit::random(), *r)).collect()
}

#[test]
fn test_performance() {
    let evaluator = evaluator();
    let start = std::time::Instant::now();
    let hand = Card::new_random_cards(5);
    for _ in 0..EVALS {
        let _ = evaluator.evaluate_five([hand[0], hand[1], hand[2], hand[3], hand[4]]);
    }
    let duration = start.elapsed();
    assert!(duration.as_secs() < 1);
}

#[test]
fn test_performance_9_card() {
    let evaluator = evaluator();
    let hands: Vec<NineCardDeal> = (0..100).map(|_| new_random_nine_card_game()).collect();
    let start = std::time::Instant::now();
    for i in 0..EVALS {
        let _ = evaluator.evaluate_nine(&hands[i % 100]);
    }
    let duration = start.elapsed();
    println!("9 card performance test took {:?}", duration);
    assert!(duration.as_secs() < 10);
}

#[test]
fn evaluate_hand_order_invariance_hand() {
    let evaluator = evaluator();
    for _ in 0..EVALS {
        let hand = Card::new_random_cards(5);
        let first_eval = evaluator.evaluate_five([hand[0], hand[1], hand[2], hand[3], hand[4]]);
        for perm in hand.iter().permutations(5) {
            assert_eq!(
                first_eval,
                evaluator.evaluate_five([*perm[0], *perm[1], *perm[2], *perm[3], *perm[4]])
            );
        }
    }
}

#[test]
fn order_invariance_nine_card_game() {
    let evaluator = evaluator();
    for _ in 0..EVALS {
        let game = new_random_nine_card_game();
        let first_eval = evaluator.evaluate_nine(&game);
        let mut rng = rand::thread_rng();
        for perm in game[4..9].iter().permutations(5) {
            let mut game_perm = [
                game[0], game[1], game[2], game[3], *perm[0], *perm[1], *perm[2], *perm[3],
                *perm[4],
            ];
            game_perm[0..2].shuffle(&mut rng);
            game_perm[2..4].shuffle(&mut rng);
            assert_eq!(first_eval, evaluator.evaluate_nine(&game_perm));
        }
    }
}

#[test]
fn split_pot_straight() {
    let evaluator = evaluator();
    let straight_deal = [
        Card::new(Suit::Spades, Rank::Jack),
        Card::new(Suit::Clubs, Rank::Jack),
        Card::new(Suit::Spades, Rank::King),
        Card::new(Suit::Clubs, Rank::King),
        Card::new(Suit::Hearts, Rank::Two),
        Card::new(Suit::Diamonds, Rank::Three),
        Card::new(Suit::Hearts, Rank::Four),
        Card::new(Suit::Diamonds, Rank::Five),
        Card::new(Suit::Hearts, Rank::Six),
    ];
    let result = evaluator.evaluate_nine(&straight_deal);
    assert_eq!(result, None);
}

#[test]
fn generate_all_tables_test_test_mutual_exclusivity() {
    let flush_table = generate_flushes_table();
    let five_table = generate_unique_five_table();

    let mut count = 0;
    let mut seen_rankings = vec![0; DISTINCT_CARD_COMBOS + 1];
    for (id, ranking) in flush_table.iter().enumerate() {
        if *ranking == 0 {
            continue;
        }
        count += 1;
        if seen_rankings[*ranking as usize] != 0 {
            panic!("Flush table has duplicate entries {}", id_mask_to_string((id as u32) << 12));
        }
        seen_rankings[*ranking as usize] += 1;
    }

    for id in five_table.iter() {
        if *id == 0 {
            continue;
        }
        count += 1;
        if seen_rankings[*id as usize] != 0 {
            panic!("Fives table has duplicate entries {}", id_mask_to_string((*id as u32) << 12));
        }
        seen_rankings[*id as usize] += 1;
    }

    let remaining_table = generate_remaining_table();

    for (prime_product, ranking) in remaining_table.iter().enumerate() {
        if *ranking == 0 {
            continue;
        }
        count += 1;
        if seen_rankings[*ranking as usize] != 0 {
            panic!(
                "Remaining table has duplicate entries {}, conflicts with rank {}",
                prime_product_to_rank_string(prime_product),
                ranking
            );
        }
        seen_rankings[*ranking as usize] += 1;
    }

    assert_eq!(count, DISTINCT_CARD_COMBOS);
}

#[test]
fn test_generate_all_unique_rank_combos() {
    let combos = generate_all_unique_rank_combos(5);
    assert_eq!(combos.len(), STRAIGHT_COUNT + NON_STRAIGHT_COUNT);
}

#[test]
fn test_all_hands_unique() {
    let combos = generate_all_unique_rank_combos(5);
    let mut seen = std::collections::HashSet::new();
    for hand in combos {
        let hand_id = hand_to_id(&hand);
        let unique_hand_mask = unique_rank_mask(&hand_id);
        assert!(!seen.contains(&unique_hand_mask), "Duplicate hand found, {:?}", hand);
        seen.insert(unique_hand_mask);
    }
}

#[test]
fn test_straight() {
    let hand = hand_of([Rank::Ace, Rank::Two, Rank::Three, Rank::Four, Rank::Five]);
    assert!(is_straight(&hand));
}

#[test]
fn test_straight_2() {
    let hand = hand_of([Rank::Jack, Rank::Queen, Rank::Ten, Rank::King, Rank::Ace]);
    assert!(is_straight(&hand));
}

#[test]
fn test_straight_3() {
    let hand = hand_of([Rank::Ten, Rank::Queen, Rank::Jack, Rank::Ace, Rank::King]);
    assert!(is_straight(&hand));
}

#[test]
fn test_not_straight() {
    let hand = hand_of([Rank::Eight, Rank::Ten, Rank::Jack, Rank::Queen, Rank::King]);
    assert!(!is_straight(&hand));
}

#[test]
fn test_straight_eval() {
    let straight1 = hand_of([Rank::Ace, Rank::Two, Rank::Three, Rank::Four, Rank::Five]);
    let straight2 = hand_of([Rank::Two, Rank::Three, Rank::Four, Rank::Five, Rank::Six]);
    let straight3 = hand_of([Rank::Three, Rank::Four, Rank::Five, Rank::Six, Rank::Seven]);
    let straight4 = hand_of([Rank::Four, Rank::Five, Rank::Six, Rank::Seven, Rank::Eight]);
    let straight5 = hand_of([Rank::Five, Rank::Six, Rank::Seven, Rank::Eight, Rank::Nine]);
    let straight6 = hand_of([Rank::Six, Rank::Seven, Rank::Eight, Rank::Nine, Rank::Ten]);
    let straight7 = hand_of([Rank::Seven, Rank::Eight, Rank::Nine, Rank::Ten, Rank::Jack]);
    let straight8 = hand_of([Rank::Eight, Rank::Nine, Rank::Ten, Rank::Jack, Rank::Queen]);
    let straight9 = hand_of([Rank::Nine, Rank::Ten, Rank::Jack, Rank::Queen, Rank::King]);
    let straight10 = hand_of([Rank::Ten, Rank::Jack, Rank::Queen, Rank::King, Rank::Ace]);
    assert!(evaluate_straight(&straight1) < evaluate_straight(&straight2));
    assert!(evaluate_straight(&straight2) < evaluate_straight(&straight3));
    assert!(evaluate_straight(&straight3) < evaluate_straight(&straight4));
    assert!(evaluate_straight(&straight4) < evaluate_straight(&straight5));
    assert!(evaluate_straight(&straight5) < evaluate_straight(&straight6));
    assert!(evaluate_straight(&straight6) < evaluate_straight(&straight7));
    assert!(evaluate_straight(&straight7) < evaluate_straight(&straight8));
    assert!(evaluate_straight(&straight8) < evaluate_straight(&straight9));
    assert!(evaluate_straight(&straight9) < evaluate_straight(&straight10));
}

fn evaluate_flush(table: &[u16], hand: &[Card]) -> u16 {
    let hand = hand_to_id(hand);
    let rank_mask = unique_rank_mask(&hand);
    table[rank_mask]
}

fn compare_with(table: &[u16], hand1: &[Card], hand2: &[Card], ord: Ordering) {
    if hand1.iter().unique().count() != 5 || hand2.iter().unique().count() != 5 {
        panic!("Hands must have 5 unique cards");
    };
    let evaluation1 = evaluate_flush(table, hand1);
    let evaluation2 = evaluate_flush(table, hand2);
    match ord {
        Ordering::Less => assert!(evaluation1 < evaluation2),
        Ordering::Equal => assert!(evaluation1 == evaluation2),
        Ordering::Greater => assert!(evaluation1 > evaluation2),
    }
}

#[test]
fn generate_flush_table_order_invariance_hand() {
    let table = generate_flushes_table();
    for _ in 0..1_000 {
        let hand = Card::new_random_cards(5);
        let first_eval = evaluate_flush(&table, &hand);
        for perm in hand.into_iter().permutations(5) {
            assert_eq!(first_eval, evaluate_flush(&table, &perm));
        }
    }
}

#[test]
fn generate_flush_table_assert_rankings_are_exact() {
    let table = generate_flushes_table();
    let mut seen_rankings = vec![0; BIT_REP_LIMIT + 1];
    let mut count = 0;
    for ranking in table.iter() {
        if ranking == &0 {
            continue;
        }
        count += 1;
        if seen_rankings[*ranking as usize] != 0 {
            panic!("Flush table has duplicate entry {}", id_mask_to_string((*ranking as u32) << 12));
        }
        seen_rankings[*ranking as usize] += 1;
    }
    assert_eq!(count, STRAIGHT_COUNT + NON_STRAIGHT_COUNT);
}

#[test]
fn test_straight_flushes() {
    let table = generate_flushes_table();
    let hand0 = hand_of([Rank::Ace, Rank::Two, Rank::Three, Rank::Four, Rank::Five]);
    let hand1 = hand_of([Rank::Two, Rank::Three, Rank::Four, Rank::Five, Rank::Six]);
    let hand2 = hand_of([Rank::Ten, Rank::Jack, Rank::Queen, Rank::King, Rank::Ace]);
    let eval0 = evaluate_flush(&table, &hand0);
    let eval1 = evaluate_flush(&table, &hand1);
    let eval2 = evaluate_flush(&table, &hand2);
    println!("Eval0: {}, Eval1: {}, Eval2: {}", eval0, eval1, eval2);
    compare_with(&table, &hand1, &hand2, Ordering::Less);
    compare_with(&table, &hand0, &hand1, Ordering::Less);
}

#[test]
fn test_straight_flushes_2() {
    let table = generate_flushes_table();
    let hand1 = hand_of([Rank::Nine, Rank::Ten, Rank::Jack, Rank::Queen, Rank::King]);
    let hand2 = hand_of([Rank::Ten, Rank::Jack, Rank::Queen, Rank::King, Rank::Ace]);
    compare_with(&table, &hand1, &hand2, Ordering::Less);
}

#[test]
fn test_flush_1() {
    let table = generate_flushes_table();
    let hand1 = hand_of([Rank::Two, Rank::Four, Rank::Six, Rank::Eight, Rank::Nine]);
    let hand2 = hand_of([Rank::Three, Rank::Five, Rank::Seven, Rank::Ten, Rank::Jack]);
    compare_with(&table, &hand1, &hand2, Ordering::Less);
}

#[test]
fn test_equal_straight_flushes() {
    let table = generate_flushes_table();
    let hand1 = hand_of([Rank::Two, Rank::Three, Rank::Four, Rank::Five, Rank::Six]);
    let hand2 = hand_of([Rank::Two, Rank::Three, Rank::Four, Rank::Five, Rank::Six]);
    compare_with(&table, &hand1, &hand2, Ordering::Equal);
}

#[test]
fn test_equal_flushes() {
    let table = generate_flushes_table();
    let hand1 = hand_of([Rank::Two, Rank::Four, Rank::Six, Rank::Eight, Rank::Ten]);
    let hand2 = hand_of([Rank::Four, Rank::Ten, Rank::Two, Rank::Eight, Rank::Six]);
    compare_with(&table, &hand1, &hand2, Ordering::Equal);
}

#[test]
fn test_worst_flush() {
    let table = generate_flushes_table();
    let hand = hand_of([Rank::Two, Rank::Three, Rank::Four, Rank::Five, Rank::Seven]);
    let eval = evaluate_flush(&table, &hand);
    assert_eq!(eval, 5864);
}

#[test]
fn test_low_card_diff() {
    let table = generate_flushes_table();
    let hand1 = hand_of([Rank::Three, Rank::Five, Rank::Six, Rank::Seven, Rank::Eight]);
    let hand2 = hand_of([Rank::Two, Rank::Five, Rank::Six, Rank::Seven, Rank::Eight]);
    compare_with(&table, &hand1, &hand2, Ordering::Greater);
}

#[test]
fn test_best_hand() {
    let table = generate_flushes_table();
    let royal_flush = hand_of([Rank::Ace, Rank::Ten, Rank::Jack, Rank::Queen, Rank::King]);
    let eval = evaluate_flush(&table, &royal_flush);
    println!("Royal flush: {}", eval);
    assert_eq!(eval, DISTINCT_CARD_COMBOS as u16);
}

#[test]
fn generate_remaining_table_test_mutual_exclusivity() {
    let table = generate_remaining_table();
    let mut count = 0;
    let mut seen_rankings = vec![0; DISTINCT_CARD_COMBOS + 1];
    for (prime_product, ranking) in table.iter().enumerate() {
        if *ranking == 0 {
            continue;
        }
        count += 1;
        if seen_rankings[*ranking as usize] != 0 {
            panic!(
                "Remaining table has duplicate entries {}, conflicts with rank {}",
                prime_product_to_rank_string(prime_product),
                ranking
            );
        }
        seen_rankings[*ranking as usize] += 1;
    }
    assert_eq!(count, 4888);
}

#[test]
fn test_evaluate_hand1() {
    let table = generate_remaining_table();
    let hand = hand_of([Rank::Queen, Rank::Queen, Rank::Four, Rank::Eight, Rank::Nine]);
    let prime_product_identifier = hand_to_unique_prime_product(&hand);
    let evaluation = table[prime_product_identifier];
    assert_eq!(evaluation, 3582);
}

#[test]
fn generate_unique_five_table_order_invariance_hand() {
    let table = generate_unique_five_table();
    for _ in 0..1_000 {
        let hand = Card::new_random_cards(5);
        let first_eval = evaluate_flush(&table, &hand);
        for perm in hand.into_iter().permutations(5) {
            assert_eq!(first_eval, evaluate_flush(&table, &perm));
        }
    }
}

#[test]
fn generate_unique_five_table_assert_rankings_are_exact() {
    let table = generate_unique_five_table();
    let mut seen_rankings = vec![0; BIT_REP_LIMIT + 1];
    let mut count = 0;
    for ranking in table.iter() {
        if ranking == &0 {
            continue;
        }
        count += 1;
        if seen_rankings[*ranking as usize] != 0 {
            panic!("Flush table has duplicate entry {}", id_mask_to_string((*ranking as u32) << 12));
        }
        seen_rankings[*ranking as usize] += 1;
    }
    assert_eq!(count, STRAIGHT_COUNT + NON_STRAIGHT_COUNT);
}

#[test]
fn worst_cards() {
    let table = generate_unique_five_table();
    let hand = hand_of([Rank::Two, Rank::Three, Rank::Four, Rank::Five, Rank::Seven]);
    assert_eq!(evaluate_flush(&table, &hand), 1);
    let hand = hand_of([Rank::Two, Rank::Three, Rank::Four, Rank::Six, Rank::Seven]);
    assert_eq!(evaluate_flush(&table, &hand), 2);
    let hand = hand_of([Rank::Two, Rank::Three, Rank::Five, Rank::Six, Rank::Seven]);
    assert_eq!(evaluate_flush(&table, &hand), 3);
    let hand = hand_of([Rank::Two, Rank::Four, Rank::Five, Rank::Six, Rank::Seven]);
    assert_eq!(evaluate_flush(&table, &hand), 4);
}

#[test]
fn high_card_comparisons() {
    let table = generate_unique_five_table();
    let hand1 = hand_of([Rank::Two, Rank::Four, Rank::Five, Rank::Six, Rank::Eight]);
    let hand2 = hand_of([Rank::Three, Rank::Five, Rank::Six, Rank::Seven, Rank::Nine]);
    compare_with(&table, &hand1, &hand2, Ordering::Less);
    let hand3 = hand_of([Rank::Four, Rank::Six, Rank::Seven, Rank::Eight, Rank::Ten]);
    compare_with(&table, &hand2, &hand3, Ordering::Less);
    let hand4 = hand_of([Rank::Five, Rank::Seven, Rank::Eight, Rank::Nine, Rank::Jack]);
    compare_with(&table, &hand3, &hand4, Ordering::Less);
}

#[test]
fn straight_comparisons() {
    let table = generate_unique_five_table();
    let hand1 = hand_of([Rank::Two, Rank::Three, Rank::Four, Rank::Five, Rank::Six]);
    let hand2 = hand_of([Rank::Three, Rank::Four, Rank::Five, Rank::Six, Rank::Seven]);
    compare_with(&table, &hand1, &hand2, Ordering::Less);
    let hand3 = hand_of([Rank::Four, Rank::Five, Rank::Six, Rank::Seven, Rank::Eight]);
    compare_with(&table, &hand2, &hand3, Ordering::Less);
    let hand4 = hand_of([Rank::Five, Rank::Six, Rank::Seven, Rank::Eight, Rank::Nine]);
    compare_with(&table, &hand3, &hand4, Ordering::Less);
}

#[test]
fn test_pair() {
    let hand = hand_of([Rank::Two, Rank::Two, Rank::Three, Rank::Four, Rank::Five]);
    let classification = classify_hand_type(&hand);
    assert!(matches!(classification, HandType::Pair(Rank::Two)));
}

#[test]
fn test_three_of_a_kind() {
    let hand = hand_of([Rank::Three, Rank::Four, Rank::Four, Rank::Four, Rank::Five]);
    let classification = classify_hand_type(&hand);
    assert!(matches!(classification, HandType::ThreeOfAKind(Rank::Four)));
}

#[test]
fn test_two_pair() {
    let hand = hand_of([Rank::Two, Rank::Two, Rank::Three, Rank::Three, Rank::Five]);
    let classification = classify_hand_type(&hand);
    assert!(matches!(
        classification,
        HandType::TwoPair(Rank::Three, Rank::Two) | HandType::TwoPair(Rank::Two, Rank::Three)
    ));
}

#[test]
fn test_full_house() {
    let hand = hand_of([Rank::Two, Rank::Two, Rank::Three, Rank::Three, Rank::Three]);
    let classification = classify_hand_type(&hand);
    assert!(matches!(classification, HandType::FullHouse(Rank::Three, Rank::Two)));
}

#[test]
fn test_four_of_a_kind() {
    let hand = hand_of([Rank::Ace, Rank::Ace, Rank::Ace, Rank::Ace, Rank::Five]);
    let classification = classify_hand_type(&hand);
    assert!(matches!(classification, HandType::FourOfAKind(Rank::Ace)));
}

#[test]
fn test_none_type() {
    let hand = hand_of([Rank::Ace, Rank::Two, Rank::Three, Rank::Four, Rank::Five]);
    let classification = classify_hand_type(&hand);
    assert_eq!(classification, HandType::NoMadeHand);
}

#[test]
fn unique_rank_mask_counts_distinct_ranks() {
    let hand = [
        Card::new(Suit::Spades, Rank::Two),
        Card::new(Suit::Hearts, Rank::Two),
        Card::new(Suit::Clubs, Rank::Nine),
        Card::new(Suit::Spades, Rank::Ace),
        Card::new(Suit::Diamonds, Rank::Nine),
    ];
    let ids = hand_to_id(&hand);
    let mask = unique_rank_mask(&ids);
    assert_eq!(mask, (1 << 0) | (1 << 7) | (1 << 12));
    assert_eq!(mask.count_ones(), 3);
    let reordered = [ids[4], ids[2], ids[0], ids[3], ids[1]];
    assert_eq!(unique_rank_mask(&reordered), mask);
}

#[test]
fn evaluate_seven_is_the_best_five() {
    let evaluator = evaluator();
    let hole = [Card::new(Suit::Spades, Rank::Ace), Card::new(Suit::Spades, Rank::King)];
    let board = [
        Card::new(Suit::Spades, Rank::Queen),
        Card::new(Suit::Spades, Rank::Jack),
        Card::new(Suit::Spades, Rank::Ten),
        Card::new(Suit::Hearts, Rank::Two),
        Card::new(Suit::Clubs, Rank::Three),
    ];
    let seven: Vec<Card> = hole.iter().chain(board.iter()).copied().collect();
    let best = seven
        .iter()
        .combinations(5)
        .map(|c| evaluator.evaluate_five([*c[0], *c[1], *c[2], *c[3], *c[4]]))
        .max()
        .unwrap();
    assert_eq!(evaluator.evaluate_seven(&hole, &board, u16::MAX), best);
    assert_eq!(best, 7462);
    // With a short circuit below the best, the result is above it.
    assert!(evaluator.evaluate_seven(&hole, &board, 100) > 100);
}

#[test]
fn five_distinct_rank_score_bands() {
    let evaluator = evaluator();
    let hand = |cards: [(Suit, Rank); 5]| cards.map(|(s, r)| Card::new(s, r));
    let straight_flush = evaluator.evaluate_five(hand([(Suit::Hearts, Rank::Two), (Suit::Hearts, Rank::Three), (Suit::Hearts, Rank::Four), (Suit::Hearts, Rank::Five), (Suit::Hearts, Rank::Ace)]));
    assert!((7453..=7462).contains(&straight_flush));
    let flush = evaluator.evaluate_five(hand([(Suit::Clubs, Rank::Two), (Suit::Clubs, Rank::Three), (Suit::Clubs, Rank::Four), (Suit::Clubs, Rank::Five), (Suit::Clubs, Rank::Seven)]));
    assert_eq!(flush, 5864);
    let best_flush = evaluator.evaluate_five(hand([(Suit::Clubs, Rank::Ace), (Suit::Clubs, Rank::King), (Suit::Clubs, Rank::Queen), (Suit::Clubs, Rank::Jack), (Suit::Clubs, Rank::Nine)]));
    assert_eq!(best_flush, 7140);
    let straight = evaluator.evaluate_five(hand([(Suit::Clubs, Rank::Ten), (Suit::Hearts, Rank::Jack), (Suit::Clubs, Rank::Queen), (Suit::Spades, Rank::King), (Suit::Clubs, Rank::Ace)]));
    assert_eq!(straight, 5863);
    let high_card = evaluator.evaluate_five(hand([(Suit::Clubs, Rank::Ace), (Suit::Hearts, Rank::King), (Suit::Clubs, Rank::Queen), (Suit::Spades, Rank::Jack), (Suit::Clubs, Rank::Nine)]));
    assert_eq!(high_card, 1277);
    let worst = evaluator.evaluate_five(hand([(Suit::Clubs, Rank::Two), (Suit::Hearts, Rank::Three), (Suit::Clubs, Rank::Four), (Suit::Spades, Rank::Five), (Suit::Clubs, Rank::Seven)]));
    assert_eq!(worst, 1);
}
