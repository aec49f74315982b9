use crate::models::card::{Card, Rank};
use crate::text::{bool_text, bool_to_str, decimal_text, u8_to_string};
use vstd::prelude::*;

verus! {

/// The bucket of a rank number: 1 to 4 to Five, 5 to 7 to Eight, 8 to 10 to
/// Queen, 11 and 12 to Ace.
pub open spec fn spec_bucket_rank(rank_int: int) -> Rank {
    if rank_int < 5 {
        Rank::Five
    } else if rank_int < 8 {
        Rank::Eight
    } else if rank_int < 11 {
        Rank::Queen
    } else {
        Rank::Ace
    }
}

/// Buckets rank numbers into A-K, Q-9, 8-6, 5-2.
pub fn bucket_rank(rank_int: usize) -> (r: Rank)
    requires
        1 <= rank_int <= 12,
    ensures
        r == spec_bucket_rank(rank_int as int),
{
    if rank_int < 5 {
        Rank::Five
    } else if rank_int < 8 {
        Rank::Eight
    } else if rank_int < 11 {
        Rank::Queen
    } else {
        Rank::Ace
    }
}

/// Abstraction of a straight or straight draw (part of the game abstraction).
#[derive(Debug, PartialEq, Eq, Structural, Clone, Copy)]
pub struct StraightAbstraction {
    /// The highest card, bucketed by rank.
    pub bucketed_high_card: Rank,
    /// The number of cards in the straight.
    pub cards_in_straight: u8,
    /// Whether the straight needs a gutshot.
    pub requires_gutshot: bool,
}

/// The byte of a straight abstraction: the bucketed rank's number in the high
/// four bits, the card count in bits 1 to 3, the gutshot flag in bit 0.
pub open spec fn straight_byte(s: StraightAbstraction) -> int {
    s.bucketed_high_card.spec_to_int() * 16 + s.cards_in_straight * 2 + if s.requires_gutshot {
        1int
    } else {
        0int
    }
}

impl StraightAbstraction {
    pub fn serialise(&self) -> (b: u8)
        requires
            self.cards_in_straight < 8,
        ensures
            b == straight_byte(*self),
    {
        let highest_card: u8 = self.bucketed_high_card.to_int();
        let cards_in_straight: u8 = self.cards_in_straight;
        let requires_gutshot: u8 = if self.requires_gutshot {
            1
        } else {
            0
        };
        assert(highest_card < 13 && cards_in_straight < 8 && requires_gutshot < 2 ==> (highest_card
            << 4u8) | (cards_in_straight << 1u8) | requires_gutshot == highest_card * 16
            + cards_in_straight * 2 + requires_gutshot) by (bit_vector);
        (highest_card << 4u8) | (cards_in_straight << 1u8) | requires_gutshot
    }

    pub fn deserialise(serialised: &u8) -> (s: StraightAbstraction)
        requires
            *serialised >> 4u8 < 13,
        ensures
            s.bucketed_high_card == Rank::spec_from_int(*serialised >> 4u8),
            s.cards_in_straight == (*serialised >> 1u8) & 0b111u8,
            s.requires_gutshot == (*serialised & 0b1u8 == 1u8),
    {
        let highest_card = Rank::from_int(*serialised >> 4u8);
        let cards_in_straight = (*serialised >> 1u8) & 0b111u8;
        let requires_gutshot = (*serialised & 0b1u8) == 1u8;
        StraightAbstraction { bucketed_high_card: highest_card, cards_in_straight, requires_gutshot }
    }
}

/// A straight abstraction is read back from its byte unchanged.
pub proof fn lemma_straight_roundtrip(s: StraightAbstraction)
    requires
        s.cards_in_straight < 8,
    ensures
        (straight_byte(s) as u8) >> 4u8 == s.bucketed_high_card.spec_to_int(),
        ((straight_byte(s) as u8) >> 1u8) & 0b111u8 == s.cards_in_straight,
        ((straight_byte(s) as u8) & 0b1u8 == 1u8) == s.requires_gutshot,
{
    let h = s.bucketed_high_card.spec_to_int();
    let c = s.cards_in_straight;
    let g: u8 = if s.requires_gutshot {
        1
    } else {
        0
    };
    let b: u8 = (h * 16 + c * 2 + g) as u8;
    assert(h < 13 && c < 8 && g < 2 && b == h * 16 + c * 2 + g ==> b >> 4u8 == h && (b >> 1u8)
        & 0b111u8 == c && (b & 0b1u8 == 1u8) == (g == 1)) by (bit_vector);
}

/// The rank position of a card: its rank number plus one (position 0 is the
/// low ace).
pub open spec fn rank_position(c: Card) -> int {
    c.rank.spec_to_int() + 1
}

/// Whether a board card sits at rank position `k`.
pub open spec fn board_has_position(board: Seq<Card>, k: int) -> bool {
    exists|i: int| 0 <= i < board.len() && rank_position(#[trigger] board[i]) == k
}

/// The rank positions held: those of the board and the hole cards, and the low
/// ace when a hole card is an ace the board does not hold.
pub open spec fn straight_positions(hole: Seq<Card>, board: Seq<Card>) -> Seq<bool> {
    Seq::new(
        14,
        |k: int|
            if k == 0 {
                (hole[0].rank == Rank::Ace || hole[1].rank == Rank::Ace) && !board_has_position(
                    board,
                    13,
                )
            } else {
                board_has_position(board, k) || rank_position(hole[0]) == k || rank_position(hole[1])
                    == k
            },
    )
}

/// The positions of the hole cards that the board does not hold, each once, in
/// the order of the hole cards.
pub open spec fn straight_candidates(hole: Seq<Card>, board: Seq<Card>) -> Seq<usize> {
    let p0 = rank_position(hole[0]);
    let p1 = rank_position(hole[1]);
    let first: Seq<usize> = if !board_has_position(board, p0) {
        seq![p0 as usize]
    } else {
        Seq::empty()
    };
    let second: Seq<usize> = if !board_has_position(board, p1) && p1 != p0 {
        seq![p1 as usize]
    } else {
        Seq::empty()
    };
    first + second
}

/// How many positions in the window of five that ends at `i` are held.
pub open spec fn window_count(counts: Seq<bool>, lo: int, i: int) -> nat
    decreases i - lo + 1,
{
    if i < lo || i < 0 {
        0
    } else {
        window_count(counts, lo, i - 1) + if counts[i] {
            1nat
        } else {
            0nat
        }
    }
}

/// The first position of the window that ends at `i`.
pub open spec fn window_start(i: int) -> int {
    if i >= 4 {
        i - 4
    } else {
        0
    }
}

/// The length of the run of held positions that ends at `i`.
pub open spec fn straight_run(counts: Seq<bool>, i: int) -> nat
    decreases i + 1,
{
    if i < 0 || !counts[i] {
        0
    } else {
        straight_run(counts, i - 1) + 1
    }
}

/// Whether a hole-card position lies in the window that ends at `i`.
pub open spec fn candidate_in_window(cands: Seq<usize>, i: int) -> bool {
    exists|j: int| 0 <= j < cands.len() && window_start(i) <= #[trigger] cands[j] <= i
}

/// A straight of three or more without a gap ends at `i` and uses a hole card.
pub open spec fn open_at(counts: Seq<bool>, cands: Seq<usize>, i: int) -> bool {
    &&& counts[i]
    &&& candidate_in_window(cands, i)
    &&& straight_run(counts, i) >= 3
    &&& (i < 4 || window_count(counts, window_start(i), i) >= 3)
}

/// A four-card straight with a gap ends at `i` and uses a hole card.
pub open spec fn gutshot_at(counts: Seq<bool>, cands: Seq<usize>, i: int) -> bool {
    &&& i >= 4
    &&& counts[i]
    &&& candidate_in_window(cands, i)
    &&& !(window_count(counts, window_start(i), i) >= 3 && straight_run(counts, i) >= 3)
    &&& window_count(counts, window_start(i), i) == 4
    &&& straight_run(counts, i) < 4
}

/// The board alone holds a straight that ends at `i`.
pub open spec fn board_straight_at(counts: Seq<bool>, cands: Seq<usize>, i: int) -> bool {
    &&& i >= 4
    &&& counts[i]
    &&& !candidate_in_window(cands, i)
    &&& window_count(counts, window_start(i), i) == 5
}

/// The highest position below `n` where `open_at` holds, or 0.
pub open spec fn last_open(counts: Seq<bool>, cands: Seq<usize>, n: int) -> int
    decreases n,
{
    if n <= 0 {
        0
    } else if open_at(counts, cands, n - 1) {
        n - 1
    } else {
        last_open(counts, cands, n - 1)
    }
}

/// The highest position below `n` where `gutshot_at` holds, or 0.
pub open spec fn last_gutshot(counts: Seq<bool>, cands: Seq<usize>, n: int) -> int
    decreases n,
{
    if n <= 0 {
        0
    } else if gutshot_at(counts, cands, n - 1) {
        n - 1
    } else {
        last_gutshot(counts, cands, n - 1)
    }
}

/// The highest position below `n` where `board_straight_at` holds, or 0.
pub open spec fn last_board_straight(counts: Seq<bool>, cands: Seq<usize>, n: int) -> int
    decreases n,
{
    if n <= 0 {
        0
    } else if board_straight_at(counts, cands, n - 1) {
        n - 1
    } else {
        last_board_straight(counts, cands, n - 1)
    }
}

/// Whether `open_at` holds somewhere below `n`.
pub open spec fn any_open(counts: Seq<bool>, cands: Seq<usize>, n: int) -> bool {
    exists|i: int| 0 <= i < n && #[trigger] open_at(counts, cands, i)
}

/// Whether `gutshot_at` holds somewhere below `n`.
pub open spec fn any_gutshot(counts: Seq<bool>, cands: Seq<usize>, n: int) -> bool {
    exists|i: int| 0 <= i < n && #[trigger] gutshot_at(counts, cands, i)
}

/// The straight abstraction of held positions and hole-card positions: the
/// highest straight of three to five cards without a gap that uses a hole card,
/// or the highest four-card gutshot draw that uses one if no such straight is
/// longer; none when a higher straight lies on the board alone, when too few
/// cards are still to come, or when neither exists.
pub open spec fn spec_straight_abstraction(counts: Seq<bool>, cands: Seq<usize>, board_len: int) -> Option<StraightAbstraction> {
    let open_len: int = if any_open(counts, cands, 14) {
        let r = straight_run(counts, last_open(counts, cands, 14)) as int;
        if r < 5 {
            r
        } else {
            5
        }
    } else {
        0
    };
    let open_high = last_open(counts, cands, 14);
    let gut_len: int = if any_gutshot(counts, cands, 14) {
        4
    } else {
        0
    };
    let gut_high = last_gutshot(counts, cands, 14);
    let board_high = last_board_straight(counts, cands, 14);
    let best_high = if open_high >= gut_high {
        open_high
    } else {
        gut_high
    };
    let best_len = if gut_len >= open_len {
        gut_len
    } else {
        open_len
    };
    if board_high > best_high {
        None
    } else if 5 - best_len > 5 - board_len {
        None
    } else if gut_len > open_len {
        Some(
            StraightAbstraction {
                bucketed_high_card: spec_bucket_rank(gut_high - 1),
                cards_in_straight: gut_len as u8,
                requires_gutshot: true,
            },
        )
    } else if open_len > 0 {
        Some(
            StraightAbstraction {
                bucketed_high_card: spec_bucket_rank(open_high - 1),
                cards_in_straight: open_len as u8,
                requires_gutshot: false,
            },
        )
    } else {
        None
    }
}

/// The straight abstraction of a hand (see `spec_straight_abstraction`); none
/// before the flop and when every hole card's rank is on the board.
pub open spec fn straight_abstraction_of(hole: Seq<Card>, board: Seq<Card>) -> Option<StraightAbstraction> {
    if board.len() == 0 || straight_candidates(hole, board).len() == 0 {
        None
    } else {
        spec_straight_abstraction(
            straight_positions(hole, board),
            straight_candidates(hole, board),
            board.len() as int,
        )
    }
}

proof fn lemma_last_open(counts: Seq<bool>, cands: Seq<usize>, n: int)
    requires
        n >= 0,
    ensures
        any_open(counts, cands, n) ==> open_at(counts, cands, last_open(counts, cands, n)) && 0
            <= last_open(counts, cands, n) < n,
        !any_open(counts, cands, n) ==> last_open(counts, cands, n) == 0,
    decreases n,
{
    if n > 0 {
        lemma_last_open(counts, cands, n - 1);
        if any_open(counts, cands, n) && !open_at(counts, cands, n - 1) {
            let w = choose|i: int| 0 <= i < n && #[trigger] open_at(counts, cands, i);
            assert(0 <= w < n - 1);
        }
    }
}

proof fn lemma_last_gutshot(counts: Seq<bool>, cands: Seq<usize>, n: int)
    requires
        n >= 0,
    ensures
        any_gutshot(counts, cands, n) ==> 4 <= last_gutshot(counts, cands, n) < n,
        !any_gutshot(counts, cands, n) ==> last_gutshot(counts, cands, n) == 0,
    decreases n,
{
    if n > 0 {
        lemma_last_gutshot(counts, cands, n - 1);
        if any_gutshot(counts, cands, n) && !gutshot_at(counts, cands, n - 1) {
            let w = choose|i: int| 0 <= i < n && #[trigger] gutshot_at(counts, cands, i);
            assert(0 <= w < n - 1);
        }
    }
}

/// Whether a hole-card position lies within `lo..=hi`.
fn any_candidate_between(candidates: &Vec<usize>, lo: usize, hi: usize) -> (b: bool)
    ensures
        b == exists|j: int| 0 <= j < candidates@.len() && lo <= #[trigger] candidates@[j] <= hi,
{
    let mut j: usize = 0;
    while j < candidates.len()
        invariant
            j <= candidates@.len(),
            forall|k: int| 0 <= k < j ==> !(lo <= #[trigger] candidates@[k] <= hi),
        decreases candidates@.len() - j,
    {
        let x = candidates[j];
        if x <= hi && x >= lo {
            return true;
        }
        j = j + 1;
    }
    false
}

/// Marks a hole card's rank position as held; when the board did not hold it,
/// records the position as one the player brings.
fn add_hole_card(rank_counts: &mut Vec<bool>, candidates: &mut Vec<usize>, card: Card)
    requires
        old(rank_counts)@.len() == 14,
    ensures
        final(rank_counts)@ == if old(rank_counts)@[rank_position(card)] {
            old(rank_counts)@
        } else if rank_position(card) == 13 {
            old(rank_counts)@.update(13, true).update(0, true)
        } else {
            old(rank_counts)@.update(rank_position(card), true)
        },
        final(candidates)@ == if old(rank_counts)@[rank_position(card)] {
            old(candidates)@
        } else {
            old(candidates)@.push(rank_position(card) as usize)
        },
{
    let rank_index = (card.rank.to_int() + 1) as usize;
    if !rank_counts[rank_index] {
        candidates.push(rank_index);
        rank_counts.set(rank_index, true);
        if rank_index == 13 {
            rank_counts.set(0, true);
        }
    }
}

/// The held rank positions and the hole cards' own positions.
fn straight_inputs(hole_cards: &[Card; 2], board_cards: &[Card]) -> (res: (Vec<bool>, Vec<usize>))
    ensures
        res.0@ == straight_positions(hole_cards@, board_cards@),
        res.1@ == straight_candidates(hole_cards@, board_cards@),
{
    let mut rank_counts: Vec<bool> = vec![false; 14];
    let mut i: usize = 0;
    while i < board_cards.len()
        invariant
            i <= board_cards@.len(),
            rank_counts@.len() == 14,
            rank_counts@[0] == false,
            forall|k: int| 1 <= k < 14 ==> rank_counts@[k] == board_has_position(board_cards@.take(i as int), k),
        decreases board_cards@.len() - i,
    {
        let idx = (board_cards[i].rank.to_int() + 1) as usize;
        rank_counts.set(idx, true);
        if idx == 14 {
            rank_counts.set(0, true);
        }
        proof {
            let prev = board_cards@.take(i as int);
            let next = board_cards@.take(i + 1);
            assert forall|k: int| 1 <= k < 14 implies rank_counts@[k] == board_has_position(next, k) by {
                assert(next[i as int] == board_cards@[i as int]);
                if board_has_position(prev, k) {
                    let w = choose|w: int| 0 <= w < prev.len() && rank_position(#[trigger] prev[w]) == k;
                    assert(next[w] == prev[w]);
                }
                if board_has_position(next, k) && k != idx {
                    let w = choose|w: int| 0 <= w < next.len() && rank_position(#[trigger] next[w]) == k;
                    assert(prev[w] == next[w]);
                }
            }
        }
        i = i + 1;
    }
    assert(board_cards@.take(board_cards@.len() as int) == board_cards@);
    let ghost board_only = rank_counts@;
    let mut candidate_hole_cards_indeces: Vec<usize> = Vec::with_capacity(2);
    add_hole_card(&mut rank_counts, &mut candidate_hole_cards_indeces, hole_cards[0]);
    add_hole_card(&mut rank_counts, &mut candidate_hole_cards_indeces, hole_cards[1]);
    assert(candidate_hole_cards_indeces@ =~= straight_candidates(hole_cards@, board_cards@));
    assert(rank_counts@ =~= straight_positions(hole_cards@, board_cards@));
    (rank_counts, candidate_hole_cards_indeces)
}

/// The highest straight, or straight draw, that uses a hole card (see
/// `straight_abstraction_of`).
pub fn get_straight_abstraction(hole_cards: &[Card; 2], board_cards: &[Card]) -> (res: Option<StraightAbstraction>)
    requires
        board_cards@.len() <= 5,
    ensures
        res == straight_abstraction_of(hole_cards@, board_cards@),
{
    if board_cards.len() == 0 {
        return None;
    }
    let (rank_counts, candidate_hole_cards_indeces) = straight_inputs(hole_cards, board_cards);
    if candidate_hole_cards_indeces.len() == 0 {
        return None;
    }
    let ghost counts = rank_counts@;
    let ghost cands = candidate_hole_cards_indeces@;
    let mut highest_non_player_straight_card: u8 = 0;
    let mut longest_straight_without_gutshot: u8 = 0;
    let mut openended_high_card: usize = 0;
    let mut longest_straight_with_gutshot: u8 = 0;
    let mut gutshot_high_card: usize = 0;
    let mut in_window: usize = 0;
    let mut consecutive: usize = 0;
    let mut i: usize = 0;
    while i < 4
        invariant
            i <= 4,
            counts == rank_counts@,
            cands == candidate_hole_cards_indeces@,
            counts.len() == 14,
            in_window == window_count(counts, 0, i - 1),
            in_window <= i,
            consecutive == straight_run(counts, i - 1),
            consecutive <= i,
            openended_high_card == last_open(counts, cands, i as int),
            longest_straight_without_gutshot == if any_open(counts, cands, i as int) {
                straight_run(counts, last_open(counts, cands, i as int)) as int
            } else {
                0
            },
            longest_straight_with_gutshot == 0,
            gutshot_high_card == 0,
            highest_non_player_straight_card == 0,
        decreases 4 - i,
    {
        if rank_counts[i] {
            in_window = in_window + 1;
            consecutive = consecutive + 1;
            let lo: usize = if i >= 4 {
                i - 4
            } else {
                0
            };
            if any_candidate_between(&candidate_hole_cards_indeces, lo, i) && consecutive >= 3 {
                longest_straight_without_gutshot = consecutive as u8;
                openended_high_card = i;
            }
        } else {
            consecutive = 0;
        }
        proof {
            lemma_last_open(counts, cands, i as int);
            lemma_last_open(counts, cands, i + 1);
            if any_open(counts, cands, i + 1) && !open_at(counts, cands, i as int) {
                let w = choose|w: int| 0 <= w < i + 1 && #[trigger] open_at(counts, cands, w);
                assert(w < i);
            }
        }
        i = i + 1;
    }
    proof {
        lemma_last_open(counts, cands, 4);
        lemma_run_bound(counts, last_open(counts, cands, 4));
        lemma_last_gutshot(counts, cands, 4);
        lemma_last_board_straight(counts, cands, 4);
    }
    while i < 14
        invariant
            4 <= i <= 14,
            counts == rank_counts@,
            cands == candidate_hole_cards_indeces@,
            counts.len() == 14,
            in_window == window_count(counts, window_start(i as int), i - 1),
            in_window <= 4,
            consecutive == straight_run(counts, i - 1),
            consecutive <= i,
            openended_high_card == last_open(counts, cands, i as int),
            longest_straight_without_gutshot == if any_open(counts, cands, i as int) {
                let r = straight_run(counts, last_open(counts, cands, i as int)) as int;
                if r < 5 {
                    r
                } else {
                    5
                }
            } else {
                0
            },
            gutshot_high_card == last_gutshot(counts, cands, i as int),
            longest_straight_with_gutshot == if any_gutshot(counts, cands, i as int) {
                4int
            } else {
                0
            },
            highest_non_player_straight_card == last_board_straight(counts, cands, i as int),
        decreases 14 - i,
    {
        proof {
            lemma_last_open(counts, cands, i as int);
            lemma_last_open(counts, cands, i + 1);
            lemma_last_gutshot(counts, cands, i as int);
            lemma_last_gutshot(counts, cands, i + 1);
            if any_open(counts, cands, i + 1) && !open_at(counts, cands, i as int) {
                let w = choose|w: int| 0 <= w < i + 1 && #[trigger] open_at(counts, cands, w);
                assert(w < i);
            }
            if any_gutshot(counts, cands, i + 1) && !gutshot_at(counts, cands, i as int) {
                let w = choose|w: int| 0 <= w < i + 1 && #[trigger] gutshot_at(counts, cands, w);
                assert(w < i);
            }
            if i > 4 {
                assert(window_count(counts, i - 4, i - 1) + (if counts[i - 5] { 1int } else { 0 })
                    == window_count(counts, i - 5, i - 1)) by {
                    lemma_window_drop_first(counts, i - 5, i - 1);
                }
            }
        }
        if rank_counts[i] {
            in_window = in_window + 1;
            consecutive = consecutive + 1;
            if any_candidate_between(&candidate_hole_cards_indeces, i - 4, i) {
                if in_window >= 3 && consecutive >= 3 {
                    longest_straight_without_gutshot = if consecutive < 5 {
                        consecutive as u8
                    } else {
                        5
                    };
                    openended_high_card = i;
                } else if in_window == 4 && consecutive < 4 {
                    longest_straight_with_gutshot = 4;
                    gutshot_high_card = i;
                }
            } else if in_window == 5 {
                highest_non_player_straight_card = i as u8;
            }
        } else {
            consecutive = 0;
        }
        proof {
            lemma_window_drop_first(counts, i - 4, i as int);
            lemma_window_bound(counts, i - 3, i as int);
        }
        if rank_counts[i - 4] {
            in_window = in_window - 1;
        }
        i = i + 1;
    }
    let best_high = if openended_high_card >= gutshot_high_card {
        openended_high_card
    } else {
        gutshot_high_card
    };
    if highest_non_player_straight_card as usize > best_high {
        return None;
    }
    let best_len = if longest_straight_with_gutshot >= longest_straight_without_gutshot {
        longest_straight_with_gutshot
    } else {
        longest_straight_without_gutshot
    };
    if 5 - best_len > 5 - board_cards.len() as u8 {
        return None;
    }
    proof {
        lemma_last_open(counts, cands, 14);
        lemma_last_gutshot(counts, cands, 14);
        lemma_run_bound(counts, last_open(counts, cands, 14));
    }
    if longest_straight_with_gutshot > longest_straight_without_gutshot {
        Some(
            StraightAbstraction {
                bucketed_high_card: bucket_rank(gutshot_high_card - 1),
                cards_in_straight: longest_straight_with_gutshot,
                requires_gutshot: true,
            },
        )
    } else if longest_straight_without_gutshot > 0 {
        Some(
            StraightAbstraction {
                bucketed_high_card: bucket_rank(openended_high_card - 1),
                cards_in_straight: longest_straight_without_gutshot,
                requires_gutshot: false,
            },
        )
    } else {
        None
    }
}

proof fn lemma_window_drop_first(counts: Seq<bool>, lo: int, i: int)
    requires
        0 <= lo <= i + 1,
        i < counts.len(),
    ensures
        window_count(counts, lo, i) == window_count(counts, lo + 1, i) + if lo <= i && counts[lo] {
            1nat
        } else {
            0nat
        },
    decreases i - lo,
{
    if i > lo {
        lemma_window_drop_first(counts, lo, i - 1);
    } else if i == lo {
        assert(window_count(counts, lo, lo - 1) == 0);
        assert(window_count(counts, lo + 1, lo) == 0);
    }
}

proof fn lemma_window_bound(counts: Seq<bool>, lo: int, i: int)
    requires
        0 <= lo,
    ensures
        window_count(counts, lo, i) <= if i >= lo {
            i - lo + 1
        } else {
            0
        },
    decreases i - lo + 1,
{
    if i >= lo {
        lemma_window_bound(counts, lo, i - 1);
    }
}

proof fn lemma_run_bound(counts: Seq<bool>, i: int)
    requires
        i >= -1,
    ensures
        straight_run(counts, i) <= i + 1,
    decreases i + 1,
{
    if i >= 0 && counts[i] {
        lemma_run_bound(counts, i - 1);
    }
}

proof fn lemma_last_board_straight(counts: Seq<bool>, cands: Seq<usize>, n: int)
    requires
        0 <= n <= 4,
    ensures
        last_board_straight(counts, cands, n) == 0,
    decreases n,
{
    if n > 0 {
        lemma_last_board_straight(counts, cands, n - 1);
    }
}


/// Abstraction of a flush or flush draw (part of the game abstraction).
#[derive(Debug, PartialEq, Eq, Structural, Clone, Copy)]
pub struct FlushAbstraction {
    /// 0 for the nut flush, 1 for the second or third nut flush, 2 for worse.
    pub flush_score: u8,
    /// How many cards of the suit are still needed.
    pub cards_to_draw: u8,
}

impl FlushAbstraction {
    /// The score in bits 2 and up, the number of cards to draw plus one in the
    /// low bits (so that a flush never serialises to zero).
    pub fn serialise(&self) -> (b: u8)
        requires
            self.cards_to_draw < 255,
        ensures
            b == (self.flush_score << 2u8) | ((self.cards_to_draw + 1) as u8),
    {
        (self.flush_score << 2u8) | (self.cards_to_draw + 1)
    }

    pub fn deserialise(serialised: &u8) -> (f: FlushAbstraction)
        requires
            *serialised & 0b11u8 != 0,
        ensures
            f.flush_score == (*serialised >> 2u8) & 0b11u8,
            f.cards_to_draw == (*serialised & 0b11u8) - 1,
    {
        FlushAbstraction {
            flush_score: (*serialised >> 2u8) & 0b11u8,
            cards_to_draw: (*serialised & 0b11u8) - 1,
        }
    }
}

/// A flush abstraction with a score below 4 and fewer than 3 cards to draw is
/// read back from its byte unchanged.
pub proof fn lemma_flush_roundtrip(f: FlushAbstraction)
    requires
        f.flush_score < 4,
        f.cards_to_draw < 3,
    ensures
        ({
            let b: u8 = (f.flush_score << 2u8) | ((f.cards_to_draw + 1) as u8);
            &&& b & 0b11u8 != 0
            &&& (b >> 2u8) & 0b11u8 == f.flush_score
            &&& (b & 0b11u8) - 1 == f.cards_to_draw
        }),
{
    let s = f.flush_score;
    let c: u8 = (f.cards_to_draw + 1) as u8;
    assert(s < 4 && 1 <= c < 4 ==> ((s << 2u8) | c) & 0b11u8 == c && (((s << 2u8) | c) >> 2u8)
        & 0b11u8 == s) by (bit_vector);
}

/// How many cards of `board` have suit number `suit`.
pub open spec fn suit_count(board: Seq<Card>, suit: int) -> nat
    decreases board.len(),
{
    if board.len() == 0 {
        0
    } else {
        suit_count(board.drop_last(), suit) + if board.last().suit.spec_to_int() == suit {
            1nat
        } else {
            0nat
        }
    }
}

/// How many cards of `board` have suit number `suit` and a rank number above
/// `rank`.
pub open spec fn suit_count_above(board: Seq<Card>, suit: int, rank: int) -> nat
    decreases board.len(),
{
    if board.len() == 0 {
        0
    } else {
        suit_count_above(board.drop_last(), suit, rank) + if board.last().suit.spec_to_int() == suit
            && board.last().rank.spec_to_int() > rank {
            1nat
        } else {
            0nat
        }
    }
}

/// The cards of a suit among the hole and board cards together.
pub open spec fn flush_suit_count(hole: Seq<Card>, board: Seq<Card>, suit: int) -> int {
    suit_count(board, suit) + (if hole[0].suit.spec_to_int() == suit {
        1int
    } else {
        0int
    }) + (if hole[1].suit.spec_to_int() == suit {
        1int
    } else {
        0int
    })
}

/// The player's flush suit: that of the first hole card when it holds strictly
/// more cards, else that of the second.
pub open spec fn flush_suit(hole: Seq<Card>, board: Seq<Card>) -> int {
    let s0 = hole[0].suit.spec_to_int() as int;
    let s1 = hole[1].suit.spec_to_int() as int;
    if flush_suit_count(hole, board, s0) > flush_suit_count(hole, board, s1) {
        s0
    } else {
        s1
    }
}

/// The cards still to draw to the player's flush.
pub open spec fn flush_cards_to_draw(hole: Seq<Card>, board: Seq<Card>) -> int {
    let c = flush_suit_count(hole, board, flush_suit(hole, board));
    5 - if c < 5 {
        c
    } else {
        5
    }
}

/// Whether the flush search gets as far as scoring a flush.
pub open spec fn flush_is_scored(hole: Seq<Card>, board: Seq<Card>) -> bool {
    &&& board.len() > 0
    &&& flush_cards_to_draw(hole, board) < 3
    &&& flush_cards_to_draw(hole, board) <= 5 - board.len()
}

/// The rank number of the hole card that scores the flush: the second hole
/// card's when the flush is in its suit, else the first's.
pub open spec fn flush_rank(hole: Seq<Card>, board: Seq<Card>) -> int {
    if flush_suit(hole, board) == hole[1].suit.spec_to_int() {
        hole[1].rank.spec_to_int() as int
    } else {
        hole[0].rank.spec_to_int() as int
    }
}

/// The board cards of the flush suit that outrank the scoring hole card.
pub open spec fn flush_board_above(hole: Seq<Card>, board: Seq<Card>) -> int {
    suit_count_above(board, flush_suit(hole, board), flush_rank(hole, board)) as int
}

/// The inputs on which the flush abstraction is defined: at most five board
/// cards, and no more board cards of the flush suit above the scoring hole card
/// than there are ranks above it.
pub open spec fn flush_abstraction_defined(hole: Seq<Card>, board: Seq<Card>) -> bool {
    &&& board.len() <= 5
    &&& flush_is_scored(hole, board) ==> flush_board_above(hole, board) <= 12 - flush_rank(hole, board)
}

/// The flush abstraction of a hand: none before the flop, or when three or more
/// cards are still needed, or more than the cards still to come; else the
/// cards to draw and a score by how many unseen cards of the suit outrank the
/// scoring hole card (0 for none, 1 for one or two, 2 for more).
pub open spec fn flush_abstraction_of(hole: Seq<Card>, board: Seq<Card>) -> Option<FlushAbstraction> {
    if !flush_is_scored(hole, board) {
        None
    } else {
        let missing = 12 - flush_rank(hole, board) - flush_board_above(hole, board);
        Some(
            FlushAbstraction {
                flush_score: if missing == 0 {
                    0u8
                } else if missing <= 2 {
                    1u8
                } else {
                    2u8
                },
                cards_to_draw: flush_cards_to_draw(hole, board) as u8,
            },
        )
    }
}

proof fn lemma_suit_count_concat(a: Seq<Card>, b: Seq<Card>, s: int)
    ensures
        suit_count(a + b, s) == suit_count(a, s) + suit_count(b, s),
    decreases b.len(),
{
    if b.len() == 0 {
        assert(a + b == a);
    } else {
        lemma_suit_count_concat(a, b.drop_last(), s);
        assert((a + b).drop_last() == a + b.drop_last());
        assert((a + b).last() == b.last());
    }
}

/// With suited hole cards, the flush abstraction goes by how many of the hole
/// and board cards have their suit: with at least three of them, and no fewer
/// than the board cards (so that the missing ones can still come), it is a
/// flush or draw needing the cards missing to five; with fewer than three, or
/// too few for the cards still to come, there is none.
pub proof fn lemma_suited_flush_draw(hole: Seq<Card>, board: Seq<Card>)
    requires
        hole.len() == 2,
        hole[0].suit == hole[1].suit,
        1 <= board.len() <= 5,
    ensures
        ({
            let n = suit_count(hole + board, hole[0].suit.spec_to_int() as int);
            &&& (flush_abstraction_of(hole, board) is Some) == (n >= 3 && n >= board.len())
            &&& flush_abstraction_of(hole, board) matches Some(f) ==> f.cards_to_draw == 5 - if n < 5 {
                n
            } else {
                5
            }
        }),
{
    let s = hole[0].suit.spec_to_int() as int;
    lemma_suit_count_concat(hole, board, s);
    let h1 = hole.drop_last();
    assert(h1.drop_last().len() == 0);
    assert(suit_count(h1.drop_last(), s) == 0);
    assert(h1.last() == hole[0]);
    assert(hole.last() == hole[1]);
    assert(suit_count(h1, s) == 1);
    assert(suit_count(hole, s) == 2);
    assert(flush_suit(hole, board) == s);
}

/// The player's flush or flush draw (see `flush_abstraction_of`). A higher
/// flush on the board is not looked for.
pub fn get_flush_abstraction(hole_cards: &[Card; 2], board_cards: &[Card]) -> (res: Option<FlushAbstraction>)
    requires
        flush_abstraction_defined(hole_cards@, board_cards@),
    ensures
        res == flush_abstraction_of(hole_cards@, board_cards@),
{
    if board_cards.len() == 0 {
        return None;
    }
    let mut suit_counts: Vec<usize> = vec![0, 0, 0, 0];
    let mut player_has_suit: Vec<bool> = vec![false, false, false, false];
    let mut i: usize = 0;
    while i < board_cards.len()
        invariant
            i <= board_cards@.len() <= 5,
            suit_counts@.len() == 4,
            player_has_suit@ == seq![false, false, false, false],
            forall|s: int| 0 <= s < 4 ==> suit_counts@[s] == suit_count(board_cards@.take(i as int), s),
        decreases board_cards@.len() - i,
    {
        let idx = board_cards[i].suit.to_int() as usize;
        proof {
            assert(board_cards@.take(i + 1).drop_last() == board_cards@.take(i as int));
            assert forall|s: int| 0 <= s < 4 implies suit_count(board_cards@.take(i as int), s) <= i by {
                lemma_suit_count_bound(board_cards@.take(i as int), s);
            }
        }
        suit_counts.set(idx, suit_counts[idx] + 1);
        i = i + 1;
    }
    assert(board_cards@.take(board_cards@.len() as int) == board_cards@);
    let mut h: usize = 0;
    while h < 2
        invariant
            h <= 2,
            board_cards@.len() <= 5,
            suit_counts@.len() == 4,
            player_has_suit@.len() == 4,
            forall|s: int|
                0 <= s < 4 ==> suit_counts@[s] == suit_count(board_cards@, s) + (if h > 0
                    && hole_cards@[0].suit.spec_to_int() == s {
                    1int
                } else {
                    0int
                }) + (if h > 1 && hole_cards@[1].suit.spec_to_int() == s {
                    1int
                } else {
                    0int
                }),
            forall|s: int|
                0 <= s < 4 ==> player_has_suit@[s] == ((h > 0 && hole_cards@[0].suit.spec_to_int() == s)
                    || (h > 1 && hole_cards@[1].suit.spec_to_int() == s)),
        decreases 2 - h,
    {
        let idx = hole_cards[h].suit.to_int() as usize;
        proof {
            lemma_suit_count_bound(board_cards@, idx as int);
        }
        suit_counts.set(idx, suit_counts[idx] + 1);
        player_has_suit.set(idx, true);
        h = h + 1;
    }
    let second_suit = hole_cards[1].suit.to_int() as usize;
    let mut most_flush_count_player: usize = suit_counts[second_suit];
    let mut most_flush_suit_player: usize = second_suit;
    let ghost s0 = hole_cards@[0].suit.spec_to_int() as int;
    let ghost s1 = hole_cards@[1].suit.spec_to_int() as int;
    let mut k: usize = 0;
    while k < 4
        invariant
            k <= 4,
            suit_counts@.len() == 4,
            player_has_suit@.len() == 4,
            forall|s: int| 0 <= s < 4 ==> suit_counts@[s] == flush_suit_count(hole_cards@, board_cards@, s),
            forall|s: int| 0 <= s < 4 ==> player_has_suit@[s] == (s == s0 || s == s1),
            most_flush_suit_player == if flush_suit_count(hole_cards@, board_cards@, s0)
                > flush_suit_count(hole_cards@, board_cards@, s1) && s0 < k {
                s0
            } else {
                s1
            },
            most_flush_count_player == flush_suit_count(hole_cards@, board_cards@, most_flush_suit_player as int),
        decreases 4 - k,
    {
        if player_has_suit[k] && suit_counts[k] > most_flush_count_player {
            most_flush_count_player = suit_counts[k];
            most_flush_suit_player = k;
        }
        k = k + 1;
    }
    assert(most_flush_suit_player == flush_suit(hole_cards@, board_cards@));
    let capped: usize = if most_flush_count_player < 5 {
        most_flush_count_player
    } else {
        5
    };
    let cards_to_draw: usize = 5 - capped;
    if cards_to_draw >= 3 || cards_to_draw > 5 - board_cards.len() {
        return None;
    }
    let matches_players_high_card = most_flush_suit_player == hole_cards[1].suit.to_int() as usize;
    let most_flushing_player_rank: u8 = if matches_players_high_card {
        hole_cards[1].rank.to_int()
    } else {
        hole_cards[0].rank.to_int()
    };
    let ghost fsuit = most_flush_suit_player as int;
    let ghost frank = most_flushing_player_rank as int;
    let mut beating_player_card: u8 = 0;
    let mut j: usize = 0;
    while j < board_cards.len()
        invariant
            j <= board_cards@.len() <= 5,
            fsuit == most_flush_suit_player,
            frank == most_flushing_player_rank,
            beating_player_card == suit_count_above(board_cards@.take(j as int), fsuit, frank),
        decreases board_cards@.len() - j,
    {
        proof {
            assert(board_cards@.take(j + 1).drop_last() == board_cards@.take(j as int));
            lemma_suit_count_above_bound(board_cards@.take(j as int), fsuit, frank);
        }
        let card = board_cards[j];
        if card.suit.to_int() as usize == most_flush_suit_player && card.rank.to_int()
            > most_flushing_player_rank {
            beating_player_card = beating_player_card + 1;
        }
        j = j + 1;
    }
    assert(board_cards@.take(board_cards@.len() as int) == board_cards@);
    let missing_cards_that_beat_player: u8 = 12 - most_flushing_player_rank - beating_player_card;
    let player_flush_score: u8 = if missing_cards_that_beat_player == 0 {
        0
    } else if missing_cards_that_beat_player <= 2 {
        1
    } else {
        2
    };
    if most_flush_count_player >= 3 {
        return Some(
            FlushAbstraction { flush_score: player_flush_score, cards_to_draw: cards_to_draw as u8 },
        );
    }
    None
}

proof fn lemma_suit_count_bound(board: Seq<Card>, suit: int)
    ensures
        suit_count(board, suit) <= board.len(),
    decreases board.len(),
{
    if board.len() > 0 {
        lemma_suit_count_bound(board.drop_last(), suit);
    }
}

proof fn lemma_suit_count_above_bound(board: Seq<Card>, suit: int, rank: int)
    ensures
        suit_count_above(board, suit, rank) <= board.len(),
    decreases board.len(),
{
    if board.len() > 0 {
        lemma_suit_count_above_bound(board.drop_last(), suit, rank);
    }
}


/// A pair made with a hole card: 0 for top pair, 1 for second pair, 2 for
/// third or lower.
#[derive(Debug, PartialEq, Eq, Structural, Clone, Copy)]
pub struct PairAbstraction {
    pub pair_order_score: u8,
}

/// Two pair made with the hole cards, scored by the higher pair as a pair is.
#[derive(Debug, PartialEq, Eq, Structural, Clone, Copy)]
pub struct TwoPairAbstraction {
    pub two_pair_order_score: u8,
}

/// Three of a kind made with a hole card, scored as a pair is.
#[derive(Debug, PartialEq, Eq, Structural, Clone, Copy)]
pub struct ThreeOfAKindAbstraction {
    pub toak_order_score: u8,
}

/// A full house made with the hole cards: whether the three cards outrank the
/// pair.
#[derive(Debug, PartialEq, Eq, Structural, Clone, Copy)]
pub struct FullHouseAbstraction {
    pub high_card_is_house: bool,
}

/// How far the hole cards connect with the board. The board's own pairs are
/// described by the board abstraction.
#[derive(Debug, PartialEq, Eq, Structural, Clone, Copy)]
pub enum ConnectedCardsAbstraction {
    Pair(PairAbstraction),
    TwoPair(TwoPairAbstraction),
    ThreeOfAKind(ThreeOfAKindAbstraction),
    FullHouse(FullHouseAbstraction),
    FourOfAKind,
}

/// The byte of a connected-cards abstraction: the kind (1 to 5) in the high four
/// bits and its score in the low four; four of a kind is the byte 5.
pub open spec fn connected_byte(c: ConnectedCardsAbstraction) -> u8 {
    match c {
        ConnectedCardsAbstraction::Pair(p) => (16u8 | p.pair_order_score) as u8,
        ConnectedCardsAbstraction::TwoPair(t) => (32u8 | t.two_pair_order_score) as u8,
        ConnectedCardsAbstraction::ThreeOfAKind(t) => (48u8 | t.toak_order_score) as u8,
        ConnectedCardsAbstraction::FullHouse(f) => (64u8 | if f.high_card_is_house {
            1u8
        } else {
            0u8
        }) as u8,
        ConnectedCardsAbstraction::FourOfAKind => 5u8,
    }
}

/// Whether a byte is one that `ConnectedCardsAbstraction::deserialise` reads.
pub open spec fn readable_connected_byte(b: u8) -> bool {
    1 <= (b >> 4u8) <= 5
}

/// The connected-cards abstraction a byte stands for.
pub open spec fn byte_connected(b: u8) -> ConnectedCardsAbstraction {
    let kind = b >> 4u8;
    let low = b & 0b1111u8;
    if kind == 1 {
        ConnectedCardsAbstraction::Pair(PairAbstraction { pair_order_score: low })
    } else if kind == 2 {
        ConnectedCardsAbstraction::TwoPair(TwoPairAbstraction { two_pair_order_score: low })
    } else if kind == 3 {
        ConnectedCardsAbstraction::ThreeOfAKind(ThreeOfAKindAbstraction { toak_order_score: low })
    } else if kind == 4 {
        ConnectedCardsAbstraction::FullHouse(FullHouseAbstraction { high_card_is_house: (b & 1u8) == 1u8 })
    } else {
        ConnectedCardsAbstraction::FourOfAKind
    }
}

impl ConnectedCardsAbstraction {
    pub fn serialise(&self) -> (b: u8)
        ensures
            b == connected_byte(*self),
    {
        match self {
            ConnectedCardsAbstraction::Pair(p) => 16u8 | p.pair_order_score,
            ConnectedCardsAbstraction::TwoPair(tp) => 32u8 | tp.two_pair_order_score,
            ConnectedCardsAbstraction::ThreeOfAKind(toak) => 48u8 | toak.toak_order_score,
            ConnectedCardsAbstraction::FullHouse(fh) => 64u8 | if fh.high_card_is_house {
                1u8
            } else {
                0u8
            },
            ConnectedCardsAbstraction::FourOfAKind => 5,
        }
    }

    pub fn deserialise(serialised: &u8) -> (c: ConnectedCardsAbstraction)
        requires
            readable_connected_byte(*serialised),
        ensures
            c == byte_connected(*serialised),
    {
        let kind = *serialised >> 4u8;
        if kind == 1 {
            ConnectedCardsAbstraction::Pair(PairAbstraction { pair_order_score: *serialised & 0b1111u8 })
        } else if kind == 2 {
            ConnectedCardsAbstraction::TwoPair(
                TwoPairAbstraction { two_pair_order_score: *serialised & 0b1111u8 },
            )
        } else if kind == 3 {
            ConnectedCardsAbstraction::ThreeOfAKind(
                ThreeOfAKindAbstraction { toak_order_score: *serialised & 0b1111u8 },
            )
        } else if kind == 4 {
            ConnectedCardsAbstraction::FullHouse(
                FullHouseAbstraction { high_card_is_house: (*serialised & 0b1u8) == 1u8 },
            )
        } else {
            ConnectedCardsAbstraction::FourOfAKind
        }
    }
}

/// Whether every score of a connected-cards abstraction fits in four bits.
pub open spec fn connected_scores_fit(c: ConnectedCardsAbstraction) -> bool {
    match c {
        ConnectedCardsAbstraction::Pair(p) => p.pair_order_score < 16,
        ConnectedCardsAbstraction::TwoPair(t) => t.two_pair_order_score < 16,
        ConnectedCardsAbstraction::ThreeOfAKind(t) => t.toak_order_score < 16,
        _ => true,
    }
}

/// Every pair, two pair, three of a kind (scores below 16), full house and
/// four of a kind is read back from its byte unchanged, with one exception: a
/// four of a kind serialises to 5, which reads back as nothing that was
/// written (its kind bits are 0).
pub proof fn lemma_connected_roundtrip(c: ConnectedCardsAbstraction)
    requires
        connected_scores_fit(c),
        !(c is FourOfAKind),
    ensures
        readable_connected_byte(connected_byte(c)),
        byte_connected(connected_byte(c)) == c,
{
    match c {
        ConnectedCardsAbstraction::Pair(p) => {
            let x = p.pair_order_score;
            assert(x < 16 ==> (16u8 | x) >> 4u8 == 1 && (16u8 | x) & 0b1111u8 == x) by (bit_vector);
        },
        ConnectedCardsAbstraction::TwoPair(t) => {
            let x = t.two_pair_order_score;
            assert(x < 16 ==> (32u8 | x) >> 4u8 == 2 && (32u8 | x) & 0b1111u8 == x) by (bit_vector);
        },
        ConnectedCardsAbstraction::ThreeOfAKind(t) => {
            let x = t.toak_order_score;
            assert(x < 16 ==> (48u8 | x) >> 4u8 == 3 && (48u8 | x) & 0b1111u8 == x) by (bit_vector);
        },
        ConnectedCardsAbstraction::FullHouse(f) => {
            assert((64u8 | 1u8) >> 4u8 == 4 && (64u8 | 1u8) & 1u8 == 1u8) by (bit_vector);
            assert((64u8 | 0u8) >> 4u8 == 4 && (64u8 | 0u8) & 1u8 == 0u8) by (bit_vector);
        },
        ConnectedCardsAbstraction::FourOfAKind => {},
    }
}

/// How many of `cards` have rank number `rank`.
pub open spec fn rank_count_in(cards: Seq<Card>, rank: int) -> nat
    decreases cards.len(),
{
    if cards.len() == 0 {
        0
    } else {
        rank_count_in(cards.drop_last(), rank) + if cards.last().rank.spec_to_int() == rank {
            1nat
        } else {
            0nat
        }
    }
}

/// How many cards of a rank the player holds with the board: the hole cards of
/// that rank and the board's, or 0 when no hole card has the rank.
pub open spec fn connected_count(hole: Seq<Card>, board: Seq<Card>, rank: int) -> nat {
    let h = rank_count_in(hole, rank);
    if h > 0 {
        h + rank_count_in(board, rank)
    } else {
        0
    }
}

/// Whether some board card has rank number `rank`.
pub open spec fn board_has_rank(board: Seq<Card>, rank: int) -> bool {
    exists|i: int| 0 <= i < board.len() && (#[trigger] board[i]).rank.spec_to_int() == rank
}

/// How many ranks from `lo` up to the ace have connected count `c`.
pub open spec fn ranks_with_count_from(hole: Seq<Card>, board: Seq<Card>, c: nat, lo: int) -> nat
    decreases 13 - lo,
{
    if lo >= 13 || lo < 0 {
        0
    } else {
        ranks_with_count_from(hole, board, c, lo + 1) + if connected_count(hole, board, lo) == c {
            1nat
        } else {
            0nat
        }
    }
}

/// The highest rank from `lo` up with connected count `c`, or -1.
pub open spec fn top_with_count_from(hole: Seq<Card>, board: Seq<Card>, c: nat, lo: int) -> int
    decreases 13 - lo,
{
    if lo >= 13 || lo < 0 {
        -1
    } else if top_with_count_from(hole, board, c, lo + 1) >= 0 {
        top_with_count_from(hole, board, c, lo + 1)
    } else if connected_count(hole, board, lo) == c {
        lo
    } else {
        -1
    }
}

/// How many distinct board ranks lie from `lo` up.
pub open spec fn board_ranks_from(board: Seq<Card>, lo: int) -> nat
    decreases 13 - lo,
{
    if lo >= 13 || lo < 0 {
        0
    } else {
        board_ranks_from(board, lo + 1) + if board_has_rank(board, lo) {
            1nat
        } else {
            0nat
        }
    }
}

/// The order score of the highest rank with connected count `c`: how many
/// distinct board ranks lie above it, at most 2.
pub open spec fn order_score(hole: Seq<Card>, board: Seq<Card>, c: nat) -> u8 {
    let above = board_ranks_from(board, top_with_count_from(hole, board, c, 0) + 1);
    if above < 2 {
        above as u8
    } else {
        2
    }
}

/// The inputs on which the connected-cards abstraction is defined: no rank is
/// held five or more times.
pub open spec fn connected_abstraction_defined(hole: Seq<Card>, board: Seq<Card>) -> bool {
    forall|r: int| 0 <= r < 13 ==> #[trigger] connected_count(hole, board, r) <= 4
}

/// The connected-cards abstraction of a hand: none before the flop; else four
/// of a kind if some rank is held four times, a full house if some rank is
/// held three times and another twice (the house high when the three outrank
/// the two), three of a kind, two pair, a pair, or none.
pub open spec fn connected_abstraction_of(hole: Seq<Card>, board: Seq<Card>) -> Option<ConnectedCardsAbstraction> {
    let pairs = ranks_with_count_from(hole, board, 2, 0);
    let toaks = ranks_with_count_from(hole, board, 3, 0);
    let quads = ranks_with_count_from(hole, board, 4, 0);
    if board.len() == 0 {
        None
    } else if quads > 0 {
        Some(ConnectedCardsAbstraction::FourOfAKind)
    } else if toaks > 0 && pairs > 0 {
        Some(
            ConnectedCardsAbstraction::FullHouse(
                FullHouseAbstraction {
                    high_card_is_house: top_with_count_from(hole, board, 2, 0) < top_with_count_from(
                        hole,
                        board,
                        3,
                        0,
                    ),
                },
            ),
        )
    } else if toaks > 0 {
        Some(
            ConnectedCardsAbstraction::ThreeOfAKind(
                ThreeOfAKindAbstraction { toak_order_score: order_score(hole, board, 3) },
            ),
        )
    } else if pairs > 1 {
        Some(
            ConnectedCardsAbstraction::TwoPair(
                TwoPairAbstraction { two_pair_order_score: order_score(hole, board, 2) },
            ),
        )
    } else if pairs > 0 {
        Some(ConnectedCardsAbstraction::Pair(PairAbstraction { pair_order_score: order_score(hole, board, 2) }))
    } else {
        None
    }
}

/// How the hole cards connect with the board (see `connected_abstraction_of`).
pub fn get_connected_card_abstraction(hole_cards: &[Card; 2], board_cards: &[Card]) -> (res: Option<ConnectedCardsAbstraction>)
    requires
        connected_abstraction_defined(hole_cards@, board_cards@),
    ensures
        res == connected_abstraction_of(hole_cards@, board_cards@),
{
    if board_cards.len() == 0 {
        return None;
    }
    let (rank_counts, board_has) = connected_inputs(hole_cards, board_cards);
    let mut highest_pair_rank: usize = 0;
    let mut highest_toak_rank: usize = 0;
    let mut seen_so_far_pair: usize = 30;
    let mut seen_so_far_toak: usize = 30;
    let mut seen_so_far: usize = 0;
    let mut counts: Vec<u8> = vec![0, 0, 0];
    let ghost hole = hole_cards@;
    let ghost board = board_cards@;
    let mut i: usize = 13;
    while i > 0
        invariant
            i <= 13,
            rank_counts@.len() == 13,
            board_has@.len() == 13,
            counts@.len() == 3,
            forall|r: int| 0 <= r < 13 ==> #[trigger] rank_counts@[r] == connected_count(hole, board, r),
            forall|r: int| 0 <= r < 13 ==> #[trigger] board_has@[r] == board_has_rank(board, r),
            connected_abstraction_defined(hole, board),
            seen_so_far == board_ranks_from(board, i as int),
            seen_so_far <= 13 - i,
            counts@[0] == ranks_with_count_from(hole, board, 2, i as int),
            counts@[1] == ranks_with_count_from(hole, board, 3, i as int),
            counts@[2] == ranks_with_count_from(hole, board, 4, i as int),
            counts@[0] <= 13 - i && counts@[1] <= 13 - i && counts@[2] <= 13 - i,
            highest_pair_rank == top_with_count_from(hole, board, 2, i as int) + 1,
            highest_toak_rank == top_with_count_from(hole, board, 3, i as int) + 1,
            seen_so_far_pair == if top_with_count_from(hole, board, 2, i as int) >= 0 {
                board_ranks_from(board, top_with_count_from(hole, board, 2, i as int) + 1) as int
            } else {
                30
            },
            seen_so_far_toak == if top_with_count_from(hole, board, 3, i as int) >= 0 {
                board_ranks_from(board, top_with_count_from(hole, board, 3, i as int) + 1) as int
            } else {
                30
            },
        decreases i,
    {
        i = i - 1;
        let rank_count = rank_counts[i];
        proof {
            lemma_board_ranks_bound(board, i + 1);
            lemma_top_with_count_range(hole, board, 2, i + 1);
            lemma_top_with_count_range(hole, board, 3, i + 1);
            if top_with_count_from(hole, board, 2, i + 1) >= 0 {
                lemma_board_ranks_monotone(board, i + 1, top_with_count_from(hole, board, 2, i + 1) + 1);
            }
            if top_with_count_from(hole, board, 3, i + 1) >= 0 {
                lemma_board_ranks_monotone(board, i + 1, top_with_count_from(hole, board, 3, i + 1) + 1);
            }
            assert(connected_count(hole, board, i as int) <= 4);
        }
        if rank_count == 2 {
            highest_pair_rank = if highest_pair_rank > i + 1 {
                highest_pair_rank
            } else {
                i + 1
            };
            seen_so_far_pair = if seen_so_far_pair < seen_so_far {
                seen_so_far_pair
            } else {
                seen_so_far
            };
        } else if rank_count == 3 {
            highest_toak_rank = if highest_toak_rank > i + 1 {
                highest_toak_rank
            } else {
                i + 1
            };
            seen_so_far_toak = if seen_so_far_toak < seen_so_far {
                seen_so_far_toak
            } else {
                seen_so_far
            };
        }
        if rank_count > 1 {
            let slot = (rank_count - 2) as usize;
            counts.set(slot, counts[slot] + 1);
        }
        if board_has[i] {
            seen_so_far = seen_so_far + 1;
        }
    }
    proof {
        lemma_top_with_count_range(hole, board, 2, 0);
        lemma_top_with_count_range(hole, board, 3, 0);
    }
    if counts[2] > 0 {
        Some(ConnectedCardsAbstraction::FourOfAKind)
    } else if counts[1] > 0 && counts[0] > 0 {
        Some(
            ConnectedCardsAbstraction::FullHouse(
                FullHouseAbstraction { high_card_is_house: highest_pair_rank < highest_toak_rank },
            ),
        )
    } else if counts[1] > 0 {
        Some(
            ConnectedCardsAbstraction::ThreeOfAKind(
                ThreeOfAKindAbstraction {
                    toak_order_score: if seen_so_far_toak < 2 {
                        seen_so_far_toak as u8
                    } else {
                        2
                    },
                },
            ),
        )
    } else if counts[0] > 1 {
        Some(
            ConnectedCardsAbstraction::TwoPair(
                TwoPairAbstraction {
                    two_pair_order_score: if seen_so_far_pair < 2 {
                        seen_so_far_pair as u8
                    } else {
                        2
                    },
                },
            ),
        )
    } else if counts[0] > 0 {
        Some(
            ConnectedCardsAbstraction::Pair(
                PairAbstraction {
                    pair_order_score: if seen_so_far_pair < 2 {
                        seen_so_far_pair as u8
                    } else {
                        2
                    },
                },
            ),
        )
    } else {
        None
    }
}

/// The connected count of every rank, and whether the board holds it.
fn connected_inputs(hole_cards: &[Card; 2], board_cards: &[Card]) -> (res: (Vec<u8>, Vec<bool>))
    requires
        connected_abstraction_defined(hole_cards@, board_cards@),
    ensures
        res.0@.len() == 13,
        res.1@.len() == 13,
        forall|r: int| 0 <= r < 13 ==> #[trigger] res.0@[r] == connected_count(hole_cards@, board_cards@, r),
        forall|r: int| 0 <= r < 13 ==> #[trigger] res.1@[r] == board_has_rank(board_cards@, r),
{
    let mut rank_counts: Vec<u8> = vec![0u8; 13];
    let mut board_has: Vec<bool> = vec![false; 13];
    let ghost hole = hole_cards@;
    let ghost board = board_cards@;
    let mut h: usize = 0;
    while h < 2
        invariant
            h <= 2,
            hole == hole_cards@,
            rank_counts@.len() == 13,
            board_has@ == Seq::new(13, |r: int| false),
            forall|r: int| 0 <= r < 13 ==> #[trigger] rank_counts@[r] == rank_count_in(hole.take(h as int), r),
        decreases 2 - h,
    {
        let idx = hole_cards[h].rank.to_int() as usize;
        proof {
            assert(hole.take(h + 1).drop_last() == hole.take(h as int));
            assert forall|r: int| 0 <= r < 13 implies rank_count_in(hole.take(h as int), r) <= h by {
                lemma_rank_count_bound(hole.take(h as int), r);
            }
        }
        rank_counts.set(idx, rank_counts[idx] + 1);
        h = h + 1;
    }
    assert(hole.take(2) == hole);
    let mut i: usize = 0;
    while i < board_cards.len()
        invariant
            i <= board.len(),
            board == board_cards@,
            rank_counts@.len() == 13,
            board_has@.len() == 13,
            connected_abstraction_defined(hole, board),
            forall|r: int|
                0 <= r < 13 ==> #[trigger] rank_counts@[r] == if rank_count_in(hole, r) > 0 {
                    rank_count_in(hole, r) + rank_count_in(board.take(i as int), r)
                } else {
                    0
                },
            forall|r: int| 0 <= r < 13 ==> #[trigger] board_has@[r] == board_has_rank(board.take(i as int), r),
        decreases board.len() - i,
    {
        let idx = board_cards[i].rank.to_int() as usize;
        proof {
            let prev = board.take(i as int);
            let next = board.take(i + 1);
            assert(next.drop_last() == prev);
            lemma_rank_count_prefix(board, i + 1, idx as int);
            assert(connected_count(hole, board, idx as int) <= 4);
        }
        if rank_counts[idx] > 0 {
            rank_counts.set(idx, rank_counts[idx] + 1);
        }
        board_has.set(idx, true);
        proof {
            let prev = board.take(i as int);
            let next = board.take(i + 1);
            assert forall|r: int| 0 <= r < 13 implies #[trigger] board_has@[r] == board_has_rank(next, r) by {
                assert(next[i as int] == board[i as int]);
                if board_has_rank(prev, r) {
                    let w = choose|w: int| 0 <= w < prev.len() && (#[trigger] prev[w]).rank.spec_to_int() == r;
                    assert(next[w] == prev[w]);
                }
                if board_has_rank(next, r) && r != idx {
                    let w = choose|w: int| 0 <= w < next.len() && (#[trigger] next[w]).rank.spec_to_int() == r;
                    assert(prev[w] == next[w]);
                }
            }
        }
        i = i + 1;
    }
    assert(board.take(board.len() as int) == board);
    (rank_counts, board_has)
}

proof fn lemma_rank_count_bound(cards: Seq<Card>, rank: int)
    ensures
        rank_count_in(cards, rank) <= cards.len(),
    decreases cards.len(),
{
    if cards.len() > 0 {
        lemma_rank_count_bound(cards.drop_last(), rank);
    }
}

/// The count over a longer prefix is at least that over a shorter one.
proof fn lemma_rank_count_prefix(cards: Seq<Card>, n: int, rank: int)
    requires
        0 <= n <= cards.len(),
    ensures
        rank_count_in(cards.take(n), rank) <= rank_count_in(cards, rank),
    decreases cards.len() - n,
{
    if n < cards.len() {
        lemma_rank_count_prefix(cards, n + 1, rank);
        assert(cards.take(n + 1).drop_last() == cards.take(n));
    } else {
        assert(cards.take(n) == cards);
    }
}

proof fn lemma_board_ranks_bound(board: Seq<Card>, lo: int)
    requires
        0 <= lo <= 13,
    ensures
        board_ranks_from(board, lo) <= 13 - lo,
    decreases 13 - lo,
{
    if lo < 13 {
        lemma_board_ranks_bound(board, lo + 1);
    }
}

proof fn lemma_board_ranks_monotone(board: Seq<Card>, lo: int, hi: int)
    requires
        0 <= lo <= hi <= 14,
    ensures
        board_ranks_from(board, hi) <= board_ranks_from(board, lo),
    decreases hi - lo,
{
    if lo < hi {
        lemma_board_ranks_monotone(board, lo + 1, hi);
    }
}

proof fn lemma_top_with_count_range(hole: Seq<Card>, board: Seq<Card>, c: nat, lo: int)
    requires
        0 <= lo <= 13,
    ensures
        -1 <= top_with_count_from(hole, board, c, lo) < 13,
        top_with_count_from(hole, board, c, lo) >= 0 ==> lo <= top_with_count_from(hole, board, c, lo),
        top_with_count_from(hole, board, c, lo) < 0 <==> ranks_with_count_from(hole, board, c, lo) == 0,
        ranks_with_count_from(hole, board, c, lo) <= 13 - lo,
    decreases 13 - lo,
{
    if lo < 13 {
        lemma_top_with_count_range(hole, board, c, lo + 1);
    }
}

/// The text of a straight abstraction: its rank letter, `-high straight, `,
/// the card count, ` cards, gutshot: ` and `true` or `false`.
pub open spec fn straight_text(s: StraightAbstraction) -> Seq<char> {
    seq![s.bucketed_high_card.spec_char()] + "-high straight, "@ + decimal_text(s.cards_in_straight as nat)
        + " cards, gutshot: "@ + bool_text(s.requires_gutshot)
}

/// The name of a flush score.
pub open spec fn flush_score_text(score: u8) -> Seq<char> {
    if score == 0 {
        "Nut"@
    } else if score == 1 {
        "Second or third nut"@
    } else {
        "Fourth or worse"@
    }
}

/// The text of a flush abstraction: the score's name, ` flush, `, the cards
/// to draw and ` cards to draw`.
pub open spec fn flush_text(f: FlushAbstraction) -> Seq<char> {
    flush_score_text(f.flush_score) + " flush, "@ + decimal_text(f.cards_to_draw as nat) + " cards to draw"@
}

/// The text of a connected-cards abstraction: its kind and score.
pub open spec fn connected_text(c: ConnectedCardsAbstraction) -> Seq<char> {
    match c {
        ConnectedCardsAbstraction::Pair(p) => "Pair "@ + decimal_text(p.pair_order_score as nat),
        ConnectedCardsAbstraction::TwoPair(t) => "Two Pair "@ + decimal_text(t.two_pair_order_score as nat),
        ConnectedCardsAbstraction::ThreeOfAKind(t) => "Three of a Kind "@ + decimal_text(t.toak_order_score as nat),
        ConnectedCardsAbstraction::FullHouse(f) => "Full House "@ + bool_text(f.high_card_is_house),
        ConnectedCardsAbstraction::FourOfAKind => "Four of a Kind"@,
    }
}

impl StraightAbstraction {
    /// The text of the abstraction (see `straight_text`).
    pub fn to_display_string(&self) -> (s: String)
        ensures
            s@ == straight_text(*self),
    {
        let mut s = String::from_str(self.bucketed_high_card.to_str());
        s.append("-high straight, ");
        s.append(u8_to_string(self.cards_in_straight).as_str());
        s.append(" cards, gutshot: ");
        s.append(bool_to_str(self.requires_gutshot));
        s
    }
}

impl FlushAbstraction {
    /// The text of the abstraction (see `flush_text`); the score is one of
    /// the three.
    pub fn to_display_string(&self) -> (s: String)
        requires
            self.flush_score <= 2,
        ensures
            s@ == flush_text(*self),
    {
        let mut s = String::from_str(
            if self.flush_score == 0 {
                "Nut"
            } else if self.flush_score == 1 {
                "Second or third nut"
            } else {
                "Fourth or worse"
            },
        );
        s.append(" flush, ");
        s.append(u8_to_string(self.cards_to_draw).as_str());
        s.append(" cards to draw");
        s
    }
}

impl ConnectedCardsAbstraction {
    /// The text of the abstraction (see `connected_text`).
    pub fn to_display_string(&self) -> (s: String)
        ensures
            s@ == connected_text(*self),
    {
        match self {
            ConnectedCardsAbstraction::Pair(p) => {
                let mut s = String::from_str("Pair ");
                s.append(u8_to_string(p.pair_order_score).as_str());
                s
            },
            ConnectedCardsAbstraction::TwoPair(tp) => {
                let mut s = String::from_str("Two Pair ");
                s.append(u8_to_string(tp.two_pair_order_score).as_str());
                s
            },
            ConnectedCardsAbstraction::ThreeOfAKind(toak) => {
                let mut s = String::from_str("Three of a Kind ");
                s.append(u8_to_string(toak.toak_order_score).as_str());
                s
            },
            ConnectedCardsAbstraction::FullHouse(fh) => {
                let mut s = String::from_str("Full House ");
                s.append(bool_to_str(fh.high_card_is_house));
                s
            },
            ConnectedCardsAbstraction::FourOfAKind => String::from_str("Four of a Kind"),
        }
    }
}

} // verus!
