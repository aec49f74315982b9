use crate::models::combinations::{combinations_of_range, lemma_combinations_from_shape, spec_combinations};
use crate::thread_utils::rng::{new_small_rng, random_below, random_index, random_index_from, shuffle_in_place};
use rand::rngs::SmallRng;
use vstd::prelude::*;

verus! {

/// A card suit.
#[derive(Debug, PartialEq, Eq, Structural, Clone, Copy, Hash, PartialOrd, Ord)]
pub enum Suit {
    Spades,
    Hearts,
    Diamonds,
    Clubs,
}

impl Suit {
    /// The suit's number: Spades 0, Hearts 1, Diamonds 2, Clubs 3.
    pub open spec fn spec_to_int(self) -> u8 {
        match self {
            Suit::Spades => 0,
            Suit::Hearts => 1,
            Suit::Diamonds => 2,
            Suit::Clubs => 3,
        }
    }

    /// The suit with a given number.
    pub open spec fn spec_from_int(n: u8) -> Suit {
        if n == 0 {
            Suit::Spades
        } else if n == 1 {
            Suit::Hearts
        } else if n == 2 {
            Suit::Diamonds
        } else {
            Suit::Clubs
        }
    }

    pub fn from_int(suit: u8) -> (s: Suit)
        requires
            suit < 4,
        ensures
            s == Suit::spec_from_int(suit),
            s.spec_to_int() == suit,
    {
        match suit {
            0 => Suit::Spades,
            1 => Suit::Hearts,
            2 => Suit::Diamonds,
            _ => Suit::Clubs,
        }
    }

    #[verifier::when_used_as_spec(spec_to_int)]
    pub fn to_int(self) -> (n: u8)
        ensures
            n == self.spec_to_int(),
            n < 4,
            Suit::spec_from_int(n) == self,
    {
        match self {
            Suit::Spades => 0,
            Suit::Hearts => 1,
            Suit::Diamonds => 2,
            Suit::Clubs => 3,
        }
    }

    /// The suit as a single bit: bit `to_int()` of the result is set.
    pub fn to_bit(self) -> (b: u32)
        ensures
            b == 1u32 << self.spec_to_int(),
            b == 1 || b == 2 || b == 4 || b == 8,
    {
        let n = self.to_int();
        assert(n < 4 ==> (1u32 << n == 1 || 1u32 << n == 2 || 1u32 << n == 4 || 1u32 << n == 8))
            by (bit_vector);
        1u32 << n
    }

    /// A suit drawn at random.
    pub fn random() -> (s: Suit) {
        Suit::from_int(random_below(4))
    }

    /// The one-letter name of the suit: s, h, d or c.
    pub fn to_str(self) -> (s: &'static str)
        ensures
            s@ == self.spec_str(),
    {
        proof {
            reveal_strlit("s");
            reveal_strlit("h");
            reveal_strlit("d");
            reveal_strlit("c");
        }
        match self {
            Suit::Spades => "s",
            Suit::Hearts => "h",
            Suit::Diamonds => "d",
            Suit::Clubs => "c",
        }
    }

    pub open spec fn spec_str(self) -> Seq<char> {
        match self {
            Suit::Spades => seq!['s'],
            Suit::Hearts => seq!['h'],
            Suit::Diamonds => seq!['d'],
            Suit::Clubs => seq!['c'],
        }
    }
}

impl Default for Suit {
    fn default() -> (s: Suit)
        ensures
            s == Suit::Spades,
    {
        Suit::Spades
    }
}

/// A card rank, from Two up to Ace.
#[derive(Debug, PartialEq, Eq, Structural, Clone, Copy, Hash, PartialOrd, Ord)]
pub enum Rank {
    Two,
    Three,
    Four,
    Five,
    Six,
    Seven,
    Eight,
    Nine,
    Ten,
    Jack,
    Queen,
    King,
    Ace,
}

impl Rank {
    /// The rank's number: Two is 0 and Ace is 12.
    pub open spec fn spec_to_int(self) -> u8 {
        match self {
            Rank::Two => 0,
            Rank::Three => 1,
            Rank::Four => 2,
            Rank::Five => 3,
            Rank::Six => 4,
            Rank::Seven => 5,
            Rank::Eight => 6,
            Rank::Nine => 7,
            Rank::Ten => 8,
            Rank::Jack => 9,
            Rank::Queen => 10,
            Rank::King => 11,
            Rank::Ace => 12,
        }
    }

    /// The rank with a given number (Ace for every number from 12 up).
    pub open spec fn spec_from_int(n: u8) -> Rank {
        if n == 0 {
            Rank::Two
        } else if n == 1 {
            Rank::Three
        } else if n == 2 {
            Rank::Four
        } else if n == 3 {
            Rank::Five
        } else if n == 4 {
            Rank::Six
        } else if n == 5 {
            Rank::Seven
        } else if n == 6 {
            Rank::Eight
        } else if n == 7 {
            Rank::Nine
        } else if n == 8 {
            Rank::Ten
        } else if n == 9 {
            Rank::Jack
        } else if n == 10 {
            Rank::Queen
        } else if n == 11 {
            Rank::King
        } else {
            Rank::Ace
        }
    }

    /// The prime that stands for the rank in a prime product:
    /// 2, 3, 5, 7, 11, 13, 17, 19, 23, 29, 31, 37, 41 from Two up to Ace.
    pub open spec fn spec_to_prime(self) -> u8 {
        match self {
            Rank::Two => 2,
            Rank::Three => 3,
            Rank::Four => 5,
            Rank::Five => 7,
            Rank::Six => 11,
            Rank::Seven => 13,
            Rank::Eight => 17,
            Rank::Nine => 19,
            Rank::Ten => 23,
            Rank::Jack => 29,
            Rank::Queen => 31,
            Rank::King => 37,
            Rank::Ace => 41,
        }
    }

    pub fn from_int(rank: u8) -> (r: Rank)
        requires
            rank < 13,
        ensures
            r == Rank::spec_from_int(rank),
            r.spec_to_int() == rank,
    {
        match rank {
            0 => Rank::Two,
            1 => Rank::Three,
            2 => Rank::Four,
            3 => Rank::Five,
            4 => Rank::Six,
            5 => Rank::Seven,
            6 => Rank::Eight,
            7 => Rank::Nine,
            8 => Rank::Ten,
            9 => Rank::Jack,
            10 => Rank::Queen,
            11 => Rank::King,
            _ => Rank::Ace,
        }
    }

    #[verifier::when_used_as_spec(spec_to_int)]
    pub fn to_int(self) -> (n: u8)
        ensures
            n == self.spec_to_int(),
            n < 13,
            Rank::spec_from_int(n) == self,
    {
        match self {
            Rank::Two => 0,
            Rank::Three => 1,
            Rank::Four => 2,
            Rank::Five => 3,
            Rank::Six => 4,
            Rank::Seven => 5,
            Rank::Eight => 6,
            Rank::Nine => 7,
            Rank::Ten => 8,
            Rank::Jack => 9,
            Rank::Queen => 10,
            Rank::King => 11,
            Rank::Ace => 12,
        }
    }

    /// The prime of the rank, so that a hand of distinct ranks has a product
    /// of its own.
    #[verifier::when_used_as_spec(spec_to_prime)]
    pub fn to_prime(self) -> (p: u8)
        ensures
            p == self.spec_to_prime(),
            2 <= p <= 41,
    {
        match self {
            Rank::Two => 2,
            Rank::Three => 3,
            Rank::Four => 5,
            Rank::Five => 7,
            Rank::Six => 11,
            Rank::Seven => 13,
            Rank::Eight => 17,
            Rank::Nine => 19,
            Rank::Ten => 23,
            Rank::Jack => 29,
            Rank::Queen => 31,
            Rank::King => 37,
            Rank::Ace => 41,
        }
    }

    /// The rank as a single bit: bit `to_int()` of the result is set.
    pub fn to_bit(self) -> (b: u32)
        ensures
            b == 1u32 << self.spec_to_int(),
            1 <= b <= 4096,
    {
        let n = self.to_int();
        assert(n < 13 ==> 1 <= 1u32 << n <= 4096) by (bit_vector);
        1u32 << n
    }

    /// The one-character name of the rank: 2 to 9, then T, J, Q, K, A.
    pub fn to_str(self) -> (s: &'static str)
        ensures
            s@ == seq![self.spec_char()],
    {
        proof {
            reveal_strlit("2");
            reveal_strlit("3");
            reveal_strlit("4");
            reveal_strlit("5");
            reveal_strlit("6");
            reveal_strlit("7");
            reveal_strlit("8");
            reveal_strlit("9");
            reveal_strlit("T");
            reveal_strlit("J");
            reveal_strlit("Q");
            reveal_strlit("K");
            reveal_strlit("A");
        }
        match self {
            Rank::Two => "2",
            Rank::Three => "3",
            Rank::Four => "4",
            Rank::Five => "5",
            Rank::Six => "6",
            Rank::Seven => "7",
            Rank::Eight => "8",
            Rank::Nine => "9",
            Rank::Ten => "T",
            Rank::Jack => "J",
            Rank::Queen => "Q",
            Rank::King => "K",
            Rank::Ace => "A",
        }
    }

    /// The variant name of the rank, such as `Two` or `Ace`.
    pub open spec fn spec_name(self) -> Seq<char> {
        match self {
            Rank::Two => "Two"@,
            Rank::Three => "Three"@,
            Rank::Four => "Four"@,
            Rank::Five => "Five"@,
            Rank::Six => "Six"@,
            Rank::Seven => "Seven"@,
            Rank::Eight => "Eight"@,
            Rank::Nine => "Nine"@,
            Rank::Ten => "Ten"@,
            Rank::Jack => "Jack"@,
            Rank::Queen => "Queen"@,
            Rank::King => "King"@,
            Rank::Ace => "Ace"@,
        }
    }

    /// The variant name of the rank.
    pub fn name(self) -> (s: &'static str)
        ensures
            s@ == self.spec_name(),
    {
        match self {
            Rank::Two => "Two",
            Rank::Three => "Three",
            Rank::Four => "Four",
            Rank::Five => "Five",
            Rank::Six => "Six",
            Rank::Seven => "Seven",
            Rank::Eight => "Eight",
            Rank::Nine => "Nine",
            Rank::Ten => "Ten",
            Rank::Jack => "Jack",
            Rank::Queen => "Queen",
            Rank::King => "King",
            Rank::Ace => "Ace",
        }
    }

    pub open spec fn spec_char(self) -> char {
        match self {
            Rank::Two => '2',
            Rank::Three => '3',
            Rank::Four => '4',
            Rank::Five => '5',
            Rank::Six => '6',
            Rank::Seven => '7',
            Rank::Eight => '8',
            Rank::Nine => '9',
            Rank::Ten => 'T',
            Rank::Jack => 'J',
            Rank::Queen => 'Q',
            Rank::King => 'K',
            Rank::Ace => 'A',
        }
    }

    /// Reads a rank from its one-character name; `None` for any other text.
    pub fn parse(s: &str) -> (r: Option<Rank>)
        ensures
            r matches Some(rank) ==> s@ == seq![rank.spec_char()],
            r is None ==> forall|rank: Rank| s@ != seq![rank.spec_char()],
    {
        let n = s.unicode_len();
        if n != 1 {
            return None;
        }
        let c = s.get_char(0);
        let mut k: u8 = 0;
        while k < 13
            invariant
                k <= 13,
                s@ == seq![c],
                forall|j: u8| j < k ==> Rank::spec_from_int(j).spec_char() != c,
            decreases 13 - k,
        {
            let rank = Rank::from_int(k);
            if Self::char_of(rank) == c {
                return Some(rank);
            }
            k = k + 1;
        }
        proof {
            assert forall|rank: Rank| s@ != seq![rank.spec_char()] by {
                let j = rank.spec_to_int();
                assert(Rank::spec_from_int(j) == rank);
                if s@ == seq![rank.spec_char()] {
                    assert(s@[0] == rank.spec_char());
                }
            }
        }
        None
    }

    fn char_of(rank: Rank) -> (c: char)
        ensures
            c == rank.spec_char(),
    {
        match rank {
            Rank::Two => '2',
            Rank::Three => '3',
            Rank::Four => '4',
            Rank::Five => '5',
            Rank::Six => '6',
            Rank::Seven => '7',
            Rank::Eight => '8',
            Rank::Nine => '9',
            Rank::Ten => 'T',
            Rank::Jack => 'J',
            Rank::Queen => 'Q',
            Rank::King => 'K',
            Rank::Ace => 'A',
        }
    }
}

impl Default for Rank {
    fn default() -> (r: Rank)
        ensures
            r == Rank::Two,
    {
        Rank::Two
    }
}

/// A card. Cards compare by their serialised byte (the `PartialOrd` impl
/// states it); the rank comes before the suit among the fields, so the total
/// order follows the same byte order.
#[derive(Debug, PartialEq, Eq, Structural, Clone, Copy, Hash, Ord)]
pub struct Card {
    pub rank: Rank,
    pub suit: Suit,
}

/// A deal of nine cards: the traverser's two hole cards, the opponent's two,
/// then the five board cards.
pub type NineCardDeal = [Card; 9];

/// The number of a card in a fresh deck: `13 * suit + rank`.
pub open spec fn card_int(card: Card) -> int {
    card.suit.spec_to_int() * 13 + card.rank.spec_to_int()
}

/// The card with a given deck number.
pub open spec fn card_from_int(n: int) -> Card {
    Card { rank: Rank::spec_from_int((n % 13) as u8), suit: Suit::spec_from_int((n / 13) as u8) }
}

/// The serialised byte of a card: `rank << 2 | suit`.
pub open spec fn card_byte(card: Card) -> u8 {
    (card.rank.spec_to_int() * 4 + card.suit.spec_to_int()) as u8
}

impl Card {
    pub fn new(suit: Suit, rank: Rank) -> (c: Card)
        ensures
            c.suit == suit,
            c.rank == rank,
    {
        Card { rank, suit }
    }

    pub fn from_int(card_number: u8) -> (c: Card)
        requires
            card_number < 52,
        ensures
            c == card_from_int(card_number as int),
            card_int(c) == card_number,
    {
        let suit = card_number / 13;
        let rank = card_number % 13;
        Card::new(Suit::from_int(suit), Rank::from_int(rank))
    }

    pub fn to_int(self) -> (n: u8)
        ensures
            n == card_int(self),
            n < 52,
    {
        self.suit.to_int() * 13 + self.rank.to_int()
    }

    /// The serialised byte: the rank in bits 2 to 5 and the suit in bits 0 and 1.
    pub fn serialise(self) -> (b: u8)
        ensures
            b == card_byte(self),
            b < 52,
    {
        let suit: u8 = self.suit.to_int();
        let rank: u8 = self.rank.to_int();
        assert(rank < 13 && suit < 4 ==> (rank << 2u8) | suit == rank * 4 + suit) by (bit_vector);
        (rank << 2) | suit
    }

    /// Reads the card back from its serialised byte; only bits 0 to 5 are read.
    pub fn deserialise(serialised_card: u8) -> (c: Card)
        requires
            (serialised_card & 0b00111100u8) >> 2u8 < 13,
        ensures
            c.rank == Rank::spec_from_int(((serialised_card & 0b00111100u8) >> 2u8) as u8),
            c.suit == Suit::spec_from_int(serialised_card & 0b00000011u8),
            (serialised_card as int) < 52 ==> card_byte(c) == serialised_card,
    {
        let rank_bits: u8 = (serialised_card & 0b00111100u8) >> 2u8;
        let suit_bits: u8 = serialised_card & 0b00000011u8;
        assert(suit_bits < 4) by (bit_vector)
            requires
                suit_bits == serialised_card & 0b00000011u8,
        ;
        assert(serialised_card < 52 ==> rank_bits * 4 + suit_bits == serialised_card) by (bit_vector)
            requires
                rank_bits == (serialised_card & 0b00111100u8) >> 2u8,
                suit_bits == serialised_card & 0b00000011u8,
        ;
        let rank = Rank::from_int(rank_bits);
        let suit = Suit::from_int(suit_bits);
        Card::new(suit, rank)
    }

    /// The two-character name of the card, rank then suit, such as `Ts`.
    pub fn to_display_string(&self) -> (s: String)
        ensures
            s@ == seq![self.rank.spec_char()] + self.suit.spec_str(),
    {
        let mut s = String::from_str(self.rank.to_str());
        s.append(self.suit.to_str());
        s
    }
}

impl Default for Card {
    fn default() -> (c: Card)
        ensures
            c.suit == Suit::Spades,
            c.rank == Rank::Two,
    {
        Card::new(Suit::Spades, Rank::Two)
    }
}

/// The deck number and the card determine each other.
pub proof fn lemma_card_int_roundtrip(card: Card, n: int)
    requires
        0 <= n < 52,
    ensures
        card_from_int(card_int(card)) == card,
        card_int(card_from_int(n)) == n,
        0 <= card_int(card) < 52,
{
}

/// The serialised byte and the card determine each other.
pub proof fn lemma_card_byte_roundtrip(card: Card)
    ensures
        card_byte(card) < 52,
        Rank::spec_from_int((card_byte(card) / 4) as u8) == card.rank,
        Suit::spec_from_int((card_byte(card) % 4) as u8) == card.suit,
{
}

/// Whether no card appears twice.
pub open spec fn cards_distinct(cards: Seq<Card>) -> bool {
    forall|i: int, j: int| 0 <= i < j < cards.len() ==> cards[i] != cards[j]
}

/// How many of the deck numbers below `n` are not taken.
pub open spec fn free_count(taken: Seq<bool>, n: int) -> nat
    decreases n,
{
    if n <= 0 {
        0
    } else {
        free_count(taken, n - 1) + if taken[n - 1] {
            0nat
        } else {
            1nat
        }
    }
}

/// The deck numbers that the cards take.
pub open spec fn deck_marks(cards: Seq<Card>) -> Seq<bool> {
    Seq::new(52, |k: int| exists|j: int| 0 <= j < cards.len() && card_int(#[trigger] cards[j]) == k)
}

proof fn lemma_free_count_mark(taken: Seq<bool>, c: int, n: int)
    requires
        0 <= c < taken.len(),
        n <= taken.len(),
    ensures
        free_count(taken.update(c, true), n) + (if 0 <= c < n && !taken[c] {
            1int
        } else {
            0int
        }) == free_count(taken, n),
    decreases n,
{
    if n > 0 {
        lemma_free_count_mark(taken, c, n - 1);
    }
}

proof fn lemma_free_count_none_taken(taken: Seq<bool>, n: int)
    requires
        0 <= n <= taken.len(),
        forall|k: int| 0 <= k < taken.len() ==> !taken[k],
    ensures
        free_count(taken, n) == n,
    decreases n,
{
    if n > 0 {
        lemma_free_count_none_taken(taken, n - 1);
    }
}

/// The deck numbers taken by the cards.
fn mark_cards(cards: &[Card]) -> (taken: Vec<bool>)
    ensures
        taken@ == deck_marks(cards@),
{
    let mut taken: Vec<bool> = vec![false; 52];
    let mut i: usize = 0;
    while i < cards.len()
        invariant
            i <= cards@.len(),
            taken@.len() == 52,
            forall|k: int| 0 <= k < 52 ==> #[trigger] taken@[k] == exists|j: int| 0 <= j < i && card_int(#[trigger] cards@[j]) == k,
        decreases cards@.len() - i,
    {
        let c = cards[i].to_int() as usize;
        taken.set(c, true);
        proof {
            assert forall|k: int| 0 <= k < 52 implies #[trigger] taken@[k] == exists|j: int| 0 <= j < i + 1 && card_int(#[trigger] cards@[j]) == k by {
                if k == c {
                    assert(card_int(cards@[i as int]) == k);
                }
            }
        }
        i = i + 1;
    }
    assert(taken@ =~= deck_marks(cards@));
    taken
}

/// How many deck numbers are not taken.
fn count_free(taken: &Vec<bool>) -> (free: usize)
    requires
        taken@.len() == 52,
    ensures
        free == free_count(taken@, 52),
{
    let mut free: usize = 0;
    let mut i: usize = 0;
    while i < 52
        invariant
            i <= 52,
            taken@.len() == 52,
            free == free_count(taken@, i as int),
            free <= i,
        decreases 52 - i,
    {
        if !taken[i] {
            free = free + 1;
        }
        i = i + 1;
    }
    free
}

/// The deck number of the `r`-th card (counting from 0) that is not taken:
/// the untaken number with exactly `r` untaken numbers below it.
pub fn nth_free_card(taken: &Vec<bool>, r: usize) -> (c: u8)
    requires
        taken@.len() == 52,
        r < free_count(taken@, 52),
    ensures
        c < 52,
        !taken@[c as int],
        free_count(taken@, c as int) == r,
{
    let mut seen: usize = 0;
    let mut k: usize = 0;
    while k < 52
        invariant
            k <= 52,
            taken@.len() == 52,
            seen == free_count(taken@, k as int),
            seen <= r,
            r < free_count(taken@, 52),
        decreases 52 - k,
    {
        if !taken[k] {
            if seen == r {
                return k as u8;
            }
            seen = seen + 1;
        }
        k = k + 1;
    }
    k as u8
}

/// Draws, uniformly, one of the `free` deck numbers that are not taken yet
/// (see `nth_free_card`), and marks it taken.
fn draw_free_card(rng: &mut SmallRng, taken: &mut Vec<bool>, free: usize) -> (c: u8)
    requires
        old(taken)@.len() == 52,
        free == free_count(old(taken)@, 52),
        free > 0,
    ensures
        c < 52,
        !old(taken)@[c as int],
        final(taken)@ == old(taken)@.update(c as int, true),
        free_count(final(taken)@, 52) + 1 == free_count(old(taken)@, 52),
{
    let r = random_index_from(rng, free);
    let c = nth_free_card(taken, r);
    proof {
        lemma_free_count_mark(taken@, c as int, 52);
    }
    taken.set(c as usize, true);
    c
}

/// The deck numbers taken once the first `n` cards of a deal are marked.
spec fn taken_by(res: Seq<Card>, n: int, taken: Seq<bool>) -> bool {
    forall|j: int| 0 <= j < n ==> #[trigger] taken[card_int(res[j])]
}

/// A nine-card deal that starts with the four given cards, the other five drawn
/// at random from the cards not yet dealt.
pub fn new_random_nine_card_game_with(card1: Card, card2: Card, card3: Card, card4: Card) -> (res: NineCardDeal)
    ensures
        res@[0] == card1,
        res@[1] == card2,
        res@[2] == card3,
        res@[3] == card4,
        forall|i: int, j: int| 0 <= i < j < 9 && 4 <= j ==> res@[i] != res@[j],
{
    let mut rng = new_small_rng();
    let mut taken: Vec<bool> = vec![false; 52];
    proof {
        lemma_free_count_none_taken(taken@, 52);
    }
    let given: [Card; 4] = [card1, card2, card3, card4];
    let mut free: usize = 52;
    let mut g: usize = 0;
    while g < 4
        invariant
            g <= 4,
            taken@.len() == 52,
            free == free_count(taken@, 52),
            free_count(taken@, 52) + g >= 52,
            forall|j: int| 0 <= j < g ==> #[trigger] taken@[card_int(given@[j])],
        decreases 4 - g,
    {
        let c = given[g].to_int() as usize;
        proof {
            lemma_free_count_mark(taken@, c as int, 52);
        }
        if !taken[c] {
            free = free - 1;
        }
        taken.set(c, true);
        g = g + 1;
    }
    let d = Card::default();
    let mut res: [Card; 9] = [card1, card2, card3, card4, d, d, d, d, d];
    let mut count: usize = 4;
    while count < 9
        invariant
            4 <= count <= 9,
            taken@.len() == 52,
            free == free_count(taken@, 52),
            free_count(taken@, 52) + count >= 52,
            res@[0] == card1 && res@[1] == card2 && res@[2] == card3 && res@[3] == card4,
            given@ == seq![card1, card2, card3, card4],
            forall|j: int| 0 <= j < count ==> #[trigger] taken@[card_int(res@[j])],
            forall|i: int, j: int| 0 <= i < j < count && 4 <= j ==> res@[i] != res@[j],
        decreases 9 - count,
    {
        let c = draw_free_card(&mut rng, &mut taken, free);
        free = free - 1;
        let card = Card::from_int(c);
        proof {
            assert forall|i: int| 0 <= i < count implies res@[i] != card by {
                assert(taken@[card_int(res@[i])]);
            }
        }
        res[count] = card;
        count = count + 1;
    }
    res
}

/// A nine-card deal drawn at random: nine different cards.
pub fn new_random_nine_card_game() -> (res: NineCardDeal)
    ensures
        cards_distinct(res@),
{
    let mut rng = new_small_rng();
    let mut taken: Vec<bool> = vec![false; 52];
    proof {
        lemma_free_count_none_taken(taken@, 52);
    }
    let d = Card::default();
    let mut res: [Card; 9] = [d, d, d, d, d, d, d, d, d];
    let mut free: usize = 52;
    let mut count: usize = 0;
    while count < 9
        invariant
            count <= 9,
            taken@.len() == 52,
            free == free_count(taken@, 52),
            free_count(taken@, 52) + count >= 52,
            forall|j: int| 0 <= j < count ==> #[trigger] taken@[card_int(res@[j])],
            forall|i: int, j: int| 0 <= i < j < count ==> res@[i] != res@[j],
        decreases 9 - count,
    {
        let c = draw_free_card(&mut rng, &mut taken, free);
        free = free - 1;
        let card = Card::from_int(c);
        proof {
            assert forall|i: int| 0 <= i < count implies res@[i] != card by {
                assert(taken@[card_int(res@[i])]);
            }
        }
        res[count] = card;
        count = count + 1;
    }
    res
}

/// All unpaired rank combinations, each as its lower and higher rank, in
/// lexicographic order of their numbers.
pub open spec fn spec_all_rank_combos() -> Seq<(Rank, Rank)> {
    spec_combinations(13, 2).map_values(
        |c: Seq<usize>| (Rank::spec_from_int(c[0] as u8), Rank::spec_from_int(c[1] as u8)),
    )
}

/// The 78 unpaired rank combinations (see `spec_all_rank_combos`).
pub fn all_rank_combos() -> (combos: Vec<(Rank, Rank)>)
    ensures
        combos@ == spec_all_rank_combos(),
{
    let pairs = combinations_of_range(13, 2);
    proof {
        lemma_combinations_from_shape(0, 13, 2);
    }
    let mut combos: Vec<(Rank, Rank)> = Vec::new();
    let mut i: usize = 0;
    while i < pairs.len()
        invariant
            i <= pairs@.len(),
            pairs.deep_view() == spec_combinations(13, 2),
            forall|k: int| 0 <= k < pairs@.len() ==> (#[trigger] pairs.deep_view()[k]).len() == 2 && pairs.deep_view()[k][0] < 13 && pairs.deep_view()[k][1] < 13,
            combos@ == spec_all_rank_combos().take(i as int),
        decreases pairs@.len() - i,
    {
        let c = &pairs[i];
        assert(c@ == pairs.deep_view()[i as int]);
        let pair = (Rank::from_int(c[0] as u8), Rank::from_int(c[1] as u8));
        combos.push(pair);
        i = i + 1;
        assert(combos@ =~= spec_all_rank_combos().take(i as int));
    }
    assert(spec_all_rank_combos().take(pairs@.len() as int) =~= spec_all_rank_combos());
    combos
}

/// The thirteen pocket pairs, from twos to aces.
pub fn all_pocket_pairs() -> (pairs: Vec<(Rank, Rank)>)
    ensures
        pairs@ == Seq::new(13, |i: int| (Rank::spec_from_int(i as u8), Rank::spec_from_int(i as u8))),
{
    let mut pairs: Vec<(Rank, Rank)> = Vec::new();
    let mut c: u8 = 0;
    while c < 13
        invariant
            c <= 13,
            pairs@ == Seq::new(c as nat, |i: int| (Rank::spec_from_int(i as u8), Rank::spec_from_int(i as u8))),
        decreases 13 - c,
    {
        pairs.push((Rank::from_int(c), Rank::from_int(c)));
        c = c + 1;
        assert(pairs@ =~= Seq::new(c as nat, |i: int| (Rank::spec_from_int(i as u8), Rank::spec_from_int(i as u8))));
    }
    pairs
}

/// The text of a card: its rank's letter, then its suit's.
pub open spec fn card_text(card: Card) -> Seq<char> {
    seq![card.rank.spec_char()] + card.suit.spec_str()
}

/// The cards' texts joined by single spaces.
pub open spec fn cards_text(cards: Seq<Card>) -> Seq<char>
    decreases cards.len(),
{
    if cards.len() == 0 {
        Seq::empty()
    } else if cards.len() == 1 {
        card_text(cards[0])
    } else {
        cards_text(cards.drop_last()) + seq![' '] + card_text(cards.last())
    }
}

/// The cards' names separated by spaces.
pub fn cards_string(cards: &[Card]) -> (s: String)
    ensures
        s@ == cards_text(cards@),
{
    let mut s = String::new();
    let mut i: usize = 0;
    while i < cards.len()
        invariant
            i <= cards@.len(),
            s@ == cards_text(cards@.take(i as int)),
        decreases cards@.len() - i,
    {
        proof {
            reveal_strlit(" ");
            assert(cards@.take(i + 1).drop_last() == cards@.take(i as int));
        }
        if i > 0 {
            s.append(" ");
        }
        let t = cards[i].to_display_string();
        s.append(t.as_str());
        i = i + 1;
    }
    assert(cards@.take(cards@.len() as int) == cards@);
    s
}

impl Card {
    /// A card drawn at random from the whole deck.
    fn new_random_card() -> (c: Card) {
        let card_int = random_index(52);
        Card::from_int(card_int as u8)
    }

    /// `num_cards` different cards drawn at random.
    pub fn new_random_cards(num_cards: usize) -> (cards: Vec<Card>)
        requires
            num_cards <= 52,
        ensures
            cards@.len() == num_cards,
            cards_distinct(cards@),
    {
        let mut rng = new_small_rng();
        let mut taken: Vec<bool> = vec![false; 52];
        proof {
            lemma_free_count_none_taken(taken@, 52);
        }
        let mut res: Vec<Card> = Vec::with_capacity(num_cards);
        let mut free: usize = 52;
        while res.len() < num_cards
            invariant
                res@.len() <= num_cards <= 52,
                taken@.len() == 52,
                free == free_count(taken@, 52),
                free_count(taken@, 52) + res@.len() >= 52,
                forall|j: int| 0 <= j < res@.len() ==> #[trigger] taken@[card_int(res@[j])],
                cards_distinct(res@),
            decreases num_cards - res@.len(),
        {
            let c = draw_free_card(&mut rng, &mut taken, free);
            free = free - 1;
            let card = Card::from_int(c);
            proof {
                assert forall|i: int| 0 <= i < res@.len() implies res@[i] != card by {
                    assert(taken@[card_int(res@[i])]);
                }
            }
            res.push(card);
        }
        res
    }

    /// The byte of a deck number: the suit in the high four bits and the rank
    /// in the low four.
    fn serialise_int(card_int: u8) -> (b: u8)
        requires
            card_int < 52,
        ensures
            b == (card_int / 13) * 16 + card_int % 13,
    {
        let suit = card_int / 13;
        let rank = card_int % 13;
        assert(suit < 4 && rank < 13 ==> (suit << 4u8) | rank == suit * 16 + rank) by (bit_vector);
        (suit << 4u8) | rank
    }

    /// `n` more cards drawn at random, different from each other and from the
    /// cards already out.
    pub fn get_n_more_cards(existing_cards: &[Card], n: usize) -> (cards: Vec<Card>)
        requires
            n <= free_count(deck_marks(existing_cards@), 52),
        ensures
            cards@.len() == n,
            cards_distinct(cards@),
            forall|i: int, j: int| 0 <= i < cards@.len() && 0 <= j < existing_cards@.len() ==> cards@[i] != existing_cards@[j],
    {
        let mut rng = new_small_rng();
        let mut taken = mark_cards(existing_cards);
        let ghost start = taken@;
        let mut free = count_free(&taken);
        let mut res: Vec<Card> = Vec::with_capacity(n);
        while res.len() < n
            invariant
                res@.len() <= n,
                taken@.len() == 52,
                free == free_count(taken@, 52),
                start == deck_marks(existing_cards@),
                free_count(taken@, 52) + res@.len() >= n,
                forall|k: int| 0 <= k < 52 && #[trigger] start[k] ==> taken@[k],
                forall|j: int| 0 <= j < res@.len() ==> #[trigger] taken@[card_int(res@[j])],
                forall|j: int| 0 <= j < res@.len() ==> !start[card_int(#[trigger] res@[j])],
                cards_distinct(res@),
            decreases n - res@.len(),
        {
            let c = draw_free_card(&mut rng, &mut taken, free);
            free = free - 1;
            let card = Card::from_int(c);
            proof {
                assert forall|i: int| 0 <= i < res@.len() implies res@[i] != card by {
                    assert(taken@[card_int(res@[i])]);
                }
                assert(!start[c as int]);
            }
            res.push(card);
        }
        proof {
            assert forall|i: int, j: int| 0 <= i < res@.len() && 0 <= j < existing_cards@.len() implies res@[i] != existing_cards@[j] by {
                let k = card_int(existing_cards@[j]);
                lemma_card_int_roundtrip(existing_cards@[j], 0);
                assert(start[k]);
                assert(!start[card_int(res@[i])]);
            }
        }
        res
    }

    /// One more card drawn at random, different from the cards already out.
    pub fn get_one_more_card(existing_cards: &[Card]) -> (card: Card)
        requires
            free_count(deck_marks(existing_cards@), 52) > 0,
        ensures
            forall|j: int| 0 <= j < existing_cards@.len() ==> card != existing_cards@[j],
    {
        let mut rng = new_small_rng();
        let mut taken = mark_cards(existing_cards);
        let ghost start = taken@;
        let free = count_free(&taken);
        let c = draw_free_card(&mut rng, &mut taken, free);
        let card = Card::from_int(c);
        proof {
            assert forall|j: int| 0 <= j < existing_cards@.len() implies card != existing_cards@[j] by {
                lemma_card_int_roundtrip(existing_cards@[j], 0);
                assert(start[card_int(existing_cards@[j])]);
            }
        }
        card
    }

    /// The 78 same-suit pairs of different ranks, the lower rank first, in
    /// lexicographic order of the ranks.
    pub fn all_suited_combos(suit: Suit) -> (combos: Vec<(Card, Card)>)
        ensures
            combos@ == Card::spec_all_offsuit_combos(suit, suit),
    {
        Card::all_offsuit_combos(suit, suit)
    }

    /// Pairs of different ranks, the lower rank first and of `first_suit`, the
    /// higher of `second_suit`, in lexicographic order of the ranks.
    pub open spec fn spec_all_offsuit_combos(first_suit: Suit, second_suit: Suit) -> Seq<(Card, Card)> {
        spec_combinations(13, 2).map_values(
            |c: Seq<usize>|
                (
                    Card { rank: Rank::spec_from_int(c[0] as u8), suit: first_suit },
                    Card { rank: Rank::spec_from_int(c[1] as u8), suit: second_suit },
                ),
        )
    }

    /// The 78 pairs of different ranks with the given suits (see
    /// `spec_all_offsuit_combos`).
    pub fn all_offsuit_combos(first_suit: Suit, second_suit: Suit) -> (combos: Vec<(Card, Card)>)
        ensures
            combos@ == Card::spec_all_offsuit_combos(first_suit, second_suit),
    {
        let ranks = all_rank_combos();
        let mut combos: Vec<(Card, Card)> = Vec::new();
        let mut i: usize = 0;
        while i < ranks.len()
            invariant
                i <= ranks@.len(),
                ranks@ == spec_all_rank_combos(),
                combos@ == Card::spec_all_offsuit_combos(first_suit, second_suit).take(i as int),
            decreases ranks@.len() - i,
        {
            let (a, b) = ranks[i];
            combos.push((Card::new(first_suit, a), Card::new(second_suit, b)));
            i = i + 1;
            assert(combos@ =~= Card::spec_all_offsuit_combos(first_suit, second_suit).take(i as int));
        }
        assert(Card::spec_all_offsuit_combos(first_suit, second_suit).take(ranks@.len() as int) =~= Card::spec_all_offsuit_combos(first_suit, second_suit));
        combos
    }

    /// The suited combinations of `suit`, each paired with the given hole cards.
    pub fn all_suited_combos_vs_hole_cards(hole_cards: (Card, Card), suit: Suit) -> (combos: Vec<((Card, Card), (Card, Card))>)
        ensures
            combos@ == Card::spec_all_offsuit_combos(suit, suit).map_values(|c: (Card, Card)| (hole_cards, c)),
    {
        let suited = Card::all_suited_combos(suit);
        let mut combos: Vec<((Card, Card), (Card, Card))> = Vec::new();
        let mut i: usize = 0;
        while i < suited.len()
            invariant
                i <= suited@.len(),
                combos@ == suited@.take(i as int).map_values(|c: (Card, Card)| (hole_cards, c)),
            decreases suited@.len() - i,
        {
            combos.push((hole_cards, suited[i]));
            i = i + 1;
            assert(combos@ =~= suited@.take(i as int).map_values(|c: (Card, Card)| (hole_cards, c)));
        }
        assert(suited@.take(suited@.len() as int) == suited@);
        combos
    }

    /// The 52 cards in a random order.
    pub fn shuffle_deck() -> (deck: [Card; 52])
        ensures
            deck@.to_multiset() == Seq::new(52, |i: int| card_from_int(i)).to_multiset(),
    {
        let mut deck: [Card; 52] = [Card::default(); 52];
        let mut i: u8 = 0;
        while i < 52
            invariant
                i <= 52,
                deck@.len() == 52,
                forall|k: int| 0 <= k < i ==> #[trigger] deck@[k] == card_from_int(k),
            decreases 52 - i,
        {
            deck[i as usize] = Card::from_int(i);
            i = i + 1;
        }
        assert(deck@ =~= Seq::new(52, |k: int| card_from_int(k)));
        shuffle_in_place(&mut deck);
        deck
    }
}

/// The text of a deal: each player's two cards, then the board.
pub open spec fn deal_text(deal: Seq<Card>) -> Seq<char> {
    "P1 ["@ + card_text(deal[0]) + ", "@ + card_text(deal[1]) + "] P2 ["@ + card_text(deal[2]) + ", "@
        + card_text(deal[3]) + "] Board ["@ + card_text(deal[4]) + ", "@ + card_text(deal[5]) + ", "@
        + card_text(deal[6]) + ", "@ + card_text(deal[7]) + ", "@ + card_text(deal[8]) + "]"@
}

/// The deal written out: `P1 [..] P2 [..] Board [..]`.
pub fn deal_string(deal: &NineCardDeal) -> (s: String)
    ensures
        s@ == deal_text(deal@),
{
    let mut s = String::from_str("P1 [");
    s.append(deal[0].to_display_string().as_str());
    s.append(", ");
    s.append(deal[1].to_display_string().as_str());
    s.append("] P2 [");
    s.append(deal[2].to_display_string().as_str());
    s.append(", ");
    s.append(deal[3].to_display_string().as_str());
    s.append("] Board [");
    s.append(deal[4].to_display_string().as_str());
    s.append(", ");
    s.append(deal[5].to_display_string().as_str());
    s.append(", ");
    s.append(deal[6].to_display_string().as_str());
    s.append(", ");
    s.append(deal[7].to_display_string().as_str());
    s.append(", ");
    s.append(deal[8].to_display_string().as_str());
    s.append("]");
    s
}

/// Whether no card appears twice.
pub fn all_distinct(cards: &[Card]) -> (b: bool)
    ensures
        b == cards_distinct(cards@),
{
    let mut j: usize = 0;
    while j < cards.len()
        invariant
            j <= cards@.len(),
            forall|a: int, b: int| 0 <= a < b < j ==> cards@[a] != cards@[b],
        decreases cards@.len() - j,
    {
        let mut i: usize = 0;
        while i < j
            invariant
                i <= j < cards@.len(),
                forall|a: int, b: int| 0 <= a < b < j ==> cards@[a] != cards@[b],
                forall|a: int| 0 <= a < i ==> cards@[a] != cards@[j as int],
            decreases j - i,
        {
            if cards[i] == cards[j] {
                return false;
            }
            i = i + 1;
        }
        j = j + 1;
    }
    true
}

} // verus!
