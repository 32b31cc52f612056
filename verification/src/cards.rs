//! The bridge vocabulary the bot reasons about: suits, ranks, cards, seats,
//! strains, calls and vulnerability, with their character codes.

use vstd::prelude::*;

verus! {

/// A suit, in ascending rank order (clubs lowest, spades highest).
#[derive(Debug, Clone, Copy, PartialEq, Eq, Hash, Structural)]
pub enum Suit {
    Clubs,
    Diamonds,
    Hearts,
    Spades,
}

/// Position of a suit in the ascending order clubs < diamonds < hearts < spades.
pub open spec fn suit_index(s: Suit) -> int {
    match s {
        Suit::Clubs => 0,
        Suit::Diamonds => 1,
        Suit::Hearts => 2,
        Suit::Spades => 3,
    }
}

/// The suit named by a character code (`C`, `D`, `H`, `S`, either case).
pub open spec fn suit_of_char(c: char) -> Option<Suit> {
    if c == 'C' || c == 'c' {
        Some(Suit::Clubs)
    } else if c == 'D' || c == 'd' {
        Some(Suit::Diamonds)
    } else if c == 'H' || c == 'h' {
        Some(Suit::Hearts)
    } else if c == 'S' || c == 's' {
        Some(Suit::Spades)
    } else {
        None
    }
}

/// The upper-case character code of a suit.
pub open spec fn suit_char(s: Suit) -> char {
    match s {
        Suit::Clubs => 'C',
        Suit::Diamonds => 'D',
        Suit::Hearts => 'H',
        Suit::Spades => 'S',
    }
}

impl Suit {
    /// Position in the ascending suit order, 0 (clubs) to 3 (spades).
    pub fn index(self) -> (r: u8)
        ensures
            r == suit_index(self),
    {
        match self {
            Suit::Clubs => 0,
            Suit::Diamonds => 1,
            Suit::Hearts => 2,
            Suit::Spades => 3,
        }
    }

    /// Parses a suit code: `C`, `D`, `H` or `S`, upper or lower case.
    pub fn from_char(c: char) -> (r: Option<Suit>)
        ensures
            r == suit_of_char(c),
    {
        if c == 'C' || c == 'c' {
            Some(Suit::Clubs)
        } else if c == 'D' || c == 'd' {
            Some(Suit::Diamonds)
        } else if c == 'H' || c == 'h' {
            Some(Suit::Hearts)
        } else if c == 'S' || c == 's' {
            Some(Suit::Spades)
        } else {
            None
        }
    }

    /// The upper-case code of this suit.
    pub fn to_char(self) -> (c: char)
        ensures
            c == suit_char(self),
            suit_of_char(c) == Some(self),
    {
        match self {
            Suit::Clubs => 'C',
            Suit::Diamonds => 'D',
            Suit::Hearts => 'H',
            Suit::Spades => 'S',
        }
    }
}

/// A card rank, deuce lowest and ace highest.
#[derive(Debug, Clone, Copy, PartialEq, Eq, Hash, Structural)]
pub enum Rank {
    Two,
    Three,
    Four,
    Five,
    Six,
    Seven,
    Eight,
    Nine,
    Ten,
    Jack,
    Queen,
    King,
    Ace,
}

/// The numeric value of a rank: 2 for the deuce up to 14 for the ace.
pub open spec fn rank_value(r: Rank) -> int {
    match r {
        Rank::Two => 2,
        Rank::Three => 3,
        Rank::Four => 4,
        Rank::Five => 5,
        Rank::Six => 6,
        Rank::Seven => 7,
        Rank::Eight => 8,
        Rank::Nine => 9,
        Rank::Ten => 10,
        Rank::Jack => 11,
        Rank::Queen => 12,
        Rank::King => 13,
        Rank::Ace => 14,
    }
}

/// The rank whose value is `v`, if `v` is between 2 and 14.
pub open spec fn rank_of_value(v: int) -> Option<Rank> {
    if v == 2 {
        Some(Rank::Two)
    } else if v == 3 {
        Some(Rank::Three)
    } else if v == 4 {
        Some(Rank::Four)
    } else if v == 5 {
        Some(Rank::Five)
    } else if v == 6 {
        Some(Rank::Six)
    } else if v == 7 {
        Some(Rank::Seven)
    } else if v == 8 {
        Some(Rank::Eight)
    } else if v == 9 {
        Some(Rank::Nine)
    } else if v == 10 {
        Some(Rank::Ten)
    } else if v == 11 {
        Some(Rank::Jack)
    } else if v == 12 {
        Some(Rank::Queen)
    } else if v == 13 {
        Some(Rank::King)
    } else if v == 14 {
        Some(Rank::Ace)
    } else {
        None
    }
}

/// The rank named by a character code: `2`..`9`, `T`, `J`, `Q`, `K`, `A`
/// (letters in either case).
pub open spec fn rank_of_char(c: char) -> Option<Rank> {
    if c == '2' {
        Some(Rank::Two)
    } else if c == '3' {
        Some(Rank::Three)
    } else if c == '4' {
        Some(Rank::Four)
    } else if c == '5' {
        Some(Rank::Five)
    } else if c == '6' {
        Some(Rank::Six)
    } else if c == '7' {
        Some(Rank::Seven)
    } else if c == '8' {
        Some(Rank::Eight)
    } else if c == '9' {
        Some(Rank::Nine)
    } else if c == 'T' || c == 't' {
        Some(Rank::Ten)
    } else if c == 'J' || c == 'j' {
        Some(Rank::Jack)
    } else if c == 'Q' || c == 'q' {
        Some(Rank::Queen)
    } else if c == 'K' || c == 'k' {
        Some(Rank::King)
    } else if c == 'A' || c == 'a' {
        Some(Rank::Ace)
    } else {
        None
    }
}

/// The upper-case character code of a rank.
pub open spec fn rank_char(r: Rank) -> char {
    match r {
        Rank::Two => '2',
        Rank::Three => '3',
        Rank::Four => '4',
        Rank::Five => '5',
        Rank::Six => '6',
        Rank::Seven => '7',
        Rank::Eight => '8',
        Rank::Nine => '9',
        Rank::Ten => 'T',
        Rank::Jack => 'J',
        Rank::Queen => 'Q',
        Rank::King => 'K',
        Rank::Ace => 'A',
    }
}

/// Every rank value lies between 2 and 14 and names the rank back.
pub proof fn lemma_rank_value(r: Rank)
    ensures
        2 <= rank_value(r) <= 14,
        rank_of_value(rank_value(r)) == Some(r),
{
}

/// A value between 2 and 14 names a rank with that value; no other value does.
pub proof fn lemma_rank_of_value(v: int)
    ensures
        (2 <= v <= 14) == rank_of_value(v).is_some(),
        rank_of_value(v) matches Some(r) ==> rank_value(r) == v,
{
}

impl Rank {
    /// The numeric value, 2 (deuce) to 14 (ace).
    pub fn value(self) -> (v: u8)
        ensures
            v == rank_value(self),
            2 <= v <= 14,
    {
        match self {
            Rank::Two => 2,
            Rank::Three => 3,
            Rank::Four => 4,
            Rank::Five => 5,
            Rank::Six => 6,
            Rank::Seven => 7,
            Rank::Eight => 8,
            Rank::Nine => 9,
            Rank::Ten => 10,
            Rank::Jack => 11,
            Rank::Queen => 12,
            Rank::King => 13,
            Rank::Ace => 14,
        }
    }

    /// The rank with numeric value `v` (2..=14).
    pub fn from_value(v: u8) -> (r: Option<Rank>)
        ensures
            r == rank_of_value(v as int),
    {
        if v == 2 {
            Some(Rank::Two)
        } else if v == 3 {
            Some(Rank::Three)
        } else if v == 4 {
            Some(Rank::Four)
        } else if v == 5 {
            Some(Rank::Five)
        } else if v == 6 {
            Some(Rank::Six)
        } else if v == 7 {
            Some(Rank::Seven)
        } else if v == 8 {
            Some(Rank::Eight)
        } else if v == 9 {
            Some(Rank::Nine)
        } else if v == 10 {
            Some(Rank::Ten)
        } else if v == 11 {
            Some(Rank::Jack)
        } else if v == 12 {
            Some(Rank::Queen)
        } else if v == 13 {
            Some(Rank::King)
        } else if v == 14 {
            Some(Rank::Ace)
        } else {
            None
        }
    }

    /// Parses a rank code: `2`..`9`, `T`, `J`, `Q`, `K`, `A` (letters in
    /// either case).
    pub fn from_char(c: char) -> (r: Option<Rank>)
        ensures
            r == rank_of_char(c),
    {
        if c == '2' {
            Some(Rank::Two)
        } else if c == '3' {
            Some(Rank::Three)
        } else if c == '4' {
            Some(Rank::Four)
        } else if c == '5' {
            Some(Rank::Five)
        } else if c == '6' {
            Some(Rank::Six)
        } else if c == '7' {
            Some(Rank::Seven)
        } else if c == '8' {
            Some(Rank::Eight)
        } else if c == '9' {
            Some(Rank::Nine)
        } else if c == 'T' || c == 't' {
            Some(Rank::Ten)
        } else if c == 'J' || c == 'j' {
            Some(Rank::Jack)
        } else if c == 'Q' || c == 'q' {
            Some(Rank::Queen)
        } else if c == 'K' || c == 'k' {
            Some(Rank::King)
        } else if c == 'A' || c == 'a' {
            Some(Rank::Ace)
        } else {
            None
        }
    }

    /// The upper-case code of this rank.
    pub fn to_char(self) -> (c: char)
        ensures
            c == rank_char(self),
            rank_of_char(c) == Some(self),
    {
        match self {
            Rank::Two => '2',
            Rank::Three => '3',
            Rank::Four => '4',
            Rank::Five => '5',
            Rank::Six => '6',
            Rank::Seven => '7',
            Rank::Eight => '8',
            Rank::Nine => '9',
            Rank::Ten => 'T',
            Rank::Jack => 'J',
            Rank::Queen => 'Q',
            Rank::King => 'K',
            Rank::Ace => 'A',
        }
    }
}

/// A playing card.
#[derive(Debug, Clone, Copy, PartialEq, Eq, Hash, Structural)]
pub struct Card {
    pub suit: Suit,
    pub rank: Rank,
}

/// The card named by a suit code and a rank code.
pub open spec fn card_of_chars(suit: char, rank: char) -> Option<Card> {
    match (suit_of_char(suit), rank_of_char(rank)) {
        (Some(s), Some(r)) => Some(Card { suit: s, rank: r }),
        _ => None,
    }
}

impl Card {
    pub fn new(suit: Suit, rank: Rank) -> (c: Card)
        ensures
            c == (Card { suit, rank }),
    {
        Card { suit, rank }
    }

    /// Parses a card from its suit code and rank code, e.g. `('S', 'K')`.
    pub fn from_chars(suit: char, rank: char) -> (c: Option<Card>)
        ensures
            c == card_of_chars(suit, rank),
    {
        match (Suit::from_char(suit), Rank::from_char(rank)) {
            (Some(s), Some(r)) => Some(Card { suit: s, rank: r }),
            _ => None,
        }
    }
}

/// Total order on cards: by rank, then by suit to break ties between equal
/// ranks. Distinct cards always have distinct keys.
pub open spec fn card_key(c: Card) -> int {
    rank_value(c.rank) * 4 + suit_index(c.suit)
}

/// Two cards with the same key are the same card.
pub proof fn lemma_card_key_injective(a: Card, b: Card)
    ensures
        card_key(a) == card_key(b) ==> a == b,
{
    if card_key(a) == card_key(b) {
        assert(rank_value(a.rank) == rank_value(b.rank));
        assert(suit_index(a.suit) == suit_index(b.suit));
    }
}

/// The key of a card as a machine integer.
pub fn card_key_of(c: Card) -> (k: u8)
    ensures
        k == card_key(c),
        k < 60,
{
    c.rank.value() * 4 + c.suit.index()
}

/// A seat at the table.
#[derive(Debug, Clone, Copy, PartialEq, Eq, Hash, Structural)]
pub enum Direction {
    North,
    East,
    South,
    West,
}

/// The seat to the left, i.e. the next seat in clockwise play order.
pub open spec fn next_seat(d: Direction) -> Direction {
    match d {
        Direction::North => Direction::East,
        Direction::East => Direction::South,
        Direction::South => Direction::West,
        Direction::West => Direction::North,
    }
}

/// The seat across the table.
pub open spec fn partner_seat(d: Direction) -> Direction {
    match d {
        Direction::North => Direction::South,
        Direction::East => Direction::West,
        Direction::South => Direction::North,
        Direction::West => Direction::East,
    }
}

/// The seat `k` places clockwise from `d`.
pub open spec fn seat_after(d: Direction, k: nat) -> Direction
    decreases k,
{
    if k == 0 {
        d
    } else {
        next_seat(seat_after(d, (k - 1) as nat))
    }
}

/// The seat named by a character code (`N`, `E`, `S`, `W`, either case).
pub open spec fn direction_of_char(c: char) -> Option<Direction> {
    if c == 'N' || c == 'n' {
        Some(Direction::North)
    } else if c == 'E' || c == 'e' {
        Some(Direction::East)
    } else if c == 'S' || c == 's' {
        Some(Direction::South)
    } else if c == 'W' || c == 'w' {
        Some(Direction::West)
    } else {
        None
    }
}

/// The upper-case character code of a seat.
pub open spec fn direction_char(d: Direction) -> char {
    match d {
        Direction::North => 'N',
        Direction::East => 'E',
        Direction::South => 'S',
        Direction::West => 'W',
    }
}

impl Direction {
    /// The next seat clockwise.
    pub fn next(self) -> (r: Direction)
        ensures
            r == next_seat(self),
    {
        match self {
            Direction::North => Direction::East,
            Direction::East => Direction::South,
            Direction::South => Direction::West,
            Direction::West => Direction::North,
        }
    }

    /// The partner's seat.
    pub fn partner(self) -> (r: Direction)
        ensures
            r == partner_seat(self),
    {
        match self {
            Direction::North => Direction::South,
            Direction::East => Direction::West,
            Direction::South => Direction::North,
            Direction::West => Direction::East,
        }
    }

    /// Parses a seat code: `N`, `E`, `S` or `W`, upper or lower case.
    pub fn from_char(c: char) -> (r: Option<Direction>)
        ensures
            r == direction_of_char(c),
    {
        if c == 'N' || c == 'n' {
            Some(Direction::North)
        } else if c == 'E' || c == 'e' {
            Some(Direction::East)
        } else if c == 'S' || c == 's' {
            Some(Direction::South)
        } else if c == 'W' || c == 'w' {
            Some(Direction::West)
        } else {
            None
        }
    }

    /// The upper-case code of this seat.
    pub fn to_char(self) -> (c: char)
        ensures
            c == direction_char(self),
            direction_of_char(c) == Some(self),
    {
        match self {
            Direction::North => 'N',
            Direction::East => 'E',
            Direction::South => 'S',
            Direction::West => 'W',
        }
    }
}

/// Partnership and rotation facts about seats.
pub proof fn lemma_seat_laws(d: Direction)
    ensures
        partner_seat(partner_seat(d)) == d,
        partner_seat(d) != d,
        next_seat(next_seat(d)) == partner_seat(d),
        seat_after(d, 4) == d,
        next_seat(d) != d,
        next_seat(d) != partner_seat(d),
{
    reveal_with_fuel(seat_after, 5);
}

} // verus!
