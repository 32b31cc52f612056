//! Auction vocabulary: strains, calls and board vulnerability, their PBN
//! codes, and who bid what.

use vstd::prelude::*;
use vstd::string::*;
use crate::cards::{seat_after, Direction, Suit};

verus! {

/// A denomination: one of the four suits or no-trump.
#[derive(Debug, Clone, Copy, PartialEq, Eq, Hash, Structural)]
pub enum Strain {
    Clubs,
    Diamonds,
    Hearts,
    Spades,
    NoTrump,
}

/// The suit of a strain, or `None` for no-trump.
pub open spec fn strain_suit(st: Strain) -> Option<Suit> {
    match st {
        Strain::Clubs => Some(Suit::Clubs),
        Strain::Diamonds => Some(Suit::Diamonds),
        Strain::Hearts => Some(Suit::Hearts),
        Strain::Spades => Some(Suit::Spades),
        Strain::NoTrump => None,
    }
}

/// The strain named by a character code (`C`, `D`, `H`, `S`, `N`, either case).
pub open spec fn strain_of_char(c: char) -> Option<Strain> {
    if c == 'C' || c == 'c' {
        Some(Strain::Clubs)
    } else if c == 'D' || c == 'd' {
        Some(Strain::Diamonds)
    } else if c == 'H' || c == 'h' {
        Some(Strain::Hearts)
    } else if c == 'S' || c == 's' {
        Some(Strain::Spades)
    } else if c == 'N' || c == 'n' {
        Some(Strain::NoTrump)
    } else {
        None
    }
}

impl Strain {
    /// The suit of this strain, `None` for no-trump.
    pub fn suit(self) -> (r: Option<Suit>)
        ensures
            r == strain_suit(self),
    {
        match self {
            Strain::Clubs => Some(Suit::Clubs),
            Strain::Diamonds => Some(Suit::Diamonds),
            Strain::Hearts => Some(Suit::Hearts),
            Strain::Spades => Some(Suit::Spades),
            Strain::NoTrump => None,
        }
    }

    /// Parses a strain code: `C`, `D`, `H`, `S` or `N`, upper or lower case.
    pub fn from_char(c: char) -> (r: Option<Strain>)
        ensures
            r == strain_of_char(c),
    {
        if c == 'C' || c == 'c' {
            Some(Strain::Clubs)
        } else if c == 'D' || c == 'd' {
            Some(Strain::Diamonds)
        } else if c == 'H' || c == 'h' {
            Some(Strain::Hearts)
        } else if c == 'S' || c == 's' {
            Some(Strain::Spades)
        } else if c == 'N' || c == 'n' {
            Some(Strain::NoTrump)
        } else {
            None
        }
    }
}

/// One call of the auction.
#[derive(Debug, Clone, Copy, PartialEq, Eq, Hash, Structural)]
pub enum Call {
    Pass,
    Double,
    Redouble,
    Bid { level: u8, strain: Strain },
}

impl Call {
    /// A bid of `level` in `strain`.
    pub fn bid(level: u8, strain: Strain) -> (c: Call)
        ensures
            c == (Call::Bid { level, strain }),
    {
        Call::Bid { level, strain }
    }

    /// Parses a PBN call: `Pass` (also `P`, `PASS`, `pass`), `X`, `XX`, or a
    /// level `1`..`7` followed by a strain code, where no-trump may also be
    /// written `NT`.
    pub fn from_pbn(s: &str) -> (r: Option<Call>)
        ensures
            r == call_of_pbn(s@),
    {
        if str_equals(s, "P") || str_equals(s, "p") || str_equals(s, "Pass") || str_equals(s, "PASS")
            || str_equals(s, "pass") {
            return Some(Call::Pass);
        }
        if str_equals(s, "X") || str_equals(s, "x") {
            return Some(Call::Double);
        }
        if str_equals(s, "XX") || str_equals(s, "xx") {
            return Some(Call::Redouble);
        }
        let n = s.unicode_len();
        if n != 2 && n != 3 {
            return None;
        }
        let level = match level_of_char_exec(s.get_char(0)) {
            Some(l) => l,
            None => { return None; },
        };
        let strain = match Strain::from_char(s.get_char(1)) {
            Some(st) => st,
            None => { return None; },
        };
        if n == 3 {
            let last = s.get_char(2);
            if strain == Strain::NoTrump && (last == 'T' || last == 't') {
                Some(Call::Bid { level, strain })
            } else {
                None
            }
        } else {
            Some(Call::Bid { level, strain })
        }
    }
}

/// The bidding level named by a digit `1`..`7`.
pub open spec fn level_of_char(c: char) -> Option<u8> {
    if c == '1' {
        Some(1u8)
    } else if c == '2' {
        Some(2u8)
    } else if c == '3' {
        Some(3u8)
    } else if c == '4' {
        Some(4u8)
    } else if c == '5' {
        Some(5u8)
    } else if c == '6' {
        Some(6u8)
    } else if c == '7' {
        Some(7u8)
    } else {
        None
    }
}

fn level_of_char_exec(c: char) -> (r: Option<u8>)
    ensures
        r == level_of_char(c),
{
    if c == '1' {
        Some(1u8)
    } else if c == '2' {
        Some(2u8)
    } else if c == '3' {
        Some(3u8)
    } else if c == '4' {
        Some(4u8)
    } else if c == '5' {
        Some(5u8)
    } else if c == '6' {
        Some(6u8)
    } else if c == '7' {
        Some(7u8)
    } else {
        None
    }
}

/// The call written `s` in PBN, if `s` is one.
pub open spec fn call_of_pbn(s: Seq<char>) -> Option<Call> {
    if s == "P"@ || s == "p"@ || s == "Pass"@ || s == "PASS"@ || s == "pass"@ {
        Some(Call::Pass)
    } else if s == "X"@ || s == "x"@ {
        Some(Call::Double)
    } else if s == "XX"@ || s == "xx"@ {
        Some(Call::Redouble)
    } else if s.len() == 2 {
        match (level_of_char(s[0]), strain_of_char(s[1])) {
            (Some(level), Some(strain)) => Some(Call::Bid { level, strain }),
            _ => None,
        }
    } else if s.len() == 3 {
        match (level_of_char(s[0]), strain_of_char(s[1])) {
            (Some(level), Some(strain)) => if strain == Strain::NoTrump && (s[2] == 'T' || s[2]
                == 't') {
                Some(Call::Bid { level, strain })
            } else {
                None
            },
            _ => None,
        }
    } else {
        None
    }
}

/// The first character of a string, if it has one.
pub fn first_char(s: &str) -> (r: Option<char>)
    ensures
        r == if s@.len() > 0 {
            Some(s@[0])
        } else {
            None::<char>
        },
{
    if s.unicode_len() > 0 {
        Some(s.get_char(0))
    } else {
        None
    }
}

/// Whether two strings hold the same characters.
pub fn str_equals(s: &str, t: &str) -> (b: bool)
    ensures
        b == (s@ == t@),
{
    let n = s.unicode_len();
    let m = t.unicode_len();
    if n != m {
        return false;
    }
    let mut i: usize = 0;
    while i < n
        invariant
            n == s@.len(),
            m == t@.len(),
            n == m,
            i <= n,
            forall|j: int| 0 <= j < i ==> s@[j] == t@[j],
        decreases n - i,
    {
        if s.get_char(i) != t.get_char(i) {
            return false;
        }
        i = i + 1;
    }
    assert(s@ =~= t@);
    true
}

/// Board vulnerability.
#[derive(Debug, Clone, Copy, PartialEq, Eq, Hash, Structural)]
pub enum Vulnerability {
    Neither,
    NorthSouth,
    EastWest,
    Both,
}

/// The vulnerability written `s` in PBN: `None` (also `Love`, `-`), `NS`,
/// `EW`, `All` (also `Both`).
pub open spec fn vulnerability_of_pbn(s: Seq<char>) -> Option<Vulnerability> {
    if s == "None"@ || s == "Love"@ || s == "-"@ {
        Some(Vulnerability::Neither)
    } else if s == "NS"@ {
        Some(Vulnerability::NorthSouth)
    } else if s == "EW"@ {
        Some(Vulnerability::EastWest)
    } else if s == "All"@ || s == "Both"@ {
        Some(Vulnerability::Both)
    } else {
        None
    }
}

impl Vulnerability {
    /// Parses a PBN vulnerability code.
    pub fn from_pbn(s: &str) -> (r: Option<Vulnerability>)
        ensures
            r == vulnerability_of_pbn(s@),
    {
        if str_equals(s, "None") || str_equals(s, "Love") || str_equals(s, "-") {
            Some(Vulnerability::Neither)
        } else if str_equals(s, "NS") {
            Some(Vulnerability::NorthSouth)
        } else if str_equals(s, "EW") {
            Some(Vulnerability::EastWest)
        } else if str_equals(s, "All") || str_equals(s, "Both") {
            Some(Vulnerability::Both)
        } else {
            None
        }
    }
}

/// The suit named by a call: that of a suit bid, `None` for any other call.
pub open spec fn bid_suit(c: Call) -> Option<Suit> {
    match c {
        Call::Bid { strain, .. } => strain_suit(strain),
        _ => None,
    }
}

/// The suit of the first suit bid that `bidder` made at or after call `i`,
/// calls being made in turn starting from `dealer`.
pub open spec fn first_suit_bid_from(
    auction: Seq<Call>,
    dealer: Direction,
    bidder: Direction,
    i: nat,
) -> Option<Suit>
    decreases auction.len() - i,
{
    if i >= auction.len() {
        None
    } else if seat_after(dealer, i) == bidder && bid_suit(auction[i as int]).is_some() {
        bid_suit(auction[i as int])
    } else {
        first_suit_bid_from(auction, dealer, bidder, i + 1)
    }
}

/// The suit of the first suit bid made by `bidder` in the auction.
pub open spec fn first_suit_bid(auction: Seq<Call>, dealer: Direction, bidder: Direction) -> Option<
    Suit,
> {
    first_suit_bid_from(auction, dealer, bidder, 0)
}

/// The first suit that `bidder` bid (no-trump bids do not count), with the
/// auction's calls attributed to seats in turn from the dealer.
pub fn first_suit_bid_by(auction: &Vec<Call>, dealer: Direction, bidder: Direction) -> (r: Option<
    Suit,
>)
    ensures
        r == first_suit_bid(auction@, dealer, bidder),
{
    let mut i: usize = 0;
    let mut seat = dealer;
    while i < auction.len()
        invariant
            i <= auction@.len(),
            seat == seat_after(dealer, i as nat),
            first_suit_bid(auction@, dealer, bidder) == first_suit_bid_from(
                auction@,
                dealer,
                bidder,
                i as nat,
            ),
        decreases auction@.len() - i,
    {
        if seat == bidder {
            if let Call::Bid { strain, .. } = auction[i] {
                if let Some(s) = strain.suit() {
                    return Some(s);
                }
            }
        }
        seat = seat.next();
        i = i + 1;
    }
    None
}

} // verus!
