//! Choosing cards out of a holding: the lowest or highest card that meets a
//! condition (cards ordered by rank, then suit), and scans over the ranks a
//! holding has in one suit.

use vstd::prelude::*;
use crate::cards::{card_key, card_key_of, lemma_card_key_injective, lemma_rank_of_value, lemma_rank_value, rank_of_value, rank_value, Card, Rank, Suit};

verus! {

/// `c` is a card of `s` that meets `p`, and no card of `s` that meets `p` is lower.
pub open spec fn is_lowest_where(s: Seq<Card>, p: spec_fn(Card) -> bool, c: Card) -> bool {
    &&& s.contains(c)
    &&& p(c)
    &&& forall|x: Card| #[trigger] s.contains(x) && p(x) ==> card_key(c) <= card_key(x)
}

/// `c` is a card of `s` that meets `p`, and no card of `s` that meets `p` is higher.
pub open spec fn is_highest_where(s: Seq<Card>, p: spec_fn(Card) -> bool, c: Card) -> bool {
    &&& s.contains(c)
    &&& p(c)
    &&& forall|x: Card| #[trigger] s.contains(x) && p(x) ==> card_key(x) <= card_key(c)
}

/// The lowest card of `s` that meets `p`, if any card does.
pub open spec fn lowest_where(s: Seq<Card>, p: spec_fn(Card) -> bool) -> Option<Card> {
    if exists|c: Card| is_lowest_where(s, p, c) {
        Some(choose|c: Card| is_lowest_where(s, p, c))
    } else {
        None
    }
}

/// The highest card of `s` that meets `p`, if any card does.
pub open spec fn highest_where(s: Seq<Card>, p: spec_fn(Card) -> bool) -> Option<Card> {
    if exists|c: Card| is_highest_where(s, p, c) {
        Some(choose|c: Card| is_highest_where(s, p, c))
    } else {
        None
    }
}

/// Every card.
pub open spec fn any_card() -> spec_fn(Card) -> bool {
    |c: Card| true
}

/// The lowest card of a holding.
pub open spec fn lowest_card(s: Seq<Card>) -> Option<Card> {
    lowest_where(s, any_card())
}

/// At most one card of `s` is the lowest that meets `p`.
pub proof fn lemma_lowest_unique(s: Seq<Card>, p: spec_fn(Card) -> bool, a: Card, b: Card)
    requires
        is_lowest_where(s, p, a),
        is_lowest_where(s, p, b),
    ensures
        a == b,
{
    lemma_card_key_injective(a, b);
}

/// At most one card of `s` is the highest that meets `p`.
pub proof fn lemma_highest_unique(s: Seq<Card>, p: spec_fn(Card) -> bool, a: Card, b: Card)
    requires
        is_highest_where(s, p, a),
        is_highest_where(s, p, b),
    ensures
        a == b,
{
    lemma_card_key_injective(a, b);
}

/// A card that is the lowest meeting `p` is what `lowest_where` picks.
pub proof fn lemma_lowest_where_is(s: Seq<Card>, p: spec_fn(Card) -> bool, c: Card)
    requires
        is_lowest_where(s, p, c),
    ensures
        lowest_where(s, p) == Some(c),
{
    let d = choose|d: Card| is_lowest_where(s, p, d);
    lemma_lowest_unique(s, p, c, d);
}

/// A card that is the highest meeting `p` is what `highest_where` picks.
pub proof fn lemma_highest_where_is(s: Seq<Card>, p: spec_fn(Card) -> bool, c: Card)
    requires
        is_highest_where(s, p, c),
    ensures
        highest_where(s, p) == Some(c),
{
    let d = choose|d: Card| is_highest_where(s, p, d);
    lemma_highest_unique(s, p, c, d);
}

/// `lowest_where` finds a card exactly when some card meets `p`, and the card
/// it finds is in `s`, meets `p` and is no higher than any other that does.
pub proof fn lemma_lowest_where(s: Seq<Card>, p: spec_fn(Card) -> bool)
    ensures
        lowest_where(s, p).is_some() <==> exists|i: int| 0 <= i < s.len() && p(s[i]),
        lowest_where(s, p) matches Some(c) ==> is_lowest_where(s, p, c),
    decreases s.len(),
{
    if exists|i: int| 0 <= i < s.len() && p(s[i]) {
        let t = s.drop_last();
        let x = s.last();
        lemma_lowest_where(t, p);
        assert(s.contains(x));
        let c = match lowest_where(t, p) {
            None => {
                let i = choose|i: int| 0 <= i < s.len() && p(s[i]);
                if i < s.len() - 1 {
                    assert(t[i] == s[i]);
                }
                x
            },
            Some(b) => {
                let k = choose|k: int| 0 <= k < t.len() && t[k] == b;
                assert(s[k] == b);
                if p(x) && card_key(x) < card_key(b) {
                    x
                } else {
                    b
                }
            },
        };
        assert forall|y: Card| #[trigger] s.contains(y) && p(y) implies card_key(c) <= card_key(
            y,
        ) by {
            let k = choose|k: int| 0 <= k < s.len() && s[k] == y;
            if k < s.len() - 1 {
                assert(t[k] == y);
                assert(t.contains(y));
            }
        }
        lemma_lowest_where_is(s, p, c);
    }
}

/// `highest_where` finds a card exactly when some card meets `p`, and the
/// card it finds is in `s`, meets `p` and is no lower than any other that does.
pub proof fn lemma_highest_where(s: Seq<Card>, p: spec_fn(Card) -> bool)
    ensures
        highest_where(s, p).is_some() <==> exists|i: int| 0 <= i < s.len() && p(s[i]),
        highest_where(s, p) matches Some(c) ==> is_highest_where(s, p, c),
    decreases s.len(),
{
    if exists|i: int| 0 <= i < s.len() && p(s[i]) {
        let t = s.drop_last();
        let x = s.last();
        lemma_highest_where(t, p);
        assert(s.contains(x));
        let c = match highest_where(t, p) {
            None => {
                let i = choose|i: int| 0 <= i < s.len() && p(s[i]);
                if i < s.len() - 1 {
                    assert(t[i] == s[i]);
                }
                x
            },
            Some(b) => {
                let k = choose|k: int| 0 <= k < t.len() && t[k] == b;
                assert(s[k] == b);
                if p(x) && card_key(b) < card_key(x) {
                    x
                } else {
                    b
                }
            },
        };
        assert forall|y: Card| #[trigger] s.contains(y) && p(y) implies card_key(y) <= card_key(
            c,
        ) by {
            let k = choose|k: int| 0 <= k < s.len() && s[k] == y;
            if k < s.len() - 1 {
                assert(t[k] == y);
                assert(t.contains(y));
            }
        }
        lemma_highest_where_is(s, p, c);
    }
}

/// What a left-to-right scan for the lowest card meeting `p` knows after
/// looking at the first `i` cards.
pub open spec fn lowest_scan(s: Seq<Card>, p: spec_fn(Card) -> bool, i: int, best: Option<Card>) -> bool {
    match best {
        None => forall|j: int| 0 <= j < i ==> !p(#[trigger] s[j]),
        Some(b) => {
            &&& p(b)
            &&& exists|j: int| 0 <= j < i && s[j] == b
            &&& forall|j: int| 0 <= j < i && p(#[trigger] s[j]) ==> card_key(b) <= card_key(s[j])
        },
    }
}

/// What a left-to-right scan for the highest card meeting `p` knows after
/// looking at the first `i` cards.
pub open spec fn highest_scan(s: Seq<Card>, p: spec_fn(Card) -> bool, i: int, best: Option<Card>) -> bool {
    match best {
        None => forall|j: int| 0 <= j < i ==> !p(#[trigger] s[j]),
        Some(b) => {
            &&& p(b)
            &&& exists|j: int| 0 <= j < i && s[j] == b
            &&& forall|j: int| 0 <= j < i && p(#[trigger] s[j]) ==> card_key(s[j]) <= card_key(b)
        },
    }
}

/// A finished scan found the lowest card meeting `p`.
pub proof fn lemma_lowest_scan_done(s: Seq<Card>, p: spec_fn(Card) -> bool, best: Option<Card>)
    requires
        lowest_scan(s, p, s.len() as int, best),
    ensures
        best == lowest_where(s, p),
{
    lemma_lowest_where(s, p);
    match best {
        None => {},
        Some(b) => {
            assert forall|x: Card| #[trigger] s.contains(x) && p(x) implies card_key(b)
                <= card_key(x) by {
                let k = choose|k: int| 0 <= k < s.len() && s[k] == x;
                assert(p(s[k]));
            }
            lemma_lowest_where_is(s, p, b);
        },
    }
}

/// A finished scan found the highest card meeting `p`.
pub proof fn lemma_highest_scan_done(s: Seq<Card>, p: spec_fn(Card) -> bool, best: Option<Card>)
    requires
        highest_scan(s, p, s.len() as int, best),
    ensures
        best == highest_where(s, p),
{
    lemma_highest_where(s, p);
    match best {
        None => {},
        Some(b) => {
            assert forall|x: Card| #[trigger] s.contains(x) && p(x) implies card_key(x)
                <= card_key(b) by {
                let k = choose|k: int| 0 <= k < s.len() && s[k] == x;
                assert(p(s[k]));
            }
            lemma_highest_where_is(s, p, b);
        },
    }
}

/// Lowest card in a set, ordered by rank then suit (suit only breaks exact
/// rank ties, e.g. discarding from equals).
pub fn lowest(cards: &[Card]) -> (r: Option<Card>)
    ensures
        r == lowest_card(cards@),
        r.is_some() <==> cards@.len() > 0,
{
    let mut best: Option<Card> = None;
    let mut i: usize = 0;
    while i < cards.len()
        invariant
            i <= cards@.len(),
            lowest_scan(cards@, any_card(), i as int, best),
            best.is_some() <==> i > 0,
        decreases cards@.len() - i,
    {
        let c = cards[i];
        match best {
            None => {
                best = Some(c);
            },
            Some(b) => {
                if card_key_of(c) < card_key_of(b) {
                    best = Some(c);
                }
            },
        }
        i = i + 1;
    }
    proof {
        lemma_lowest_scan_done(cards@, any_card(), best);
    }
    best
}

// ---------------------------------------------------------------------------
// Ranks held in one suit
// ---------------------------------------------------------------------------

/// A machine rank value taken as a mathematical integer.
pub open spec fn widen(r: Option<u8>) -> Option<int> {
    match r {
        Some(v) => Some(v as int),
        None => None,
    }
}

/// The card of suit `s` whose rank has value `v` (2..=14).
pub open spec fn card_of(s: Suit, v: int) -> Card {
    Card { suit: s, rank: rank_of_value(v)->0 }
}

/// `cards` holds the card of suit `s` whose rank has value `v`.
pub open spec fn has_rank(cards: Seq<Card>, s: Suit, v: int) -> bool {
    match rank_of_value(v) {
        Some(r) => cards.contains(Card { suit: s, rank: r }),
        None => false,
    }
}

/// The rank values that `cards` holds in suit `s`.
pub open spec fn held(cards: Seq<Card>, s: Suit) -> spec_fn(int) -> bool {
    |v: int| has_rank(cards, s, v)
}

/// The highest rank value `w` with `2 <= w <= v` that meets `q`.
pub open spec fn highest_rank_where(q: spec_fn(int) -> bool, v: int) -> Option<int>
    decreases v,
{
    if v < 2 {
        None
    } else if q(v) {
        Some(v)
    } else {
        highest_rank_where(q, v - 1)
    }
}

/// The lowest rank value `w` with `v <= w <= 14` that meets `q`.
pub open spec fn lowest_rank_where(q: spec_fn(int) -> bool, v: int) -> Option<int>
    decreases 15 - v,
{
    if v > 14 {
        None
    } else if q(v) {
        Some(v)
    } else {
        lowest_rank_where(q, v + 1)
    }
}

/// How many rank values `w` with `2 <= w <= v` meet `q`.
pub open spec fn count_ranks_where(q: spec_fn(int) -> bool, v: int) -> nat
    decreases v,
{
    if v < 2 {
        0
    } else {
        count_ranks_where(q, v - 1) + if q(v) {
            1nat
        } else {
            0nat
        }
    }
}

/// The `n`-th highest (from 0) rank value `w` with `2 <= w <= v` that meets `q`.
pub open spec fn nth_highest_rank_where(q: spec_fn(int) -> bool, v: int, n: nat) -> Option<int>
    decreases v,
{
    if v < 2 {
        None
    } else if q(v) {
        if n == 0 {
            Some(v)
        } else {
            nth_highest_rank_where(q, v - 1, (n - 1) as nat)
        }
    } else {
        nth_highest_rank_where(q, v - 1, n)
    }
}

/// A rank value found by a scan lies in the scanned range and meets `q`.
pub proof fn lemma_highest_rank_where(q: spec_fn(int) -> bool, v: int)
    ensures
        highest_rank_where(q, v) matches Some(w) ==> 2 <= w <= v && q(w) && forall|u: int|
            w < u <= v ==> !#[trigger] q(u),
        highest_rank_where(q, v) is None ==> forall|u: int| 2 <= u <= v ==> !#[trigger] q(u),
    decreases v,
{
    if v >= 2 {
        lemma_highest_rank_where(q, v - 1);
    }
}

/// A rank value found by a scan lies in the scanned range and meets `q`.
pub proof fn lemma_lowest_rank_where(q: spec_fn(int) -> bool, v: int)
    ensures
        lowest_rank_where(q, v) matches Some(w) ==> v <= w <= 14 && q(w) && forall|u: int|
            v <= u < w ==> !#[trigger] q(u),
        lowest_rank_where(q, v) is None ==> forall|u: int| v <= u <= 14 ==> !#[trigger] q(u),
    decreases 15 - v,
{
    if v <= 14 {
        lemma_lowest_rank_where(q, v + 1);
    }
}

/// A rank value that meets `q`, below which (down to `v`) none does, is what
/// an upward scan from `v` finds.
pub proof fn lemma_lowest_rank_where_is(q: spec_fn(int) -> bool, v: int, b: int)
    requires
        v <= b <= 14,
        q(b),
        forall|u: int| v <= u < b ==> !#[trigger] q(u),
    ensures
        lowest_rank_where(q, v) == Some(b),
    decreases b - v,
{
    if v < b {
        lemma_lowest_rank_where_is(q, v + 1, b);
    }
}

/// An upward scan passes over rank values that do not meet `q`.
pub proof fn lemma_lowest_rank_where_skip(q: spec_fn(int) -> bool, a: int, b: int)
    requires
        a <= b,
        forall|u: int| a <= u < b ==> !#[trigger] q(u),
    ensures
        lowest_rank_where(q, a) == lowest_rank_where(q, b),
    decreases b - a,
{
    if a < b {
        lemma_lowest_rank_where_skip(q, a + 1, b);
    }
}

/// Whether `cards` holds the card of `suit` with rank value `v`.
pub fn holds_rank(cards: &[Card], suit: Suit, v: u8) -> (b: bool)
    ensures
        b == has_rank(cards@, suit, v as int),
{
    proof {
        lemma_rank_of_value(v as int);
    }
    let mut i: usize = 0;
    while i < cards.len()
        invariant
            i <= cards@.len(),
            forall|j: int|
                0 <= j < i ==> !((#[trigger] cards@[j]).suit == suit && rank_value(cards@[j].rank)
                    == v),
        decreases cards@.len() - i,
    {
        let c = cards[i];
        if c.suit == suit && c.rank.value() == v {
            proof {
                lemma_rank_value(c.rank);
                assert(cards@[i as int] == Card { suit, rank: rank_of_value(v as int)->0 });
            }
            return true;
        }
        i = i + 1;
    }
    proof {
        if has_rank(cards@, suit, v as int) {
            let r = rank_of_value(v as int)->0;
            let k = choose|k: int| 0 <= k < cards@.len() && cards@[k] == Card { suit, rank: r };
            assert(cards@[k].suit == suit && rank_value(cards@[k].rank) == v);
        }
    }
    false
}

/// The highest rank value at most `top` that `cards` holds in `suit`.
pub fn highest_held_at_most(cards: &[Card], suit: Suit, top: u8) -> (r: Option<u8>)
    requires
        top <= 14,
    ensures
        widen(r) == highest_rank_where(held(cards@, suit), top as int),
{
    let mut v: u8 = top;
    while v >= 2
        invariant
            v <= top,
            highest_rank_where(held(cards@, suit), top as int) == highest_rank_where(
                held(cards@, suit),
                v as int,
            ),
        decreases v,
    {
        if holds_rank(cards, suit, v) {
            return Some(v);
        }
        v = v - 1;
    }
    None
}

/// The lowest rank value that `cards` holds in `suit`.
pub fn lowest_held(cards: &[Card], suit: Suit) -> (r: Option<u8>)
    ensures
        widen(r) == lowest_rank_where(held(cards@, suit), 2),
{
    let mut v: u8 = 2;
    while v <= 14
        invariant
            2 <= v <= 15,
            lowest_rank_where(held(cards@, suit), 2) == lowest_rank_where(
                held(cards@, suit),
                v as int,
            ),
        decreases 15 - v,
    {
        if holds_rank(cards, suit, v) {
            return Some(v);
        }
        v = v + 1;
    }
    None
}

/// How many distinct ranks `cards` holds in `suit`.
pub fn count_held(cards: &[Card], suit: Suit) -> (n: u8)
    ensures
        n == count_ranks_where(held(cards@, suit), 14),
        n <= 13,
{
    let mut n: u8 = 0;
    let mut v: u8 = 2;
    while v <= 14
        invariant
            2 <= v <= 15,
            n == count_ranks_where(held(cards@, suit), v - 1),
            n <= v - 2,
        decreases 15 - v,
    {
        if holds_rank(cards, suit, v) {
            n = n + 1;
        }
        v = v + 1;
    }
    n
}

/// The `n`-th highest (from 0) rank value that `cards` holds in `suit`.
pub fn nth_highest_held(cards: &[Card], suit: Suit, n: u8) -> (r: Option<u8>)
    ensures
        widen(r) == nth_highest_rank_where(held(cards@, suit), 14, n as nat),
{
    let mut v: u8 = 14;
    let mut k: u8 = n;
    while v >= 2
        invariant
            v <= 14,
            k <= n,
            nth_highest_rank_where(held(cards@, suit), 14, n as nat) == nth_highest_rank_where(
                held(cards@, suit),
                v as int,
                k as nat,
            ),
        decreases v,
    {
        if holds_rank(cards, suit, v) {
            if k == 0 {
                return Some(v);
            }
            k = k - 1;
        }
        v = v - 1;
    }
    None
}

/// Whether `cards` holds `c`.
pub fn contains_card(cards: &[Card], c: Card) -> (b: bool)
    ensures
        b == cards@.contains(c),
{
    let mut i: usize = 0;
    while i < cards.len()
        invariant
            i <= cards@.len(),
            forall|j: int| 0 <= j < i ==> cards@[j] != c,
        decreases cards@.len() - i,
    {
        if cards[i] == c {
            return true;
        }
        i = i + 1;
    }
    false
}

/// The card of `suit` whose rank has value `v`.
pub fn make_card(suit: Suit, v: u8) -> (c: Card)
    requires
        2 <= v <= 14,
    ensures
        c == card_of(suit, v as int),
{
    proof {
        lemma_rank_of_value(v as int);
    }
    match Rank::from_value(v) {
        Some(r) => Card { suit, rank: r },
        None => Card { suit, rank: Rank::Two },
    }
}

} // verus!
