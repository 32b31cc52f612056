//! The rule pipeline.
//!
//! Each entry point walks an ordered list of rules and takes the first one
//! that fires. Order encodes priority; every rule is a pure function of
//! (context, config). The always-correct terminals (`forced`,
//! `fallback-lowest`) keep the pipeline total; it is never random — random
//! play would corrupt the signaling story partners rely on.

use vstd::prelude::*;
use crate::auction::{first_suit_bid, first_suit_bid_by};
use crate::cards::{partner_seat, rank_value, suit_index, Card, Rank, Suit};
use crate::config::{AttitudeMethod, CountMethod, SignalConfig};
use crate::context::{LeadContext, PlayContext};
use crate::decision::Rule;
use crate::derived::trump_of;
use crate::derived::trump_suit;
use crate::select::{card_of, count_held, count_ranks_where, held, has_rank, highest_held_at_most, highest_rank_where, holds_rank, lemma_highest_rank_where, lemma_lowest_rank_where, lowest, lowest_card, lowest_held, lowest_rank_where, make_card, nth_highest_held, nth_highest_rank_where};
use crate::BotError;

verus! {

// ---------------------------------------------------------------------------
// Picking a suit
// ---------------------------------------------------------------------------

/// The suits in ascending order.
pub open spec fn suit_of_index(i: int) -> Suit {
    if i == 0 {
        Suit::Clubs
    } else if i == 1 {
        Suit::Diamonds
    } else if i == 2 {
        Suit::Hearts
    } else {
        Suit::Spades
    }
}

fn suit_at(i: usize) -> (s: Suit)
    ensures
        s == suit_of_index(i as int),
{
    if i == 0 {
        Suit::Clubs
    } else if i == 1 {
        Suit::Diamonds
    } else if i == 2 {
        Suit::Hearts
    } else {
        Suit::Spades
    }
}

/// `s` replaces the current choice when it qualifies and scores at least as
/// well.
pub open spec fn better_suit(
    cur: Option<Suit>,
    s: Suit,
    ok: spec_fn(Suit) -> bool,
    score: spec_fn(Suit) -> int,
) -> Option<Suit> {
    if ok(s) && (cur is None || score(s) >= score(cur->0)) {
        Some(s)
    } else {
        cur
    }
}

/// The best-scoring qualifying suit among the first `n` suits.
pub open spec fn best_suit_upto(ok: spec_fn(Suit) -> bool, score: spec_fn(Suit) -> int, n: nat) -> Option<Suit>
    decreases n,
{
    if n == 0 {
        None
    } else {
        better_suit(best_suit_upto(ok, score, (n - 1) as nat), suit_of_index(n - 1), ok, score)
    }
}

/// The qualifying suit with the highest score (the higher suit on a tie).
pub open spec fn best_suit(ok: spec_fn(Suit) -> bool, score: spec_fn(Suit) -> int) -> Option<Suit> {
    best_suit_upto(ok, score, 4)
}

/// Picks the best suit from per-suit (qualifies, score) pairs in suit order.
fn pick_suit(
    cands: &[(bool, u32)],
    Ghost(ok): Ghost<spec_fn(Suit) -> bool>,
    Ghost(score): Ghost<spec_fn(Suit) -> int>,
) -> (r: Option<Suit>)
    requires
        cands@.len() == 4,
        forall|i: int|
            0 <= i < 4 ==> (#[trigger] cands@[i]).0 == ok(suit_of_index(i)) && cands@[i].1 == score(
                suit_of_index(i),
            ),
    ensures
        r == best_suit(ok, score),
        r matches Some(s) ==> ok(s),
{
    let mut best: Option<(Suit, u32)> = None;
    let mut i: usize = 0;
    while i < 4
        invariant
            i <= 4,
            cands@.len() == 4,
            forall|j: int|
                0 <= j < 4 ==> (#[trigger] cands@[j]).0 == ok(suit_of_index(j)) && cands@[j].1
                    == score(suit_of_index(j)),
            match best {
                Some(b) => best_suit_upto(ok, score, i as nat) == Some(b.0) && b.1 == score(b.0)
                    && ok(b.0),
                None => best_suit_upto(ok, score, i as nat) is None,
            },
        decreases 4 - i,
    {
        let (q, sc) = cands[i];
        let s = suit_at(i);
        if q {
            match best {
                None => {
                    best = Some((s, sc));
                },
                Some(b) => {
                    if sc >= b.1 {
                        best = Some((s, sc));
                    }
                },
            }
        }
        i = i + 1;
    }
    match best {
        Some(b) => Some(b.0),
        None => None,
    }
}

// ---------------------------------------------------------------------------
// Holdings
// ---------------------------------------------------------------------------

/// How many cards (distinct ranks) `cards` holds in `s`.
pub open spec fn suit_len(cards: Seq<Card>, s: Suit) -> int {
    count_ranks_where(held(cards, s), 14) as int
}

/// The highest rank value `cards` holds in `s`.
pub open spec fn top_rank(cards: Seq<Card>, s: Suit) -> Option<int> {
    highest_rank_where(held(cards, s), 14)
}

/// The lowest rank value `cards` holds in `s`.
pub open spec fn low_rank(cards: Seq<Card>, s: Suit) -> Option<int> {
    lowest_rank_where(held(cards, s), 2)
}

/// `cards` holds an honor (ten or above) in `s`.
pub open spec fn has_honor(cards: Seq<Card>, s: Suit) -> bool {
    top_rank(cards, s) matches Some(t) && t >= 10
}

/// Facts tying the holding scans together.
pub proof fn lemma_holding(cards: Seq<Card>, s: Suit)
    ensures
        top_rank(cards, s) matches Some(t) ==> 2 <= t <= 14 && has_rank(cards, s, t),
        low_rank(cards, s) matches Some(t) ==> 2 <= t <= 14 && has_rank(cards, s, t),
        top_rank(cards, s) is Some <==> low_rank(cards, s) is Some,
        top_rank(cards, s) is Some <==> suit_len(cards, s) > 0,
        top_rank(cards, s) matches Some(t) ==> low_rank(cards, s)->0 <= t,
        suit_len(cards, s) <= 13,
{
    lemma_highest_rank_where(held(cards, s), 14);
    lemma_lowest_rank_where(held(cards, s), 2);
    lemma_count_positive(held(cards, s), 14);
}

/// A count of rank values is positive exactly when some value meets the condition.
pub proof fn lemma_count_positive(q: spec_fn(int) -> bool, v: int)
    ensures
        (count_ranks_where(q, v) > 0) == (exists|u: int| 2 <= u <= v && #[trigger] q(u)),
        v <= 14 ==> count_ranks_where(q, v) <= 13,
        v < 2 ==> count_ranks_where(q, v) == 0,
        count_ranks_where(q, v) <= if v < 2 { 0 } else { v - 1 },
    decreases v,
{
    if v >= 2 {
        lemma_count_positive(q, v - 1);
        if count_ranks_where(q, v - 1) > 0 {
            let u = choose|u: int| 2 <= u <= v - 1 && #[trigger] q(u);
            assert(2 <= u <= v && q(u));
        }
    }
}

// ---------------------------------------------------------------------------
// Opening leads
// ---------------------------------------------------------------------------

/// Lead partner's bid suit: the ace against a suit contract if held, low from
/// three or more headed by an honor, otherwise the top card (top of a
/// doubleton, top of nothing).
pub open spec fn lead_partners_suit(cards: Seq<Card>, suit_contract: bool, ps: Option<Suit>) -> Option<Card> {
    match ps {
        Some(s) => if suit_len(cards, s) > 0 {
            if suit_contract && has_rank(cards, s, 14) {
                Some(card_of(s, 14))
            } else if suit_len(cards, s) >= 3 && has_honor(cards, s) {
                Some(card_of(s, low_rank(cards, s)->0))
            } else {
                Some(card_of(s, top_rank(cards, s)->0))
            }
        } else {
            None
        },
        None => None,
    }
}

/// `s` is headed by a sequence of honors: three touching cards from an
/// honor down (AKQ, KQJ, QJT, JT9), or KQ or QJ with the nine.
pub open spec fn sequence_suit(cards: Seq<Card>) -> spec_fn(Suit) -> bool {
    |s: Suit|
        top_rank(cards, s) matches Some(t) && t >= 10 && has_rank(cards, s, t - 1) && (has_rank(
            cards,
            s,
            t - 2,
        ) || (12 <= t <= 13 && has_rank(cards, s, 9)))
}

/// Suits compared by their top card.
pub open spec fn top_score(cards: Seq<Card>) -> spec_fn(Suit) -> int {
    |s: Suit|
        match top_rank(cards, s) {
            Some(t) => t * 4 + suit_index(s),
            None => suit_index(s),
        }
}

/// Suits compared by length, then top card.
pub open spec fn length_score(cards: Seq<Card>) -> spec_fn(Suit) -> int {
    |s: Suit|
        match top_rank(cards, s) {
            Some(t) => suit_len(cards, s) * 64 + t * 4 + suit_index(s),
            None => suit_index(s),
        }
}

/// Suits compared by length only.
pub open spec fn short_score(cards: Seq<Card>) -> spec_fn(Suit) -> int {
    |s: Suit| suit_len(cards, s) * 4 + suit_index(s)
}

/// Suits compared by rank order alone.
pub open spec fn suit_score() -> spec_fn(Suit) -> int {
    |s: Suit| suit_index(s)
}

/// Top of a sequence of honors, from the suit with the highest top card.
pub open spec fn lead_top_of_sequence(cards: Seq<Card>) -> Option<Card> {
    match best_suit(sequence_suit(cards), top_score(cards)) {
        Some(s) => Some(card_of(s, top_rank(cards, s)->0)),
        None => None,
    }
}

/// Suits holding both the ace and the king.
pub open spec fn ace_king_suit(cards: Seq<Card>) -> spec_fn(Suit) -> bool {
    |s: Suit| has_rank(cards, s, 14) && has_rank(cards, s, 13)
}

/// Against a suit contract, the ace from ace-king (the highest such suit).
pub open spec fn lead_ace_from_ak(cards: Seq<Card>, suit_contract: bool) -> Option<Card> {
    if suit_contract {
        match best_suit(ace_king_suit(cards), suit_score()) {
            Some(s) => Some(card_of(s, 14)),
            None => None,
        }
    } else {
        None
    }
}

/// Suits with four or more cards headed by an honor, not (against a suit
/// contract) holding the ace.
pub open spec fn fourth_best_suit(cards: Seq<Card>, suit_contract: bool) -> spec_fn(Suit) -> bool {
    |s: Suit|
        suit_len(cards, s) >= 4 && has_honor(cards, s) && !(suit_contract && has_rank(
            cards,
            s,
            14,
        ))
}

/// Fourth best from the longest and strongest honor-headed suit.
pub open spec fn lead_fourth_best(cards: Seq<Card>, suit_contract: bool) -> Option<Card> {
    match best_suit(fourth_best_suit(cards, suit_contract), length_score(cards)) {
        Some(s) => Some(card_of(s, nth_highest_rank_where(held(cards, s), 14, 3)->0)),
        None => None,
    }
}

/// Suits of exactly three cards headed by an honor, not (against a suit
/// contract) holding the ace.
pub open spec fn honor_third_suit(cards: Seq<Card>, suit_contract: bool) -> spec_fn(Suit) -> bool {
    |s: Suit|
        suit_len(cards, s) == 3 && has_honor(cards, s) && !(suit_contract && has_rank(
            cards,
            s,
            14,
        ))
}

/// Low from three to an honor (the suit with the best honor).
pub open spec fn lead_low_from_honor(cards: Seq<Card>, suit_contract: bool) -> Option<Card> {
    match best_suit(honor_third_suit(cards, suit_contract), top_score(cards)) {
        Some(s) => Some(card_of(s, low_rank(cards, s)->0)),
        None => None,
    }
}

/// Worthless doubletons and tripletons.
pub open spec fn worthless_short_suit(cards: Seq<Card>) -> spec_fn(Suit) -> bool {
    |s: Suit| (suit_len(cards, s) == 2 || suit_len(cards, s) == 3) && !has_honor(cards, s)
}

/// Top of nothing, preferring a tripleton to a doubleton.
pub open spec fn lead_top_of_nothing(cards: Seq<Card>) -> Option<Card> {
    match best_suit(worthless_short_suit(cards), short_score(cards)) {
        Some(s) => Some(card_of(s, top_rank(cards, s)->0)),
        None => None,
    }
}

/// The first opening-lead rule that fires, after `forced`.
pub open spec fn lead_rules(cards: Seq<Card>, suit_contract: bool, ps: Option<Suit>) -> (Card, Rule) {
    match lead_partners_suit(cards, suit_contract, ps) {
        Some(c) => (c, Rule::LeadPartnersSuit),
        None => match lead_top_of_sequence(cards) {
            Some(c) => (c, Rule::LeadTopOfSequence),
            None => match lead_ace_from_ak(cards, suit_contract) {
                Some(c) => (c, Rule::LeadAceFromAk),
                None => match lead_fourth_best(cards, suit_contract) {
                    Some(c) => (c, Rule::LeadFourthBest),
                    None => match lead_low_from_honor(cards, suit_contract) {
                        Some(c) => (c, Rule::LeadLowFromHonor),
                        None => match lead_top_of_nothing(cards) {
                            Some(c) => (c, Rule::LeadTopOfNothing),
                            None => (lowest_card(cards)->0, Rule::FallbackLowest),
                        },
                    },
                },
            },
        },
    }
}

/// Against a suit contract, a lead that would underlead an ace is replaced
/// by that ace.
pub open spec fn no_ace_underlead(cards: Seq<Card>, suit_contract: bool, pick: (Card, Rule)) -> (Card, Rule) {
    let c = pick.0;
    if suit_contract && c.rank != Rank::Ace && cards.contains(Card { suit: c.suit, rank: Rank::Ace }) {
        (Card { suit: c.suit, rank: Rank::Ace }, Rule::LeadNoAceUnderlead)
    } else {
        pick
    }
}

/// The opening lead the bot makes: `None` exactly when no card is legal.
pub open spec fn lead_choice(ctx: LeadContext) -> Option<(Card, Rule)> {
    let cards = ctx.legal@;
    if cards.len() == 0 {
        None
    } else if cards.len() == 1 {
        Some((cards[0], Rule::Forced))
    } else {
        let suit_contract = trump_of(ctx.contract@) is Some;
        let ps = first_suit_bid(ctx.auction@, ctx.dealer, partner_seat(ctx.seat));
        Some(no_ace_underlead(cards, suit_contract, lead_rules(cards, suit_contract, ps)))
    }
}

// ---------------------------------------------------------------------------
// Opening leads: execution
// ---------------------------------------------------------------------------

fn top_of(cards: &[Card], s: Suit) -> (r: Option<u8>)
    ensures
        crate::select::widen(r) == top_rank(cards@, s),
        r matches Some(t) ==> 2 <= t <= 14,
{
    proof {
        lemma_holding(cards@, s);
    }
    highest_held_at_most(cards, s, 14)
}

fn low_of(cards: &[Card], s: Suit) -> (r: Option<u8>)
    ensures
        crate::select::widen(r) == low_rank(cards@, s),
        r matches Some(t) ==> 2 <= t <= 14,
{
    proof {
        lemma_holding(cards@, s);
    }
    lowest_held(cards, s)
}

fn len_of(cards: &[Card], s: Suit) -> (n: u8)
    ensures
        n == suit_len(cards@, s),
        n <= 13,
{
    count_held(cards, s)
}

fn honor_in(cards: &[Card], s: Suit) -> (b: bool)
    ensures
        b == has_honor(cards@, s),
{
    match top_of(cards, s) {
        Some(t) => t >= 10,
        None => false,
    }
}

fn exec_lead_partners_suit(cards: &[Card], suit_contract: bool, ps: Option<Suit>) -> (r: Option<Card>)
    ensures
        r == lead_partners_suit(cards@, suit_contract, ps),
{
    let s = match ps {
        Some(s) => s,
        None => {
            return None;
        },
    };
    proof {
        lemma_holding(cards@, s);
    }
    let n = len_of(cards, s);
    if n == 0 {
        return None;
    }
    if suit_contract && holds_rank(cards, s, 14) {
        Some(make_card(s, 14))
    } else if n >= 3 && honor_in(cards, s) {
        let v = low_of(cards, s).unwrap();
        Some(make_card(s, v))
    } else {
        let v = top_of(cards, s).unwrap();
        Some(make_card(s, v))
    }
}

fn sequence_candidate(cards: &[Card], s: Suit) -> (r: (bool, u32))
    ensures
        r.0 == sequence_suit(cards@)(s),
        r.1 == top_score(cards@)(s),
{
    match top_of(cards, s) {
        Some(t) => {
            let ok = t >= 10 && holds_rank(cards, s, t - 1) && (holds_rank(cards, s, t - 2) || (
            12 <= t && t <= 13 && holds_rank(cards, s, 9)));
            (ok, (t as u32) * 4 + s.index() as u32)
        },
        None => (false, s.index() as u32),
    }
}

fn exec_lead_top_of_sequence(cards: &[Card]) -> (r: Option<Card>)
    ensures
        r == lead_top_of_sequence(cards@),
{
    let cands = vec![
        sequence_candidate(cards, Suit::Clubs),
        sequence_candidate(cards, Suit::Diamonds),
        sequence_candidate(cards, Suit::Hearts),
        sequence_candidate(cards, Suit::Spades),
    ];
    match pick_suit(cands.as_slice(), Ghost(sequence_suit(cards@)), Ghost(top_score(cards@))) {
        Some(s) => {
            let t = top_of(cards, s).unwrap();
            Some(make_card(s, t))
        },
        None => None,
    }
}

fn exec_lead_ace_from_ak(cards: &[Card], suit_contract: bool) -> (r: Option<Card>)
    ensures
        r == lead_ace_from_ak(cards@, suit_contract),
{
    if !suit_contract {
        return None;
    }
    let cands = vec![
        (holds_rank(cards, Suit::Clubs, 14) && holds_rank(cards, Suit::Clubs, 13), 0u32),
        (holds_rank(cards, Suit::Diamonds, 14) && holds_rank(cards, Suit::Diamonds, 13), 1u32),
        (holds_rank(cards, Suit::Hearts, 14) && holds_rank(cards, Suit::Hearts, 13), 2u32),
        (holds_rank(cards, Suit::Spades, 14) && holds_rank(cards, Suit::Spades, 13), 3u32),
    ];
    match pick_suit(cands.as_slice(), Ghost(ace_king_suit(cards@)), Ghost(suit_score())) {
        Some(s) => Some(make_card(s, 14)),
        None => None,
    }
}

fn fourth_best_candidate(cards: &[Card], suit_contract: bool, s: Suit) -> (r: (bool, u32))
    ensures
        r.0 == fourth_best_suit(cards@, suit_contract)(s),
        r.1 == length_score(cards@)(s),
{
    let n = len_of(cards, s);
    let ok = n >= 4 && honor_in(cards, s) && !(suit_contract && holds_rank(cards, s, 14));
    match top_of(cards, s) {
        Some(t) => (ok, (n as u32) * 64 + (t as u32) * 4 + s.index() as u32),
        None => (ok, s.index() as u32),
    }
}

fn exec_lead_fourth_best(cards: &[Card], suit_contract: bool) -> (r: Option<Card>)
    ensures
        r == lead_fourth_best(cards@, suit_contract),
{
    let cands = vec![
        fourth_best_candidate(cards, suit_contract, Suit::Clubs),
        fourth_best_candidate(cards, suit_contract, Suit::Diamonds),
        fourth_best_candidate(cards, suit_contract, Suit::Hearts),
        fourth_best_candidate(cards, suit_contract, Suit::Spades),
    ];
    match pick_suit(
        cands.as_slice(),
        Ghost(fourth_best_suit(cards@, suit_contract)),
        Ghost(length_score(cards@)),
    ) {
        Some(s) => {
            proof {
                lemma_nth_highest_bounds(held(cards@, s), 14, 3);
            }
            match nth_highest_held(cards, s, 3) {
                Some(v) => Some(make_card(s, v)),
                None => {
                    proof {
                        lemma_nth_exists(held(cards@, s), 14, 3);
                    }
                    None
                },
            }
        },
        None => None,
    }
}

/// A value found by an `n`-th highest scan lies in the scanned range.
pub proof fn lemma_nth_highest_bounds(q: spec_fn(int) -> bool, v: int, n: nat)
    ensures
        nth_highest_rank_where(q, v, n) matches Some(w) ==> 2 <= w <= v,
    decreases v,
{
    if v >= 2 {
        if q(v) && n > 0 {
            lemma_nth_highest_bounds(q, v - 1, (n - 1) as nat);
        } else if !q(v) {
            lemma_nth_highest_bounds(q, v - 1, n);
        }
    }
}

/// With more than `n` values meeting `q`, the `n`-th highest exists.
pub proof fn lemma_nth_exists(q: spec_fn(int) -> bool, v: int, n: nat)
    requires
        count_ranks_where(q, v) > n,
    ensures
        nth_highest_rank_where(q, v, n) is Some,
    decreases v,
{
    if v >= 2 {
        if q(v) {
            if n > 0 {
                lemma_nth_exists(q, v - 1, (n - 1) as nat);
            }
        } else {
            lemma_nth_exists(q, v - 1, n);
        }
    }
}

fn honor_third_candidate(cards: &[Card], suit_contract: bool, s: Suit) -> (r: (bool, u32))
    ensures
        r.0 == honor_third_suit(cards@, suit_contract)(s),
        r.1 == top_score(cards@)(s),
{
    let n = len_of(cards, s);
    let ok = n == 3 && honor_in(cards, s) && !(suit_contract && holds_rank(cards, s, 14));
    match top_of(cards, s) {
        Some(t) => (ok, (t as u32) * 4 + s.index() as u32),
        None => (ok, s.index() as u32),
    }
}

fn exec_lead_low_from_honor(cards: &[Card], suit_contract: bool) -> (r: Option<Card>)
    ensures
        r == lead_low_from_honor(cards@, suit_contract),
{
    let cands = vec![
        honor_third_candidate(cards, suit_contract, Suit::Clubs),
        honor_third_candidate(cards, suit_contract, Suit::Diamonds),
        honor_third_candidate(cards, suit_contract, Suit::Hearts),
        honor_third_candidate(cards, suit_contract, Suit::Spades),
    ];
    match pick_suit(
        cands.as_slice(),
        Ghost(honor_third_suit(cards@, suit_contract)),
        Ghost(top_score(cards@)),
    ) {
        Some(s) => {
            proof {
                lemma_holding(cards@, s);
            }
            let v = low_of(cards, s).unwrap();
            Some(make_card(s, v))
        },
        None => None,
    }
}

fn worthless_candidate(cards: &[Card], s: Suit) -> (r: (bool, u32))
    ensures
        r.0 == worthless_short_suit(cards@)(s),
        r.1 == short_score(cards@)(s),
{
    let n = len_of(cards, s);
    ((n == 2 || n == 3) && !honor_in(cards, s), (n as u32) * 4 + s.index() as u32)
}

fn exec_lead_top_of_nothing(cards: &[Card]) -> (r: Option<Card>)
    ensures
        r == lead_top_of_nothing(cards@),
{
    let cands = vec![
        worthless_candidate(cards, Suit::Clubs),
        worthless_candidate(cards, Suit::Diamonds),
        worthless_candidate(cards, Suit::Hearts),
        worthless_candidate(cards, Suit::Spades),
    ];
    match pick_suit(cands.as_slice(), Ghost(worthless_short_suit(cards@)), Ghost(short_score(cards@))) {
        Some(s) => {
            proof {
                lemma_holding(cards@, s);
            }
            let v = top_of(cards, s).unwrap();
            Some(make_card(s, v))
        },
        None => None,
    }
}

/// Opening-lead pipeline: partner's bid suit → top of sequence → A from AK
/// (vs suit) → 4th best → low from honor-third → top of nothing → fallback,
/// and against a suit contract never underlead an ace.
pub fn lead_pick(ctx: &LeadContext) -> (r: Result<(Card, Rule), BotError>)
    ensures
        match lead_choice(*ctx) {
            Some(pick) => r == Ok::<(Card, Rule), BotError>(pick),
            None => r == Err::<(Card, Rule), BotError>(BotError::NoLegalCards),
        },
{
    let cards = ctx.legal.as_slice();
    if cards.len() == 0 {
        return Err(BotError::NoLegalCards);
    }
    if let Some(pick) = forced(cards) {
        return Ok(pick);
    }
    let suit_contract = trump_suit(ctx.contract.as_str()).is_some();
    let ps = first_suit_bid_by(&ctx.auction, ctx.dealer, ctx.seat.partner());
    let pick = if let Some(c) = exec_lead_partners_suit(cards, suit_contract, ps) {
        (c, Rule::LeadPartnersSuit)
    } else if let Some(c) = exec_lead_top_of_sequence(cards) {
        (c, Rule::LeadTopOfSequence)
    } else if let Some(c) = exec_lead_ace_from_ak(cards, suit_contract) {
        (c, Rule::LeadAceFromAk)
    } else if let Some(c) = exec_lead_fourth_best(cards, suit_contract) {
        (c, Rule::LeadFourthBest)
    } else if let Some(c) = exec_lead_low_from_honor(cards, suit_contract) {
        (c, Rule::LeadLowFromHonor)
    } else if let Some(c) = exec_lead_top_of_nothing(cards) {
        (c, Rule::LeadTopOfNothing)
    } else {
        fallback_lowest(cards).unwrap()
    };
    let c = pick.0;
    let ace = Card::new(c.suit, Rank::Ace);
    if suit_contract && c.rank != Rank::Ace && crate::select::contains_card(cards, ace) {
        Ok((ace, Rule::LeadNoAceUnderlead))
    } else {
        Ok(pick)
    }
}

// ---------------------------------------------------------------------------
// Mid-play: specification
// ---------------------------------------------------------------------------

/// The cards of `cards` in suit `s`.
pub open spec fn in_suit(s: Suit) -> spec_fn(Card) -> bool {
    |c: Card| c.suit == s
}

/// The legal cards of the suit led.
pub open spec fn suit_cards(cards: Seq<Card>, s: Suit) -> Seq<Card> {
    cards.filter(in_suit(s))
}

/// A signal card in `s`: when signaling high, the highest spot (nine or
/// below) — never an honor — or the lowest card if there is no spot; when
/// signaling low, the lowest card.
pub open spec fn signal_card(cards: Seq<Card>, s: Suit, high: bool) -> Card {
    if high {
        match highest_rank_where(held(cards, s), 9) {
            Some(v) => card_of(s, v),
            None => card_of(s, low_rank(cards, s)->0),
        }
    } else {
        card_of(s, low_rank(cards, s)->0)
    }
}

/// Whether an attitude signal is made with a high card: standard attitude
/// encourages high, upside-down encourages low.
pub open spec fn attitude_high(method: AttitudeMethod, encourage: bool) -> bool {
    encourage == (method == AttitudeMethod::Standard)
}

/// Whether a count signal starts with a high card: standard count starts
/// high with an even number of cards, upside-down with an odd number.
pub open spec fn count_high(method: CountMethod, length: int) -> bool {
    (length % 2 == 0) == (method == CountMethod::Standard)
}

/// Attitude signal in the suit led: encourage holding an honor in it.
pub open spec fn attitude_signal(cards: Seq<Card>, s: Suit, method: AttitudeMethod) -> (Card, Rule) {
    let encourage = has_honor(cards, s);
    (
        signal_card(cards, s, attitude_high(method, encourage)),
        if encourage {
            Rule::AttitudeEncourage
        } else {
            Rule::AttitudeDiscourage
        },
    )
}

/// Count signal in the suit led.
pub open spec fn count_signal(cards: Seq<Card>, s: Suit, method: CountMethod) -> (Card, Rule) {
    (signal_card(cards, s, count_high(method, suit_len(cards, s))), Rule::CountSignal)
}

/// Cards that do not beat a card of power `wp` in a trick to `led`.
pub open spec fn not_beating(led: Suit, trump: Option<Suit>, wp: int) -> spec_fn(Card) -> bool {
    |c: Card| crate::derived::power(c, led, trump) <= wp
}

/// Count signal while not contesting a trick held at power `wp`: made with
/// the cards of the suit led that do not take the trick over, when there are
/// any; the length shown is that of the whole suit.
pub open spec fn count_below(
    cards: Seq<Card>,
    led: Suit,
    trump: Option<Suit>,
    wp: int,
    method: CountMethod,
) -> (Card, Rule) {
    let under = cards.filter(not_beating(led, trump, wp));
    let pool = if suit_len(under, led) > 0 {
        under
    } else {
        cards
    };
    (signal_card(pool, led, count_high(method, suit_len(cards, led))), Rule::CountSignal)
}

/// Cards that are masters from the playing seat's view.
pub open spec fn master_card(ctx: PlayContext) -> spec_fn(Card) -> bool {
    |c: Card| crate::derived::master(ctx.played@, ctx.hand@, c)
}

/// Terminal fallback: the lowest legal card.
pub open spec fn fallback(cards: Seq<Card>) -> (Card, Rule) {
    (lowest_card(cards)->0, Rule::FallbackLowest)
}

/// Having won a trick, return partner's first-led suit: top of a remaining
/// doubleton (or singleton), low from three or more.
pub open spec fn return_partners_suit(cards: Seq<Card>, ps: Option<Suit>) -> Option<Card> {
    match ps {
        Some(s) => if suit_len(cards, s) == 0 {
            None
        } else if suit_len(cards, s) >= 3 {
            Some(card_of(s, low_rank(cards, s)->0))
        } else {
            Some(card_of(s, top_rank(cards, s)->0))
        },
        None => None,
    }
}

/// On lead mid-play: a defender returns partner's suit; either side cashes
/// its highest established winner; otherwise the fallback.
pub open spec fn on_lead_rules(ctx: PlayContext) -> (Card, Rule) {
    let cards = ctx.legal@;
    match if crate::derived::ctx_is_defender(ctx) {
        return_partners_suit(cards, crate::derived::ctx_partners_first_suit(ctx))
    } else {
        None
    } {
        Some(c) => (c, Rule::ReturnPartnersSuit),
        None => match crate::select::highest_where(cards, master_card(ctx)) {
            Some(c) => (c, Rule::CashEstablishedWinner),
            None => fallback(cards),
        },
    }
}

/// Legal cards of suit `s` above rank value `r`.
pub open spec fn held_above(cards: Seq<Card>, s: Suit, r: int) -> spec_fn(int) -> bool {
    |v: int| has_rank(cards, s, v) && v > r
}

/// The lowest card of the top equal group of the legal cards in the suit led.
pub open spec fn top_equals_bottom(ctx: PlayContext, led: Suit) -> Option<Card> {
    crate::derived::bottom_of_top_equals_of(
        ctx.played@,
        ctx.hand@,
        crate::derived::ctx_dummy_remaining(ctx),
        suit_cards(ctx.legal@, led),
        led,
    )
}

/// Second hand (an opponent led): cover an honor with the cheapest higher
/// card; split touching honors under a low lead; with spots only, give
/// count; otherwise play low.
pub open spec fn second_hand(ctx: PlayContext, config: SignalConfig, led: Suit, led_card: Card) -> (Card, Rule) {
    let cards = ctx.legal@;
    let cover = if crate::derived::honor(led_card) {
        lowest_rank_where(held_above(cards, led, rank_value(led_card.rank)), 2)
    } else {
        None
    };
    let split = if !crate::derived::honor(led_card) {
        match top_equals_bottom(ctx, led) {
            Some(b) => if crate::derived::honor(b) && rank_value(b.rank) != top_rank(cards, led)->0 {
                Some(b)
            } else {
                None
            },
            None => None,
        }
    } else {
        None
    };
    match cover {
        Some(v) => (card_of(led, v), Rule::SecondHandCoverHonor),
        None => match split {
            Some(b) => (b, Rule::SecondHandSplitHonors),
            None => if !has_honor(cards, led) {
                count_signal(cards, led, config.count)
            } else {
                (card_of(led, low_rank(cards, led)->0), Rule::SecondHandLow)
            },
        },
    }
}

/// Third hand (partner led): unblock a doubleton honor under partner's
/// higher honor; otherwise, unless partner's card is winning and cannot be
/// beaten, play high — the bottom of the top equal group — when that beats
/// the winning card; otherwise signal attitude.
pub open spec fn third_hand(
    ctx: PlayContext,
    config: SignalConfig,
    led: Suit,
    lead_card: Card,
    w: crate::context::PlayedCard,
) -> (Card, Rule) {
    let cards = ctx.legal@;
    let trump = crate::derived::ctx_trump(ctx);
    let top = top_rank(cards, led)->0;
    let partner_winning = w.seat == partner_seat(ctx.seat);
    let contest = !(partner_winning && master_card(ctx)(w.card));
    let pick = top_equals_bottom(ctx, led)->0;
    if crate::derived::honor(lead_card) && suit_len(cards, led) == 2 && top >= 10 && top < rank_value(
        lead_card.rank,
    ) {
        (card_of(led, top), Rule::ThirdHandUnblock)
    } else if contest && crate::derived::power(pick, led, trump) > crate::derived::power(
        w.card,
        led,
        trump,
    ) {
        (
            pick,
            if rank_value(pick.rank) == top {
                Rule::ThirdHandHigh
            } else {
                Rule::ThirdHandOnlyAsHighAsNeeded
            },
        )
    } else {
        attitude_signal(cards, led, config.attitude)
    }
}

/// Spot cards of `s` that are not winners: what a discard may throw.
pub open spec fn discard_pool(ctx: PlayContext, s: Suit) -> spec_fn(int) -> bool {
    |v: int| has_rank(ctx.legal@, s, v) && v <= 9 && !master_card(ctx)(card_of(s, v))
}

/// Keep length parity with dummy's long suit: do not pitch from a suit in
/// which dummy holds four or more cards with an honor and the bot holds no
/// more cards than dummy.
pub open spec fn parity_guarded(ctx: PlayContext, s: Suit) -> bool {
    let dummy = crate::derived::ctx_dummy_remaining(ctx);
    suit_len(dummy, s) >= 4 && has_honor(dummy, s) && suit_len(ctx.legal@, s) <= suit_len(dummy, s)
}

/// Suits the bot may discard from: not trumps, not parity-guarded, with a
/// spot that is not a winner.
pub open spec fn discard_suit(ctx: PlayContext) -> spec_fn(Suit) -> bool {
    |s: Suit|
        crate::derived::ctx_trump(ctx) != Some(s) && !parity_guarded(ctx, s) && highest_rank_where(
            discard_pool(ctx, s),
            14,
        ) is Some
}

/// Discard suits the bot likes (holding an honor there).
pub open spec fn liked_discard_suit(ctx: PlayContext) -> spec_fn(Suit) -> bool {
    |s: Suit| discard_suit(ctx)(s) && has_honor(ctx.legal@, s)
}

/// Discard suits the bot does not like.
pub open spec fn unliked_discard_suit(ctx: PlayContext) -> spec_fn(Suit) -> bool {
    |s: Suit| discard_suit(ctx)(s) && !has_honor(ctx.legal@, s)
}

/// The discard from suit `s`, high or low.
pub open spec fn discard_card(ctx: PlayContext, s: Suit, high: bool) -> Card {
    if high {
        card_of(s, highest_rank_where(discard_pool(ctx, s), 14)->0)
    } else {
        card_of(s, lowest_rank_where(discard_pool(ctx, s), 2)->0)
    }
}

/// Cards outside the trump suit.
pub open spec fn side_card(trump: Option<Suit>) -> spec_fn(Card) -> bool {
    |c: Card| trump != Some(c.suit)
}

/// Attitude discard: encourage in the liked suit with the best honor, else
/// discourage in the longest unliked suit; with no spot to spare anywhere,
/// the lowest card outside the trump suit. `None` when only trumps are left.
pub open spec fn discard(ctx: PlayContext, config: SignalConfig) -> Option<Card> {
    match best_suit(liked_discard_suit(ctx), top_score(ctx.legal@)) {
        Some(s) => Some(discard_card(ctx, s, attitude_high(config.attitude, true))),
        None => match best_suit(unliked_discard_suit(ctx), short_score(ctx.legal@)) {
            Some(s) => Some(discard_card(ctx, s, attitude_high(config.attitude, false))),
            None => crate::select::lowest_where(ctx.legal@, side_card(crate::derived::ctx_trump(ctx))),
        },
    }
}

/// Following to a trick already begun.
pub open spec fn follow_rules(ctx: PlayContext, config: SignalConfig) -> (Card, Rule) {
    let cards = ctx.legal@;
    let trump = crate::derived::ctx_trump(ctx);
    let cur = crate::derived::ctx_current(ctx);
    let plays = (cur->0).1;
    let pos = plays.len();
    let led = plays[0].card.suit;
    let w = crate::derived::trick_winner(plays, trump)->0;
    let partner_winning = w.seat == partner_seat(ctx.seat);
    let cheap = crate::derived::cheapest_winner_of(cur, trump, cards);
    if !crate::derived::ctx_is_defender(ctx) {
        if pos == 3 && !partner_winning && cheap is Some {
            (cheap->0, Rule::WinCheaply)
        } else {
            fallback(cards)
        }
    } else if suit_len(cards, led) > 0 {
        if pos == 1 {
            second_hand(ctx, config, led, plays[0].card)
        } else if pos == 2 {
            third_hand(ctx, config, led, plays[0].card, w)
        } else if !partner_winning && cheap is Some {
            (cheap->0, Rule::WinCheaply)
        } else {
            count_below(cards, led, trump, crate::derived::power(w.card, led, trump), config.count)
        }
    } else if !partner_winning && cheap is Some {
        (
            cheap->0,
            if trump == Some(w.card.suit) {
                Rule::OverruffCheaply
            } else {
                Rule::RuffToWin
            },
        )
    } else {
        match discard(ctx, config) {
            Some(c) => (c, Rule::DiscardAttitude),
            None => fallback(cards),
        }
    }
}

/// The card the bot plays mid-play: `None` exactly when no card is legal.
pub open spec fn play_choice(ctx: PlayContext, config: SignalConfig) -> Option<(Card, Rule)> {
    let cards = ctx.legal@;
    if cards.len() == 0 {
        None
    } else if cards.len() == 1 {
        Some((cards[0], Rule::Forced))
    } else if crate::derived::position_of(crate::derived::ctx_current(ctx)) == 0 {
        Some(on_lead_rules(ctx))
    } else {
        Some(follow_rules(ctx, config))
    }
}

// ---------------------------------------------------------------------------
// Mid-play: execution
// ---------------------------------------------------------------------------

/// The suit cards of a holding are exactly its cards of that suit.
pub proof fn lemma_suit_cards(cards: Seq<Card>, s: Suit)
    ensures
        forall|i: int|
            0 <= i < suit_cards(cards, s).len() ==> (#[trigger] suit_cards(cards, s)[i]).suit == s,
        forall|v: int| #[trigger] has_rank(suit_cards(cards, s), s, v) == has_rank(cards, s, v),
        suit_cards(cards, s).len() > 0 <==> suit_len(cards, s) > 0,
{
    broadcast use vstd::seq_lib::group_filter_ensures;

    let f = suit_cards(cards, s);
    assert forall|v: int| #[trigger] has_rank(f, s, v) == has_rank(cards, s, v) by {
        if let Some(r) = crate::cards::rank_of_value(v) {
            let c = Card { suit: s, rank: r };
            if cards.contains(c) {
                let k = choose|k: int| 0 <= k < cards.len() && cards[k] == c;
                assert(in_suit(s)(cards[k]));
            }
            if f.contains(c) {
                cards.lemma_filter_contains_rev(in_suit(s), c);
            }
        }
    }
    lemma_holding(cards, s);
    lemma_holding(f, s);
    assert(top_rank(f, s) == top_rank(cards, s)) by {
        assert(held(f, s) =~= held(cards, s));
    }
    if f.len() > 0 {
        let c = f[0];
        crate::cards::lemma_rank_value(c.rank);
        assert(f.contains(c));
        assert(has_rank(f, s, rank_value(c.rank)));
        assert(held(f, s)(rank_value(c.rank)));
        crate::select::lemma_highest_rank_where(held(f, s), 14);
    }
    if suit_len(cards, s) > 0 {
        let t = top_rank(cards, s)->0;
        assert(has_rank(f, s, t));
    }
}

fn suit_cards_exec(cards: &[Card], s: Suit) -> (r: Vec<Card>)
    ensures
        r@ == suit_cards(cards@, s),
{
    let mut r: Vec<Card> = Vec::new();
    let mut i: usize = 0;
    while i < cards.len()
        invariant
            i <= cards@.len(),
            r@ == cards@.take(i as int).filter(in_suit(s)),
        decreases cards@.len() - i,
    {
        proof {
            reveal_with_fuel(Seq::filter, 1);
            assert(cards@.take(i + 1).drop_last() =~= cards@.take(i as int));
        }
        if cards[i].suit == s {
            r.push(cards[i]);
        }
        i = i + 1;
    }
    proof {
        assert(cards@.take(cards@.len() as int) =~= cards@);
    }
    r
}

fn signal_card_exec(cards: &[Card], s: Suit, high: bool) -> (c: Card)
    requires
        suit_len(cards@, s) > 0,
    ensures
        c == signal_card(cards@, s, high),
{
    proof {
        lemma_holding(cards@, s);
    }
    if high {
        match highest_held_at_most(cards, s, 9) {
            Some(v) => {
                proof {
                    lemma_highest_rank_where(held(cards@, s), 9);
                }
                return make_card(s, v);
            },
            None => {},
        }
    }
    let v = low_of(cards, s).unwrap();
    make_card(s, v)
}

fn exec_attitude_signal(cards: &[Card], s: Suit, method: AttitudeMethod) -> (r: (Card, Rule))
    requires
        suit_len(cards@, s) > 0,
    ensures
        r == attitude_signal(cards@, s, method),
{
    let encourage = honor_in(cards, s);
    let high = encourage == (method == AttitudeMethod::Standard);
    let c = signal_card_exec(cards, s, high);
    (c, if encourage { Rule::AttitudeEncourage } else { Rule::AttitudeDiscourage })
}

fn exec_count_signal(cards: &[Card], s: Suit, method: CountMethod) -> (r: (Card, Rule))
    requires
        suit_len(cards@, s) > 0,
    ensures
        r == count_signal(cards@, s, method),
{
    let n = len_of(cards, s);
    let high = (n % 2 == 0) == (method == CountMethod::Standard);
    (signal_card_exec(cards, s, high), Rule::CountSignal)
}

fn cards_not_beating(cards: &[Card], led: Suit, trump: Option<Suit>, wp: u8) -> (r: Vec<Card>)
    ensures
        r@ == cards@.filter(not_beating(led, trump, wp as int)),
{
    let mut r: Vec<Card> = Vec::new();
    let mut i: usize = 0;
    while i < cards.len()
        invariant
            i <= cards@.len(),
            r@ == cards@.take(i as int).filter(not_beating(led, trump, wp as int)),
        decreases cards@.len() - i,
    {
        proof {
            reveal_with_fuel(Seq::filter, 1);
            assert(cards@.take(i + 1).drop_last() =~= cards@.take(i as int));
        }
        if crate::derived::trick_power(cards[i], led, trump) <= wp {
            r.push(cards[i]);
        }
        i = i + 1;
    }
    proof {
        assert(cards@.take(cards@.len() as int) =~= cards@);
    }
    r
}

fn exec_count_below(cards: &[Card], led: Suit, trump: Option<Suit>, wp: u8, method: CountMethod) -> (r: (Card, Rule))
    requires
        suit_len(cards@, led) > 0,
    ensures
        r == count_below(cards@, led, trump, wp as int, method),
{
    let under = cards_not_beating(cards, led, trump, wp);
    let n = len_of(cards, led);
    let high = (n % 2 == 0) == (method == CountMethod::Standard);
    if len_of(under.as_slice(), led) > 0 {
        (signal_card_exec(under.as_slice(), led, high), Rule::CountSignal)
    } else {
        (signal_card_exec(cards, led, high), Rule::CountSignal)
    }
}

fn exec_return_partners_suit(cards: &[Card], ps: Option<Suit>) -> (r: Option<Card>)
    ensures
        r == return_partners_suit(cards@, ps),
{
    let s = match ps {
        Some(s) => s,
        None => {
            return None;
        },
    };
    proof {
        lemma_holding(cards@, s);
    }
    let n = len_of(cards, s);
    if n == 0 {
        None
    } else if n >= 3 {
        Some(make_card(s, low_of(cards, s).unwrap()))
    } else {
        Some(make_card(s, top_of(cards, s).unwrap()))
    }
}

fn exec_cash(ctx: &PlayContext, d: &crate::derived::Derived) -> (r: Option<Card>)
    requires
        crate::derived::derived_from(*d, *ctx),
    ensures
        r == crate::select::highest_where(ctx.legal@, master_card(*ctx)),
{
    let cards = ctx.legal.as_slice();
    let ghost p = master_card(*ctx);
    let mut best: Option<Card> = None;
    let mut i: usize = 0;
    while i < cards.len()
        invariant
            i <= cards@.len(),
            cards@ == ctx.legal@,
            crate::derived::derived_from(*d, *ctx),
            p == master_card(*ctx),
            crate::select::highest_scan(cards@, p, i as int, best),
        decreases cards@.len() - i,
    {
        let c = cards[i];
        if d.is_master(c, ctx.hand.as_slice(), true) {
            match best {
                None => {
                    best = Some(c);
                },
                Some(b) => {
                    if crate::cards::card_key_of(b) < crate::cards::card_key_of(c) {
                        best = Some(c);
                    }
                },
            }
        }
        i = i + 1;
    }
    proof {
        crate::select::lemma_highest_scan_done(cards@, p, best);
    }
    best
}

fn exec_fallback(cards: &[Card]) -> (r: (Card, Rule))
    requires
        cards@.len() > 0,
    ensures
        r == fallback(cards@),
{
    fallback_lowest(cards).unwrap()
}

fn exec_on_lead(ctx: &PlayContext, d: &crate::derived::Derived) -> (r: (Card, Rule))
    requires
        crate::derived::derived_from(*d, *ctx),
        ctx.legal@.len() > 0,
    ensures
        r == on_lead_rules(*ctx),
{
    let cards = ctx.legal.as_slice();
    let ret = if d.is_defender {
        exec_return_partners_suit(cards, d.partners_first_suit)
    } else {
        None
    };
    match ret {
        Some(c) => (c, Rule::ReturnPartnersSuit),
        None => match exec_cash(ctx, d) {
            Some(c) => (c, Rule::CashEstablishedWinner),
            None => exec_fallback(cards),
        },
    }
}

/// The bottom of the top equal group exists whenever the suit is held.
pub proof fn lemma_top_equals_bottom_exists(ctx: PlayContext, led: Suit)
    requires
        suit_len(ctx.legal@, led) > 0,
    ensures
        top_equals_bottom(ctx, led) matches Some(b) && b.suit == led,
{
    let f = suit_cards(ctx.legal@, led);
    lemma_suit_cards(ctx.legal@, led);
    lemma_holding(ctx.legal@, led);
    lemma_holding(f, led);
    assert(held(f, led) =~= held(ctx.legal@, led));
    let t = top_rank(ctx.legal@, led)->0;
    let q = crate::derived::top_equal_ranks(
        ctx.played@,
        ctx.hand@,
        crate::derived::ctx_dummy_remaining(ctx),
        f,
        led,
        t,
    );
    assert(q(t));
    lemma_lowest_rank_where(q, 2);
}

fn exec_top_equals_bottom(ctx: &PlayContext, d: &crate::derived::Derived, led: Suit) -> (r: Card)
    requires
        crate::derived::derived_from(*d, *ctx),
        suit_len(ctx.legal@, led) > 0,
    ensures
        Some(r) == top_equals_bottom(*ctx, led),
        r.suit == led,
{
    let sc = suit_cards_exec(ctx.legal.as_slice(), led);
    proof {
        lemma_suit_cards(ctx.legal@, led);
        lemma_top_equals_bottom_exists(*ctx, led);
    }
    d.bottom_of_top_equals(sc.as_slice(), ctx.hand.as_slice()).unwrap()
}

fn exec_second_hand(
    ctx: &PlayContext,
    d: &crate::derived::Derived,
    config: &SignalConfig,
    led: Suit,
    led_card: Card,
) -> (r: (Card, Rule))
    requires
        crate::derived::derived_from(*d, *ctx),
        suit_len(ctx.legal@, led) > 0,
    ensures
        r == second_hand(*ctx, *config, led, led_card),
{
    let cards = ctx.legal.as_slice();
    proof {
        lemma_holding(cards@, led);
    }
    if crate::derived::is_honor(led_card) {
        let lv = led_card.rank.value();
        let ghost q = held_above(cards@, led, lv as int);
        proof {
            crate::select::lemma_lowest_rank_where_skip(q, 2, lv + 1);
        }
        let mut v: u8 = lv + 1;
        while v <= 14
            invariant
                lv < v <= 15,
                cards@ == ctx.legal@,
                lv == rank_value(led_card.rank),
                crate::derived::honor(led_card),
                q == held_above(cards@, led, lv as int),
                lowest_rank_where(q, 2) == lowest_rank_where(q, v as int),
            decreases 15 - v,
        {
            if holds_rank(cards, led, v) {
                return (make_card(led, v), Rule::SecondHandCoverHonor);
            }
            v = v + 1;
        }
    } else {
        let b = exec_top_equals_bottom(ctx, d, led);
        let top = top_of(cards, led).unwrap();
        if crate::derived::is_honor(b) && b.rank.value() != top {
            return (b, Rule::SecondHandSplitHonors);
        }
    }
    if !honor_in(cards, led) {
        exec_count_signal(cards, led, config.count)
    } else {
        (make_card(led, low_of(cards, led).unwrap()), Rule::SecondHandLow)
    }
}

fn exec_third_hand(
    ctx: &PlayContext,
    d: &crate::derived::Derived,
    config: &SignalConfig,
    led: Suit,
    lead_card: Card,
    w: crate::context::PlayedCard,
) -> (r: (Card, Rule))
    requires
        crate::derived::derived_from(*d, *ctx),
        suit_len(ctx.legal@, led) > 0,
    ensures
        r == third_hand(*ctx, *config, led, lead_card, w),
{
    let cards = ctx.legal.as_slice();
    proof {
        lemma_holding(cards@, led);
    }
    let top = top_of(cards, led).unwrap();
    let n = len_of(cards, led);
    if crate::derived::is_honor(lead_card) && n == 2 && top >= 10 && top < lead_card.rank.value() {
        return (make_card(led, top), Rule::ThirdHandUnblock);
    }
    let partner_winning = w.seat == d.partner;
    let contest = !(partner_winning && d.is_master(w.card, ctx.hand.as_slice(), true));
    let pick = exec_top_equals_bottom(ctx, d, led);
    let trump = d.trump;
    if contest && crate::derived::trick_power(pick, led, trump) > crate::derived::trick_power(w.card, led, trump) {
        let rule = if pick.rank.value() == top {
            Rule::ThirdHandHigh
        } else {
            Rule::ThirdHandOnlyAsHighAsNeeded
        };
        (pick, rule)
    } else {
        exec_attitude_signal(cards, led, config.attitude)
    }
}

fn in_pool(ctx: &PlayContext, d: &crate::derived::Derived, s: Suit, v: u8) -> (b: bool)
    requires
        crate::derived::derived_from(*d, *ctx),
        2 <= v <= 14,
    ensures
        b == discard_pool(*ctx, s)(v as int),
{
    let c = make_card(s, v);
    proof {
        crate::cards::lemma_rank_of_value(v as int);
    }
    crate::derived::is_spot(c) && holds_rank(ctx.legal.as_slice(), s, v) && !d.is_master(
        c,
        ctx.hand.as_slice(),
        true,
    )
}

fn pool_highest(ctx: &PlayContext, d: &crate::derived::Derived, s: Suit) -> (r: Option<u8>)
    requires
        crate::derived::derived_from(*d, *ctx),
    ensures
        crate::select::widen(r) == highest_rank_where(discard_pool(*ctx, s), 14),
        r matches Some(v) ==> 2 <= v <= 14,
{
    let ghost q = discard_pool(*ctx, s);
    let mut v: u8 = 14;
    while v >= 2
        invariant
            v <= 14,
            q == discard_pool(*ctx, s),
            crate::derived::derived_from(*d, *ctx),
            highest_rank_where(q, 14) == highest_rank_where(q, v as int),
        decreases v,
    {
        if in_pool(ctx, d, s, v) {
            return Some(v);
        }
        v = v - 1;
    }
    None
}

fn pool_lowest(ctx: &PlayContext, d: &crate::derived::Derived, s: Suit) -> (r: Option<u8>)
    requires
        crate::derived::derived_from(*d, *ctx),
    ensures
        crate::select::widen(r) == lowest_rank_where(discard_pool(*ctx, s), 2),
        r matches Some(v) ==> 2 <= v <= 14,
{
    let ghost q = discard_pool(*ctx, s);
    let mut v: u8 = 2;
    while v <= 14
        invariant
            2 <= v <= 15,
            q == discard_pool(*ctx, s),
            crate::derived::derived_from(*d, *ctx),
            lowest_rank_where(q, 2) == lowest_rank_where(q, v as int),
        decreases 15 - v,
    {
        if in_pool(ctx, d, s, v) {
            return Some(v);
        }
        v = v + 1;
    }
    None
}

fn discard_candidate(ctx: &PlayContext, d: &crate::derived::Derived, s: Suit, liked: bool) -> (r: (bool, u32))
    requires
        crate::derived::derived_from(*d, *ctx),
    ensures
        liked ==> r.0 == liked_discard_suit(*ctx)(s) && r.1 == top_score(ctx.legal@)(s),
        !liked ==> r.0 == unliked_discard_suit(*ctx)(s) && r.1 == short_score(ctx.legal@)(s),
{
    let cards = ctx.legal.as_slice();
    let dummy = d.dummy_remaining.as_slice();
    let not_trump = match d.trump {
        Some(t) => t != s,
        None => true,
    };
    let guarded = len_of(dummy, s) >= 4 && honor_in(dummy, s) && len_of(cards, s) <= len_of(dummy, s);
    let eligible = not_trump && !guarded && pool_highest(ctx, d, s).is_some();
    let honor = honor_in(cards, s);
    if liked {
        let score = match top_of(cards, s) {
            Some(t) => (t as u32) * 4 + s.index() as u32,
            None => s.index() as u32,
        };
        (eligible && honor, score)
    } else {
        (eligible && !honor, (len_of(cards, s) as u32) * 4 + s.index() as u32)
    }
}

fn exec_discard_card(ctx: &PlayContext, d: &crate::derived::Derived, s: Suit, high: bool) -> (c: Card)
    requires
        crate::derived::derived_from(*d, *ctx),
        discard_suit(*ctx)(s),
    ensures
        c == discard_card(*ctx, s, high),
{
    proof {
        crate::select::lemma_highest_rank_where(discard_pool(*ctx, s), 14);
        lemma_lowest_rank_where(discard_pool(*ctx, s), 2);
    }
    if high {
        make_card(s, pool_highest(ctx, d, s).unwrap())
    } else {
        make_card(s, pool_lowest(ctx, d, s).unwrap())
    }
}

fn exec_discard(ctx: &PlayContext, d: &crate::derived::Derived, config: &SignalConfig) -> (r: Option<Card>)
    requires
        crate::derived::derived_from(*d, *ctx),
    ensures
        r == discard(*ctx, *config),
{
    let liked = vec![
        discard_candidate(ctx, d, Suit::Clubs, true),
        discard_candidate(ctx, d, Suit::Diamonds, true),
        discard_candidate(ctx, d, Suit::Hearts, true),
        discard_candidate(ctx, d, Suit::Spades, true),
    ];
    let standard = config.attitude == AttitudeMethod::Standard;
    match pick_suit(liked.as_slice(), Ghost(liked_discard_suit(*ctx)), Ghost(top_score(ctx.legal@))) {
        Some(s) => {
            return Some(exec_discard_card(ctx, d, s, standard));
        },
        None => {},
    }
    let unliked = vec![
        discard_candidate(ctx, d, Suit::Clubs, false),
        discard_candidate(ctx, d, Suit::Diamonds, false),
        discard_candidate(ctx, d, Suit::Hearts, false),
        discard_candidate(ctx, d, Suit::Spades, false),
    ];
    match pick_suit(
        unliked.as_slice(),
        Ghost(unliked_discard_suit(*ctx)),
        Ghost(short_score(ctx.legal@)),
    ) {
        Some(s) => Some(exec_discard_card(ctx, d, s, !standard)),
        None => lowest_side_card(ctx.legal.as_slice(), d.trump),
    }
}

/// The lowest card outside the trump suit.
fn lowest_side_card(cards: &[Card], trump: Option<Suit>) -> (r: Option<Card>)
    ensures
        r == crate::select::lowest_where(cards@, side_card(trump)),
{
    let ghost p = side_card(trump);
    let mut best: Option<Card> = None;
    let mut i: usize = 0;
    while i < cards.len()
        invariant
            i <= cards@.len(),
            p == side_card(trump),
            crate::select::lowest_scan(cards@, p, i as int, best),
        decreases cards@.len() - i,
    {
        let c = cards[i];
        let side = match trump {
            Some(t) => t != c.suit,
            None => true,
        };
        if side {
            match best {
                None => {
                    best = Some(c);
                },
                Some(b) => {
                    if crate::cards::card_key_of(c) < crate::cards::card_key_of(b) {
                        best = Some(c);
                    }
                },
            }
        }
        i = i + 1;
    }
    proof {
        crate::select::lemma_lowest_scan_done(cards@, p, best);
    }
    best
}

fn exec_follow(ctx: &PlayContext, d: &crate::derived::Derived, config: &SignalConfig) -> (r: (Card, Rule))
    requires
        crate::derived::derived_from(*d, *ctx),
        ctx.legal@.len() > 0,
        crate::derived::position_of(crate::derived::ctx_current(*ctx)) > 0,
    ensures
        r == follow_rules(*ctx, *config),
{
    let cards = ctx.legal.as_slice();
    let t = match &d.current {
        Some(t) => t,
        None => {
            return exec_fallback(cards);
        },
    };
    let pos = d.position();
    let led = t.plays[0].card.suit;
    let w = d.winning().unwrap();
    let partner_winning = d.partner_is_winning();
    let cheap = d.cheapest_winner(cards);
    if !d.is_defender {
        if pos == 3 && !partner_winning && cheap.is_some() {
            (cheap.unwrap(), Rule::WinCheaply)
        } else {
            exec_fallback(cards)
        }
    } else if len_of(cards, led) > 0 {
        if pos == 1 {
            exec_second_hand(ctx, d, config, led, t.plays[0].card)
        } else if pos == 2 {
            exec_third_hand(ctx, d, config, led, t.plays[0].card, w)
        } else if !partner_winning && cheap.is_some() {
            (cheap.unwrap(), Rule::WinCheaply)
        } else {
            let wp = crate::derived::trick_power(w.card, led, d.trump);
            exec_count_below(cards, led, d.trump, wp, config.count)
        }
    } else if !partner_winning && cheap.is_some() {
        let overruff = match d.trump {
            Some(tr) => tr == w.card.suit,
            None => false,
        };
        (cheap.unwrap(), if overruff { Rule::OverruffCheaply } else { Rule::RuffToWin })
    } else {
        match exec_discard(ctx, d, config) {
            Some(c) => (c, Rule::DiscardAttitude),
            None => exec_fallback(cards),
        }
    }
}

/// Mid-play pipeline: on lead, return partner's suit or cash a winner;
/// following, the seat-specific rules (second hand low / cover / split,
/// third hand high / unblock, win cheaply, ruff or overruff, signals and
/// discards); always ending in the fallback.
pub fn play_pick(ctx: &PlayContext, config: &SignalConfig) -> (r: Result<(Card, Rule), BotError>)
    ensures
        match play_choice(*ctx, *config) {
            Some(pick) => r == Ok::<(Card, Rule), BotError>(pick),
            None => r == Err::<(Card, Rule), BotError>(BotError::NoLegalCards),
        },
{
    let cards = ctx.legal.as_slice();
    if cards.len() == 0 {
        return Err(BotError::NoLegalCards);
    }
    if let Some(pick) = forced(cards) {
        return Ok(pick);
    }
    let d = crate::derived::Derived::compute(ctx);
    if d.position() == 0 {
        Ok(exec_on_lead(ctx, &d))
    } else {
        Ok(exec_follow(ctx, &d, config))
    }
}

// ---------------------------------------------------------------------------
// Outcomes
// ---------------------------------------------------------------------------

/// Outcome of a fired rule: the card, the rule slug, the student-facing
/// explanation.
pub type Fired = (Card, &'static str, String);

/// `f` reports the card and rule of `pick`.
pub open spec fn fired_as(f: Fired, pick: (Card, Rule)) -> bool {
    f.0 == pick.0 && f.1@ == crate::decision::rule_slug(pick.1) && f.2@
        == crate::decision::rule_explanation(pick.1)
}

fn fire(pick: (Card, Rule)) -> (f: Fired)
    ensures
        fired_as(f, pick),
{
    (pick.0, pick.1.slug(), pick.1.explanation())
}

/// Only one legal card: no decision to make.
fn forced(legal: &[Card]) -> (r: Option<(Card, Rule)>)
    ensures
        r == if legal@.len() == 1 {
            Some((legal@[0], Rule::Forced))
        } else {
            None::<(Card, Rule)>
        },
{
    if legal.len() == 1 {
        Some((legal[0], Rule::Forced))
    } else {
        None
    }
}

/// Terminal fallback: the lowest legal card. Deterministic and never wastes
/// an honor; fires only when no real rule covered the situation.
fn fallback_lowest(legal: &[Card]) -> (r: Option<(Card, Rule)>)
    ensures
        r == match lowest_card(legal@) {
            Some(c) => Some((c, Rule::FallbackLowest)),
            None => None::<(Card, Rule)>,
        },
        r is Some <==> legal@.len() > 0,
{
    match lowest(legal) {
        Some(c) => Some((c, Rule::FallbackLowest)),
        None => None,
    }
}

/// Opening-lead pipeline. The signal configuration plays no part in the
/// choice of lead.
pub fn opening_lead(ctx: &LeadContext, _config: &SignalConfig) -> (r: Result<Fired, BotError>)
    ensures
        match lead_choice(*ctx) {
            Some(pick) => r matches Ok(f) && fired_as(f, pick),
            None => r == Err::<Fired, BotError>(BotError::NoLegalCards),
        },
{
    match lead_pick(ctx) {
        Ok(pick) => Ok(fire(pick)),
        Err(e) => Err(e),
    }
}

/// Mid-play pipeline.
pub fn play(ctx: &PlayContext, config: &SignalConfig) -> (r: Result<Fired, BotError>)
    ensures
        match play_choice(*ctx, *config) {
            Some(pick) => r matches Ok(f) && fired_as(f, pick),
            None => r == Err::<Fired, BotError>(BotError::NoLegalCards),
        },
{
    match play_pick(ctx, config) {
        Ok(pick) => Ok(fire(pick)),
        Err(e) => Err(e),
    }
}

} // verus!
