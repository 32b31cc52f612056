//! State derived per call from `(context, played)`.
//!
//! The bot is stateless, so everything a rule wants to know beyond the raw
//! context — trick boundaries, who's winning the current trick, dummy's
//! remaining cards, which ranks are still unseen — is recomputed here on
//! every call. At 52 cards maximum this is trivially cheap, and it means
//! rules read like the guideline they implement.

use vstd::prelude::*;
use vstd::string::*;
use crate::cards::{lemma_rank_value, next_seat, partner_seat, rank_value, suit_of_char, Card, Direction, Rank, Suit};
use crate::context::{PlayContext, PlayedCard};
use crate::select::{card_of, contains_card, held, highest_held_at_most, highest_rank_where, has_rank, holds_rank, lemma_highest_rank_where, lemma_lowest_rank_where_is, lemma_lowest_scan_done, lowest_rank_where, lowest_scan, lowest_where, make_card};

verus! {

// ---------------------------------------------------------------------------
// Contracts and trump
// ---------------------------------------------------------------------------

/// An ASCII decimal digit.
pub open spec fn is_digit(c: char) -> bool {
    '0' <= c && c <= '9'
}

/// The string with its leading ASCII digits removed.
pub open spec fn skip_digits(s: Seq<char>) -> Seq<char>
    decreases s.len(),
{
    if s.len() > 0 && is_digit(s[0]) {
        skip_digits(s.drop_first())
    } else {
        s
    }
}

/// The trump suit of a contract: the suit code right after the level
/// digits, `None` for no-trump or anything that is not a suit code.
pub open spec fn trump_of(contract: Seq<char>) -> Option<Suit> {
    let rest = skip_digits(contract);
    if rest.len() == 0 {
        None
    } else {
        suit_of_char(rest[0])
    }
}

proof fn lemma_skip_digits_step(s: Seq<char>, i: int)
    requires
        0 <= i < s.len(),
        is_digit(s[i]),
    ensures
        skip_digits(s.subrange(i, s.len() as int)) == skip_digits(s.subrange(i + 1, s.len() as int)),
{
    assert(s.subrange(i, s.len() as int).drop_first() =~= s.subrange(i + 1, s.len() as int));
}

/// Trump suit from a contract string like "4S", "3NT", "2HX".
pub fn trump_suit(contract: &str) -> (t: Option<Suit>)
    ensures
        t == trump_of(contract@),
{
    let n = contract.unicode_len();
    let mut i: usize = 0;
    proof {
        assert(contract@.subrange(0, contract@.len() as int) =~= contract@);
    }
    while i < n
        invariant
            n == contract@.len(),
            i <= n,
            skip_digits(contract@) == skip_digits(contract@.subrange(i as int, n as int)),
        decreases n - i,
    {
        let c = contract.get_char(i);
        if !('0' <= c && c <= '9') {
            return Suit::from_char(c);
        }
        proof {
            lemma_skip_digits_step(contract@, i as int);
        }
        i = i + 1;
    }
    None
}

// ---------------------------------------------------------------------------
// Tricks
// ---------------------------------------------------------------------------

/// Ordering key for cards within a trick: trumps beat the led suit, the led
/// suit beats discards, rank breaks ties within a class.
pub open spec fn power(card: Card, led: Suit, trump: Option<Suit>) -> int {
    let class = if trump == Some(card.suit) {
        2int
    } else if card.suit == led {
        1int
    } else {
        0int
    };
    class * 16 + rank_value(card.rank)
}

/// The key as a machine integer: sixteen times the class (trump 2, led suit
/// 1, discard 0) plus the rank value, so that it orders like `(class, rank)`.
pub(crate) fn trick_power(card: Card, led: Suit, trump: Option<Suit>) -> (p: u8)
    ensures
        p == power(card, led, trump),
{
    let class: u8 = match trump {
        Some(t) if t == card.suit => 2,
        _ => if card.suit == led {
            1
        } else {
            0
        },
    };
    class * 16 + card.rank.value()
}

/// The index of the play holding the first `n` plays, ties going to the
/// later play.
pub open spec fn best_play_index(plays: Seq<PlayedCard>, led: Suit, trump: Option<Suit>, n: int) -> int
    decreases n,
{
    if n <= 1 {
        0
    } else {
        let b = best_play_index(plays, led, trump, n - 1);
        if power(plays[n - 1].card, led, trump) >= power(plays[b].card, led, trump) {
            n - 1
        } else {
            b
        }
    }
}

/// The suit led to a trick.
pub open spec fn led_suit_of(plays: Seq<PlayedCard>) -> Option<Suit> {
    if plays.len() == 0 {
        None
    } else {
        Some(plays[0].card.suit)
    }
}

/// The play that currently holds a trick: the highest-powered card, the
/// later of two equal ones.
pub open spec fn trick_winner(plays: Seq<PlayedCard>, trump: Option<Suit>) -> Option<PlayedCard> {
    if plays.len() == 0 {
        None
    } else {
        Some(plays[best_play_index(plays, plays[0].card.suit, trump, plays.len() as int)])
    }
}

/// The best play index is a play, and no play among the first `n` has more power.
pub proof fn lemma_best_play_index(plays: Seq<PlayedCard>, led: Suit, trump: Option<Suit>, n: int)
    requires
        1 <= n <= plays.len(),
    ensures
        0 <= best_play_index(plays, led, trump, n) < n,
        forall|j: int|
            0 <= j < n ==> power(#[trigger] plays[j].card, led, trump) <= power(
                plays[best_play_index(plays, led, trump, n)].card,
                led,
                trump,
            ),
    decreases n,
{
    if n > 1 {
        lemma_best_play_index(plays, led, trump, n - 1);
    }
}

/// The winner of a trick is one of its plays, and no play has more power.
pub proof fn lemma_trick_winner(plays: Seq<PlayedCard>, trump: Option<Suit>)
    requires
        plays.len() > 0,
    ensures
        trick_winner(plays, trump) matches Some(w) && plays.contains(w) && forall|j: int|
            0 <= j < plays.len() ==> power(#[trigger] plays[j].card, plays[0].card.suit, trump)
                <= power(w.card, plays[0].card.suit, trump),
{
    lemma_best_play_index(plays, plays[0].card.suit, trump, plays.len() as int);
}

/// The cards of trick `k` (from 0): the `k`-th group of four in the history,
/// the last group possibly shorter.
pub open spec fn trick_cards(played: Seq<PlayedCard>, k: int) -> Seq<PlayedCard> {
    if 4 * k + 4 <= played.len() {
        played.subrange(4 * k, 4 * k + 4)
    } else {
        played.subrange(4 * k, played.len() as int)
    }
}

/// Who led trick `k`: the opening leader for the first trick, then whoever
/// won the trick before.
pub open spec fn leader_of_trick(
    played: Seq<PlayedCard>,
    opening: Direction,
    trump: Option<Suit>,
    k: nat,
) -> Direction
    decreases k,
{
    if k == 0 {
        opening
    } else {
        let prev = trick_cards(played, k - 1);
        if prev.len() == 4 {
            trick_winner(prev, trump)->0.seat
        } else {
            leader_of_trick(played, opening, trump, (k - 1) as nat)
        }
    }
}

/// How many tricks (complete or not) the history spans.
pub open spec fn trick_count(played: Seq<PlayedCard>) -> int {
    (played.len() as int + 3) / 4
}

/// One reconstructed trick.
#[derive(Debug, Clone)]
pub struct TrickView {
    pub leader: Direction,
    /// In play order; complete tricks have 4 entries.
    pub plays: Vec<PlayedCard>,
}

impl TrickView {
    pub fn led_suit(&self) -> (s: Option<Suit>)
        ensures
            s == led_suit_of(self.plays@),
    {
        if self.plays.len() == 0 {
            None
        } else {
            Some(self.plays[0].card.suit)
        }
    }

    /// Who currently holds the trick, given the trump suit.
    pub fn winner(&self, trump: Option<Suit>) -> (w: Option<PlayedCard>)
        ensures
            w == trick_winner(self.plays@, trump),
    {
        if self.plays.len() == 0 {
            return None;
        }
        let led = self.plays[0].card.suit;
        let mut best: usize = 0;
        let mut best_power = trick_power(self.plays[0].card, led, trump);
        let mut i: usize = 1;
        while i < self.plays.len()
            invariant
                1 <= i <= self.plays@.len(),
                led == self.plays@[0].card.suit,
                best == best_play_index(self.plays@, led, trump, i as int),
                best < i,
                best_power == power(self.plays@[best as int].card, led, trump),
            decreases self.plays@.len() - i,
        {
            let p = trick_power(self.plays[i].card, led, trump);
            if p >= best_power {
                best = i;
                best_power = p;
            }
            i = i + 1;
        }
        Some(self.plays[best])
    }
}

/// Rebuild trick boundaries from the flat chronological history.
pub fn reconstruct_tricks(played: &[PlayedCard], opening_leader: Direction, trump: Option<Suit>) -> (tricks: Vec<TrickView>)
    ensures
        tricks@.len() == trick_count(played@),
        forall|k: int|
            0 <= k < tricks@.len() ==> (#[trigger] tricks@[k]).leader == leader_of_trick(
                played@,
                opening_leader,
                trump,
                k as nat,
            ) && tricks@[k].plays@ == trick_cards(played@, k),
{
    let mut tricks: Vec<TrickView> = Vec::new();
    let mut leader = opening_leader;
    let mut i: usize = 0;
    let n = played.len();
    while i < n
        invariant
            n == played@.len(),
            i <= n,
            i % 4 == 0 || i == n,
            tricks@.len() == (i + 3) / 4,
            i % 4 == 0 ==> leader == leader_of_trick(played@, opening_leader, trump, (i / 4) as nat),
            forall|k: int|
                0 <= k < tricks@.len() ==> (#[trigger] tricks@[k]).leader == leader_of_trick(
                    played@,
                    opening_leader,
                    trump,
                    k as nat,
                ) && tricks@[k].plays@ == trick_cards(played@, k),
        decreases n - i,
    {
        let end = if n - i >= 4 {
            i + 4
        } else {
            n
        };
        let mut plays: Vec<PlayedCard> = Vec::new();
        let mut j: usize = i;
        while j < end
            invariant
                i <= j <= end <= n,
                n == played@.len(),
                plays@ == played@.subrange(i as int, j as int),
            decreases end - j,
        {
            plays.push(played[j]);
            j = j + 1;
            proof {
                assert(plays@ =~= played@.subrange(i as int, j as int));
            }
        }
        let k: Ghost<int> = Ghost((i / 4) as int);
        assert(plays@ == trick_cards(played@, k@));
        let t = TrickView { leader, plays };
        if end - i == 4 {
            if let Some(w) = t.winner(trump) {
                leader = w.seat;
            }
        }
        tricks.push(t);
        i = end;
        proof {
            assert(tricks@[k@] == t);
        }
    }
    tricks
}

/// The trick now owed, as (leader, plays so far): the last group of the
/// history when it is incomplete; on a trick boundary, a trick with no plays
/// yet, led by the winner of the last trick. `None` only for an empty
/// history, which callers treat as "we are leading".
pub open spec fn current_trick(
    played: Seq<PlayedCard>,
    opening: Direction,
    trump: Option<Suit>,
) -> Option<(Direction, Seq<PlayedCard>)> {
    if played.len() == 0 {
        None
    } else {
        let k = played.len() as int / 4;
        Some((leader_of_trick(played, opening, trump, k as nat), trick_cards(played, k)))
    }
}

/// The suit that `partner` led to the first trick they led at or after trick `k`.
pub open spec fn first_led_by_from(
    played: Seq<PlayedCard>,
    opening: Direction,
    trump: Option<Suit>,
    partner: Direction,
    k: nat,
) -> Option<Suit>
    decreases played.len() - k,
{
    if 4 * k >= played.len() {
        None
    } else if leader_of_trick(played, opening, trump, k) == partner {
        Some(played[4 * k as int].card.suit)
    } else {
        first_led_by_from(played, opening, trump, partner, k + 1)
    }
}

/// `played` holds a play of card `c`.
pub open spec fn played_contains(played: Seq<PlayedCard>, c: Card) -> bool {
    exists|i: int| 0 <= i < played.len() && played[i].card == c
}

/// Cards not yet played.
pub open spec fn unplayed(played: Seq<PlayedCard>) -> spec_fn(Card) -> bool {
    |c: Card| !played_contains(played, c)
}

/// Whether card `c` has been played.
pub fn played_has(played: &[PlayedCard], c: Card) -> (b: bool)
    ensures
        b == played_contains(played@, c),
{
    let mut i: usize = 0;
    while i < played.len()
        invariant
            i <= played@.len(),
            forall|j: int| 0 <= j < i ==> played@[j].card != c,
        decreases played@.len() - i,
    {
        if played[i].card == c {
            return true;
        }
        i = i + 1;
    }
    false
}

/// `c` is accounted for from the playing seat's point of view: played,
/// in its hand, or (when visible) among dummy's remaining cards.
pub open spec fn accounted(
    played: Seq<PlayedCard>,
    hand: Seq<Card>,
    dummy: Seq<Card>,
    dummy_visible: bool,
    c: Card,
) -> bool {
    played_contains(played, c) || hand.contains(c) || (dummy_visible && dummy.contains(c))
}

/// `c` has been played or is in the playing seat's own hand.
pub open spec fn seen_or_held(played: Seq<PlayedCard>, hand: Seq<Card>, c: Card) -> bool {
    played_contains(played, c) || hand.contains(c)
}

/// `card` cannot be beaten in its suit: every higher card of the suit has
/// been played or is in the playing seat's own hand. A higher card still in
/// dummy (visible or not) or still unseen can beat it.
pub open spec fn master(played: Seq<PlayedCard>, hand: Seq<Card>, card: Card) -> bool {
    forall|v: int|
        rank_value(card.rank) < v <= 14 ==> #[trigger] seen_or_held(
            played,
            hand,
            card_of(card.suit, v),
        )
}

/// Every rank of `suit` strictly between `lo` and `hi` is accounted for
/// (dummy visible).
pub open spec fn between_accounted(
    played: Seq<PlayedCard>,
    hand: Seq<Card>,
    dummy: Seq<Card>,
    suit: Suit,
    lo: int,
    hi: int,
) -> bool {
    forall|v: int| lo < v < hi ==> #[trigger] accounted(played, hand, dummy, true, card_of(suit, v))
}

/// The ranks that, held in `cards`, make the top equal group of `suit` down
/// to them: every rank between them and `top` is held or accounted for.
pub open spec fn top_equal_ranks(
    played: Seq<PlayedCard>,
    hand: Seq<Card>,
    dummy: Seq<Card>,
    cards: Seq<Card>,
    suit: Suit,
    top: int,
) -> spec_fn(int) -> bool {
    |w: int|
        has_rank(cards, suit, w) && w <= top && forall|u: int|
            w < u < top ==> has_rank(cards, suit, u) || #[trigger] accounted(
                played,
                hand,
                dummy,
                true,
                card_of(suit, u),
            )
}

/// The lowest card of the top equal group of `cards` (all of `suit`):
/// cards are equals when every rank between them is accounted for.
pub open spec fn bottom_of_top_equals_of(
    played: Seq<PlayedCard>,
    hand: Seq<Card>,
    dummy: Seq<Card>,
    cards: Seq<Card>,
    suit: Suit,
) -> Option<Card> {
    match highest_rank_where(held(cards, suit), 14) {
        None => None,
        Some(top) => match lowest_rank_where(
            top_equal_ranks(played, hand, dummy, cards, suit, top),
            2,
        ) {
            Some(w) => Some(card_of(suit, w)),
            None => None,
        },
    }
}

/// Cards that beat a trick whose winning card has power `win_power`.
pub open spec fn beats(led: Suit, trump: Option<Suit>, win_power: int) -> spec_fn(Card) -> bool {
    |c: Card| power(c, led, trump) > win_power
}

/// Copies a history.
fn copy_plays(v: &[PlayedCard]) -> (r: Vec<PlayedCard>)
    ensures
        r@ == v@,
{
    let mut r: Vec<PlayedCard> = Vec::new();
    let mut i: usize = 0;
    while i < v.len()
        invariant
            i <= v@.len(),
            r@ == v@.subrange(0, i as int),
        decreases v@.len() - i,
    {
        r.push(v[i]);
        i = i + 1;
        proof {
            assert(r@ =~= v@.subrange(0, i as int));
        }
    }
    proof {
        assert(v@.subrange(0, v@.len() as int) =~= v@);
    }
    r
}

/// Everything precomputed for the mid-play rules.
pub struct Derived {
    pub trump: Option<Suit>,
    /// The trick in progress (never complete; the engine only asks for a
    /// card when one is owed). On a trick boundary it has no plays yet and is
    /// led by the last trick's winner. `None` only for a malformed empty
    /// history — callers treat that as "we are leading".
    pub current: Option<TrickView>,
    /// Seat's partner.
    pub partner: Direction,
    /// True when the playing seat defends (not declarer's side).
    pub is_defender: bool,
    /// Dummy's *remaining* cards (original minus played).
    pub dummy_remaining: Vec<Card>,
    /// The suit the bot's partner first led this deal, if any.
    pub partners_first_suit: Option<Suit>,
    /// All cards played so far (chronological).
    pub played: Vec<PlayedCard>,
}

/// The trick in progress as (leader, plays).
pub open spec fn trick_model(t: Option<TrickView>) -> Option<(Direction, Seq<PlayedCard>)> {
    match t {
        Some(t) => Some((t.leader, t.plays@)),
        None => None,
    }
}

/// The trump suit of a mid-play context.
pub open spec fn ctx_trump(ctx: PlayContext) -> Option<Suit> {
    trump_of(ctx.contract@)
}

/// The trick in progress of a mid-play context.
pub open spec fn ctx_current(ctx: PlayContext) -> Option<(Direction, Seq<PlayedCard>)> {
    current_trick(ctx.played@, next_seat(ctx.declarer), ctx_trump(ctx))
}

/// Whether the playing seat defends.
pub open spec fn ctx_is_defender(ctx: PlayContext) -> bool {
    ctx.seat != ctx.declarer && ctx.seat != partner_seat(ctx.declarer)
}

/// Dummy's cards not yet played.
pub open spec fn ctx_dummy_remaining(ctx: PlayContext) -> Seq<Card> {
    ctx.dummy@.filter(unplayed(ctx.played@))
}

/// The suit the playing seat's partner first led this deal.
pub open spec fn ctx_partners_first_suit(ctx: PlayContext) -> Option<Suit> {
    first_led_by_from(
        ctx.played@,
        next_seat(ctx.declarer),
        ctx_trump(ctx),
        partner_seat(ctx.seat),
        0,
    )
}

/// `d` holds exactly what `compute` derives from `ctx`.
pub open spec fn derived_from(d: Derived, ctx: PlayContext) -> bool {
    &&& d.trump == ctx_trump(ctx)
    &&& trick_model(d.current) == ctx_current(ctx)
    &&& d.partner == partner_seat(ctx.seat)
    &&& d.is_defender == ctx_is_defender(ctx)
    &&& d.dummy_remaining@ == ctx_dummy_remaining(ctx)
    &&& d.partners_first_suit == ctx_partners_first_suit(ctx)
    &&& d.played@ == ctx.played@
}

/// How many cards of the trick in progress have been played: 0 when
/// leading, 1 in second seat, 2 in third, 3 in fourth.
pub open spec fn position_of(current: Option<(Direction, Seq<PlayedCard>)>) -> int {
    match current {
        Some(t) => t.1.len() as int,
        None => 0,
    }
}

/// The play currently winning the trick in progress.
pub open spec fn winning_of(current: Option<(Direction, Seq<PlayedCard>)>, trump: Option<Suit>) -> Option<PlayedCard> {
    match current {
        Some(t) => trick_winner(t.1, trump),
        None => None,
    }
}

/// The cheapest card of `cards` that would take over the trick in progress.
pub open spec fn cheapest_winner_of(
    current: Option<(Direction, Seq<PlayedCard>)>,
    trump: Option<Suit>,
    cards: Seq<Card>,
) -> Option<Card> {
    match current {
        Some(t) => match (led_suit_of(t.1), trick_winner(t.1, trump)) {
            (Some(led), Some(w)) => lowest_where(cards, beats(led, trump, power(w.card, led, trump))),
            _ => None,
        },
        None => None,
    }
}

proof fn lemma_current_shape(played: Seq<PlayedCard>)
    ensures
        played.len() % 4 != 0 ==> 0 < played.len() - 4 * (played.len() / 4) < 4,
        played.len() % 4 == 0 ==> trick_count(played) == played.len() / 4,
        played.len() % 4 != 0 ==> trick_count(played) == played.len() / 4 + 1,
{
}

/// The suit of the first trick that `partner` led.
fn first_suit_led_by(
    tricks: &[TrickView],
    partner: Direction,
    Ghost(played): Ghost<Seq<PlayedCard>>,
    Ghost(opening): Ghost<Direction>,
    Ghost(trump): Ghost<Option<Suit>>,
) -> (r: Option<Suit>)
    requires
        tricks@.len() == trick_count(played),
        forall|j: int|
            0 <= j < tricks@.len() ==> (#[trigger] tricks@[j]).leader == leader_of_trick(
                played,
                opening,
                trump,
                j as nat,
            ) && tricks@[j].plays@ == trick_cards(played, j),
    ensures
        r == first_led_by_from(played, opening, trump, partner, 0),
{
    let mut k: usize = 0;
    while k < tricks.len()
        invariant
            k <= tricks@.len(),
            tricks@.len() == trick_count(played),
            forall|j: int|
                0 <= j < tricks@.len() ==> (#[trigger] tricks@[j]).leader == leader_of_trick(
                    played,
                    opening,
                    trump,
                    j as nat,
                ) && tricks@[j].plays@ == trick_cards(played, j),
            first_led_by_from(played, opening, trump, partner, 0) == first_led_by_from(
                played,
                opening,
                trump,
                partner,
                k as nat,
            ),
        decreases tricks@.len() - k,
    {
        if tricks[k].leader == partner {
            proof {
                assert(tricks@[k as int].plays@[0] == played[4 * k]);
            }
            return tricks[k].led_suit();
        }
        k = k + 1;
    }
    None
}

impl Derived {
    pub fn compute(ctx: &PlayContext) -> (d: Derived)
        ensures
            derived_from(d, *ctx),
    {
        let trump = trump_suit(ctx.contract.as_str());
        let opening_leader = ctx.declarer.next();
        let tricks = reconstruct_tricks(ctx.played.as_slice(), opening_leader, trump);
        let n = ctx.played.len();
        proof {
            lemma_current_shape(ctx.played@);
        }
        let current = if n == 0 {
            None
        } else if n % 4 == 0 {
            // Trick boundary: the next trick is owed, led by the last winner.
            let last = &tricks[tricks.len() - 1];
            proof {
                assert(last.plays@.len() == 4);
                lemma_trick_winner(last.plays@, trump);
            }
            let leader = match last.winner(trump) {
                Some(w) => w.seat,
                None => last.leader,
            };
            proof {
                assert(trick_cards(ctx.played@, n as int / 4) =~= Seq::<PlayedCard>::empty());
            }
            Some(TrickView { leader, plays: Vec::new() })
        } else {
            let last = &tricks[tricks.len() - 1];
            let t = TrickView { leader: last.leader, plays: copy_plays(last.plays.as_slice()) };
            Some(t)
        };

        let dummy_seat = ctx.declarer.partner();
        let mut dummy_remaining: Vec<Card> = Vec::new();
        let mut i: usize = 0;
        while i < ctx.dummy.len()
            invariant
                i <= ctx.dummy@.len(),
                dummy_remaining@ == ctx.dummy@.take(i as int).filter(unplayed(ctx.played@)),
            decreases ctx.dummy@.len() - i,
        {
            let c = ctx.dummy[i];
            proof {
                reveal_with_fuel(Seq::filter, 1);
                assert(ctx.dummy@.take(i + 1).drop_last() =~= ctx.dummy@.take(i as int));
            }
            if !played_has(ctx.played.as_slice(), c) {
                dummy_remaining.push(c);
            }
            i = i + 1;
        }
        proof {
            assert(ctx.dummy@.take(ctx.dummy@.len() as int) =~= ctx.dummy@);
        }

        let partner = ctx.seat.partner();
        let is_defender = ctx.seat != ctx.declarer && ctx.seat != dummy_seat;
        // Only leads count as "partner's suit", not follows.
        let partners_first_suit = first_suit_led_by(
            tricks.as_slice(),
            partner,
            Ghost(ctx.played@),
            Ghost(opening_leader),
            Ghost(trump),
        );

        Derived {
            trump,
            current,
            partner,
            is_defender,
            dummy_remaining,
            partners_first_suit,
            played: copy_plays(ctx.played.as_slice()),
        }
    }
}


/// A "spot" card for signaling purposes: nine or below.
pub open spec fn spot(card: Card) -> bool {
    rank_value(card.rank) <= 9
}

/// An honor: ten or above. (Tens count — they matter in sequences and are
/// too valuable to burn as signals.)
pub open spec fn honor(card: Card) -> bool {
    rank_value(card.rank) >= 10
}

/// A "spot" card for signaling purposes: nine or below.
pub fn is_spot(card: Card) -> (b: bool)
    ensures
        b == spot(card),
{
    card.rank.value() <= 9
}

/// An honor: ten or above.
pub fn is_honor(card: Card) -> (b: bool)
    ensures
        b == honor(card),
{
    card.rank.value() >= 10
}

/// The thirteen ranks in ascending order.
pub fn all_ranks() -> (r: Vec<Rank>)
    ensures
        r@.len() == 13,
        forall|i: int| 0 <= i < 13 ==> rank_value(#[trigger] r@[i]) == i + 2,
{
    vec![
        Rank::Two,
        Rank::Three,
        Rank::Four,
        Rank::Five,
        Rank::Six,
        Rank::Seven,
        Rank::Eight,
        Rank::Nine,
        Rank::Ten,
        Rank::Jack,
        Rank::Queen,
        Rank::King,
        Rank::Ace,
    ]
}

/// The ranks above `rank`, in ascending order.
pub fn all_ranks_above(rank: Rank) -> (r: Vec<Rank>)
    ensures
        r@.len() == 14 - rank_value(rank),
        forall|i: int| 0 <= i < r@.len() ==> rank_value(#[trigger] r@[i]) == rank_value(rank) + 1 + i,
{
    let all = all_ranks();
    let v = rank.value();
    let mut r: Vec<Rank> = Vec::new();
    let mut i: usize = 0;
    while i < all.len()
        invariant
            all@.len() == 13,
            forall|j: int| 0 <= j < 13 ==> rank_value(#[trigger] all@[j]) == j + 2,
            v == rank_value(rank),
            2 <= v <= 14,
            i <= 13,
            r@.len() == if i + 2 > v { i + 2 - v - 1 } else { 0 },
            forall|j: int| 0 <= j < r@.len() ==> rank_value(#[trigger] r@[j]) == v + 1 + j,
        decreases 13 - i,
    {
        if all[i].value() > v {
            r.push(all[i]);
        }
        i = i + 1;
    }
    r
}

impl Derived {
    /// 0 = leading, 1 = second hand, 2 = third hand, 3 = fourth hand.
    pub fn position(&self) -> (p: usize)
        ensures
            p == position_of(trick_model(self.current)),
    {
        match &self.current {
            Some(t) => t.plays.len(),
            None => 0,
        }
    }

    /// The card/seat currently winning the trick in progress.
    pub fn winning(&self) -> (w: Option<PlayedCard>)
        ensures
            w == winning_of(trick_model(self.current), self.trump),
    {
        match &self.current {
            Some(t) => t.winner(self.trump),
            None => None,
        }
    }

    /// Whether the bot's partner currently holds the trick.
    pub fn partner_is_winning(&self) -> (b: bool)
        ensures
            b == (winning_of(trick_model(self.current), self.trump) matches Some(w) && w.seat
                == self.partner),
    {
        match self.winning() {
            Some(w) => w.seat == self.partner,
            None => false,
        }
    }

    /// The cheapest card in `cards` that would take over the current trick
    /// (beats the winning card, honoring trump/led-suit classes).
    pub fn cheapest_winner(&self, cards: &[Card]) -> (r: Option<Card>)
        ensures
            r == cheapest_winner_of(trick_model(self.current), self.trump, cards@),
    {
        let trick = match &self.current {
            Some(t) => t,
            None => {
                return None;
            },
        };
        let led = match trick.led_suit() {
            Some(l) => l,
            None => {
                return None;
            },
        };
        let w = match trick.winner(self.trump) {
            Some(w) => w,
            None => {
                return None;
            },
        };
        let win_power = trick_power(w.card, led, self.trump);
        let ghost p = beats(led, self.trump, win_power as int);
        let mut best: Option<Card> = None;
        let mut i: usize = 0;
        while i < cards.len()
            invariant
                i <= cards@.len(),
                p == beats(led, self.trump, win_power as int),
                lowest_scan(cards@, p, i as int, best),
            decreases cards@.len() - i,
        {
            let c = cards[i];
            if trick_power(c, led, self.trump) > win_power {
                match best {
                    None => {
                        best = Some(c);
                    },
                    Some(b) => {
                        if crate::cards::card_key_of(c) < crate::cards::card_key_of(b) {
                            best = Some(c);
                        }
                    },
                }
            }
            i = i + 1;
        }
        proof {
            lemma_lowest_scan_done(cards@, p, best);
        }
        best
    }

    /// Whether `c` is accounted for: played, in `hand`, or (when visible)
    /// among dummy's remaining cards.
    fn is_accounted(&self, c: Card, hand: &[Card], dummy_visible: bool) -> (b: bool)
        ensures
            b == accounted(self.played@, hand@, self.dummy_remaining@, dummy_visible, c),
    {
        played_has(self.played.as_slice(), c) || contains_card(hand, c) || (dummy_visible
            && contains_card(self.dummy_remaining.as_slice(), c))
    }

    /// True when `card` is the highest still-unseen-or-held card of its suit
    /// from this seat's point of view: nothing above it remains in unseen
    /// space or dummy (i.e. it can't be beaten in its suit). Every higher
    /// card must have been played or be in `hand`; a higher card in dummy
    /// can beat it whether or not dummy is visible, so `_dummy_visible`
    /// does not change the answer.
    pub fn is_master(&self, card: Card, hand: &[Card], _dummy_visible: bool) -> (b: bool)
        ensures
            b == master(self.played@, hand@, card),
    {
        let above = all_ranks_above(card.rank);
        let mut i: usize = 0;
        while i < above.len()
            invariant
                i <= above@.len(),
                above@.len() == 14 - rank_value(card.rank),
                forall|j: int|
                    0 <= j < above@.len() ==> rank_value(#[trigger] above@[j]) == rank_value(
                        card.rank,
                    ) + 1 + j,
                forall|v: int|
                    rank_value(card.rank) < v <= rank_value(card.rank) + i ==> #[trigger] seen_or_held(
                        self.played@,
                        hand@,
                        card_of(card.suit, v),
                    ),
            decreases above@.len() - i,
        {
            let c = Card::new(card.suit, above[i]);
            proof {
                lemma_rank_value(above@[i as int]);
                assert(c == card_of(card.suit, rank_value(card.rank) + 1 + i));
            }
            if !(played_has(self.played.as_slice(), c) || contains_card(hand, c)) {
                assert(!seen_or_held(self.played@, hand@, c));
                return false;
            }
            i = i + 1;
        }
        true
    }

    /// Every rank strictly between `lo` and `hi` in `suit` is played, in
    /// this hand, or visible in dummy.
    fn ranks_between_accounted(&self, suit: Suit, lo: Rank, hi: Rank, hand: &[Card]) -> (b: bool)
        ensures
            b == between_accounted(
                self.played@,
                hand@,
                self.dummy_remaining@,
                suit,
                rank_value(lo),
                rank_value(hi),
            ),
    {
        let all = all_ranks();
        let lo_v = lo.value();
        let hi_v = hi.value();
        let mut i: usize = 0;
        while i < all.len()
            invariant
                all@.len() == 13,
                forall|j: int| 0 <= j < 13 ==> rank_value(#[trigger] all@[j]) == j + 2,
                lo_v == rank_value(lo),
                hi_v == rank_value(hi),
                i <= 13,
                forall|v: int|
                    lo_v < v < hi_v && v < i + 2 ==> #[trigger] accounted(
                        self.played@,
                        hand@,
                        self.dummy_remaining@,
                        true,
                        card_of(suit, v),
                    ),
            decreases 13 - i,
        {
            let r = all[i];
            let rv = r.value();
            if rv > lo_v && rv < hi_v {
                let c = Card::new(suit, r);
                proof {
                    lemma_rank_value(r);
                    assert(c == card_of(suit, rv as int));
                }
                if !self.is_accounted(c, hand, true) {
                    return false;
                }
            }
            i = i + 1;
        }
        true
    }

    /// Collapse `suit_cards` (same suit) into the top equal-group: cards are
    /// equals when every rank between them is accounted for (played, in this
    /// hand, or visible in dummy). Returns the *lowest* card of the top group
    /// — "as high as needed, as cheap as possible".
    pub fn bottom_of_top_equals(&self, suit_cards: &[Card], hand: &[Card]) -> (r: Option<Card>)
        requires
            forall|i: int| 0 <= i < suit_cards@.len() ==> (#[trigger] suit_cards@[i]).suit == suit_cards@[0].suit,
        ensures
            suit_cards@.len() == 0 ==> r is None,
            suit_cards@.len() > 0 ==> r == bottom_of_top_equals_of(
                self.played@,
                hand@,
                self.dummy_remaining@,
                suit_cards@,
                suit_cards@[0].suit,
            ),
    {
        if suit_cards.len() == 0 {
            return None;
        }
        let suit = suit_cards[0].suit;
        let ghost q_held = held(suit_cards@, suit);
        proof {
            lemma_rank_value(suit_cards@[0].rank);
            assert(q_held(rank_value(suit_cards@[0].rank)));
            lemma_highest_rank_where(q_held, 14);
        }
        let top = match highest_held_at_most(suit_cards, suit, 14) {
            Some(t) => t,
            None => {
                return None;
            },
        };
        let ghost q = top_equal_ranks(
            self.played@,
            hand@,
            self.dummy_remaining@,
            suit_cards@,
            suit,
            top as int,
        );
        let mut best: u8 = top;
        let mut w: u8 = top - 1;
        while w >= 2
            invariant
                2 <= top <= 14,
                q_held == held(suit_cards@, suit),
                highest_rank_where(held(suit_cards@, suit), 14) == Some(top as int),
                suit_cards@.len() > 0,
                suit == suit_cards@[0].suit,
                q == top_equal_ranks(
                    self.played@,
                    hand@,
                    self.dummy_remaining@,
                    suit_cards@,
                    suit,
                    top as int,
                ),
                w < best <= top,
                has_rank(suit_cards@, suit, best as int),
                forall|u: int|
                    best < u < top ==> has_rank(suit_cards@, suit, u) || #[trigger] accounted(
                        self.played@,
                        hand@,
                        self.dummy_remaining@,
                        true,
                        card_of(suit, u),
                    ),
                forall|u: int| w < u < best ==> !#[trigger] has_rank(suit_cards@, suit, u),
            decreases w,
        {
            if holds_rank(suit_cards, suit, w) {
                let lo = make_card(suit, w).rank;
                let hi = make_card(suit, best).rank;
                proof {
                    crate::cards::lemma_rank_of_value(w as int);
                    crate::cards::lemma_rank_of_value(best as int);
                }
                if self.ranks_between_accounted(suit, lo, hi, hand) {
                    best = w;
                } else {
                    proof {
                        let u0 = choose|u: int|
                            w < u < best && !accounted(
                                self.played@,
                                hand@,
                                self.dummy_remaining@,
                                true,
                                card_of(suit, u),
                            );
                        assert(!has_rank(suit_cards@, suit, u0));
                        assert forall|u: int| 2 <= u < best implies !#[trigger] q(u) by {
                            if u <= w {
                                assert(u < u0 < top);
                            }
                        }
                        assert(q(best as int));
                        lemma_lowest_rank_where_is(q, 2, best as int);
                        assert(bottom_of_top_equals_of(
                            self.played@,
                            hand@,
                            self.dummy_remaining@,
                            suit_cards@,
                            suit,
                        ) == Some(card_of(suit, best as int)));
                    }
                    return Some(make_card(suit, best));
                }
            }
            w = w - 1;
        }
        proof {
            assert forall|u: int| 2 <= u < best implies !#[trigger] q(u) by {}
            assert(q(best as int));
            lemma_lowest_rank_where_is(q, 2, best as int);
        }
        Some(make_card(suit, best))
    }
}

} // verus!
