//! What holds of every decision the bot makes.

use vstd::prelude::*;
use crate::cards::{partner_seat, rank_value, Card, Rank, Suit};
use crate::config::{AttitudeMethod, CountMethod, SignalConfig};
use crate::context::{LeadContext, PlayContext, PlayedCard};
use crate::auction::first_suit_bid;
use crate::decision::Rule;
use crate::derived::{ctx_current, ctx_is_defender, ctx_trump, position_of, trick_winner};
use crate::rules::{attitude_signal, count_below, count_signal, not_beating, discard, discard_card, discard_pool, discard_suit, follow_rules, held_above, liked_discard_suit, second_hand, side_card, signal_card, suit_cards, third_hand, top_equals_bottom, unliked_discard_suit, lemma_suit_cards, lemma_top_equals_bottom_exists, master_card, ace_king_suit, best_suit, best_suit_upto, fallback, honor_third_suit, lead_choice, lead_rules, lemma_holding, lemma_nth_exists, length_score, low_rank, play_choice, sequence_suit, short_score, suit_len, suit_score, top_rank, top_score, worthless_short_suit, fourth_best_suit};
use crate::select::{card_of, count_ranks_where, held, has_rank, highest_rank_where, lemma_highest_rank_where, lemma_highest_where, lemma_lowest_rank_where, lemma_lowest_where, nth_highest_rank_where};

verus! {

/// A held rank names a card of the holding.
pub proof fn lemma_card_of_held(cards: Seq<Card>, s: Suit, v: int)
    requires
        has_rank(cards, s, v),
    ensures
        cards.contains(card_of(s, v)),
        card_of(s, v).suit == s,
        rank_value(card_of(s, v).rank) == v,
{
    crate::cards::lemma_rank_of_value(v);
}

/// The suit picked by `best_suit` qualifies.
pub proof fn lemma_best_suit_upto(ok: spec_fn(Suit) -> bool, score: spec_fn(Suit) -> int, n: nat)
    ensures
        best_suit_upto(ok, score, n) matches Some(s) ==> ok(s),
    decreases n,
{
    if n > 0 {
        lemma_best_suit_upto(ok, score, (n - 1) as nat);
    }
}

/// The suit picked by `best_suit` qualifies.
pub proof fn lemma_best_suit(ok: spec_fn(Suit) -> bool, score: spec_fn(Suit) -> int)
    ensures
        best_suit(ok, score) matches Some(s) ==> ok(s),
{
    lemma_best_suit_upto(ok, score, 4);
}

/// The `n`-th highest value found by a scan meets the scan's condition.
pub proof fn lemma_nth_highest_meets(q: spec_fn(int) -> bool, v: int, n: nat)
    ensures
        nth_highest_rank_where(q, v, n) matches Some(w) ==> q(w),
    decreases v,
{
    if v >= 2 {
        if q(v) && n > 0 {
            lemma_nth_highest_meets(q, v - 1, (n - 1) as nat);
        } else if !q(v) {
            lemma_nth_highest_meets(q, v - 1, n);
        }
    }
}

/// The top and bottom cards of a held suit are held.
pub proof fn lemma_top_low_held(cards: Seq<Card>, s: Suit)
    requires
        suit_len(cards, s) > 0,
    ensures
        cards.contains(card_of(s, top_rank(cards, s)->0)),
        cards.contains(card_of(s, low_rank(cards, s)->0)),
{
    lemma_holding(cards, s);
    lemma_card_of_held(cards, s, top_rank(cards, s)->0);
    lemma_card_of_held(cards, s, low_rank(cards, s)->0);
}

/// The lowest card of a non-empty holding is one of its cards.
pub proof fn lemma_fallback_legal(cards: Seq<Card>)
    requires
        cards.len() > 0,
    ensures
        cards.contains(fallback(cards).0),
{
    lemma_lowest_where(cards, crate::select::any_card());
    assert(crate::select::any_card()(cards[0]));
}

/// Every lead rule that fires names a card of the holding.
proof fn lemma_lead_rules_legal(cards: Seq<Card>, suit_contract: bool, ps: Option<Suit>)
    requires
        cards.len() > 0,
    ensures
        cards.contains(lead_rules(cards, suit_contract, ps).0),
{
    if let Some(s) = ps {
        if suit_len(cards, s) > 0 {
            lemma_top_low_held(cards, s);
            if suit_contract && has_rank(cards, s, 14) {
                lemma_card_of_held(cards, s, 14);
            }
        }
    }
    lemma_best_suit(sequence_suit(cards), top_score(cards));
    if let Some(s) = best_suit(sequence_suit(cards), top_score(cards)) {
        lemma_holding(cards, s);
        lemma_card_of_held(cards, s, top_rank(cards, s)->0);
    }
    lemma_best_suit(ace_king_suit(cards), suit_score());
    if let Some(s) = best_suit(ace_king_suit(cards), suit_score()) {
        lemma_card_of_held(cards, s, 14);
    }
    lemma_best_suit(fourth_best_suit(cards, suit_contract), length_score(cards));
    if let Some(s) = best_suit(fourth_best_suit(cards, suit_contract), length_score(cards)) {
        lemma_nth_exists(held(cards, s), 14, 3);
        lemma_nth_highest_meets(held(cards, s), 14, 3);
        lemma_card_of_held(cards, s, nth_highest_rank_where(held(cards, s), 14, 3)->0);
    }
    lemma_best_suit(honor_third_suit(cards, suit_contract), top_score(cards));
    if let Some(s) = best_suit(honor_third_suit(cards, suit_contract), top_score(cards)) {
        lemma_top_low_held(cards, s);
    }
    lemma_best_suit(worthless_short_suit(cards), short_score(cards));
    if let Some(s) = best_suit(worthless_short_suit(cards), short_score(cards)) {
        lemma_top_low_held(cards, s);
    }
    lemma_fallback_legal(cards);
}

/// Always legal, and total: the opening lead is chosen exactly when some
/// card is legal, and it is always one of the legal cards.
pub proof fn opening_lead_is_legal(ctx: LeadContext)
    ensures
        lead_choice(ctx) is Some <==> ctx.legal@.len() > 0,
        lead_choice(ctx) matches Some(pick) ==> ctx.legal@.contains(pick.0),
{
    let cards = ctx.legal@;
    if cards.len() == 1 {
        assert(cards.contains(cards[0]));
    } else if cards.len() > 1 {
        let suit_contract = crate::derived::trump_of(ctx.contract@) is Some;
        let ps = crate::auction::first_suit_bid(ctx.auction@, ctx.dealer, crate::cards::partner_seat(ctx.seat));
        lemma_lead_rules_legal(cards, suit_contract, ps);
    }
}

/// Against a suit contract the opening lead never underleads an ace: the
/// lead is the ace itself, or comes from a suit whose ace is not held.
pub proof fn opening_lead_never_underleads_an_ace(ctx: LeadContext)
    requires
        crate::derived::trump_of(ctx.contract@) is Some,
    ensures
        lead_choice(ctx) matches Some(pick) ==> pick.0.rank == Rank::Ace || !ctx.legal@.contains(
            Card { suit: pick.0.suit, rank: Rank::Ace },
        ),
{
    let cards = ctx.legal@;
    if cards.len() == 1 {
        let ace = Card { suit: cards[0].suit, rank: Rank::Ace };
        if cards.contains(ace) {
            let k = choose|k: int| 0 <= k < cards.len() && #[trigger] cards[k] == ace;
            assert(k == 0);
        }
    }
}

/// With exactly one legal card, that card is played, by the `forced` rule.
pub proof fn a_single_legal_card_is_forced(lead: LeadContext, ctx: PlayContext, config: SignalConfig)
    ensures
        lead.legal@.len() == 1 ==> lead_choice(lead) == Some((lead.legal@[0], Rule::Forced)),
        ctx.legal@.len() == 1 ==> play_choice(ctx, config) == Some((ctx.legal@[0], Rule::Forced)),
{
}

/// A signal card is one of the cards of its suit.
pub proof fn lemma_signal_card_legal(cards: Seq<Card>, s: Suit, high: bool)
    requires
        suit_len(cards, s) > 0,
    ensures
        cards.contains(signal_card(cards, s, high)),
        signal_card(cards, s, high).suit == s,
{
    lemma_top_low_held(cards, s);
    lemma_holding(cards, s);
    lemma_highest_rank_where(held(cards, s), 9);
    if let Some(v) = highest_rank_where(held(cards, s), 9) {
        lemma_card_of_held(cards, s, v);
    }
}

/// The bottom of the top equal group is one of the legal cards.
pub proof fn lemma_top_equals_bottom_legal(ctx: PlayContext, led: Suit)
    requires
        suit_len(ctx.legal@, led) > 0,
    ensures
        top_equals_bottom(ctx, led) matches Some(b) && ctx.legal@.contains(b) && b.suit == led,
{
    lemma_top_equals_bottom_exists(ctx, led);
    lemma_suit_cards(ctx.legal@, led);
    let f = suit_cards(ctx.legal@, led);
    lemma_holding(f, led);
    let t = top_rank(f, led)->0;
    let q = crate::derived::top_equal_ranks(
        ctx.played@,
        ctx.hand@,
        crate::derived::ctx_dummy_remaining(ctx),
        f,
        led,
        t,
    );
    lemma_lowest_rank_where(q, 2);
    let w = crate::select::lowest_rank_where(q, 2)->0;
    assert(has_rank(f, led, w));
    lemma_card_of_held(ctx.legal@, led, w);
}

/// The second-hand rules play a legal card of the suit led.
proof fn lemma_second_hand_legal(ctx: PlayContext, config: SignalConfig, led: Suit, led_card: Card)
    requires
        suit_len(ctx.legal@, led) > 0,
    ensures
        ctx.legal@.contains(second_hand(ctx, config, led, led_card).0),
{
    let cards = ctx.legal@;
    let q = held_above(cards, led, rank_value(led_card.rank));
    lemma_lowest_rank_where(q, 2);
    if let Some(v) = crate::select::lowest_rank_where(q, 2) {
        lemma_card_of_held(cards, led, v);
    }
    lemma_top_equals_bottom_legal(ctx, led);
    lemma_signal_card_legal(cards, led, true);
    lemma_signal_card_legal(cards, led, false);
    lemma_top_low_held(cards, led);
}

/// The third-hand rules play a legal card of the suit led.
proof fn lemma_third_hand_legal(
    ctx: PlayContext,
    config: SignalConfig,
    led: Suit,
    lead_card: Card,
    w: crate::context::PlayedCard,
)
    requires
        suit_len(ctx.legal@, led) > 0,
    ensures
        ctx.legal@.contains(third_hand(ctx, config, led, lead_card, w).0),
{
    let cards = ctx.legal@;
    lemma_top_equals_bottom_legal(ctx, led);
    lemma_signal_card_legal(cards, led, true);
    lemma_signal_card_legal(cards, led, false);
    lemma_top_low_held(cards, led);
}

/// A discard from an eligible suit is a spot of that suit that is not a
/// winner.
pub proof fn lemma_discard_card(ctx: PlayContext, s: Suit, high: bool)
    requires
        discard_suit(ctx)(s),
    ensures
        ctx.legal@.contains(discard_card(ctx, s, high)),
        discard_card(ctx, s, high).suit == s,
        crate::derived::spot(discard_card(ctx, s, high)),
        !master_card(ctx)(discard_card(ctx, s, high)),
{
    let q = discard_pool(ctx, s);
    lemma_highest_rank_where(q, 14);
    lemma_lowest_rank_where(q, 2);
    let v = if high {
        highest_rank_where(q, 14)->0
    } else {
        crate::select::lowest_rank_where(q, 2)->0
    };
    assert(q(v));
    lemma_card_of_held(ctx.legal@, s, v);
}

/// The discard, when there is one, is a legal card outside the trump suit.
pub proof fn discards_are_legal_side_cards(ctx: PlayContext, config: SignalConfig)
    ensures
        discard(ctx, config) matches Some(c) ==> ctx.legal@.contains(c) && ctx_trump(ctx) != Some(
            c.suit,
        ),
        discard(ctx, config) is None ==> forall|i: int|
            0 <= i < ctx.legal@.len() ==> ctx_trump(ctx) == Some(#[trigger] ctx.legal@[i].suit),
{
    let cards = ctx.legal@;
    lemma_best_suit(liked_discard_suit(ctx), top_score(cards));
    lemma_best_suit(unliked_discard_suit(ctx), short_score(cards));
    if let Some(s) = best_suit(liked_discard_suit(ctx), top_score(cards)) {
        lemma_discard_card(ctx, s, crate::rules::attitude_high(config.attitude, true));
    } else if let Some(s) = best_suit(unliked_discard_suit(ctx), short_score(cards)) {
        lemma_discard_card(ctx, s, crate::rules::attitude_high(config.attitude, false));
    } else {
        lemma_lowest_where(cards, side_card(ctx_trump(ctx)));
    }
}

/// Discards keep winners and keep parity with dummy's long suit: whenever
/// some side suit has a spare spot (a spot that is not a winner, in a suit
/// not guarding parity with dummy), the discard is such a spot.
pub proof fn discards_keep_winners(ctx: PlayContext, config: SignalConfig)
    requires
        exists|s: Suit| #[trigger] discard_suit(ctx)(s),
    ensures
        discard(ctx, config) matches Some(c) && crate::derived::spot(c) && !master_card(ctx)(c)
            && !crate::rules::parity_guarded(ctx, c.suit) && ctx_trump(ctx) != Some(c.suit),
{
    let cards = ctx.legal@;
    let s0 = choose|s: Suit| #[trigger] discard_suit(ctx)(s);
    lemma_best_suit(liked_discard_suit(ctx), top_score(cards));
    lemma_best_suit(unliked_discard_suit(ctx), short_score(cards));
    if let Some(s) = best_suit(liked_discard_suit(ctx), top_score(cards)) {
        lemma_discard_card(ctx, s, crate::rules::attitude_high(config.attitude, true));
    } else {
        if crate::rules::has_honor(cards, s0) {
            lemma_best_suit_some(liked_discard_suit(ctx), top_score(cards), s0);
        } else {
            lemma_best_suit_some(unliked_discard_suit(ctx), short_score(cards), s0);
        }
        let s = best_suit(unliked_discard_suit(ctx), short_score(cards))->0;
        lemma_discard_card(ctx, s, crate::rules::attitude_high(config.attitude, false));
    }
}

/// Some suit qualifies, so `best_suit` picks one.
pub proof fn lemma_best_suit_some(ok: spec_fn(Suit) -> bool, score: spec_fn(Suit) -> int, s: Suit)
    requires
        ok(s),
    ensures
        best_suit(ok, score) is Some,
{
    lemma_best_suit_upto_some(ok, score, s, 4);
}

proof fn lemma_best_suit_upto_some(ok: spec_fn(Suit) -> bool, score: spec_fn(Suit) -> int, s: Suit, n: nat)
    requires
        ok(s),
        crate::cards::suit_index(s) < n <= 4,
    ensures
        best_suit_upto(ok, score, n) is Some,
    decreases n,
{
    if crate::cards::suit_index(s) < n - 1 {
        lemma_best_suit_upto_some(ok, score, s, (n - 1) as nat);
    } else {
        assert(crate::rules::suit_of_index(n - 1) == s);
    }
}

/// A count signal made while not contesting is a legal card of the suit led.
proof fn lemma_count_below_legal(cards: Seq<Card>, led: Suit, trump: Option<Suit>, wp: int, method: CountMethod)
    requires
        suit_len(cards, led) > 0,
    ensures
        cards.contains(count_below(cards, led, trump, wp, method).0),
        count_below(cards, led, trump, wp, method).0.suit == led,
{
    let under = cards.filter(not_beating(led, trump, wp));
    let high = crate::rules::count_high(method, suit_len(cards, led));
    if suit_len(under, led) > 0 {
        lemma_signal_card_legal(under, led, high);
        cards.lemma_filter_contains_rev(not_beating(led, trump, wp), signal_card(under, led, high));
    } else {
        lemma_signal_card_legal(cards, led, high);
    }
}

/// Every mid-play rule that fires names a legal card.
proof fn lemma_follow_legal(ctx: PlayContext, config: SignalConfig)
    requires
        ctx.legal@.len() > 0,
        position_of(ctx_current(ctx)) > 0,
    ensures
        ctx.legal@.contains(follow_rules(ctx, config).0),
{
    let cards = ctx.legal@;
    let trump = ctx_trump(ctx);
    let cur = ctx_current(ctx);
    let plays = (cur->0).1;
    let led = plays[0].card.suit;
    let w = trick_winner(plays, trump)->0;
    lemma_fallback_legal(cards);
    if let Some(t) = cur {
        if let (Some(l), Some(wp)) = (crate::derived::led_suit_of(t.1), trick_winner(t.1, trump)) {
            lemma_lowest_where(cards, crate::derived::beats(l, trump, crate::derived::power(wp.card, l, trump)));
        }
    }
    if suit_len(cards, led) > 0 {
        lemma_second_hand_legal(ctx, config, led, plays[0].card);
        lemma_third_hand_legal(ctx, config, led, plays[0].card, w);
        lemma_count_below_legal(cards, led, trump, crate::derived::power(w.card, led, trump), config.count);
    }
    discards_are_legal_side_cards(ctx, config);
}

/// Always legal, and total: a mid-play card is chosen exactly when some card
/// is legal, and it is always one of the legal cards.
pub proof fn mid_play_card_is_legal(ctx: PlayContext, config: SignalConfig)
    ensures
        play_choice(ctx, config) is Some <==> ctx.legal@.len() > 0,
        play_choice(ctx, config) matches Some(pick) ==> ctx.legal@.contains(pick.0),
{
    let cards = ctx.legal@;
    if cards.len() == 1 {
        assert(cards.contains(cards[0]));
    } else if cards.len() > 1 {
        if position_of(ctx_current(ctx)) == 0 {
            lemma_fallback_legal(cards);
            if let Some(s) = crate::derived::ctx_partners_first_suit(ctx) {
                if suit_len(cards, s) > 0 {
                    lemma_top_low_held(cards, s);
                }
            }
            lemma_highest_where(cards, master_card(ctx));
        } else {
            lemma_follow_legal(ctx, config);
        }
    }
}

/// A defender who cannot follow suit never ruffs partner's winning card
/// while holding a card of another suit: it discards instead.
pub proof fn never_ruffs_partners_winner(ctx: PlayContext, config: SignalConfig, t: Suit)
    requires
        ctx_is_defender(ctx),
        ctx.legal@.len() > 1,
        position_of(ctx_current(ctx)) > 0,
        ctx_trump(ctx) == Some(t),
        trick_winner((ctx_current(ctx)->0).1, Some(t))->0.seat == crate::cards::partner_seat(ctx.seat),
        suit_len(ctx.legal@, (ctx_current(ctx)->0).1[0].card.suit) == 0,
        exists|i: int| 0 <= i < ctx.legal@.len() && (#[trigger] ctx.legal@[i]).suit != t,
    ensures
        play_choice(ctx, config) matches Some(pick) && pick.0.suit != t && pick.1 == Rule::DiscardAttitude,
{
    discards_are_legal_side_cards(ctx, config);
}

/// Signals that depend on a method.
pub open spec fn signal_rule(r: Rule) -> bool {
    r == Rule::AttitudeEncourage || r == Rule::AttitudeDiscourage || r == Rule::DiscardAttitude
        || r == Rule::CountSignal
}

/// Attitude signals (including attitude discards).
pub open spec fn attitude_rule(r: Rule) -> bool {
    r == Rule::AttitudeEncourage || r == Rule::AttitudeDiscourage || r == Rule::DiscardAttitude
}

/// `p2` is what `p1` becomes under another signaling configuration: the
/// same rule, and the same card unless the rule is a signal whose method
/// changed.
pub open spec fn same_but_signals(p1: (Card, Rule), p2: (Card, Rule), c1: SignalConfig, c2: SignalConfig) -> bool {
    match (p1, p2) {
        ((card1, rule1), (card2, rule2)) => {
            &&& rule1 == rule2
            &&& !signal_rule(rule1) ==> card1 == card2
            &&& c1.count == c2.count && !attitude_rule(rule1) ==> card1 == card2
            &&& c1.attitude == c2.attitude && rule1 != Rule::CountSignal ==> card1 == card2
        },
    }
}

proof fn lemma_count_signal_methods(cards: Seq<Card>, s: Suit, c1: SignalConfig, c2: SignalConfig)
    ensures
        same_but_signals(count_signal(cards, s, c1.count), count_signal(cards, s, c2.count), c1, c2),
{
}

proof fn lemma_attitude_signal_methods(cards: Seq<Card>, s: Suit, c1: SignalConfig, c2: SignalConfig)
    ensures
        same_but_signals(attitude_signal(cards, s, c1.attitude), attitude_signal(cards, s, c2.attitude), c1, c2),
{
}

proof fn lemma_second_hand_methods(ctx: PlayContext, c1: SignalConfig, c2: SignalConfig, led: Suit, led_card: Card)
    ensures
        same_but_signals(second_hand(ctx, c1, led, led_card), second_hand(ctx, c2, led, led_card), c1, c2),
{
    lemma_count_signal_methods(ctx.legal@, led, c1, c2);
}

proof fn lemma_third_hand_methods(
    ctx: PlayContext,
    c1: SignalConfig,
    c2: SignalConfig,
    led: Suit,
    lead_card: Card,
    w: crate::context::PlayedCard,
)
    ensures
        same_but_signals(third_hand(ctx, c1, led, lead_card, w), third_hand(ctx, c2, led, lead_card, w), c1, c2),
{
    lemma_attitude_signal_methods(ctx.legal@, led, c1, c2);
}

proof fn lemma_discard_methods(ctx: PlayContext, c1: SignalConfig, c2: SignalConfig)
    ensures
        discard(ctx, c1) is Some <==> discard(ctx, c2) is Some,
        c1.attitude == c2.attitude ==> discard(ctx, c1) == discard(ctx, c2),
{
}

proof fn lemma_follow_methods(ctx: PlayContext, c1: SignalConfig, c2: SignalConfig)
    ensures
        same_but_signals(follow_rules(ctx, c1), follow_rules(ctx, c2), c1, c2),
{
    let cards = ctx.legal@;
    let cur = ctx_current(ctx);
    let plays = (cur->0).1;
    let led = plays[0].card.suit;
    let w = trick_winner(plays, ctx_trump(ctx))->0;
    lemma_second_hand_methods(ctx, c1, c2, led, plays[0].card);
    lemma_third_hand_methods(ctx, c1, c2, led, plays[0].card, w);
    lemma_count_signal_methods(cards, led, c1, c2);
    lemma_discard_methods(ctx, c1, c2);
}

/// The signaling methods never change which rule fires, and they only
/// change the card of a signal: the attitude method only that of attitude
/// signals and discards, the count method only that of count signals.
pub proof fn signal_methods_only_choose_signal_cards(ctx: PlayContext, c1: SignalConfig, c2: SignalConfig)
    ensures
        play_choice(ctx, c1) is Some <==> play_choice(ctx, c2) is Some,
        play_choice(ctx, c1) is Some ==> same_but_signals(
            play_choice(ctx, c1)->0,
            play_choice(ctx, c2)->0,
            c1,
            c2,
        ),
{
    lemma_follow_methods(ctx, c1, c2);
}

/// Upside-down methods reverse the standard ones: an upside-down signal is
/// made with a high card exactly when the standard signal with the same
/// meaning is made with a low one.
pub proof fn upside_down_reverses_standard(encourage: bool, length: int)
    ensures
        crate::rules::attitude_high(AttitudeMethod::UpsideDown, encourage)
            == !crate::rules::attitude_high(AttitudeMethod::Standard, encourage),
        crate::rules::count_high(CountMethod::UpsideDown, length) == !crate::rules::count_high(
            CountMethod::Standard,
            length,
        ),
        crate::rules::attitude_high(AttitudeMethod::Standard, true),
        crate::rules::count_high(CountMethod::Standard, length) == (length % 2 == 0),
{
}

/// `card` takes over the trick in progress, and no legal card that would
/// take it over is cheaper.
pub open spec fn cheapest_to_take_over(ctx: PlayContext, card: Card) -> bool {
    let trump = ctx_trump(ctx);
    let plays = (ctx_current(ctx)->0).1;
    let led = plays[0].card.suit;
    let w = trick_winner(plays, trump)->0;
    &&& crate::derived::power(card, led, trump) > crate::derived::power(w.card, led, trump)
    &&& forall|x: Card|
        #[trigger] ctx.legal@.contains(x) && crate::derived::power(x, led, trump)
            > crate::derived::power(w.card, led, trump) ==> crate::cards::card_key(card)
            <= crate::cards::card_key(x)
}

/// Winning plays are as cheap as possible: whenever the bot wins a trick
/// (win cheaply, ruff, overruff) its card beats the card currently winning,
/// and no legal card that also beats it is lower.
pub proof fn wins_as_cheaply_as_possible(ctx: PlayContext, config: SignalConfig)
    ensures
        play_choice(ctx, config) matches Some((card, rule)) ==> (rule == Rule::WinCheaply || rule
            == Rule::RuffToWin || rule == Rule::OverruffCheaply) ==> cheapest_to_take_over(ctx, card),
{
    let cards = ctx.legal@;
    let trump = ctx_trump(ctx);
    let cur = ctx_current(ctx);
    if let Some(t) = cur {
        if let (Some(l), Some(wp)) = (crate::derived::led_suit_of(t.1), trick_winner(t.1, trump)) {
            lemma_lowest_where(cards, crate::derived::beats(l, trump, crate::derived::power(wp.card, l, trump)));
        }
    }
}

/// The bot is stateless and deterministic: two mid-play calls that see the
/// same deal — seat, hands, declarer, contract and history — make the same
/// choice.
pub proof fn mid_play_choice_depends_only_on_the_deal(c1: PlayContext, c2: PlayContext, config: SignalConfig)
    requires
        c1.seat == c2.seat,
        c1.hand@ == c2.hand@,
        c1.dummy@ == c2.dummy@,
        c1.declarer == c2.declarer,
        c1.contract@ == c2.contract@,
        c1.played@ == c2.played@,
        c1.legal@ == c2.legal@,
    ensures
        play_choice(c1, config) == play_choice(c2, config),
{
    assert(crate::derived::ctx_dummy_remaining(c1) == crate::derived::ctx_dummy_remaining(c2));
    assert(master_card(c1) == master_card(c2));
    assert forall|s: Suit| #[trigger] discard_pool(c1, s) == discard_pool(c2, s) by {}
    assert(discard_suit(c1) == discard_suit(c2));
    assert(liked_discard_suit(c1) == liked_discard_suit(c2));
    assert(unliked_discard_suit(c1) == unliked_discard_suit(c2));
}

/// The opening lead is stateless and deterministic too: the same seat,
/// dealer, contract, auction and legal cards give the same lead.
pub proof fn opening_lead_depends_only_on_the_deal(c1: LeadContext, c2: LeadContext)
    requires
        c1.seat == c2.seat,
        c1.dealer == c2.dealer,
        c1.contract@ == c2.contract@,
        c1.auction@ == c2.auction@,
        c1.legal@ == c2.legal@,
    ensures
        lead_choice(c1) == lead_choice(c2),
{
}

/// Ace from ace-king is led only against a suit contract.
pub proof fn ace_from_ace_king_only_against_a_suit(ctx: LeadContext)
    ensures
        lead_choice(ctx) matches Some((card, rule)) ==> rule == Rule::LeadAceFromAk
            ==> crate::derived::trump_of(ctx.contract@) is Some,
{
}

// ---------------------------------------------------------------------------
// What each card-choosing rule picks, in terms of the holding
// ---------------------------------------------------------------------------

/// `c` is one of `cards`, and no card of `cards` in its suit ranks above it.
pub open spec fn highest_in_suit(cards: Seq<Card>, c: Card) -> bool {
    &&& cards.contains(c)
    &&& forall|x: Card|
        #[trigger] cards.contains(x) && x.suit == c.suit ==> rank_value(x.rank) <= rank_value(c.rank)
}

/// `c` is one of `cards`, and no card of `cards` in its suit ranks below it.
pub open spec fn lowest_in_suit(cards: Seq<Card>, c: Card) -> bool {
    &&& cards.contains(c)
    &&& forall|x: Card|
        #[trigger] cards.contains(x) && x.suit == c.suit ==> rank_value(c.rank) <= rank_value(x.rank)
}

/// `cards` holds an honor (ten or above) in `s`.
pub open spec fn holds_honor_in(cards: Seq<Card>, s: Suit) -> bool {
    exists|x: Card| #[trigger] cards.contains(x) && x.suit == s && rank_value(x.rank) >= 10
}

/// The cards played so far to the trick in progress.
pub open spec fn trick_so_far(ctx: PlayContext) -> Seq<PlayedCard> {
    (ctx_current(ctx)->0).1
}

/// The card led to the trick in progress.
pub open spec fn card_led(ctx: PlayContext) -> Card {
    trick_so_far(ctx)[0].card
}

/// The play currently winning the trick in progress.
pub open spec fn winning_play(ctx: PlayContext) -> PlayedCard {
    trick_winner(trick_so_far(ctx), ctx_trump(ctx))->0
}

/// How strongly `c` would stand in the trick in progress: trumps above the
/// suit led, the suit led above discards, rank within each.
pub open spec fn strength_in_trick(ctx: PlayContext, c: Card) -> int {
    crate::derived::power(c, card_led(ctx).suit, ctx_trump(ctx))
}

/// A card of a holding is held at its rank, so its suit is held, between the
/// low and the top card.
proof fn lemma_held_card(cards: Seq<Card>, x: Card)
    requires
        cards.contains(x),
    ensures
        has_rank(cards, x.suit, rank_value(x.rank)),
        suit_len(cards, x.suit) > 0,
        low_rank(cards, x.suit)->0 <= rank_value(x.rank) <= top_rank(cards, x.suit)->0,
{
    crate::cards::lemma_rank_value(x.rank);
    assert(Card { suit: x.suit, rank: x.rank } == x);
    assert(held(cards, x.suit)(rank_value(x.rank)));
    lemma_highest_rank_where(held(cards, x.suit), 14);
    lemma_lowest_rank_where(held(cards, x.suit), 2);
    lemma_holding(cards, x.suit);
}

/// The top card of a held suit is the highest card held there, and the low
/// card the lowest.
proof fn lemma_top_low_extreme(cards: Seq<Card>, s: Suit)
    requires
        suit_len(cards, s) > 0,
    ensures
        highest_in_suit(cards, card_of(s, top_rank(cards, s)->0)),
        lowest_in_suit(cards, card_of(s, low_rank(cards, s)->0)),
        card_of(s, top_rank(cards, s)->0).suit == s,
        card_of(s, low_rank(cards, s)->0).suit == s,
{
    lemma_holding(cards, s);
    let t = top_rank(cards, s)->0;
    let l = low_rank(cards, s)->0;
    lemma_card_of_held(cards, s, t);
    lemma_card_of_held(cards, s, l);
    assert forall|x: Card| #[trigger] cards.contains(x) && x.suit == s implies l <= rank_value(x.rank)
        <= t by {
        lemma_held_card(cards, x);
    }
}

/// Holding an honor, as the rules test it, is holding a card ranked ten or
/// above.
proof fn lemma_has_honor(cards: Seq<Card>, s: Suit)
    ensures
        crate::rules::has_honor(cards, s) == holds_honor_in(cards, s),
{
    lemma_holding(cards, s);
    if crate::rules::has_honor(cards, s) {
        let t = top_rank(cards, s)->0;
        lemma_card_of_held(cards, s, t);
        assert(cards.contains(card_of(s, t)) && card_of(s, t).suit == s && rank_value(card_of(s, t).rank) >= 10);
    }
    if holds_honor_in(cards, s) {
        let x = choose|x: Card| #[trigger] cards.contains(x) && x.suit == s && rank_value(x.rank) >= 10;
        lemma_held_card(cards, x);
    }
}

/// Leading partner's bid suit. Whenever partner bid a suit that the leader
/// holds and there is a choice of cards, that suit is led; the card is the
/// ace against a suit contract when the ace is held, otherwise the lowest
/// card from three or more headed by an honor, otherwise the highest card
/// held there (top of a doubleton, top of nothing).
pub proof fn partners_suit_lead_follows_the_holding(ctx: LeadContext)
    ensures
        lead_choice(ctx) matches Some((card, rule)) ==> rule == Rule::LeadPartnersSuit ==> ({
            let cards = ctx.legal@;
            let s = card.suit;
            let ace = Card { suit: s, rank: Rank::Ace };
            let ace_lead = crate::derived::trump_of(ctx.contract@) is Some && cards.contains(ace);
            let low_lead = suit_len(cards, s) >= 3 && holds_honor_in(cards, s);
            &&& first_suit_bid(ctx.auction@, ctx.dealer, partner_seat(ctx.seat)) == Some(s)
            &&& cards.contains(card)
            &&& ace_lead ==> card == ace
            &&& !ace_lead && low_lead ==> lowest_in_suit(cards, card)
            &&& !ace_lead && !low_lead ==> highest_in_suit(cards, card)
        }),
        first_suit_bid(ctx.auction@, ctx.dealer, partner_seat(ctx.seat)) matches Some(s) ==> (ctx.legal@.len()
            > 1 && (exists|x: Card| #[trigger] ctx.legal@.contains(x) && x.suit == s) ==> (lead_choice(ctx) matches Some(
            (card, rule),
        ) && rule == Rule::LeadPartnersSuit && card.suit == s)),
{
    let cards = ctx.legal@;
    if let Some(s) = first_suit_bid(ctx.auction@, ctx.dealer, partner_seat(ctx.seat)) {
        if exists|x: Card| #[trigger] cards.contains(x) && x.suit == s {
            let x = choose|x: Card| #[trigger] cards.contains(x) && x.suit == s;
            lemma_held_card(cards, x);
        }
        if suit_len(cards, s) > 0 {
            lemma_top_low_extreme(cards, s);
            lemma_has_honor(cards, s);
            if has_rank(cards, s, 14) {
                lemma_card_of_held(cards, s, 14);
            }
        }
    }
}

/// Third hand unblocks only an honor: the card is the higher of exactly two
/// cards held in the suit led, ten or above, and ranks below the honor that
/// partner led.
pub proof fn third_hand_unblocks_only_an_honor(ctx: PlayContext, config: SignalConfig)
    ensures
        play_choice(ctx, config) matches Some((card, rule)) ==> rule == Rule::ThirdHandUnblock ==> ({
            &&& ctx_is_defender(ctx)
            &&& position_of(ctx_current(ctx)) == 2
            &&& card.suit == card_led(ctx).suit
            &&& highest_in_suit(ctx.legal@, card)
            &&& suit_len(ctx.legal@, card.suit) == 2
            &&& 10 <= rank_value(card.rank) < rank_value(card_led(ctx).rank)
        }),
{
    let cards = ctx.legal@;
    if cards.len() > 1 && position_of(ctx_current(ctx)) > 0 {
        let led = card_led(ctx).suit;
        if suit_len(cards, led) > 0 {
            lemma_top_low_extreme(cards, led);
            lemma_holding(cards, led);
            lemma_card_of_held(cards, led, top_rank(cards, led)->0);
        }
    }
}

/// Third hand with no honor in the suit led and no legal card that beats the
/// card winning the trick does not contest it: it discourages, with its
/// lowest card of the suit under standard attitude and its highest under
/// upside-down.
pub proof fn third_hand_discourages_without_honor_or_winner(ctx: PlayContext, config: SignalConfig)
    requires
        ctx_is_defender(ctx),
        ctx.legal@.len() > 1,
        position_of(ctx_current(ctx)) == 2,
        suit_len(ctx.legal@, card_led(ctx).suit) > 0,
        !holds_honor_in(ctx.legal@, card_led(ctx).suit),
        forall|x: Card|
            #[trigger] ctx.legal@.contains(x) ==> strength_in_trick(ctx, x) <= strength_in_trick(
                ctx,
                winning_play(ctx).card,
            ),
    ensures
        play_choice(ctx, config) matches Some((card, rule)) && rule == Rule::AttitudeDiscourage
            && card.suit == card_led(ctx).suit,
        play_choice(ctx, config) matches Some((card, rule)) ==> config.attitude == AttitudeMethod::Standard
            ==> lowest_in_suit(ctx.legal@, card),
        play_choice(ctx, config) matches Some((card, rule)) ==> config.attitude == AttitudeMethod::UpsideDown
            ==> highest_in_suit(ctx.legal@, card),
{
    let cards = ctx.legal@;
    let led = card_led(ctx).suit;
    lemma_has_honor(cards, led);
    lemma_holding(cards, led);
    lemma_top_low_extreme(cards, led);
    lemma_top_equals_bottom_legal(ctx, led);
    let t = top_rank(cards, led)->0;
    let q = held(cards, led);
    lemma_highest_rank_where(q, 9);
    lemma_highest_rank_where(q, 14);
    assert(q(t));
    let w = highest_rank_where(q, 9)->0;
    assert(q(w));
    assert(highest_rank_where(q, 9) == Some(t));
}

/// A defender following suit in fourth seat never takes over a trick its
/// partner is winning when it holds a card of the suit led that does not:
/// it gives count with such a card.
pub proof fn fourth_hand_never_overtakes_partner(ctx: PlayContext, config: SignalConfig)
    requires
        ctx_is_defender(ctx),
        ctx.legal@.len() > 1,
        position_of(ctx_current(ctx)) == 3,
        winning_play(ctx).seat == partner_seat(ctx.seat),
        exists|x: Card|
            #[trigger] ctx.legal@.contains(x) && x.suit == card_led(ctx).suit && strength_in_trick(ctx, x)
                <= strength_in_trick(ctx, winning_play(ctx).card),
    ensures
        play_choice(ctx, config) matches Some((card, rule)) && rule == Rule::CountSignal && ctx.legal@.contains(
            card,
        ) && card.suit == card_led(ctx).suit && strength_in_trick(ctx, card) <= strength_in_trick(
            ctx,
            winning_play(ctx).card,
        ),
{
    broadcast use vstd::seq_lib::group_filter_ensures;

    let cards = ctx.legal@;
    let led = card_led(ctx).suit;
    let trump = ctx_trump(ctx);
    let wp = strength_in_trick(ctx, winning_play(ctx).card);
    let p = not_beating(led, trump, wp);
    let x = choose|x: Card|
        #[trigger] cards.contains(x) && x.suit == led && strength_in_trick(ctx, x) <= wp;
    lemma_held_card(cards, x);
    let under = cards.filter(p);
    let k = choose|k: int| 0 <= k < cards.len() && cards[k] == x;
    assert(p(cards[k]));
    assert(under.contains(x));
    lemma_held_card(under, x);
    let high = crate::rules::count_high(config.count, suit_len(cards, led));
    lemma_signal_card_legal(under, led, high);
    let c = signal_card(under, led, high);
    cards.lemma_filter_contains_rev(p, c);
    let j = choose|j: int| 0 <= j < under.len() && under[j] == c;
    assert(p(under[j]));
}

/// Returning partner's suit: the card is of the suit partner first led, the
/// lowest held there with three or more cards and the highest with fewer.
pub proof fn partners_suit_return_follows_the_holding(ctx: PlayContext, config: SignalConfig)
    ensures
        play_choice(ctx, config) matches Some((card, rule)) ==> rule == Rule::ReturnPartnersSuit ==> ({
            &&& ctx_is_defender(ctx)
            &&& position_of(ctx_current(ctx)) == 0
            &&& crate::derived::ctx_partners_first_suit(ctx) == Some(card.suit)
            &&& suit_len(ctx.legal@, card.suit) >= 3 ==> lowest_in_suit(ctx.legal@, card)
            &&& suit_len(ctx.legal@, card.suit) < 3 ==> highest_in_suit(ctx.legal@, card)
        }),
{
    if let Some(s) = crate::derived::ctx_partners_first_suit(ctx) {
        if suit_len(ctx.legal@, s) > 0 {
            lemma_top_low_extreme(ctx.legal@, s);
        }
    }
}

/// Second hand covers a led honor as cheaply as possible: with a legal card
/// of the suit led that ranks above the honor, and no legal card of that
/// suit ranks between the two.
pub proof fn second_hand_covers_as_cheaply_as_possible(ctx: PlayContext, config: SignalConfig)
    ensures
        play_choice(ctx, config) matches Some((card, rule)) ==> rule == Rule::SecondHandCoverHonor ==> ({
            let honor_led = card_led(ctx);
            &&& ctx_is_defender(ctx)
            &&& position_of(ctx_current(ctx)) == 1
            &&& rank_value(honor_led.rank) >= 10
            &&& card.suit == honor_led.suit
            &&& ctx.legal@.contains(card)
            &&& rank_value(card.rank) > rank_value(honor_led.rank)
            &&& forall|x: Card|
                #[trigger] ctx.legal@.contains(x) && x.suit == honor_led.suit && rank_value(x.rank)
                    > rank_value(honor_led.rank) ==> rank_value(card.rank) <= rank_value(x.rank)
        }),
{
    let cards = ctx.legal@;
    if cards.len() > 1 && position_of(ctx_current(ctx)) > 0 {
        let lc = card_led(ctx);
        let led = lc.suit;
        let q = held_above(cards, led, rank_value(lc.rank));
        lemma_lowest_rank_where(q, 2);
        if let Some(v) = crate::select::lowest_rank_where(q, 2) {
            lemma_card_of_held(cards, led, v);
            assert forall|x: Card|
                #[trigger] cards.contains(x) && x.suit == led && rank_value(x.rank) > rank_value(lc.rank)
                implies v <= rank_value(x.rank) by {
                lemma_held_card(cards, x);
                assert(q(rank_value(x.rank)));
            }
        }
    }
}

/// Top of a sequence: the card led is the highest held in its suit, an honor,
/// with the next card down held as well.
pub proof fn sequence_lead_is_its_top_card(ctx: LeadContext)
    ensures
        lead_choice(ctx) matches Some((card, rule)) ==> rule == Rule::LeadTopOfSequence ==> ({
            &&& highest_in_suit(ctx.legal@, card)
            &&& rank_value(card.rank) >= 10
            &&& has_rank(ctx.legal@, card.suit, rank_value(card.rank) - 1)
        }),
{
    let cards = ctx.legal@;
    lemma_best_suit(sequence_suit(cards), top_score(cards));
    if let Some(s) = best_suit(sequence_suit(cards), top_score(cards)) {
        lemma_holding(cards, s);
        lemma_top_low_extreme(cards, s);
        lemma_card_of_held(cards, s, top_rank(cards, s)->0);
    }
}

/// Ace from ace-king: led only against a suit contract, and the king of the
/// same suit is held.
pub proof fn ace_from_ace_king_holds_the_king(ctx: LeadContext)
    ensures
        lead_choice(ctx) matches Some((card, rule)) ==> rule == Rule::LeadAceFromAk ==> ({
            &&& crate::derived::trump_of(ctx.contract@) is Some
            &&& card.rank == Rank::Ace
            &&& ctx.legal@.contains(card)
            &&& ctx.legal@.contains(Card { suit: card.suit, rank: Rank::King })
        }),
{
    let cards = ctx.legal@;
    lemma_best_suit(ace_king_suit(cards), suit_score());
    if let Some(s) = best_suit(ace_king_suit(cards), suit_score()) {
        lemma_card_of_held(cards, s, 14);
        lemma_card_of_held(cards, s, 13);
    }
}

/// Counting the held values above `r`: those up to `v` less those up to `r`.
proof fn lemma_count_above(q: spec_fn(int) -> bool, p: spec_fn(int) -> bool, r: int, v: int)
    requires
        forall|u: int| #[trigger] p(u) == (q(u) && u > r),
    ensures
        v >= r ==> count_ranks_where(p, v) == count_ranks_where(q, v) - count_ranks_where(q, r),
        v <= r ==> count_ranks_where(p, v) == 0,
    decreases v,
{
    if v >= 2 {
        lemma_count_above(q, p, r, v - 1);
    }
}

/// Exactly `n` values meeting `q` lie above the `n`-th highest one.
proof fn lemma_nth_highest_count(q: spec_fn(int) -> bool, v: int, n: nat)
    ensures
        nth_highest_rank_where(q, v, n) matches Some(w) ==> count_ranks_where(q, v) - count_ranks_where(q, w)
            == n,
    decreases v,
{
    if v >= 2 {
        if q(v) {
            if n > 0 {
                lemma_nth_highest_count(q, v - 1, (n - 1) as nat);
            }
        } else {
            lemma_nth_highest_count(q, v - 1, n);
        }
    }
}

/// Fourth best: the card comes from a suit of four or more cards headed by an
/// honor, and exactly three cards held in that suit rank above it.
pub proof fn fourth_best_has_three_cards_above(ctx: LeadContext)
    ensures
        lead_choice(ctx) matches Some((card, rule)) ==> rule == Rule::LeadFourthBest ==> ({
            &&& ctx.legal@.contains(card)
            &&& suit_len(ctx.legal@, card.suit) >= 4
            &&& holds_honor_in(ctx.legal@, card.suit)
            &&& count_ranks_where(held_above(ctx.legal@, card.suit, rank_value(card.rank)), 14) == 3
        }),
{
    let cards = ctx.legal@;
    let sc = crate::derived::trump_of(ctx.contract@) is Some;
    lemma_best_suit(fourth_best_suit(cards, sc), length_score(cards));
    if let Some(s) = best_suit(fourth_best_suit(cards, sc), length_score(cards)) {
        let q = held(cards, s);
        lemma_nth_exists(q, 14, 3);
        lemma_nth_highest_meets(q, 14, 3);
        crate::rules::lemma_nth_highest_bounds(q, 14, 3);
        let w = nth_highest_rank_where(q, 14, 3)->0;
        lemma_card_of_held(cards, s, w);
        lemma_nth_highest_count(q, 14, 3);
        lemma_count_above(q, held_above(cards, s, w), w, 14);
        lemma_has_honor(cards, s);
    }
}

/// Low from three to an honor: the lowest card of a three-card suit headed
/// by an honor.
pub proof fn low_from_honor_is_the_lowest_of_three(ctx: LeadContext)
    ensures
        lead_choice(ctx) matches Some((card, rule)) ==> rule == Rule::LeadLowFromHonor ==> ({
            &&& lowest_in_suit(ctx.legal@, card)
            &&& suit_len(ctx.legal@, card.suit) == 3
            &&& holds_honor_in(ctx.legal@, card.suit)
        }),
{
    let cards = ctx.legal@;
    let sc = crate::derived::trump_of(ctx.contract@) is Some;
    lemma_best_suit(honor_third_suit(cards, sc), top_score(cards));
    if let Some(s) = best_suit(honor_third_suit(cards, sc), top_score(cards)) {
        lemma_top_low_extreme(cards, s);
        lemma_has_honor(cards, s);
    }
}

/// Top of nothing: the highest card of a two- or three-card suit without an
/// honor.
pub proof fn top_of_nothing_is_the_highest_of_a_short_suit(ctx: LeadContext)
    ensures
        lead_choice(ctx) matches Some((card, rule)) ==> rule == Rule::LeadTopOfNothing ==> ({
            &&& highest_in_suit(ctx.legal@, card)
            &&& 2 <= suit_len(ctx.legal@, card.suit) <= 3
            &&& !holds_honor_in(ctx.legal@, card.suit)
        }),
{
    let cards = ctx.legal@;
    lemma_best_suit(worthless_short_suit(cards), short_score(cards));
    if let Some(s) = best_suit(worthless_short_suit(cards), short_score(cards)) {
        lemma_top_low_extreme(cards, s);
        lemma_has_honor(cards, s);
    }
}

/// A lead replaced so as not to underlead an ace is that ace, against a suit
/// contract.
pub proof fn ace_replaces_an_underlead(ctx: LeadContext)
    ensures
        lead_choice(ctx) matches Some((card, rule)) ==> rule == Rule::LeadNoAceUnderlead ==> ({
            &&& crate::derived::trump_of(ctx.contract@) is Some
            &&& card.rank == Rank::Ace
            &&& ctx.legal@.contains(card)
        }),
{
}

/// The fallback plays the lowest legal card: no legal card has a lower key.
pub proof fn fallback_plays_the_lowest_card(lead: LeadContext, ctx: PlayContext, config: SignalConfig)
    ensures
        lead_choice(lead) matches Some((card, rule)) ==> rule == Rule::FallbackLowest ==> ({
            &&& lead.legal@.contains(card)
            &&& forall|x: Card| #[trigger] lead.legal@.contains(x) ==> crate::cards::card_key(card)
                <= crate::cards::card_key(x)
        }),
        play_choice(ctx, config) matches Some((card, rule)) ==> rule == Rule::FallbackLowest ==> ({
            &&& ctx.legal@.contains(card)
            &&& forall|x: Card| #[trigger] ctx.legal@.contains(x) ==> crate::cards::card_key(card)
                <= crate::cards::card_key(x)
        }),
{
    lemma_lowest_where(lead.legal@, crate::select::any_card());
    lemma_lowest_where(ctx.legal@, crate::select::any_card());
}

/// `cards` holds a spot card (nine or below) in `s`.
pub open spec fn holds_spot_in(cards: Seq<Card>, s: Suit) -> bool {
    exists|x: Card| #[trigger] cards.contains(x) && x.suit == s && rank_value(x.rank) <= 9
}

/// `c` is a spot card of `cards`, and no spot of `cards` in its suit ranks
/// above it.
pub open spec fn highest_spot_in_suit(cards: Seq<Card>, c: Card) -> bool {
    &&& cards.contains(c)
    &&& rank_value(c.rank) <= 9
    &&& forall|x: Card|
        #[trigger] cards.contains(x) && x.suit == c.suit && rank_value(x.rank) <= 9 ==> rank_value(x.rank)
            <= rank_value(c.rank)
}

/// A low signal is the lowest card of the suit; a high one is the highest
/// spot, or the lowest card when no spot is held.
proof fn lemma_signal_card_shape(cards: Seq<Card>, s: Suit, high: bool)
    requires
        suit_len(cards, s) > 0,
    ensures
        signal_card(cards, s, high).suit == s,
        !high ==> lowest_in_suit(cards, signal_card(cards, s, high)),
        high && holds_spot_in(cards, s) ==> highest_spot_in_suit(cards, signal_card(cards, s, high)),
        high && !holds_spot_in(cards, s) ==> lowest_in_suit(cards, signal_card(cards, s, high)),
{
    lemma_top_low_extreme(cards, s);
    let q = held(cards, s);
    lemma_highest_rank_where(q, 9);
    if let Some(v) = highest_rank_where(q, 9) {
        lemma_card_of_held(cards, s, v);
        assert forall|x: Card| #[trigger] cards.contains(x) && x.suit == s && rank_value(x.rank) <= 9 implies rank_value(
            x.rank,
        ) <= v by {
            lemma_held_card(cards, x);
            assert(q(rank_value(x.rank)));
        }
        assert(holds_spot_in(cards, s)) by {
            assert(cards.contains(card_of(s, v)) && card_of(s, v).suit == s);
        }
    } else if holds_spot_in(cards, s) {
        let x = choose|x: Card| #[trigger] cards.contains(x) && x.suit == s && rank_value(x.rank) <= 9;
        lemma_held_card(cards, x);
        assert(q(rank_value(x.rank)));
    }
}

/// In a held suit without an honor a spot is held, and the highest spot is
/// the highest card.
proof fn lemma_spots_only(cards: Seq<Card>, s: Suit)
    requires
        suit_len(cards, s) > 0,
        !holds_honor_in(cards, s),
    ensures
        holds_spot_in(cards, s),
        forall|c: Card| #[trigger] highest_spot_in_suit(cards, c) && c.suit == s ==> highest_in_suit(cards, c),
{
    lemma_top_low_extreme(cards, s);
    lemma_has_honor(cards, s);
    lemma_holding(cards, s);
    let t = top_rank(cards, s)->0;
    lemma_card_of_held(cards, s, t);
    assert(cards.contains(card_of(s, t)) && card_of(s, t).suit == s && rank_value(card_of(s, t).rank) <= 9);
    assert forall|c: Card| #[trigger] highest_spot_in_suit(cards, c) && c.suit == s implies highest_in_suit(
        cards,
        c,
    ) by {
        assert forall|x: Card| #[trigger] cards.contains(x) && x.suit == c.suit implies rank_value(x.rank)
            <= rank_value(c.rank) by {
            if rank_value(x.rank) >= 10 {
                assert(holds_honor_in(cards, s));
            }
        }
    }
}

/// Attitude signals follow the holding and the method. Third hand
/// discourages exactly when it holds no honor in the suit led: with the
/// lowest card under standard attitude, the highest under upside-down. It
/// encourages with the lowest card under upside-down and, under standard,
/// with the highest spot (the lowest card when it holds no spot).
pub proof fn attitude_signals_follow_the_method(ctx: PlayContext, config: SignalConfig)
    ensures
        play_choice(ctx, config) matches Some((card, rule)) ==> rule == Rule::AttitudeDiscourage ==> ({
            &&& ctx_is_defender(ctx)
            &&& position_of(ctx_current(ctx)) == 2
            &&& card.suit == card_led(ctx).suit
            &&& !holds_honor_in(ctx.legal@, card.suit)
            &&& config.attitude == AttitudeMethod::Standard ==> lowest_in_suit(ctx.legal@, card)
            &&& config.attitude == AttitudeMethod::UpsideDown ==> highest_in_suit(ctx.legal@, card)
        }),
        play_choice(ctx, config) matches Some((card, rule)) ==> rule == Rule::AttitudeEncourage ==> ({
            &&& ctx_is_defender(ctx)
            &&& position_of(ctx_current(ctx)) == 2
            &&& card.suit == card_led(ctx).suit
            &&& holds_honor_in(ctx.legal@, card.suit)
            &&& config.attitude == AttitudeMethod::UpsideDown ==> lowest_in_suit(ctx.legal@, card)
            &&& config.attitude == AttitudeMethod::Standard && holds_spot_in(ctx.legal@, card.suit)
                ==> highest_spot_in_suit(ctx.legal@, card)
            &&& config.attitude == AttitudeMethod::Standard && !holds_spot_in(ctx.legal@, card.suit)
                ==> lowest_in_suit(ctx.legal@, card)
        }),
{
    let cards = ctx.legal@;
    if cards.len() > 1 && position_of(ctx_current(ctx)) > 0 {
        let led = card_led(ctx).suit;
        if suit_len(cards, led) > 0 {
            lemma_signal_card_shape(cards, led, true);
            lemma_signal_card_shape(cards, led, false);
            lemma_has_honor(cards, led);
            if !holds_honor_in(cards, led) {
                lemma_spots_only(cards, led);
            }
        }
    }
}

/// The cards of the suit led that do not take over a trick hold its lowest
/// card whenever they hold any card of the suit.
proof fn lemma_lowest_not_beating(cards: Seq<Card>, led: Suit, trump: Option<Suit>, wp: int, c: Card)
    requires
        lowest_in_suit(cards.filter(not_beating(led, trump, wp)), c),
        c.suit == led,
    ensures
        lowest_in_suit(cards, c),
{
    broadcast use vstd::seq_lib::group_filter_ensures;

    let p = not_beating(led, trump, wp);
    let under = cards.filter(p);
    cards.lemma_filter_contains_rev(p, c);
    let j = choose|j: int| 0 <= j < under.len() && under[j] == c;
    assert(p(under[j]));
    assert forall|x: Card| #[trigger] cards.contains(x) && x.suit == c.suit implies rank_value(c.rank)
        <= rank_value(x.rank) by {
        if rank_value(x.rank) < rank_value(c.rank) {
            let k = choose|k: int| 0 <= k < cards.len() && cards[k] == x;
            assert(p(cards[k]));
            assert(under.contains(x));
        }
    }
}

/// Count signals show length by the method. With `n` cards in the suit led
/// the signal starts high when `n` is even under standard count and when it
/// is odd under upside-down; a low start is the lowest card of the suit.
/// Second hand gives count only without an honor in the suit led, starting
/// high with its highest spot. Fourth hand starts high with its highest spot
/// among the cards that do not take over the trick, when it has one.
pub proof fn count_signals_follow_the_method(ctx: PlayContext, config: SignalConfig)
    ensures
        play_choice(ctx, config) matches Some((card, rule)) ==> rule == Rule::CountSignal ==> ({
            let cards = ctx.legal@;
            let s = card.suit;
            let high = (suit_len(cards, s) % 2 == 0) == (config.count == CountMethod::Standard);
            let wp = strength_in_trick(ctx, winning_play(ctx).card);
            &&& ctx_is_defender(ctx)
            &&& position_of(ctx_current(ctx)) == 1 || position_of(ctx_current(ctx)) == 3
            &&& s == card_led(ctx).suit
            &&& cards.contains(card)
            &&& !high ==> lowest_in_suit(cards, card)
            &&& position_of(ctx_current(ctx)) == 1 ==> !holds_honor_in(cards, s)
            &&& position_of(ctx_current(ctx)) == 1 && high ==> highest_spot_in_suit(cards, card)
            &&& position_of(ctx_current(ctx)) == 3 && high && (exists|x: Card|
                #[trigger] cards.contains(x) && x.suit == s && rank_value(x.rank) <= 9 && strength_in_trick(
                    ctx,
                    x,
                ) <= wp) ==> rank_value(card.rank) <= 9 && forall|x: Card|
                #[trigger] cards.contains(x) && x.suit == s && rank_value(x.rank) <= 9 && strength_in_trick(
                    ctx,
                    x,
                ) <= wp ==> rank_value(x.rank) <= rank_value(card.rank)
        }),
{
    broadcast use vstd::seq_lib::group_filter_ensures;

    let cards = ctx.legal@;
    if cards.len() > 1 && position_of(ctx_current(ctx)) > 0 {
        let led = card_led(ctx).suit;
        let trump = ctx_trump(ctx);
        let wp = strength_in_trick(ctx, winning_play(ctx).card);
        if suit_len(cards, led) > 0 {
            lemma_signal_card_shape(cards, led, true);
            lemma_signal_card_shape(cards, led, false);
            lemma_has_honor(cards, led);
            if !holds_honor_in(cards, led) {
                lemma_spots_only(cards, led);
            }
            let p = not_beating(led, trump, wp);
            let under = cards.filter(p);
            if suit_len(under, led) > 0 {
                lemma_signal_card_shape(under, led, true);
                lemma_signal_card_shape(under, led, false);
                let lo = signal_card(under, led, false);
                lemma_lowest_not_beating(cards, led, trump, wp, lo);
                let hi = signal_card(under, led, true);
                lemma_signal_card_legal(under, led, true);
                cards.lemma_filter_contains_rev(p, hi);
                if exists|x: Card|
                    #[trigger] cards.contains(x) && x.suit == led && rank_value(x.rank) <= 9 && strength_in_trick(
                        ctx,
                        x,
                    ) <= wp {
                    let x = choose|x: Card|
                        #[trigger] cards.contains(x) && x.suit == led && rank_value(x.rank) <= 9
                            && strength_in_trick(ctx, x) <= wp;
                    let k = choose|k: int| 0 <= k < cards.len() && cards[k] == x;
                    assert(p(cards[k]));
                    assert(under.contains(x));
                    assert forall|y: Card|
                        #[trigger] cards.contains(y) && y.suit == led && rank_value(y.rank) <= 9
                            && strength_in_trick(ctx, y) <= wp implies rank_value(y.rank) <= rank_value(hi.rank) by {
                        let m = choose|m: int| 0 <= m < cards.len() && cards[m] == y;
                        assert(p(cards[m]));
                        assert(under.contains(y));
                    }
                }
            } else {
                if exists|x: Card|
                    #[trigger] cards.contains(x) && x.suit == led && rank_value(x.rank) <= 9 && strength_in_trick(
                        ctx,
                        x,
                    ) <= wp {
                    let x = choose|x: Card|
                        #[trigger] cards.contains(x) && x.suit == led && rank_value(x.rank) <= 9
                            && strength_in_trick(ctx, x) <= wp;
                    let k = choose|k: int| 0 <= k < cards.len() && cards[k] == x;
                    assert(p(cards[k]));
                    assert(under.contains(x));
                    lemma_held_card(under, x);
                }
            }
        }
    }
}

/// Second hand low: with an honor in the suit led (and nothing to cover or
/// split), second hand plays its lowest card of the suit.
pub proof fn second_hand_plays_its_lowest(ctx: PlayContext, config: SignalConfig)
    ensures
        play_choice(ctx, config) matches Some((card, rule)) ==> rule == Rule::SecondHandLow ==> ({
            &&& ctx_is_defender(ctx)
            &&& position_of(ctx_current(ctx)) == 1
            &&& card.suit == card_led(ctx).suit
            &&& lowest_in_suit(ctx.legal@, card)
            &&& holds_honor_in(ctx.legal@, card.suit)
        }),
{
    let cards = ctx.legal@;
    if cards.len() > 1 && position_of(ctx_current(ctx)) > 0 {
        let led = card_led(ctx).suit;
        if suit_len(cards, led) > 0 {
            lemma_top_low_extreme(cards, led);
            lemma_has_honor(cards, led);
        }
    }
}

/// Splitting honors: under a low lead, second hand plays an honor of the
/// suit led that is not its highest card there.
pub proof fn split_honors_play_a_lower_honor(ctx: PlayContext, config: SignalConfig)
    ensures
        play_choice(ctx, config) matches Some((card, rule)) ==> rule == Rule::SecondHandSplitHonors ==> ({
            &&& ctx_is_defender(ctx)
            &&& position_of(ctx_current(ctx)) == 1
            &&& rank_value(card_led(ctx).rank) < 10
            &&& card.suit == card_led(ctx).suit
            &&& ctx.legal@.contains(card)
            &&& rank_value(card.rank) >= 10
            &&& exists|x: Card|
                #[trigger] ctx.legal@.contains(x) && x.suit == card.suit && rank_value(x.rank) > rank_value(
                    card.rank,
                )
        }),
{
    let cards = ctx.legal@;
    if cards.len() > 1 && position_of(ctx_current(ctx)) > 0 {
        let led = card_led(ctx).suit;
        if suit_len(cards, led) > 0 {
            lemma_top_low_extreme(cards, led);
            lemma_top_equals_bottom_legal(ctx, led);
            let b = top_equals_bottom(ctx, led)->0;
            lemma_held_card(cards, b);
            lemma_holding(cards, led);
            let t = top_rank(cards, led)->0;
            lemma_card_of_held(cards, led, t);
            if rank_value(b.rank) != t {
                assert(cards.contains(card_of(led, t)) && card_of(led, t).suit == b.suit && rank_value(
                    card_of(led, t).rank,
                ) > rank_value(b.rank));
            }
        }
    }
}

/// Third hand high: it plays a legal card of the suit led that beats the card
/// winning the trick, and only when partner is not already winning with a
/// card that cannot be beaten; "third hand high" is its highest card there,
/// "only as high as needed" a lower one.
pub proof fn third_hand_high_beats_the_winner(ctx: PlayContext, config: SignalConfig)
    ensures
        play_choice(ctx, config) matches Some((card, rule)) ==> (rule == Rule::ThirdHandHigh || rule
            == Rule::ThirdHandOnlyAsHighAsNeeded) ==> ({
            &&& ctx_is_defender(ctx)
            &&& position_of(ctx_current(ctx)) == 2
            &&& card.suit == card_led(ctx).suit
            &&& ctx.legal@.contains(card)
            &&& strength_in_trick(ctx, card) > strength_in_trick(ctx, winning_play(ctx).card)
            &&& !(winning_play(ctx).seat == partner_seat(ctx.seat) && master_card(ctx)(winning_play(ctx).card))
            &&& rule == Rule::ThirdHandHigh <==> highest_in_suit(ctx.legal@, card)
        }),
{
    let cards = ctx.legal@;
    if cards.len() > 1 && position_of(ctx_current(ctx)) > 0 {
        let led = card_led(ctx).suit;
        if suit_len(cards, led) > 0 {
            lemma_top_low_extreme(cards, led);
            lemma_top_equals_bottom_legal(ctx, led);
            let b = top_equals_bottom(ctx, led)->0;
            lemma_held_card(cards, b);
            lemma_holding(cards, led);
            let t = top_rank(cards, led)->0;
            lemma_card_of_held(cards, led, t);
            if rank_value(b.rank) != t {
                assert(cards.contains(card_of(led, t)) && card_of(led, t).suit == b.suit);
            }
        }
    }
}

/// Cashing a winner: on lead, the card is a legal master card, and no legal
/// master card ranks above it.
pub proof fn cashes_the_highest_winner(ctx: PlayContext, config: SignalConfig)
    ensures
        play_choice(ctx, config) matches Some((card, rule)) ==> rule == Rule::CashEstablishedWinner ==> ({
            &&& position_of(ctx_current(ctx)) == 0
            &&& ctx.legal@.contains(card)
            &&& master_card(ctx)(card)
            &&& forall|x: Card| #[trigger] ctx.legal@.contains(x) && master_card(ctx)(x) ==> crate::cards::card_key(
                x,
            ) <= crate::cards::card_key(card)
        }),
{
    lemma_highest_where(ctx.legal@, master_card(ctx));
}

/// Declarer's side never takes over its partner's winning card in fourth
/// seat either, when it follows suit (every legal card is of the suit led)
/// and holds a card that does not.
pub proof fn declarer_side_never_overtakes_partner(ctx: PlayContext, config: SignalConfig)
    requires
        !ctx_is_defender(ctx),
        ctx.legal@.len() > 1,
        position_of(ctx_current(ctx)) == 3,
        winning_play(ctx).seat == partner_seat(ctx.seat),
        forall|x: Card| #[trigger] ctx.legal@.contains(x) ==> x.suit == card_led(ctx).suit,
        exists|x: Card|
            #[trigger] ctx.legal@.contains(x) && strength_in_trick(ctx, x) <= strength_in_trick(
                ctx,
                winning_play(ctx).card,
            ),
    ensures
        play_choice(ctx, config) matches Some((card, rule)) && ctx.legal@.contains(card) && strength_in_trick(
            ctx,
            card,
        ) <= strength_in_trick(ctx, winning_play(ctx).card),
{
    let cards = ctx.legal@;
    lemma_lowest_where(cards, crate::select::any_card());
    let x = choose|x: Card|
        #[trigger] cards.contains(x) && strength_in_trick(ctx, x) <= strength_in_trick(ctx, winning_play(ctx).card);
    let k = choose|k: int| 0 <= k < cards.len() && cards[k] == x;
    assert(crate::select::any_card()(cards[k]));
}

/// `cards` holds a sequence of honors in `s`: its top card there is an honor,
/// the card just below is held too, and so is the next one down (or, under
/// a king or queen, the nine).
pub open spec fn holds_sequence(cards: Seq<Card>, s: Suit) -> bool {
    exists|t: int|
        #![trigger has_rank(cards, s, t)]
        10 <= t <= 14 && has_rank(cards, s, t) && (forall|u: int| t < u <= 14 ==> !#[trigger] has_rank(cards, s, u))
            && has_rank(cards, s, t - 1) && (has_rank(cards, s, t - 2) || (12 <= t <= 13 && has_rank(cards, s, 9)))
}

/// The suits with a sequence are those the rules treat as such.
proof fn lemma_holds_sequence(cards: Seq<Card>, s: Suit)
    ensures
        sequence_suit(cards)(s) == holds_sequence(cards, s),
{
    let q = held(cards, s);
    lemma_highest_rank_where(q, 14);
    lemma_holding(cards, s);
    if holds_sequence(cards, s) {
        let t = choose|t: int|
            #![trigger has_rank(cards, s, t)]
            10 <= t <= 14 && has_rank(cards, s, t) && (forall|u: int| t < u <= 14 ==> !#[trigger] has_rank(cards, s, u))
                && has_rank(cards, s, t - 1) && (has_rank(cards, s, t - 2) || (12 <= t <= 13 && has_rank(cards, s, 9)));
        assert(q(t));
        let w = top_rank(cards, s)->0;
        assert(q(w));
        assert(w == t);
    }
    if sequence_suit(cards)(s) {
        let t = top_rank(cards, s)->0;
        assert(q(t));
        assert forall|u: int| t < u <= 14 implies !#[trigger] has_rank(cards, s, u) by {
            assert(!q(u));
        }
    }
}

/// The opening lead takes the first rule that applies, in order of priority,
/// once partner's suit is out of the question: top of a sequence, then ace
/// from ace-king against a suit contract, then fourth best from an
/// honor-headed four-card suit, then low from three to an honor, then top of
/// a worthless doubleton or tripleton.
pub proof fn opening_lead_rules_apply_in_order(ctx: LeadContext)
    requires
        ctx.legal@.len() > 1,
        !(first_suit_bid(ctx.auction@, ctx.dealer, partner_seat(ctx.seat)) matches Some(p) && exists|x: Card|
            #[trigger] ctx.legal@.contains(x) && x.suit == p),
    ensures
        ({
            let cards = ctx.legal@;
            let sc = crate::derived::trump_of(ctx.contract@) is Some;
            let no_ace_vs_suit = |s: Suit| !(sc && cards.contains(Card { suit: s, rank: Rank::Ace }));
            let seq = exists|s: Suit| #[trigger] holds_sequence(cards, s);
            let ak = sc && exists|s: Suit|
                #[trigger] cards.contains(Card { suit: s, rank: Rank::Ace }) && cards.contains(
                    Card { suit: s, rank: Rank::King },
                );
            let fourth = exists|s: Suit|
                #[trigger] suit_len(cards, s) >= 4 && holds_honor_in(cards, s) && no_ace_vs_suit(s);
            let honor_third = exists|s: Suit|
                #[trigger] suit_len(cards, s) == 3 && holds_honor_in(cards, s) && no_ace_vs_suit(s);
            let nothing = exists|s: Suit|
                (#[trigger] suit_len(cards, s) == 2 || suit_len(cards, s) == 3) && !holds_honor_in(cards, s);
            let rule = (lead_choice(ctx)->0).1;
            &&& seq ==> rule == Rule::LeadTopOfSequence
            &&& !seq && ak ==> rule == Rule::LeadAceFromAk
            &&& !seq && !ak && fourth ==> rule == Rule::LeadFourthBest
            &&& !seq && !ak && !fourth && honor_third ==> rule == Rule::LeadLowFromHonor
            &&& !seq && !ak && !fourth && !honor_third && nothing ==> rule == Rule::LeadTopOfNothing
        }),
{
    let cards = ctx.legal@;
    let sc = crate::derived::trump_of(ctx.contract@) is Some;
    if let Some(p) = first_suit_bid(ctx.auction@, ctx.dealer, partner_seat(ctx.seat)) {
        if suit_len(cards, p) > 0 {
            lemma_top_low_held(cards, p);
            assert(cards.contains(card_of(p, top_rank(cards, p)->0)));
        }
    }
    assert forall|s: Suit| #[trigger] sequence_suit(cards)(s) == holds_sequence(cards, s) by {
        lemma_holds_sequence(cards, s);
    }
    assert forall|s: Suit| #[trigger] crate::rules::has_honor(cards, s) == holds_honor_in(cards, s) by {
        lemma_has_honor(cards, s);
    }
    lemma_best_suit(sequence_suit(cards), top_score(cards));
    if exists|s: Suit| #[trigger] holds_sequence(cards, s) {
        let s = choose|s: Suit| #[trigger] holds_sequence(cards, s);
        lemma_best_suit_some(sequence_suit(cards), top_score(cards), s);
    }
    lemma_best_suit(ace_king_suit(cards), suit_score());
    if exists|s: Suit|
        #[trigger] cards.contains(Card { suit: s, rank: Rank::Ace }) && cards.contains(Card { suit: s, rank: Rank::King }) {
        let s = choose|s: Suit|
            #[trigger] cards.contains(Card { suit: s, rank: Rank::Ace }) && cards.contains(
                Card { suit: s, rank: Rank::King },
            );
        lemma_best_suit_some(ace_king_suit(cards), suit_score(), s);
    }
    lemma_best_suit(fourth_best_suit(cards, sc), length_score(cards));
    if exists|s: Suit|
        #[trigger] suit_len(cards, s) >= 4 && holds_honor_in(cards, s) && !(sc && cards.contains(
            Card { suit: s, rank: Rank::Ace },
        )) {
        let s = choose|s: Suit|
            #[trigger] suit_len(cards, s) >= 4 && holds_honor_in(cards, s) && !(sc && cards.contains(
                Card { suit: s, rank: Rank::Ace },
            ));
        lemma_best_suit_some(fourth_best_suit(cards, sc), length_score(cards), s);
        let f = best_suit(fourth_best_suit(cards, sc), length_score(cards))->0;
        lemma_nth_exists(held(cards, f), 14, 3);
    }
    lemma_best_suit(honor_third_suit(cards, sc), top_score(cards));
    if exists|s: Suit|
        #[trigger] suit_len(cards, s) == 3 && holds_honor_in(cards, s) && !(sc && cards.contains(
            Card { suit: s, rank: Rank::Ace },
        )) {
        let s = choose|s: Suit|
            #[trigger] suit_len(cards, s) == 3 && holds_honor_in(cards, s) && !(sc && cards.contains(
                Card { suit: s, rank: Rank::Ace },
            ));
        lemma_best_suit_some(honor_third_suit(cards, sc), top_score(cards), s);
    }
    lemma_best_suit(worthless_short_suit(cards), short_score(cards));
    if exists|s: Suit| (#[trigger] suit_len(cards, s) == 2 || suit_len(cards, s) == 3) && !holds_honor_in(cards, s) {
        let s = choose|s: Suit| (#[trigger] suit_len(cards, s) == 2 || suit_len(cards, s) == 3) && !holds_honor_in(cards, s);
        lemma_best_suit_some(worthless_short_suit(cards), short_score(cards), s);
    }
    if let Some(s) = best_suit(sequence_suit(cards), top_score(cards)) {
        lemma_holding(cards, s);
        lemma_card_of_held(cards, s, top_rank(cards, s)->0);
        lemma_top_low_extreme(cards, s);
    }
    if let Some(s) = best_suit(honor_third_suit(cards, sc), top_score(cards)) {
        lemma_top_low_extreme(cards, s);
    }
    if let Some(s) = best_suit(worthless_short_suit(cards), short_score(cards)) {
        lemma_top_low_extreme(cards, s);
    }
}

/// Second hand covers a led honor whenever it holds a higher card of the
/// suit, and under a low lead, holding no honor in the suit led, it gives
/// count.
pub proof fn second_hand_rules_apply_when_they_should(ctx: PlayContext, config: SignalConfig)
    requires
        ctx_is_defender(ctx),
        ctx.legal@.len() > 1,
        position_of(ctx_current(ctx)) == 1,
    ensures
        rank_value(card_led(ctx).rank) >= 10 && (exists|x: Card|
            #[trigger] ctx.legal@.contains(x) && x.suit == card_led(ctx).suit && rank_value(x.rank) > rank_value(
                card_led(ctx).rank,
            )) ==> (play_choice(ctx, config)->0).1 == Rule::SecondHandCoverHonor,
        rank_value(card_led(ctx).rank) < 10 && suit_len(ctx.legal@, card_led(ctx).suit) > 0
            && !holds_honor_in(ctx.legal@, card_led(ctx).suit) ==> (play_choice(ctx, config)->0).1
            == Rule::CountSignal,
{
    let cards = ctx.legal@;
    let lc = card_led(ctx);
    let led = lc.suit;
    lemma_has_honor(cards, led);
    if exists|x: Card| #[trigger] cards.contains(x) && x.suit == led && rank_value(x.rank) > rank_value(lc.rank) {
        let x = choose|x: Card| #[trigger] cards.contains(x) && x.suit == led && rank_value(x.rank) > rank_value(lc.rank);
        lemma_held_card(cards, x);
        let q = held_above(cards, led, rank_value(lc.rank));
        assert(q(rank_value(x.rank)));
        lemma_lowest_rank_where(q, 2);
    }
    if suit_len(cards, led) > 0 {
        lemma_top_equals_bottom_legal(ctx, led);
        let b = top_equals_bottom(ctx, led)->0;
        if rank_value(b.rank) >= 10 {
            assert(holds_honor_in(cards, led));
        }
    }
}

/// Third hand unblocks whenever partner led an honor and it holds exactly two
/// cards of the suit, the higher an honor below partner's.
pub proof fn third_hand_unblocks_when_it_should(ctx: PlayContext, config: SignalConfig)
    requires
        ctx_is_defender(ctx),
        ctx.legal@.len() > 1,
        position_of(ctx_current(ctx)) == 2,
    ensures
        rank_value(card_led(ctx).rank) >= 10 && suit_len(ctx.legal@, card_led(ctx).suit) == 2 && (exists|x: Card|
            #[trigger] highest_in_suit(ctx.legal@, x) && x.suit == card_led(ctx).suit && 10 <= rank_value(x.rank)
                < rank_value(card_led(ctx).rank)) ==> (play_choice(ctx, config)->0).1 == Rule::ThirdHandUnblock,
{
    let cards = ctx.legal@;
    let led = card_led(ctx).suit;
    if exists|x: Card| #[trigger] highest_in_suit(cards, x) && x.suit == led && 10 <= rank_value(x.rank) < rank_value(card_led(ctx).rank) {
        let x = choose|x: Card| #[trigger] highest_in_suit(cards, x) && x.suit == led && 10 <= rank_value(x.rank) < rank_value(card_led(ctx).rank);
        lemma_held_card(cards, x);
        lemma_top_low_extreme(cards, led);
        lemma_holding(cards, led);
        lemma_card_of_held(cards, led, top_rank(cards, led)->0);
    }
}

/// In fourth seat, when partner is not winning the trick and some legal card
/// beats the card that is, the bot takes the trick: it wins cheaply when it
/// follows suit or plays for declarer's side, and ruffs or overruffs when a
/// defender cannot follow.
pub proof fn fourth_hand_wins_when_it_can(ctx: PlayContext, config: SignalConfig)
    requires
        ctx.legal@.len() > 1,
        position_of(ctx_current(ctx)) == 3,
        winning_play(ctx).seat != partner_seat(ctx.seat),
        exists|x: Card|
            #[trigger] ctx.legal@.contains(x) && strength_in_trick(ctx, x) > strength_in_trick(
                ctx,
                winning_play(ctx).card,
            ),
    ensures
        ({
            let rule = (play_choice(ctx, config)->0).1;
            &&& rule == Rule::WinCheaply || rule == Rule::RuffToWin || rule == Rule::OverruffCheaply
            &&& !ctx_is_defender(ctx) || suit_len(ctx.legal@, card_led(ctx).suit) > 0 ==> rule == Rule::WinCheaply
        }),
{
    let cards = ctx.legal@;
    let trump = ctx_trump(ctx);
    let led = card_led(ctx).suit;
    let wp = strength_in_trick(ctx, winning_play(ctx).card);
    let b = crate::derived::beats(led, trump, wp);
    let x = choose|x: Card| #[trigger] cards.contains(x) && strength_in_trick(ctx, x) > wp;
    let k = choose|k: int| 0 <= k < cards.len() && cards[k] == x;
    assert(b(cards[k]));
    lemma_lowest_where(cards, b);
}

/// On lead, a defender whose partner has led a suit that it still holds
/// returns that suit; otherwise, holding a master card, the bot cashes one.
pub proof fn on_lead_rules_apply_when_they_should(ctx: PlayContext, config: SignalConfig)
    requires
        ctx.legal@.len() > 1,
        position_of(ctx_current(ctx)) == 0,
    ensures
        ({
            let cards = ctx.legal@;
            let rule = (play_choice(ctx, config)->0).1;
            let returning = ctx_is_defender(ctx) && crate::derived::ctx_partners_first_suit(ctx) is Some
                && exists|x: Card|
                #[trigger] cards.contains(x) && Some(x.suit) == crate::derived::ctx_partners_first_suit(ctx);
            &&& returning ==> rule == Rule::ReturnPartnersSuit
            &&& !returning && (exists|x: Card| #[trigger] cards.contains(x) && master_card(ctx)(x)) ==> rule
                == Rule::CashEstablishedWinner
        }),
{
    let cards = ctx.legal@;
    if let Some(s) = crate::derived::ctx_partners_first_suit(ctx) {
        if exists|x: Card| #[trigger] cards.contains(x) && Some(x.suit) == crate::derived::ctx_partners_first_suit(ctx) {
            let x = choose|x: Card| #[trigger] cards.contains(x) && Some(x.suit) == crate::derived::ctx_partners_first_suit(ctx);
            lemma_held_card(cards, x);
        }
        if suit_len(cards, s) > 0 {
            lemma_top_low_held(cards, s);
            assert(cards.contains(card_of(s, top_rank(cards, s)->0)));
        }
    }
    lemma_highest_where(cards, master_card(ctx));
    if exists|x: Card| #[trigger] cards.contains(x) && master_card(ctx)(x) {
        let x = choose|x: Card| #[trigger] cards.contains(x) && master_card(ctx)(x);
        let k = choose|k: int| 0 <= k < cards.len() && cards[k] == x;
        assert(master_card(ctx)(cards[k]));
    }
}

/// `x` is a spare spot: a legal spot card (nine or below) that is not a
/// winner.
pub open spec fn spare_spot(ctx: PlayContext, x: Card) -> bool {
    ctx.legal@.contains(x) && rank_value(x.rank) <= 9 && !master_card(ctx)(x)
}

/// The discard from an eligible suit is its highest spare spot when high and
/// its lowest when low.
proof fn lemma_discard_card_extreme(ctx: PlayContext, s: Suit, high: bool)
    requires
        discard_suit(ctx)(s),
    ensures
        spare_spot(ctx, discard_card(ctx, s, high)),
        discard_card(ctx, s, high).suit == s,
        high ==> forall|x: Card| #[trigger] spare_spot(ctx, x) && x.suit == s ==> rank_value(x.rank) <= rank_value(
            discard_card(ctx, s, high).rank,
        ),
        !high ==> forall|x: Card| #[trigger] spare_spot(ctx, x) && x.suit == s ==> rank_value(
            discard_card(ctx, s, high).rank,
        ) <= rank_value(x.rank),
{
    lemma_discard_card(ctx, s, high);
    let q = discard_pool(ctx, s);
    lemma_highest_rank_where(q, 14);
    lemma_lowest_rank_where(q, 2);
    assert forall|x: Card| #[trigger] spare_spot(ctx, x) && x.suit == s implies q(rank_value(x.rank)) by {
        lemma_held_card(ctx.legal@, x);
        crate::cards::lemma_rank_value(x.rank);
        assert(card_of(s, rank_value(x.rank)) == x);
    }
}

/// The attitude discard from a side suit with a spare spot.
proof fn lemma_attitude_discard(ctx: PlayContext, config: SignalConfig)
    requires
        exists|s: Suit| #[trigger] discard_suit(ctx)(s),
    ensures
        discard(ctx, config) matches Some(card) && discard_follows_the_method(ctx, config, card),
{
    let cards = ctx.legal@;
    let s0 = choose|s: Suit| #[trigger] discard_suit(ctx)(s);
    assert forall|s: Suit| #[trigger] crate::rules::has_honor(cards, s) == holds_honor_in(cards, s) by {
        lemma_has_honor(cards, s);
    }
    lemma_best_suit(liked_discard_suit(ctx), top_score(cards));
    lemma_best_suit(unliked_discard_suit(ctx), short_score(cards));
    if exists|s: Suit| #[trigger] discard_suit(ctx)(s) && holds_honor_in(cards, s) {
        let s1 = choose|s: Suit| #[trigger] discard_suit(ctx)(s) && holds_honor_in(cards, s);
        lemma_best_suit_some(liked_discard_suit(ctx), top_score(cards), s1);
    }
    if let Some(s) = best_suit(liked_discard_suit(ctx), top_score(cards)) {
        lemma_discard_card_extreme(ctx, s, crate::rules::attitude_high(config.attitude, true));
    } else {
        if crate::rules::has_honor(cards, s0) {
            lemma_best_suit_some(liked_discard_suit(ctx), top_score(cards), s0);
        } else {
            lemma_best_suit_some(unliked_discard_suit(ctx), short_score(cards), s0);
        }
        let s = best_suit(unliked_discard_suit(ctx), short_score(cards))->0;
        lemma_discard_card_extreme(ctx, s, crate::rules::attitude_high(config.attitude, false));
    }
}

/// `card` is an attitude discard as the method calls for it: a spare spot,
/// from a suit holding an honor whenever such a suit is free to discard from;
/// from a suit holding an honor (encouraging) the highest spare spot there
/// under standard attitude and the lowest under upside-down, from any other
/// suit (discouraging) the reverse.
pub open spec fn discard_follows_the_method(ctx: PlayContext, config: SignalConfig, card: Card) -> bool {
    let encourage = holds_honor_in(ctx.legal@, card.suit);
    let high = encourage == (config.attitude == AttitudeMethod::Standard);
    &&& spare_spot(ctx, card)
    &&& (exists|s: Suit| #[trigger] discard_suit(ctx)(s) && holds_honor_in(ctx.legal@, s)) ==> encourage
    &&& high ==> forall|x: Card| #[trigger] spare_spot(ctx, x) && x.suit == card.suit ==> rank_value(x.rank)
        <= rank_value(card.rank)
    &&& !high ==> forall|x: Card| #[trigger] spare_spot(ctx, x) && x.suit == card.suit ==> rank_value(card.rank)
        <= rank_value(x.rank)
}

/// Attitude discards: whenever some side suit is free to discard from and has
/// a spare spot, a discard follows the attitude method (see
/// `discard_follows_the_method`).
pub proof fn attitude_discards_follow_the_method(ctx: PlayContext, config: SignalConfig)
    requires
        exists|s: Suit| #[trigger] discard_suit(ctx)(s),
    ensures
        play_choice(ctx, config) matches Some((card, rule)) ==> rule == Rule::DiscardAttitude
            ==> discard_follows_the_method(ctx, config, card),
{
    lemma_attitude_discard(ctx, config);
}

} // verus!
