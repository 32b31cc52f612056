//! Rule-based cardplay bot for bridge teaching.
//!
//! A deterministic, sub-millisecond bot that follows the basic guidelines a
//! bridge teacher actually teaches — opening leads, second-hand-low,
//! third-hand-high, and honest defensive signals.
//!
//! Every decision returns a [`Decision`] carrying not just the card but the
//! rule that chose it (a stable slug plus a human-readable explanation), the
//! number of legal cards it selected from, and the time the decision took.
//!
//! # Statelessness
//!
//! The bot holds no memory between calls. Each call receives the full play
//! history ([`PlayContext::played`]) plus the original visible hands, and
//! derives anything it needs (dummy's remaining cards, who won each trick)
//! internally; the chosen card is a function of the call's inputs.
//!
//! # Rule set
//!
//! Opening leads, second-hand play, third-hand play, attitude/count signals
//! (all four method combinations), ruffs, discards, defender continuation,
//! and minimal declarer play. The always-correct terminals (`forced`,
//! `fallback-lowest`) keep the pipeline total.

pub mod cards;
pub mod auction;
pub mod select;
pub mod config;
pub mod context;
pub mod derived;
pub mod decision;
pub mod rules;
pub mod laws;

pub use auction::{Call, Strain, Vulnerability};
pub use cards::{Card, Direction, Rank, Suit};
pub use config::{AttitudeMethod, CountMethod, SignalConfig};
pub use context::{LeadContext, PlayContext, PlayedCard};
pub use decision::{Decision, Rule};

use vstd::prelude::*;
use core::time::Duration;
use web_time::Instant;
use crate::decision::{rule_explanation, rule_slug};
use crate::rules::{lead_choice, play_choice};

verus! {

/// `web_time`'s `Instant`, carried through opaquely to time a decision. On
/// native targets it is std's `Instant`; on `wasm32-unknown-unknown` it reads
/// the browser's `performance` clock, where std's clock is unsupported.
#[verifier::external_type_specification]
#[verifier::external_body]
pub struct ExInstant(Instant);

/// The current instant (`web_time::Instant::now`). Nothing is stated of the
/// result: it is a reading of the clock. On native targets this is std's
/// `Instant::now`; in the browser it reads `performance.now()`, and it panics
/// only in a JavaScript host that has no `performance` object.
#[verifier::external_body]
fn clock_now() -> Instant {
    Instant::now()
}

/// The time elapsed since `start` (`web_time::Instant::elapsed`). Nothing is
/// stated of the result: it is a reading of the clock. It saturates at zero
/// rather than panicking on both targets.
#[verifier::external_body]
fn elapsed_since(start: &Instant) -> Duration {
    start.elapsed()
}

/// The whole seconds of `d` (`Duration::as_secs`). Nothing is stated of the
/// result: here it is a measured time.
#[verifier::external_body]
fn duration_whole_secs(d: &Duration) -> u64 {
    d.as_secs()
}

/// The fractional part of `d` in nanoseconds (`Duration::subsec_nanos`),
/// always less than one second.
#[verifier::external_body]
fn duration_subsec_nanos(d: &Duration) -> (n: u32)
    ensures
        n < 1_000_000_000,
{
    d.subsec_nanos()
}

/// Decision record for `pick` and the time it took.
fn decide(card: Card, rule: &'static str, explanation: String, legal_count: usize, start: &Instant) -> (d: Decision)
    ensures
        d.card == card,
        d.rule@ == rule@,
        d.explanation@ == explanation@,
        d.legal_count == legal_count,
{
    let elapsed = elapsed_since(start);
    Decision::new(
        card,
        rule,
        explanation,
        legal_count,
        duration_whole_secs(&elapsed),
        duration_subsec_nanos(&elapsed),
    )
}

/// The only failure mode: the caller passed no legal cards. The engine on
/// both seams (solo client and table service) guarantees a non-empty legal
/// set, so seeing this error means the *caller* is broken, not the bot.
#[derive(Debug, Clone, Copy, PartialEq, Eq, Hash, Structural)]
pub enum BotError {
    /// `legal` was empty.
    NoLegalCards,
}

/// `d` reports `pick` chosen among `legal_count` legal cards.
pub open spec fn decision_of(d: Decision, pick: (Card, Rule), legal_count: int) -> bool {
    &&& d.card == pick.0
    &&& d.rule@ == rule_slug(pick.1)
    &&& d.explanation@ == rule_explanation(pick.1)
    &&& d.legal_count == legal_count
}

impl BotError {
    /// The error's message.
    pub fn message(self) -> (s: &'static str)
        ensures
            s@ == "legal card set is empty (engine bug)"@,
    {
        match self {
            BotError::NoLegalCards => "legal card set is empty (engine bug)",
        }
    }
}

/// Choose an opening lead.
///
/// `ctx.legal` is the leader's full remaining hand (any card may be led).
/// Returns the chosen card with the rule that selected it. Never fails on a
/// non-empty legal set; an empty legal set returns the `Err` variant rather
/// than panicking.
pub fn choose_opening_lead(ctx: &LeadContext, config: &SignalConfig) -> (r: Result<Decision, BotError>)
    ensures
        match lead_choice(*ctx) {
            Some(pick) => r matches Ok(d) && decision_of(d, pick, ctx.legal@.len() as int),
            None => r == Err::<Decision, BotError>(BotError::NoLegalCards),
        },
        r is Ok <==> ctx.legal@.len() > 0,
        r matches Ok(d) ==> ctx.legal@.contains(d.card),
{
    proof {
        laws::opening_lead_is_legal(*ctx);
    }
    let start = clock_now();
    match rules::opening_lead(ctx, config) {
        Ok((card, rule, explanation)) => Ok(
            decide(card, rule, explanation, ctx.legal.len(), &start),
        ),
        Err(e) => Err(e),
    }
}

/// Choose a card mid-play (any trick after the opening lead).
///
/// `ctx.legal` must be the engine's pre-filtered legal subset; the bot only
/// ever returns a member of it.
pub fn choose_card(ctx: &PlayContext, config: &SignalConfig) -> (r: Result<Decision, BotError>)
    ensures
        match play_choice(*ctx, *config) {
            Some(pick) => r matches Ok(d) && decision_of(d, pick, ctx.legal@.len() as int),
            None => r == Err::<Decision, BotError>(BotError::NoLegalCards),
        },
        r is Ok <==> ctx.legal@.len() > 0,
        r matches Ok(d) ==> ctx.legal@.contains(d.card),
{
    proof {
        laws::mid_play_card_is_legal(*ctx, *config);
    }
    let start = clock_now();
    match rules::play(ctx, config) {
        Ok((card, rule, explanation)) => Ok(
            decide(card, rule, explanation, ctx.legal.len(), &start),
        ),
        Err(e) => Err(e),
    }
}

} // verus!
