//! Decision output: the chosen card, the rule that chose it, and the
//! student-facing explanation.

use vstd::prelude::*;
use vstd::string::*;
use crate::cards::Card;

verus! {

/// The rule that fired. Each rule has a stable slug (an API contract:
/// telemetry and tests key on it) and a student-facing explanation (whose
/// wording may change).
#[derive(Debug, Clone, Copy, PartialEq, Eq, Hash, Structural)]
pub enum Rule {
    Forced,
    FallbackLowest,
    LeadPartnersSuit,
    LeadTopOfSequence,
    LeadAceFromAk,
    LeadFourthBest,
    LeadLowFromHonor,
    LeadTopOfNothing,
    LeadNoAceUnderlead,
    SecondHandCoverHonor,
    SecondHandSplitHonors,
    SecondHandLow,
    ThirdHandHigh,
    ThirdHandOnlyAsHighAsNeeded,
    ThirdHandUnblock,
    AttitudeEncourage,
    AttitudeDiscourage,
    WinCheaply,
    CountSignal,
    ReturnPartnersSuit,
    CashEstablishedWinner,
    RuffToWin,
    OverruffCheaply,
    DiscardAttitude,
}

/// The stable slug of a rule.
pub open spec fn rule_slug(r: Rule) -> Seq<char> {
    match r {
        Rule::Forced => "forced"@,
        Rule::FallbackLowest => "fallback-lowest"@,
        Rule::LeadPartnersSuit => "lead-partners-suit"@,
        Rule::LeadTopOfSequence => "lead-top-of-sequence"@,
        Rule::LeadAceFromAk => "lead-ace-from-ak"@,
        Rule::LeadFourthBest => "lead-fourth-best"@,
        Rule::LeadLowFromHonor => "lead-low-from-honor"@,
        Rule::LeadTopOfNothing => "lead-top-of-nothing"@,
        Rule::LeadNoAceUnderlead => "lead-no-ace-underlead"@,
        Rule::SecondHandCoverHonor => "second-hand-cover-honor"@,
        Rule::SecondHandSplitHonors => "second-hand-split-honors"@,
        Rule::SecondHandLow => "second-hand-low"@,
        Rule::ThirdHandHigh => "third-hand-high"@,
        Rule::ThirdHandOnlyAsHighAsNeeded => "third-hand-only-as-high-as-needed"@,
        Rule::ThirdHandUnblock => "third-hand-unblock"@,
        Rule::AttitudeEncourage => "attitude-encourage"@,
        Rule::AttitudeDiscourage => "attitude-discourage"@,
        Rule::WinCheaply => "win-cheaply"@,
        Rule::CountSignal => "count-signal"@,
        Rule::ReturnPartnersSuit => "return-partners-suit"@,
        Rule::CashEstablishedWinner => "cash-established-winner"@,
        Rule::RuffToWin => "ruff-to-win"@,
        Rule::OverruffCheaply => "overruff-cheaply"@,
        Rule::DiscardAttitude => "discard-attitude"@,
    }
}

/// The student-facing sentence for a rule.
pub open spec fn rule_explanation(r: Rule) -> Seq<char> {
    match r {
        Rule::Forced => "Only legal card."@,
        Rule::FallbackLowest => "No specific rule applies; playing the lowest legal card."@,
        Rule::LeadPartnersSuit => "Lead partner's bid suit."@,
        Rule::LeadTopOfSequence => "Lead the top of a sequence of honors."@,
        Rule::LeadAceFromAk => "Against a suit contract, lead the ace from ace-king."@,
        Rule::LeadFourthBest => "Lead fourth best from your longest and strongest suit."@,
        Rule::LeadLowFromHonor => "Lead low from three cards headed by an honor."@,
        Rule::LeadTopOfNothing => "Lead the top card from a worthless short suit."@,
        Rule::LeadNoAceUnderlead => "Against a suit contract, never underlead an ace: lead the ace."@,
        Rule::SecondHandCoverHonor => "Cover an honor with an honor to promote your side's cards."@,
        Rule::SecondHandSplitHonors => "Split touching honors when a low card is led."@,
        Rule::SecondHandLow => "Second hand plays low."@,
        Rule::ThirdHandHigh => "Third hand plays high to force declarer's honor."@,
        Rule::ThirdHandOnlyAsHighAsNeeded => "Third hand plays only as high as needed."@,
        Rule::ThirdHandUnblock => "Unblock your doubleton honor under partner's honor lead."@,
        Rule::AttitudeEncourage => "Encourage partner to continue this suit."@,
        Rule::AttitudeDiscourage => "Discourage partner from continuing this suit."@,
        Rule::WinCheaply => "Win the trick as cheaply as possible."@,
        Rule::CountSignal => "Give count: show whether you hold an even or odd number of cards."@,
        Rule::ReturnPartnersSuit => "Return partner's suit."@,
        Rule::CashEstablishedWinner => "Cash an established winner."@,
        Rule::RuffToWin => "Ruff to win the trick with the cheapest trump."@,
        Rule::OverruffCheaply => "Overruff as cheaply as possible."@,
        Rule::DiscardAttitude => "Discard to show partner which suit you like."@,
    }
}

impl Rule {
    /// The rule's stable slug.
    pub fn slug(self) -> (s: &'static str)
        ensures
            s@ == rule_slug(self),
    {
        match self {
            Rule::Forced => "forced",
            Rule::FallbackLowest => "fallback-lowest",
            Rule::LeadPartnersSuit => "lead-partners-suit",
            Rule::LeadTopOfSequence => "lead-top-of-sequence",
            Rule::LeadAceFromAk => "lead-ace-from-ak",
            Rule::LeadFourthBest => "lead-fourth-best",
            Rule::LeadLowFromHonor => "lead-low-from-honor",
            Rule::LeadTopOfNothing => "lead-top-of-nothing",
            Rule::LeadNoAceUnderlead => "lead-no-ace-underlead",
            Rule::SecondHandCoverHonor => "second-hand-cover-honor",
            Rule::SecondHandSplitHonors => "second-hand-split-honors",
            Rule::SecondHandLow => "second-hand-low",
            Rule::ThirdHandHigh => "third-hand-high",
            Rule::ThirdHandOnlyAsHighAsNeeded => "third-hand-only-as-high-as-needed",
            Rule::ThirdHandUnblock => "third-hand-unblock",
            Rule::AttitudeEncourage => "attitude-encourage",
            Rule::AttitudeDiscourage => "attitude-discourage",
            Rule::WinCheaply => "win-cheaply",
            Rule::CountSignal => "count-signal",
            Rule::ReturnPartnersSuit => "return-partners-suit",
            Rule::CashEstablishedWinner => "cash-established-winner",
            Rule::RuffToWin => "ruff-to-win",
            Rule::OverruffCheaply => "overruff-cheaply",
            Rule::DiscardAttitude => "discard-attitude",
        }
    }

    /// The rule's student-facing explanation.
    pub fn explanation(self) -> (s: String)
        ensures
            s@ == rule_explanation(self),
    {
        let text: &str = match self {
            Rule::Forced => "Only legal card.",
            Rule::FallbackLowest => "No specific rule applies; playing the lowest legal card.",
            Rule::LeadPartnersSuit => "Lead partner's bid suit.",
            Rule::LeadTopOfSequence => "Lead the top of a sequence of honors.",
            Rule::LeadAceFromAk => "Against a suit contract, lead the ace from ace-king.",
            Rule::LeadFourthBest => "Lead fourth best from your longest and strongest suit.",
            Rule::LeadLowFromHonor => "Lead low from three cards headed by an honor.",
            Rule::LeadTopOfNothing => "Lead the top card from a worthless short suit.",
            Rule::LeadNoAceUnderlead => "Against a suit contract, never underlead an ace: lead the ace.",
            Rule::SecondHandCoverHonor => "Cover an honor with an honor to promote your side's cards.",
            Rule::SecondHandSplitHonors => "Split touching honors when a low card is led.",
            Rule::SecondHandLow => "Second hand plays low.",
            Rule::ThirdHandHigh => "Third hand plays high to force declarer's honor.",
            Rule::ThirdHandOnlyAsHighAsNeeded => "Third hand plays only as high as needed.",
            Rule::ThirdHandUnblock => "Unblock your doubleton honor under partner's honor lead.",
            Rule::AttitudeEncourage => "Encourage partner to continue this suit.",
            Rule::AttitudeDiscourage => "Discourage partner from continuing this suit.",
            Rule::WinCheaply => "Win the trick as cheaply as possible.",
            Rule::CountSignal => "Give count: show whether you hold an even or odd number of cards.",
            Rule::ReturnPartnersSuit => "Return partner's suit.",
            Rule::CashEstablishedWinner => "Cash an established winner.",
            Rule::RuffToWin => "Ruff to win the trick with the cheapest trump.",
            Rule::OverruffCheaply => "Overruff as cheaply as possible.",
            Rule::DiscardAttitude => "Discard to show partner which suit you like.",
        };
        String::from_str(text)
    }
}

/// Whole microseconds in an elapsed time of `secs` seconds plus
/// `subsec_nanos` nanoseconds, as a `u64` (wrapping past `u64::MAX`, as a
/// cast of the 128-bit count does).
pub open spec fn elapsed_micros(secs: u64, subsec_nanos: u32) -> u64 {
    (secs * 1_000_000 + subsec_nanos / 1000) as u64
}

/// A card choice plus everything a caller could want to know about it.
///
/// - `rule` / `explanation` power the teaching UI ("why did East play the 9?")
///   and rule-level telemetry,
/// - `legal_count` enables statistical analysis of how constrained each
///   decision was (a bot that's right with 1 legal card proves nothing),
/// - `duration_micros` means callers never have to time the bot externally.
#[derive(Debug, Clone, PartialEq, Eq)]
pub struct Decision {
    /// The chosen card — always a member of the `legal` set that was passed
    /// in.
    pub card: Card,
    /// Stable slug for the rule that fired, e.g. `"third-hand-high"`,
    /// `"attitude-encourage"`, `"fallback-lowest"`.
    pub rule: &'static str,
    /// Human-readable, student-facing sentence for why this card.
    pub explanation: String,
    /// How many legal cards the bot chose among.
    pub legal_count: usize,
    /// How long the decision took, in microseconds.
    pub duration_micros: u64,
}

impl Decision {
    pub(crate) fn new(
        card: Card,
        rule: &'static str,
        explanation: String,
        legal_count: usize,
        elapsed_secs: u64,
        elapsed_subsec_nanos: u32,
    ) -> (d: Self)
        ensures
            d.card == card,
            d.rule@ == rule@,
            d.explanation@ == explanation@,
            d.legal_count == legal_count,
            d.duration_micros == elapsed_micros(elapsed_secs, elapsed_subsec_nanos),
    {
        let micros: u128 = (elapsed_secs as u128) * 1_000_000 + (elapsed_subsec_nanos / 1000) as u128;
        Decision { card, rule, explanation, legal_count, duration_micros: micros as u64 }
    }
}

} // verus!
