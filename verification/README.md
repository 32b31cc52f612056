# bridge_rulebot

A deterministic, rule-based cardplay bot for bridge teaching, written in
Verus. Every decision names the rule that chose the card (a stable slug plus
a student-facing explanation), and the rule pipeline is verified against its
specification: the chosen card is always legal, the choice is total and a
function of the deal, leads never underlead an ace against a suit contract,
partner's winner is never ruffed, winning plays are the cheapest that win,
and the signaling methods only change the card of a signal.

Layout:

- `src/cards.rs`, `src/auction.rs` — suits, ranks, cards, seats, strains,
  calls and vulnerability, with their character and PBN codes.
- `src/select.rs` — choosing the lowest/highest card that meets a condition,
  and rank scans over a holding.
- `src/config.rs`, `src/context.rs` — signaling methods and decision inputs.
- `src/derived.rs` — trump suit, trick reconstruction, trick winners, dummy's
  remaining cards, masters and equal honors.
- `src/rules.rs` — the opening-lead and mid-play rule pipelines: their
  specification and their verified implementation.
- `src/decision.rs` — rule slugs, explanations and the `Decision` record.
- `src/laws.rs` — the standing promises, proved over the specification.
- `src/lib.rs` — the entry points `choose_opening_lead` and `choose_card`.
- `app/lib.rs` — the browser boundary: JSON in, JSON out.
- `tests/` — worked examples of every rule and checks of the laws.
