//! The bot's standing promises, checked on concrete deals.

use bridge_rulebot::{
    choose_card, choose_opening_lead, AttitudeMethod, Card, CountMethod, Decision, Direction,
    LeadContext, PlayContext, PlayedCard, SignalConfig, Suit, Vulnerability,
};

fn card(s: &str) -> Card {
    let mut chars = s.chars();
    Card::from_chars(chars.next().unwrap(), chars.next().unwrap()).unwrap()
}

fn cards(s: &str) -> Vec<Card> {
    s.split_whitespace().map(card).collect()
}

fn pc(seat: Direction, c: &str) -> PlayedCard {
    PlayedCard {
        seat,
        card: card(c),
    }
}

fn lead_ctx(hand: &str, contract: &str) -> LeadContext {
    LeadContext {
        seat: Direction::West,
        hand: cards(hand),
        declarer: Direction::South,
        dealer: Direction::North,
        contract: contract.to_string(),
        auction: vec![],
        vulnerability: Vulnerability::Neither,
        legal: cards(hand),
    }
}

fn play_ctx(
    seat: Direction,
    contract: &str,
    dummy: &str,
    hand: &str,
    played: Vec<PlayedCard>,
) -> PlayContext {
    PlayContext {
        seat,
        hand: cards(hand),
        dummy: cards(dummy),
        declarer: Direction::South,
        dealer: Direction::North,
        contract: contract.to_string(),
        auction: vec![],
        vulnerability: Vulnerability::Neither,
        played,
        legal: cards(hand),
    }
}

fn all_configs() -> Vec<SignalConfig> {
    let mut v = Vec::new();
    for attitude in [AttitudeMethod::Standard, AttitudeMethod::UpsideDown] {
        for count in [CountMethod::Standard, CountMethod::UpsideDown] {
            v.push(SignalConfig { attitude, count });
        }
    }
    v
}

fn pick(d: &Decision) -> (Card, &'static str) {
    (d.card, d.rule)
}

#[test]
fn an_ace_is_never_underled_against_a_suit_contract() {
    // Every suit holds its ace: the lowest card would underlead one.
    let ctx = lead_ctx("SA S3 HA H4 DA D5 CA C6", "4H");
    let d = choose_opening_lead(&ctx, &SignalConfig::default()).unwrap();
    assert_eq!(pick(&d), (card("SA"), "lead-no-ace-underlead"));
    // Against no-trump the same hand just leads its lowest card.
    let ctx = lead_ctx("SA S3 HA H4 DA D5 CA C6", "3NT");
    let d = choose_opening_lead(&ctx, &SignalConfig::default()).unwrap();
    assert_eq!(pick(&d), (card("S3"), "fallback-lowest"));
}

#[test]
fn a_lead_from_partners_suit_leads_the_ace_against_a_suit() {
    let mut ctx = lead_ctx("HA H7 H3 S9 S6 S4 S2 D8 D5 D3 C9 C6 C2", "4S");
    ctx.auction = vec![
        bridge_rulebot::Call::Pass,
        bridge_rulebot::Call::bid(1, bridge_rulebot::Strain::Hearts),
    ];
    let d = choose_opening_lead(&ctx, &SignalConfig::default()).unwrap();
    assert_eq!(pick(&d), (card("HA"), "lead-partners-suit"));
}

#[test]
fn partners_winner_is_not_ruffed_even_with_no_spare_spot() {
    // Partner's ace of hearts is winning; East, void in hearts, holds a
    // trump and a singleton king: it throws the king, not the trump.
    let played = vec![pc(Direction::West, "HA"), pc(Direction::North, "H6")];
    let ctx = play_ctx(Direction::East, "4S", "H6 H9 D8 D5 C7 C2", "S5 DK", played);
    for config in all_configs() {
        let d = choose_card(&ctx, &config).unwrap();
        assert_eq!(pick(&d), (card("DK"), "discard-attitude"));
    }
}

#[test]
fn discards_keep_parity_with_dummys_long_suit() {
    // Dummy still holds four clubs headed by the king; East keeps its four
    // clubs and discourages in hearts instead.
    let mut played = vec![
        pc(Direction::West, "S2"),
        pc(Direction::North, "SA"),
        pc(Direction::East, "S3"),
        pc(Direction::South, "S4"),
    ];
    played.push(pc(Direction::North, "D2"));
    let ctx = play_ctx(
        Direction::East,
        "3NT",
        "SA D2 CK C8 C5 C3",
        "C9 C7 C4 C2 H9 H3",
        played,
    );
    let d = choose_card(&ctx, &SignalConfig::default()).unwrap();
    assert_eq!(pick(&d), (card("H3"), "discard-attitude"));
    let upside_down = SignalConfig {
        attitude: AttitudeMethod::UpsideDown,
        count: CountMethod::Standard,
    };
    let d = choose_card(&ctx, &upside_down).unwrap();
    assert_eq!(pick(&d), (card("H9"), "discard-attitude"));
}

#[test]
fn count_method_leaves_attitude_signals_alone() {
    // Partner leads the king; East encourages with the nine (standard) or
    // the deuce (upside-down) whatever the count method.
    let played = vec![pc(Direction::West, "SK"), pc(Direction::North, "S4")];
    let ctx = play_ctx(Direction::East, "3NT", "S7 S4 H8 H3 D9 C5", "SQ S9 S2", played);
    for count in [CountMethod::Standard, CountMethod::UpsideDown] {
        let std = choose_card(&ctx, &SignalConfig { attitude: AttitudeMethod::Standard, count }).unwrap();
        let ud = choose_card(&ctx, &SignalConfig { attitude: AttitudeMethod::UpsideDown, count }).unwrap();
        assert_eq!(pick(&std), (card("S9"), "attitude-encourage"));
        assert_eq!(pick(&ud), (card("S2"), "attitude-encourage"));
    }
}

#[test]
fn winning_cards_are_the_cheapest_that_win() {
    // Fourth hand over declarer's queen, holding ace, king and a low card.
    let played = vec![
        pc(Direction::West, "C2"),
        pc(Direction::North, "CA"),
        pc(Direction::East, "C4"),
        pc(Direction::South, "C6"),
        pc(Direction::North, "S3"),
        pc(Direction::East, "S5"),
        pc(Direction::South, "SQ"),
    ];
    let ctx = play_ctx(Direction::West, "3NT", "S3 H8 H5 D9 D6 CA", "SA SK S4", played);
    let d = choose_card(&ctx, &SignalConfig::default()).unwrap();
    assert_eq!(pick(&d), (card("SK"), "win-cheaply"));
    assert!(ctx.legal.contains(&d.card));
    assert_eq!(d.legal_count, 3);
}

#[test]
fn partners_good_card_is_not_overtaken() {
    // Partner's ace is winning and cannot be beaten: third hand signals
    // instead of contesting.
    let played = vec![pc(Direction::West, "DA"), pc(Direction::North, "D2")];
    let ctx = play_ctx(Direction::East, "3NT", "D7 D2 S8 S5 H9 H4", "DK D8 D3", played);
    let d = choose_card(&ctx, &SignalConfig::default()).unwrap();
    assert_eq!(pick(&d), (card("D8"), "attitude-encourage"));
}

#[test]
fn decisions_are_deterministic() {
    let played = vec![pc(Direction::West, "S5"), pc(Direction::North, "S3")];
    let ctx = play_ctx(Direction::East, "3NT", "S7 S4 S3 H9 H6 D8", "SK S8 S2", played);
    for config in all_configs() {
        let a = choose_card(&ctx, &config).unwrap();
        let b = choose_card(&ctx, &config).unwrap();
        assert_eq!(pick(&a), pick(&b));
        assert_eq!(a.explanation, b.explanation);
    }
}

#[test]
fn every_choice_is_legal() {
    let hands = [
        "SA SK SQ S2 H5",
        "C2 C3 C4 C5",
        "DA HK SQ CJ",
        "S9 S8 S7 H6 H5",
    ];
    for hand in hands {
        for contract in ["3NT", "4S", "2H"] {
            let lead = lead_ctx(hand, contract);
            let d = choose_opening_lead(&lead, &SignalConfig::default()).unwrap();
            assert!(lead.legal.contains(&d.card));
            let played = vec![pc(Direction::South, "DQ")];
            let ctx = play_ctx(Direction::West, contract, "D2 D3", hand, played);
            for config in all_configs() {
                let d = choose_card(&ctx, &config).unwrap();
                assert!(ctx.legal.contains(&d.card));
                assert_eq!(d.legal_count, ctx.legal.len());
            }
        }
    }
    assert_eq!(Suit::from_char('S'), Some(Suit::Spades));
}

#[test]
fn discards_keep_winners() {
    // Partner has cashed hearts down to the ten, so East's nine is a winner.
    // Signaling high (upside-down discourage) must not throw it.
    let mut played = Vec::new();
    for (w, n, e, s) in [
        ("HA", "C2", "C3", "C4"),
        ("HK", "C5", "C6", "C7"),
        ("HQ", "C8", "C9", "CT"),
        ("HJ", "D4", "D5", "D6"),
        ("HT", "D7", "D8", "D9"),
    ] {
        played.push(pc(Direction::West, w));
        played.push(pc(Direction::North, n));
        played.push(pc(Direction::East, e));
        played.push(pc(Direction::South, s));
    }
    played.push(pc(Direction::West, "S2"));
    played.push(pc(Direction::North, "S3"));
    let ctx = play_ctx(Direction::East, "3NT", "C2 C5 C8 D4 D7 S3", "H9 H3", played);
    for config in all_configs() {
        let d = choose_card(&ctx, &config).unwrap();
        assert_eq!(pick(&d), (card("H3"), "discard-attitude"));
    }
}

#[test]
fn a_king_is_not_cashed_while_dummy_holds_the_ace() {
    let played = vec![
        pc(Direction::West, "HA"),
        pc(Direction::North, "H3"),
        pc(Direction::East, "H4"),
        pc(Direction::South, "H5"),
    ];
    let ctx = play_ctx(Direction::West, "3NT", "SA S3 H3 D2", "SK C7 H2", played);
    let d = choose_card(&ctx, &SignalConfig::default()).unwrap();
    assert_eq!(pick(&d), (card("H2"), "fallback-lowest"));
}
