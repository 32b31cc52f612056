//! Trick reconstruction and the state derived from a play history.

use bridge_rulebot::derived::{
    all_ranks, all_ranks_above, is_honor, is_spot, reconstruct_tricks, trump_suit, Derived,
};
use bridge_rulebot::select::lowest;
use bridge_rulebot::{Card, Direction, PlayContext, PlayedCard, Rank, Suit, Vulnerability};

fn card(s: &str) -> Card {
    let mut chars = s.chars();
    Card::from_chars(chars.next().unwrap(), chars.next().unwrap()).unwrap()
}

fn cards(s: &str) -> Vec<Card> {
    s.split_whitespace().map(card).collect()
}

fn pc(seat: Direction, c: &str) -> PlayedCard {
    PlayedCard {
        seat,
        card: card(c),
    }
}

fn ctx(seat: Direction, contract: &str, dummy: &str, hand: &str, played: Vec<PlayedCard>) -> PlayContext {
    PlayContext {
        seat,
        hand: cards(hand),
        dummy: cards(dummy),
        declarer: Direction::South,
        dealer: Direction::North,
        contract: contract.to_string(),
        auction: vec![],
        vulnerability: Vulnerability::Neither,
        played,
        legal: cards(hand),
    }
}

#[test]
fn trump_suit_reads_the_strain_after_the_level() {
    assert_eq!(trump_suit("4S"), Some(Suit::Spades));
    assert_eq!(trump_suit("3NT"), None);
    assert_eq!(trump_suit("2HX"), Some(Suit::Hearts));
    assert_eq!(trump_suit("12D"), Some(Suit::Diamonds));
    assert_eq!(trump_suit("7"), None);
    assert_eq!(trump_suit(""), None);
}

#[test]
fn tricks_are_rebuilt_in_fours_led_by_the_last_winner() {
    let played = vec![
        pc(Direction::West, "C2"),
        pc(Direction::North, "C5"),
        pc(Direction::East, "C9"),
        pc(Direction::South, "CA"),
        pc(Direction::South, "D3"),
    ];
    let tricks = reconstruct_tricks(&played, Direction::West, None);
    assert_eq!(tricks.len(), 2);
    assert_eq!(tricks[0].leader, Direction::West);
    assert_eq!(tricks[0].plays.len(), 4);
    assert_eq!(tricks[1].leader, Direction::South);
    assert_eq!(tricks[1].plays, vec![pc(Direction::South, "D3")]);
    assert_eq!(tricks[1].led_suit(), Some(Suit::Diamonds));
}

#[test]
fn a_trump_wins_the_trick() {
    let played = vec![
        pc(Direction::West, "H2"),
        pc(Direction::North, "H5"),
        pc(Direction::East, "S4"),
        pc(Direction::South, "HA"),
    ];
    let tricks = reconstruct_tricks(&played, Direction::West, Some(Suit::Spades));
    assert_eq!(tricks[0].winner(Some(Suit::Spades)), Some(pc(Direction::East, "S4")));
    assert_eq!(tricks[0].winner(None), Some(pc(Direction::South, "HA")));
    assert!(reconstruct_tricks(&[], Direction::West, None).is_empty());
}

#[test]
fn derived_state_of_a_third_hand_position() {
    let played = vec![pc(Direction::West, "S2"), pc(Direction::North, "S4")];
    let c = ctx(Direction::East, "3NT", "SQ S9 S4 H8 H3 D6", "SJ ST S5 H7 D2", played);
    let d = Derived::compute(&c);
    assert_eq!(d.trump, None);
    assert_eq!(d.position(), 2);
    assert_eq!(d.partner, Direction::West);
    assert!(d.is_defender);
    assert_eq!(d.dummy_remaining, cards("SQ S9 H8 H3 D6"));
    assert_eq!(d.partners_first_suit, Some(Suit::Spades));
    assert_eq!(d.winning(), Some(pc(Direction::North, "S4")));
    assert!(!d.partner_is_winning());
    assert_eq!(d.cheapest_winner(&cards("SJ ST S5")), Some(card("S5")));
    assert_eq!(d.cheapest_winner(&cards("S3 H9")), None);
    assert_eq!(d.bottom_of_top_equals(&cards("SJ ST S5"), &c.hand), Some(card("ST")));
    // Dummy's nine is visible, so the ten and the eight are equals.
    assert_eq!(d.bottom_of_top_equals(&cards("SJ ST S8"), &cards("SJ ST S8")), Some(card("S8")));
    assert_eq!(d.bottom_of_top_equals(&[], &c.hand), None);
    assert!(!d.is_master(card("SJ"), &c.hand, true));
}

#[test]
fn masters_count_only_unaccounted_higher_cards() {
    let played = vec![
        pc(Direction::West, "SA"),
        pc(Direction::North, "S3"),
        pc(Direction::East, "S5"),
        pc(Direction::South, "S6"),
    ];
    let c = ctx(Direction::West, "3NT", "S3 SQ H2", "SK SJ H4", played);
    let d = Derived::compute(&c);
    assert!(d.is_master(card("SK"), &c.hand, true));
    // The queen is still in dummy and can beat the jack, visible or not.
    assert!(!d.is_master(card("SJ"), &c.hand, true));
    assert!(!d.is_master(card("SJ"), &c.hand, false));
    assert!(!d.is_master(card("H4"), &c.hand, true));
    // On a trick boundary the next trick is owed, led by the last winner.
    assert_eq!(d.position(), 0);
    assert_eq!(d.winning(), None);
    let t = d.current.as_ref().unwrap();
    assert_eq!(t.leader, Direction::West);
    assert!(t.plays.is_empty());
}

#[test]
fn an_empty_history_has_no_current_trick() {
    let c = ctx(Direction::West, "3NT", "S3 SQ H2", "SK SJ H4", vec![]);
    let d = Derived::compute(&c);
    assert!(d.current.is_none());
    assert_eq!(d.position(), 0);
}

#[test]
fn rank_tables_and_classes() {
    assert_eq!(all_ranks().len(), 13);
    assert_eq!(all_ranks_above(Rank::Queen), vec![Rank::King, Rank::Ace]);
    assert!(all_ranks_above(Rank::Ace).is_empty());
    assert!(is_spot(card("S9")));
    assert!(!is_spot(card("ST")));
    assert!(is_honor(card("ST")));
    assert!(!is_honor(card("S9")));
}

#[test]
fn lowest_orders_by_rank_then_suit() {
    assert_eq!(lowest(&cards("SK S4 H4")), Some(card("H4")));
    assert_eq!(lowest(&cards("DA")), Some(card("DA")));
    assert_eq!(lowest(&[]), None);
}
