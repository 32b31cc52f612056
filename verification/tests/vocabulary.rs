//! Card, seat, call and configuration codes.

use bridge_rulebot::auction::{first_char, str_equals};
use bridge_rulebot::{
    AttitudeMethod, BotError, Call, Card, CountMethod, Direction, Rank, SignalConfig, Strain,
    Suit, Vulnerability,
};

#[test]
fn suit_codes_round_trip() {
    for s in [Suit::Clubs, Suit::Diamonds, Suit::Hearts, Suit::Spades] {
        assert_eq!(Suit::from_char(s.to_char()), Some(s));
        assert_eq!(Suit::from_char(s.to_char().to_ascii_lowercase()), Some(s));
    }
    assert_eq!(Suit::from_char('N'), None);
    assert_eq!(Suit::from_char('x'), None);
    assert_eq!(Suit::Clubs.index(), 0);
    assert_eq!(Suit::Spades.index(), 3);
}

#[test]
fn rank_codes_and_values() {
    assert_eq!(Rank::from_char('T'), Some(Rank::Ten));
    assert_eq!(Rank::from_char('t'), Some(Rank::Ten));
    assert_eq!(Rank::from_char('9'), Some(Rank::Nine));
    assert_eq!(Rank::from_char('1'), None);
    assert_eq!(Rank::from_char('X'), None);
    assert_eq!(Rank::Ace.value(), 14);
    assert_eq!(Rank::Two.value(), 2);
    assert_eq!(Rank::from_value(11), Some(Rank::Jack));
    assert_eq!(Rank::from_value(15), None);
    assert_eq!(Rank::from_value(1), None);
    assert_eq!(Rank::Queen.to_char(), 'Q');
}

#[test]
fn card_codes() {
    assert_eq!(
        Card::from_chars('S', 'K'),
        Some(Card::new(Suit::Spades, Rank::King))
    );
    assert_eq!(Card::from_chars('h', 't'), Some(Card::new(Suit::Hearts, Rank::Ten)));
    assert_eq!(Card::from_chars('Z', 'K'), None);
    assert_eq!(Card::from_chars('S', 'Z'), None);
}

#[test]
fn seats_rotate_clockwise_and_pair_up() {
    assert_eq!(Direction::North.next(), Direction::East);
    assert_eq!(Direction::West.next(), Direction::North);
    assert_eq!(Direction::North.partner(), Direction::South);
    assert_eq!(Direction::East.partner(), Direction::West);
    for d in [Direction::North, Direction::East, Direction::South, Direction::West] {
        assert_eq!(d.partner().partner(), d);
        assert_eq!(d.next().next(), d.partner());
        assert_eq!(Direction::from_char(d.to_char()), Some(d));
    }
    assert_eq!(Direction::from_char('w'), Some(Direction::West));
    assert_eq!(Direction::from_char('X'), None);
}

#[test]
fn strains_name_their_suits() {
    assert_eq!(Strain::from_char('N'), Some(Strain::NoTrump));
    assert_eq!(Strain::NoTrump.suit(), None);
    assert_eq!(Strain::Hearts.suit(), Some(Suit::Hearts));
    assert_eq!(Strain::from_char('q'), None);
}

#[test]
fn pbn_calls_parse() {
    assert_eq!(Call::from_pbn("Pass"), Some(Call::Pass));
    assert_eq!(Call::from_pbn("P"), Some(Call::Pass));
    assert_eq!(Call::from_pbn("X"), Some(Call::Double));
    assert_eq!(Call::from_pbn("XX"), Some(Call::Redouble));
    assert_eq!(Call::from_pbn("1N"), Some(Call::bid(1, Strain::NoTrump)));
    assert_eq!(Call::from_pbn("3NT"), Some(Call::bid(3, Strain::NoTrump)));
    assert_eq!(Call::from_pbn("4S"), Some(Call::bid(4, Strain::Spades)));
    assert_eq!(Call::from_pbn("7c"), Some(Call::bid(7, Strain::Clubs)));
    assert_eq!(Call::from_pbn("8S"), None);
    assert_eq!(Call::from_pbn("0H"), None);
    assert_eq!(Call::from_pbn("1Z"), None);
    assert_eq!(Call::from_pbn("1SX"), None);
    assert_eq!(Call::from_pbn(""), None);
}

#[test]
fn pbn_vulnerability_parses() {
    assert_eq!(Vulnerability::from_pbn("None"), Some(Vulnerability::Neither));
    assert_eq!(Vulnerability::from_pbn("-"), Some(Vulnerability::Neither));
    assert_eq!(Vulnerability::from_pbn("NS"), Some(Vulnerability::NorthSouth));
    assert_eq!(Vulnerability::from_pbn("EW"), Some(Vulnerability::EastWest));
    assert_eq!(Vulnerability::from_pbn("All"), Some(Vulnerability::Both));
    assert_eq!(Vulnerability::from_pbn("Both"), Some(Vulnerability::Both));
    assert_eq!(Vulnerability::from_pbn("ns"), None);
}

#[test]
fn config_defaults_to_standard_standard() {
    assert_eq!(
        SignalConfig::default(),
        SignalConfig {
            attitude: AttitudeMethod::Standard,
            count: CountMethod::Standard
        }
    );
    assert_eq!(AttitudeMethod::default(), AttitudeMethod::Standard);
    assert_eq!(CountMethod::default(), CountMethod::Standard);
}

#[test]
fn config_from_setting_names() {
    let c = SignalConfig::from_names(Some("upside_down"), Some("upside_down"));
    assert_eq!(c.attitude, AttitudeMethod::UpsideDown);
    assert_eq!(c.count, CountMethod::UpsideDown);
    let c = SignalConfig::from_names(Some("udca"), Some("udca"));
    assert_eq!(c.attitude, AttitudeMethod::UpsideDown);
    assert_eq!(c.count, CountMethod::Standard);
    let c = SignalConfig::from_names(None, Some("standard"));
    assert_eq!(c, SignalConfig::default());
}

#[test]
fn string_helpers() {
    assert_eq!(first_char("NS"), Some('N'));
    assert_eq!(first_char(""), None);
    assert!(str_equals("abc", "abc"));
    assert!(!str_equals("abc", "abd"));
    assert!(!str_equals("ab", "abc"));
}

#[test]
fn error_message() {
    assert_eq!(
        BotError::NoLegalCards.message(),
        "legal card set is empty (engine bug)"
    );
}
