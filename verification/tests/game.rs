use poker_odds::cards::{Card, Rank, Suit};
use poker_odds::game::{BettingRound, GameState, GameVariant};

#[test]
fn variant_variant_id_roundtrip() {
    for variant in GameVariant::ALL {
        let id = variant.id();
        let parsed = GameVariant::from_id(id).unwrap();
        assert_eq!(variant, parsed, "round-trip failed for {id}");
    }
}

#[test]
fn variant_from_id_unknown() {
    assert!(GameVariant::from_id("unknown_game").is_err());
}

#[test]
fn lib_variant_id_roundtrip() {
    for v in GameVariant::ALL {
        let id = v.id();
        assert_eq!(GameVariant::from_id(id).unwrap(), v);
    }
}

#[test]
fn variant_from_id_rejects_unknown() {
    assert!(GameVariant::from_id("bad_variant").is_err());
}

#[test]
fn unknown_variant_message_lists_the_ids() {
    let err = GameVariant::from_id("poker").unwrap_err();
    assert_eq!(
        err,
        "Unknown variant 'poker'. Use one of: texas_holdem, omaha_holdem, seven_card_stud, five_card_draw"
    );
}

#[test]
fn variant_facts() {
    assert_eq!(GameVariant::TexasHoldem.hole_card_count(), 2);
    assert_eq!(GameVariant::OmahaHoldem.hole_card_count(), 4);
    assert_eq!(GameVariant::SevenCardStud.community_card_count(), 0);
    assert!(GameVariant::TexasHoldem.has_community_cards());
    assert!(!GameVariant::FiveCardDraw.has_community_cards());
    assert_eq!(GameVariant::TexasHoldem.max_players(), 9);
    assert_eq!(GameVariant::OmahaHoldem.name(), "Omaha Hold'em");
    assert_eq!(
        GameVariant::TexasHoldem.rounds(),
        vec![BettingRound::Preflop, BettingRound::Flop, BettingRound::Turn, BettingRound::River]
    );
}

#[test]
fn betting_rounds_reveal_the_board() {
    assert_eq!(BettingRound::Flop.community_cards_revealed(), 3);
    assert_eq!(BettingRound::River.total_community_after(), 5);
    assert_eq!(BettingRound::Turn.total_community_after(), 4);
    assert_eq!(BettingRound::Preflop.name(), "Pre-Flop");
}

#[test]
fn state_rounds_advance_to_the_river_and_stop() {
    let mut s = GameState::new(GameVariant::TexasHoldem);
    assert_eq!(s.current_round, BettingRound::Preflop);
    assert!(s.advance_round());
    assert!(s.advance_round());
    assert!(s.advance_round());
    assert_eq!(s.current_round, BettingRound::River);
    assert!(!s.advance_round());
    assert_eq!(s.current_round, BettingRound::River);
}

#[test]
fn state_counts_cards_to_simulate() {
    let mut s = GameState::new(GameVariant::TexasHoldem);
    s.hole_cards = vec![Card::new(Rank::Ace, Suit::Hearts), Card::new(Rank::King, Suit::Hearts)];
    s.community_cards = vec![
        Card::new(Rank::Two, Suit::Clubs),
        Card::new(Rank::Seven, Suit::Diamonds),
        Card::new(Rank::Nine, Suit::Spades),
    ];
    s.opponent_count = 3;
    assert!(s.hole_cards_complete());
    assert_eq!(s.community_cards_remaining(), 2);
    assert_eq!(s.unknown_hole_cards_per_opponent(), 2);
    assert_eq!(s.cards_to_simulate(), 2 + 3 * 2);
    assert_eq!(s.known_cards().len(), 5);
    assert!(!s.is_complete());
}

#[test]
fn advance_round_walks_rounds_then_stops() {
    for v in GameVariant::ALL {
        let rounds = v.rounds();
        let mut s = GameState::new(v);
        for k in 0..rounds.len() + 2 {
            let expected = k + 1 < rounds.len();
            assert_eq!(s.advance_round(), expected, "{:?} call {}", v, k);
            let at = if k + 1 < rounds.len() { k + 1 } else { rounds.len() - 1 };
            assert_eq!(s.current_round, rounds[at]);
        }
    }
}

#[test]
fn cards_to_simulate_with_full_board_and_many_opponents() {
    let mut s = GameState::new(GameVariant::TexasHoldem);
    assert_eq!(s.cards_to_simulate(), 7);
    s.community_cards = vec![
        Card::new(Rank::Ace, Suit::Spades),
        Card::new(Rank::King, Suit::Spades),
        Card::new(Rank::Queen, Suit::Spades),
        Card::new(Rank::Jack, Suit::Spades),
        Card::new(Rank::Ten, Suit::Spades),
    ];
    s.opponent_count = (usize::MAX - 1) / 2;
    assert_eq!(s.cards_to_simulate(), usize::MAX - 1);
    let mut o = GameState::new(GameVariant::OmahaHoldem);
    o.community_cards = vec![
        Card::new(Rank::Two, Suit::Clubs),
        Card::new(Rank::Three, Suit::Clubs),
        Card::new(Rank::Four, Suit::Clubs),
    ];
    o.opponent_count = 2;
    assert_eq!(o.cards_to_simulate(), 10);
}

#[test]
fn variant_ids_compare_by_every_character() {
    assert!(GameVariant::from_id("texas_holdem").is_ok());
    assert!(GameVariant::from_id("texas_holdeM").is_err());
    assert!(GameVariant::from_id("texas_holde").is_err());
    assert!(GameVariant::from_id("").is_err());
}
