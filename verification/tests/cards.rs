use poker_odds::cards::deck::nth_set_bit;
use poker_odds::cards::{all_cards, Card, CardParseError, Deck, Rank, Suit};
use rand::SeedableRng;
use rand_xoshiro::Xoshiro256PlusPlus;

#[test]
fn round_trip_index() {
    for i in 0..52u8 {
        assert_eq!(Card::from_index(i).index(), i);
    }
}

#[test]
fn parse_cards() {
    assert_eq!(Card::from_str("Ah").unwrap(), Card::new(Rank::Ace, Suit::Hearts));
    assert_eq!(Card::from_str("Td").unwrap(), Card::new(Rank::Ten, Suit::Diamonds));
    assert_eq!(Card::from_str("2c").unwrap(), Card::new(Rank::Two, Suit::Clubs));
    assert!(Card::from_str("Xx").is_err());
}

#[test]
fn validate_card_valid() {
    assert!(Card::from_str("Ah").is_ok());
    assert!(Card::from_str("2c").is_ok());
    assert!(Card::from_str("Td").is_ok());
    assert!(Card::from_str("Ks").is_ok());
}

#[test]
fn validate_card_invalid() {
    assert!(Card::from_str("XX").is_err());
    assert!(Card::from_str("").is_err());
    assert!(Card::from_str("AhKs").is_err());
}

#[test]
fn parse_card_errors_name_the_culprit() {
    assert_eq!(Card::from_str("Xh"), Err(CardParseError::UnknownRank('X')));
    assert_eq!(Card::from_str("ax"), Err(CardParseError::UnknownSuit('x')));
    assert_eq!(
        Card::from_str("  AhK "),
        Err(CardParseError::InvalidFormat("AhK".to_string()))
    );
}

#[test]
fn parse_card_ignores_case_and_space() {
    assert_eq!(Card::from_str(" aH ").unwrap(), Card::new(Rank::Ace, Suit::Hearts));
    assert_eq!(Card::from_str("tS").unwrap(), Card::new(Rank::Ten, Suit::Spades));
}

#[test]
fn card_text_forms() {
    let c = Card::new(Rank::Queen, Suit::Diamonds);
    assert_eq!(c.display_short(), "Qd");
    assert_eq!(c.display_unicode(), "Q\u{2666}");
    assert_eq!(Rank::Ten.to_display_string(), "T");
}

#[test]
fn card_index_is_rank_times_four_plus_suit() {
    assert_eq!(Card::new(Rank::Two, Suit::Clubs).index(), 0);
    assert_eq!(Card::new(Rank::Ace, Suit::Spades).index(), 51);
    assert_eq!(Card::new(Rank::Five, Suit::Hearts).index(), 3 * 4 + 2);
}

#[test]
fn rank_primes_and_chars() {
    assert_eq!(Rank::Two.prime(), 2);
    assert_eq!(Rank::Ace.prime(), 41);
    assert_eq!(Rank::from_char('q').unwrap(), Rank::Queen);
    assert_eq!(Rank::Jack.to_char(), 'J');
    assert_eq!(Suit::from_char('S').unwrap(), Suit::Spades);
}

#[test]
fn full_deck_has_52_cards() {
    let d = Deck::new();
    assert_eq!(d.remaining_count(), 52);
    assert_eq!(d.remaining_cards().len(), 52);
}

#[test]
fn remove_reduces_count() {
    let mut d = Deck::new();
    d.remove(Card::new(Rank::Ace, Suit::Spades));
    assert_eq!(d.remaining_count(), 51);
}

#[test]
fn deal_random_exhausts_deck() {
    let mut d = Deck::new();
    let mut rng = Xoshiro256PlusPlus::seed_from_u64(42);
    let mut dealt = Vec::new();
    while let Some(card) = d.deal_random(&mut rng) {
        dealt.push(card);
    }
    assert_eq!(dealt.len(), 52);
    let mut seen = vec![false; 52];
    for c in dealt {
        assert!(!seen[c.index() as usize]);
        seen[c.index() as usize] = true;
    }
}

#[test]
fn removed_card_is_gone_and_others_stay() {
    let mut d = Deck::new();
    let ah = Card::new(Rank::Ace, Suit::Hearts);
    d.remove(ah);
    d.remove(ah);
    assert!(!d.contains(ah));
    assert!(d.contains(Card::new(Rank::Ace, Suit::Spades)));
    assert_eq!(d.remaining_count(), 51);
    let rest = d.remaining_cards();
    assert!(!rest.contains(&ah));
    assert!(rest.windows(2).all(|w| w[0].index() < w[1].index()));
}

#[test]
fn remove_many_and_snapshot() {
    let mut d = Deck::new();
    let cards = [
        Card::new(Rank::Two, Suit::Clubs),
        Card::new(Rank::Three, Suit::Clubs),
        Card::new(Rank::Two, Suit::Clubs),
    ];
    d.remove_many(&cards);
    assert_eq!(d.remaining_count(), 50);
    let s = d.snapshot();
    assert_eq!(s.remaining_count(), 50);
    assert!(!s.contains(cards[1]));
}

#[test]
fn all_cards_lists_the_deck_in_index_order() {
    let cards = all_cards();
    assert_eq!(cards.len(), 52);
    for (i, c) in cards.iter().enumerate() {
        assert_eq!(c.index() as usize, i);
    }
}

#[test]
fn nth_set_bit_finds_positions() {
    assert_eq!(nth_set_bit(0b1011_0000, 0), 4);
    assert_eq!(nth_set_bit(0b1011_0000, 1), 5);
    assert_eq!(nth_set_bit(0b1011_0000, 2), 7);
}

#[test]
fn parse_error_messages() {
    assert_eq!(
        CardParseError::InvalidFormat("x".to_string()).message(),
        "invalid card string 'x' \u{2014} expected format like 'Ah', 'Td', '2c'"
    );
    assert_eq!(CardParseError::UnknownRank('X').message(), "unknown rank 'X'");
    assert_eq!(CardParseError::UnknownSuit('q').message(), "unknown suit 'q'");
}

#[test]
fn every_card_text_parses_back() {
    for c in all_cards() {
        assert_eq!(Card::from_str(&c.display_short()), Ok(c));
    }
}

#[test]
fn deal_nth_takes_kth_remaining_card() {
    let mut deck = Deck::new();
    deck.remove(Card::from_index(0));
    deck.remove(Card::from_index(2));
    let before = deck.remaining_cards();
    let dealt = deck.deal_nth(3).unwrap();
    assert_eq!(dealt, before[3]);
    assert_eq!(dealt.index(), 5);
    assert!(!deck.contains(dealt));
    assert_eq!(deck.remaining_count(), 49);
    assert_eq!(deck.deal_nth(0).unwrap().index(), 1);
}

#[test]
fn deal_nth_past_end_leaves_deck() {
    let mut deck = Deck::new();
    assert!(deck.deal_nth(52).is_none());
    assert_eq!(deck.remaining_count(), 52);
    assert_eq!(deck.deal_nth(51).unwrap().index(), 51);
    assert!(deck.deal_nth(51).is_none());
    assert_eq!(deck.remaining_count(), 51);
}

#[test]
fn fifty_two_deals_give_every_card_once() {
    let mut deck = Deck::new();
    let mut seen = [false; 52];
    for i in 0..52u32 {
        assert_eq!(deck.remaining_count(), 52 - i);
        let c = deck.deal_nth((i * 7) % (52 - i)).unwrap();
        assert!(!seen[c.index() as usize]);
        seen[c.index() as usize] = true;
    }
    assert!(seen.iter().all(|s| *s));
    assert!(deck.deal_nth(0).is_none());
}
