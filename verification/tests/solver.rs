use poker_odds::cards::{Card, Rank, Suit};
use poker_odds::eval::evaluator::HandEvaluator;
use poker_odds::solver::abstraction::{river_counts, CardAbstraction, EquityBuckets, NoAbstraction};
use poker_odds::solver::range::{combo_cards, HandRange, RangeParseError};
use poker_odds::solver::showdown::{ShowdownRanker, N_COMBOS};
use poker_odds::solver::vector_api::{solve_street, SolveStreet, VectorSolveError};
use rand::SeedableRng;

fn card(r: Rank, s: Suit) -> Card {
    Card::new(r, s)
}

fn test_board() -> [Card; 5] {
    [
        card(Rank::Ace, Suit::Spades),
        card(Rank::King, Suit::Hearts),
        card(Rank::Queen, Suit::Diamonds),
        card(Rank::Seven, Suit::Clubs),
        card(Rank::Two, Suit::Spades),
    ]
}

#[test]
fn combo_index_roundtrip() {
    // Verify all 1326 combos have unique indices
    let mut seen = vec![false; 1326];
    let mut count = 0;
    for i in 0..52u8 {
        for j in (i + 1)..52 {
            let c1 = Card::from_index(i);
            let c2 = Card::from_index(j);
            let idx = HandRange::combo_index(c1, c2);
            assert!(!seen[idx as usize], "Duplicate index {idx} for cards {i},{j}");
            seen[idx as usize] = true;

            // Verify roundtrip
            let (rc1, rc2) = HandRange::cards_from_index(idx);
            assert_eq!(rc1.index().min(rc2.index()), i);
            assert_eq!(rc1.index().max(rc2.index()), j);
            count += 1;
        }
    }
    assert_eq!(count, 1326);
}

#[test]
fn combo_index_order_independent() {
    let ah = Card::new(Rank::Ace, Suit::Hearts);
    let ks = Card::new(Rank::King, Suit::Spades);
    assert_eq!(HandRange::combo_index(ah, ks), HandRange::combo_index(ks, ah));
}

#[test]
fn parse_pocket_pair() {
    let range = HandRange::from_str("AA").unwrap();
    assert_eq!(range.num_combos(), 6); // C(4,2) = 6
}

#[test]
fn parse_suited() {
    let range = HandRange::from_str("AKs").unwrap();
    assert_eq!(range.num_combos(), 4); // 4 suits
}

#[test]
fn parse_offsuit() {
    let range = HandRange::from_str("AKo").unwrap();
    assert_eq!(range.num_combos(), 12); // 4*3 = 12
}

#[test]
fn parse_unspecified() {
    let range = HandRange::from_str("AK").unwrap();
    assert_eq!(range.num_combos(), 16); // 4 suited + 12 offsuit
}

#[test]
fn parse_pair_range() {
    let range = HandRange::from_str("QQ-TT").unwrap();
    assert_eq!(range.num_combos(), 18); // 3 pairs * 6 combos
}

#[test]
fn parse_suited_range() {
    let range = HandRange::from_str("A5s-A2s").unwrap();
    assert_eq!(range.num_combos(), 16); // 4 hands * 4 suits
}

#[test]
fn parse_complex_range() {
    let range = HandRange::from_str("AA,AKs,QQ-TT,A5s-A2s,KJo").unwrap();
    let expected = 6 + 4 + 18 + 16 + 12;
    assert_eq!(range.num_combos(), expected);
}

#[test]
fn parse_specific_cards() {
    let range = HandRange::from_str("AhKs").unwrap();
    assert_eq!(range.num_combos(), 1);
}

#[test]
fn full_range_has_1326_combos() {
    let range = HandRange::full();
    assert_eq!(range.num_combos(), 1326);
}

#[test]
fn validate_range_aces() {
    let r = HandRange::from_str("AA").unwrap();
    assert_eq!(r.combos().len() as u32, 6);
}

#[test]
fn validate_range_suited() {
    let r = HandRange::from_str("AKs").unwrap();
    assert_eq!(r.combos().len() as u32, 4);
}

#[test]
fn validate_range_invalid() {
    assert!(HandRange::from_str("notarange!!").is_err());
}

#[test]
fn range_errors_name_the_token_or_card() {
    assert_eq!(
        HandRange::from_str("AA, AKx").unwrap_err(),
        RangeParseError::InvalidToken("AKx".to_string())
    );
    assert_eq!(
        HandRange::from_str("ZZ").unwrap_err(),
        RangeParseError::InvalidCard(poker_odds::cards::CardParseError::UnknownRank('Z'))
    );
    assert_eq!(
        HandRange::from_str("AhKx").unwrap_err(),
        RangeParseError::InvalidCard(poker_odds::cards::CardParseError::UnknownSuit('x'))
    );
    assert_eq!(
        HandRange::from_str("KQ-JT").unwrap_err(),
        RangeParseError::InvalidToken("KQ-JT".to_string())
    );
    assert_eq!(
        HandRange::from_str("A-K").unwrap_err(),
        RangeParseError::InvalidToken("A-K".to_string())
    );
}

#[test]
fn range_skips_empty_tokens_and_space() {
    let r = HandRange::from_str(" AA , ,KK,").unwrap();
    assert_eq!(r.num_combos(), 12);
    assert_eq!(HandRange::from_str("").unwrap().num_combos(), 0);
    assert_eq!(HandRange::empty().num_combos(), 0);
}

#[test]
fn range_members_are_the_right_combos() {
    let r = HandRange::from_str("AKs").unwrap();
    let combos = r.combos();
    for idx in combos {
        let (a, b) = HandRange::cards_from_index(idx);
        assert_eq!(a.suit, b.suit);
        let mut ranks = [a.rank, b.rank];
        ranks.sort();
        assert_eq!(ranks, [Rank::King, Rank::Ace]);
    }
}

#[test]
fn combo_cards_decodes_lower_first() {
    assert_eq!(combo_cards(0), (0, 1));
    assert_eq!(combo_cards(50), (0, 51));
    assert_eq!(combo_cards(51), (1, 2));
    assert_eq!(combo_cards(1325), (50, 51));
}

#[test]
fn blocked_combos_match_board() {
    let board = test_board();
    let ranker = ShowdownRanker::new(&board);
    // Every combo that contains any board card must be blocked.
    for combo_idx in 0..N_COMBOS as u16 {
        let (c1, c2) = HandRange::cards_from_index(combo_idx);
        let touches_board = board.iter().any(|b| *b == c1 || *b == c2);
        assert_eq!(ranker.is_blocked(combo_idx), touches_board, "combo {combo_idx} blocked mismatch");
    }
}

#[test]
fn strong_hand_beats_weak_hand() {
    let board = test_board();
    let ranker = ShowdownRanker::new(&board);
    let ah_ad = HandRange::combo_index(card(Rank::Ace, Suit::Hearts), card(Rank::Ace, Suit::Diamonds));
    let three_pair = HandRange::combo_index(card(Rank::Three, Suit::Hearts), card(Rank::Three, Suit::Diamonds));
    let r_aa = ranker.rank(ah_ad).expect("AhAd not blocked");
    let r_33 = ranker.rank(three_pair).expect("3h3d not blocked");
    assert!(r_aa > r_33, "trip aces should beat pocket threes");
}

#[test]
fn ranker_mask_has_both_cards() {
    let ranker = ShowdownRanker::new(&test_board());
    let idx = HandRange::combo_index(Card::from_index(3), Card::from_index(40));
    assert_eq!(ranker.combo_mask(idx), (1u64 << 3) | (1u64 << 40));
    let blocked = HandRange::combo_index(card(Rank::Ace, Suit::Spades), card(Rank::Three, Suit::Clubs));
    assert!(ranker.rank(blocked).is_none());
}

#[test]
fn river_counts_cover_every_other_holding() {
    let ev = HandEvaluator::new();
    let hole = [card(Rank::Ace, Suit::Hearts), card(Rank::Ace, Suit::Spades)];
    let board = [
        card(Rank::Two, Suit::Clubs),
        card(Rank::Five, Suit::Diamonds),
        card(Rank::Seven, Suit::Hearts),
        card(Rank::Nine, Suit::Spades),
        card(Rank::Three, Suit::Clubs),
    ];
    let (wins, ties, total) = river_counts(&ev, hole, &board);
    assert_eq!(total, 45 * 44 / 2);
    let ehs = (wins as f64 + 0.5 * ties as f64) / total as f64;
    assert!(ehs > 0.85, "AA on low board should have EHS > 0.85, got {ehs:.3}");
}

#[test]
fn no_abstraction_buckets_by_combo() {
    let a = NoAbstraction::new(1326);
    let hole = [card(Rank::Ace, Suit::Hearts), card(Rank::King, Suit::Spades)];
    assert_eq!(a.bucket(hole, &[]), HandRange::combo_index(hole[0], hole[1]));
    assert_eq!(a.num_buckets(), 1326);
    assert_eq!(EquityBuckets::new(10).n_buckets, 10);
}

#[test]
fn street_of_board_size() {
    assert_eq!(solve_street(5), Ok(SolveStreet::River));
    assert_eq!(solve_street(4), Ok(SolveStreet::Turn));
    assert_eq!(solve_street(3), Err(VectorSolveError::UnsupportedStreet(3)));
    assert_eq!(
        VectorSolveError::UnsupportedStreet(3).message(),
        "unsupported street: vector CFR currently supports turn (4) and river (5) boards, got 3 cards"
    );
}

#[test]
fn monte_carlo_counts_stay_within_the_rollouts() {
    let ev = poker_odds::eval::HandEvaluator::new();
    let hole = [card(Rank::Ace, Suit::Spades), card(Rank::Ace, Suit::Hearts)];
    let board = [
        card(Rank::Two, Suit::Clubs),
        card(Rank::Seven, Suit::Diamonds),
        card(Rank::Nine, Suit::Spades),
    ];
    let mut rng = rand_xoshiro::Xoshiro256PlusPlus::seed_from_u64(7);
    let (wins, ties) = poker_odds::solver::abstraction::monte_carlo_counts(&ev, hole, &board, &mut rng, 500);
    assert!(wins + ties <= 500);
    // Aces on a low board win most rollouts.
    assert!(wins > 350);
}

#[test]
fn distinct_board_blocks_245_combos() {
    let board = test_board();
    let ranker = ShowdownRanker::new(&board);
    let blocked = (0..N_COMBOS as u16).filter(|&i| ranker.is_blocked(i)).count();
    assert_eq!(blocked, 245);
    let unblocked_ranked = (0..N_COMBOS as u16).filter(|&i| ranker.rank(i).is_some()).count();
    assert_eq!(unblocked_ranked, 1081);
}

#[test]
fn messages_for_rank_run_and_large_board() {
    assert_eq!(
        RangeParseError::InvalidRankRange('5', 'K').message(),
        "invalid rank range '5-K': first rank must be higher"
    );
    assert_eq!(
        VectorSolveError::UnsupportedStreet(12).message(),
        "unsupported street: vector CFR currently supports turn (4) and river (5) boards, got 12 cards"
    );
    assert_eq!(
        VectorSolveError::UnsupportedStreet(0).message(),
        "unsupported street: vector CFR currently supports turn (4) and river (5) boards, got 0 cards"
    );
}
