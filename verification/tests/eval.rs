use poker_odds::cards::{Card, Rank, Suit};
use poker_odds::eval::lookup::{
    build_flush_table, build_pairs_table, build_pairs_vec, build_unique5_table, is_flush,
    is_straight, lookup_pairs, prime_product, rank_mask_of,
};
use poker_odds::eval::{
    best_five_of_n, best_five_of_seven, evaluate_five, evaluate_omaha, HandCategory,
    HandEvaluator, HandValue,
};

fn card(r: Rank, s: Suit) -> Card {
    Card::new(r, s)
}

#[test]
fn royal_flush() {
    let cards = [
        card(Rank::Ace, Suit::Spades),
        card(Rank::King, Suit::Spades),
        card(Rank::Queen, Suit::Spades),
        card(Rank::Jack, Suit::Spades),
        card(Rank::Ten, Suit::Spades),
    ];
    let val = evaluate_five(&cards);
    assert_eq!(val.category(), HandCategory::RoyalFlush);
}

#[test]
fn straight_flush() {
    let cards = [
        card(Rank::Nine, Suit::Hearts),
        card(Rank::Eight, Suit::Hearts),
        card(Rank::Seven, Suit::Hearts),
        card(Rank::Six, Suit::Hearts),
        card(Rank::Five, Suit::Hearts),
    ];
    let val = evaluate_five(&cards);
    assert_eq!(val.category(), HandCategory::StraightFlush);
}

#[test]
fn four_of_a_kind() {
    let cards = [
        card(Rank::Ace, Suit::Spades),
        card(Rank::Ace, Suit::Hearts),
        card(Rank::Ace, Suit::Diamonds),
        card(Rank::Ace, Suit::Clubs),
        card(Rank::King, Suit::Spades),
    ];
    let val = evaluate_five(&cards);
    assert_eq!(val.category(), HandCategory::FourOfAKind);
}

#[test]
fn full_house() {
    let cards = [
        card(Rank::King, Suit::Spades),
        card(Rank::King, Suit::Hearts),
        card(Rank::King, Suit::Diamonds),
        card(Rank::Ace, Suit::Clubs),
        card(Rank::Ace, Suit::Spades),
    ];
    let val = evaluate_five(&cards);
    assert_eq!(val.category(), HandCategory::FullHouse);
}

#[test]
fn flush() {
    let cards = [
        card(Rank::Ace, Suit::Hearts),
        card(Rank::Jack, Suit::Hearts),
        card(Rank::Nine, Suit::Hearts),
        card(Rank::Six, Suit::Hearts),
        card(Rank::Two, Suit::Hearts),
    ];
    let val = evaluate_five(&cards);
    assert_eq!(val.category(), HandCategory::Flush);
}

#[test]
fn straight() {
    let cards = [
        card(Rank::Nine, Suit::Spades),
        card(Rank::Eight, Suit::Hearts),
        card(Rank::Seven, Suit::Diamonds),
        card(Rank::Six, Suit::Clubs),
        card(Rank::Five, Suit::Spades),
    ];
    let val = evaluate_five(&cards);
    assert_eq!(val.category(), HandCategory::Straight);
}

#[test]
fn wheel_straight() {
    let cards = [
        card(Rank::Ace, Suit::Spades),
        card(Rank::Two, Suit::Hearts),
        card(Rank::Three, Suit::Diamonds),
        card(Rank::Four, Suit::Clubs),
        card(Rank::Five, Suit::Spades),
    ];
    let val = evaluate_five(&cards);
    assert_eq!(val.category(), HandCategory::Straight);
}

#[test]
fn two_pair() {
    let cards = [
        card(Rank::Ace, Suit::Spades),
        card(Rank::Ace, Suit::Hearts),
        card(Rank::King, Suit::Diamonds),
        card(Rank::King, Suit::Clubs),
        card(Rank::Queen, Suit::Spades),
    ];
    let val = evaluate_five(&cards);
    assert_eq!(val.category(), HandCategory::TwoPair);
}

#[test]
fn one_pair() {
    let cards = [
        card(Rank::Ace, Suit::Spades),
        card(Rank::Ace, Suit::Hearts),
        card(Rank::King, Suit::Diamonds),
        card(Rank::Queen, Suit::Clubs),
        card(Rank::Jack, Suit::Spades),
    ];
    let val = evaluate_five(&cards);
    assert_eq!(val.category(), HandCategory::OnePair);
}

#[test]
fn high_card() {
    let cards = [
        card(Rank::Ace, Suit::Spades),
        card(Rank::King, Suit::Hearts),
        card(Rank::Queen, Suit::Diamonds),
        card(Rank::Jack, Suit::Clubs),
        card(Rank::Nine, Suit::Spades),
    ];
    let val = evaluate_five(&cards);
    assert_eq!(val.category(), HandCategory::HighCard);
}

#[test]
fn best_of_seven() {
    // Player has two pair but board gives a full house
    let cards = [
        card(Rank::King, Suit::Spades),
        card(Rank::King, Suit::Hearts),
        card(Rank::King, Suit::Diamonds),
        card(Rank::Ace, Suit::Clubs),
        card(Rank::Ace, Suit::Spades),
        card(Rank::Two, Suit::Clubs),
        card(Rank::Three, Suit::Diamonds),
    ];
    let val = best_five_of_seven(&cards);
    assert_eq!(val.category(), HandCategory::FullHouse);
}

#[test]
fn hand_ordering() {
    let rf = evaluate_five(&[
        card(Rank::Ace, Suit::Spades),
        card(Rank::King, Suit::Spades),
        card(Rank::Queen, Suit::Spades),
        card(Rank::Jack, Suit::Spades),
        card(Rank::Ten, Suit::Spades),
    ]);
    let sf = evaluate_five(&[
        card(Rank::Nine, Suit::Hearts),
        card(Rank::Eight, Suit::Hearts),
        card(Rank::Seven, Suit::Hearts),
        card(Rank::Six, Suit::Hearts),
        card(Rank::Five, Suit::Hearts),
    ]);
    let foak = evaluate_five(&[
        card(Rank::Ace, Suit::Spades),
        card(Rank::Ace, Suit::Hearts),
        card(Rank::Ace, Suit::Diamonds),
        card(Rank::Ace, Suit::Clubs),
        card(Rank::King, Suit::Spades),
    ]);
    assert!(rf > sf);
    assert!(sf > foak);
}

#[test]
fn tables_initialize() {
    let _ = build_unique5_table();
    let _ = build_flush_table();
    let _ = build_pairs_table();
}

#[test]
fn pairs_table_one_pair_count() {
    let table = build_pairs_table();
    let op_count = table.iter().filter(|&&(_, v)| (3326..=6185).contains(&v)).count();
    assert_eq!(op_count, 2860, "expected 2860 one-pair hands, got {op_count}");
}

#[test]
fn pairs_table_total_count() {
    assert_eq!(build_pairs_table().len(), 4888, "expected 4888 paired hands");
}

#[test]
fn pairs_table_is_sorted() {
    let table = build_pairs_table();
    for w in table.windows(2) {
        assert!(w[0].0 < w[1].0, "pairs table not sorted at product {}", w[0].0);
    }
}

#[test]
fn exact_values_at_the_ends_of_the_scale() {
    let royal = evaluate_five(&[
        card(Rank::Ten, Suit::Clubs),
        card(Rank::Jack, Suit::Clubs),
        card(Rank::Queen, Suit::Clubs),
        card(Rank::King, Suit::Clubs),
        card(Rank::Ace, Suit::Clubs),
    ]);
    assert_eq!(royal, HandValue(7462));
    let worst = evaluate_five(&[
        card(Rank::Seven, Suit::Clubs),
        card(Rank::Five, Suit::Diamonds),
        card(Rank::Four, Suit::Hearts),
        card(Rank::Three, Suit::Spades),
        card(Rank::Two, Suit::Clubs),
    ]);
    assert_eq!(worst, HandValue(1));
    let aces_full_of_kings = evaluate_five(&[
        card(Rank::Ace, Suit::Clubs),
        card(Rank::Ace, Suit::Diamonds),
        card(Rank::Ace, Suit::Hearts),
        card(Rank::King, Suit::Spades),
        card(Rank::King, Suit::Clubs),
    ]);
    assert_eq!(aces_full_of_kings, HandValue(7463 - 167));
    let quad_aces_king = evaluate_five(&[
        card(Rank::Ace, Suit::Clubs),
        card(Rank::Ace, Suit::Diamonds),
        card(Rank::Ace, Suit::Hearts),
        card(Rank::Ace, Suit::Spades),
        card(Rank::King, Suit::Clubs),
    ]);
    assert_eq!(quad_aces_king, HandValue(7463 - 11));
}

#[test]
fn order_of_cards_does_not_matter() {
    let a = [
        card(Rank::Ace, Suit::Spades),
        card(Rank::Ten, Suit::Hearts),
        card(Rank::Ten, Suit::Diamonds),
        card(Rank::Four, Suit::Clubs),
        card(Rank::Nine, Suit::Spades),
    ];
    let b = [a[3], a[1], a[4], a[0], a[2]];
    assert_eq!(evaluate_five(&a), evaluate_five(&b));
}

#[test]
fn kickers_break_ties_within_a_category() {
    let ev = HandEvaluator::new();
    let pair_aces_king = ev.evaluate_five(&[
        card(Rank::Ace, Suit::Spades),
        card(Rank::Ace, Suit::Hearts),
        card(Rank::King, Suit::Diamonds),
        card(Rank::Four, Suit::Clubs),
        card(Rank::Two, Suit::Spades),
    ]);
    let pair_aces_queen = ev.evaluate_five(&[
        card(Rank::Ace, Suit::Spades),
        card(Rank::Ace, Suit::Hearts),
        card(Rank::Queen, Suit::Diamonds),
        card(Rank::Jack, Suit::Clubs),
        card(Rank::Ten, Suit::Spades),
    ]);
    assert!(pair_aces_king > pair_aces_queen);
    assert_eq!(pair_aces_king.category(), HandCategory::OnePair);
}

#[test]
fn best_of_n_and_seven_agree() {
    let cards = [
        card(Rank::Two, Suit::Hearts),
        card(Rank::Nine, Suit::Hearts),
        card(Rank::King, Suit::Hearts),
        card(Rank::Four, Suit::Hearts),
        card(Rank::Ace, Suit::Clubs),
        card(Rank::Jack, Suit::Hearts),
        card(Rank::Ace, Suit::Diamonds),
    ];
    let seven = best_five_of_seven(&cards);
    let n = best_five_of_n(&cards);
    assert_eq!(seven, n);
    assert_eq!(seven.category(), HandCategory::Flush);
    let five = best_five_of_n(&cards[..5]);
    assert_eq!(five, evaluate_five(&[cards[0], cards[1], cards[2], cards[3], cards[4]]));
}

#[test]
fn omaha_must_use_two_hole_cards() {
    // Four hearts in hand and one on the board: no flush, since only two hole
    // cards may play.
    let hole = [
        card(Rank::Ace, Suit::Hearts),
        card(Rank::King, Suit::Hearts),
        card(Rank::Queen, Suit::Hearts),
        card(Rank::Jack, Suit::Hearts),
    ];
    let board = [
        card(Rank::Two, Suit::Hearts),
        card(Rank::Seven, Suit::Clubs),
        card(Rank::Eight, Suit::Diamonds),
        card(Rank::Three, Suit::Spades),
        card(Rank::Nine, Suit::Clubs),
    ];
    let v = evaluate_omaha(&hole, &board);
    assert_eq!(v.category(), HandCategory::HighCard);
    // With four board cards of one suit, two suited hole cards make a flush.
    let board2 = [
        card(Rank::Two, Suit::Spades),
        card(Rank::Seven, Suit::Spades),
        card(Rank::Eight, Suit::Spades),
        card(Rank::Three, Suit::Diamonds),
        card(Rank::Nine, Suit::Clubs),
    ];
    let hole2 = [
        card(Rank::Ace, Suit::Spades),
        card(Rank::King, Suit::Spades),
        card(Rank::Queen, Suit::Hearts),
        card(Rank::Jack, Suit::Hearts),
    ];
    assert_eq!(evaluate_omaha(&hole2, &board2).category(), HandCategory::Flush);
}

#[test]
fn lookup_helpers() {
    let cards = [
        card(Rank::Ace, Suit::Spades),
        card(Rank::Ace, Suit::Hearts),
        card(Rank::King, Suit::Diamonds),
        card(Rank::King, Suit::Clubs),
        card(Rank::Queen, Suit::Spades),
    ];
    assert_eq!(rank_mask_of(&cards), (1 << 12) | (1 << 11) | (1 << 10));
    assert!(!is_flush(&cards));
    assert_eq!(prime_product(&cards), 41 * 41 * 37 * 37 * 31);
    assert!(is_straight(7936));
    assert!(is_straight(4111));
    assert!(!is_straight(7935));
    let table = build_pairs_table();
    assert_eq!(lookup_pairs(&table, 41 * 41 * 37 * 37 * 31), 2468);
    assert_eq!(build_pairs_vec().len(), 4888);
}

#[test]
fn flush_and_unique_tables_hold_cactus_kev_ranks() {
    let flush = build_flush_table();
    let unique = build_unique5_table();
    assert_eq!(flush[7936], 1);
    assert_eq!(unique[7936], 1600);
    assert_eq!(flush[4111], 10);
    assert_eq!(unique[4111], 1609);
    assert_eq!(flush[0b1_1110_1000_0000], 323);
    assert_eq!(unique[0b1_1110_1000_0000], 6186);
    assert_eq!(unique[3], 0);
}

#[test]
fn category_names_and_boundaries() {
    assert_eq!(HandCategory::RoyalFlush.name(), "Royal Flush");
    assert_eq!(HandCategory::ThreeOfAKind.name(), "Three of a Kind");
    assert_eq!(HandValue(7462).category(), HandCategory::RoyalFlush);
    assert_eq!(HandValue(7461).category(), HandCategory::StraightFlush);
    assert_eq!(HandValue(7452).category(), HandCategory::FourOfAKind);
    assert_eq!(HandValue(1277).category(), HandCategory::HighCard);
    assert_eq!(HandValue(1278).category(), HandCategory::OnePair);
    assert_eq!(HandValue::from_cactus_kev(1), HandValue(7462));
}

#[test]
fn best_of_five_is_the_hand() {
    let cards = [
        card(Rank::Nine, Suit::Clubs),
        card(Rank::Nine, Suit::Hearts),
        card(Rank::Four, Suit::Spades),
        card(Rank::Four, Suit::Diamonds),
        card(Rank::Ace, Suit::Clubs),
    ];
    assert_eq!(best_five_of_n(&cards), evaluate_five(&cards));
}

/// The poker category of five cards, counted directly.
fn naive_category(h: &[Card; 5]) -> HandCategory {
    let mut counts = [0usize; 13];
    for c in h {
        counts[c.rank.index() as usize] += 1;
    }
    let flush = h.iter().all(|c| c.suit == h[0].suit);
    let mut ranks: Vec<usize> = (0..13).filter(|&r| counts[r] > 0).collect();
    ranks.sort();
    let straight = ranks.len() == 5
        && (ranks[4] - ranks[0] == 4 || ranks == vec![0, 1, 2, 3, 12]);
    let n = |k: usize| counts.iter().filter(|&&c| c == k).count();
    if flush && straight {
        if ranks[0] == 8 {
            HandCategory::RoyalFlush
        } else {
            HandCategory::StraightFlush
        }
    } else if n(4) == 1 {
        HandCategory::FourOfAKind
    } else if n(3) == 1 && n(2) == 1 {
        HandCategory::FullHouse
    } else if flush {
        HandCategory::Flush
    } else if straight {
        HandCategory::Straight
    } else if n(3) == 1 {
        HandCategory::ThreeOfAKind
    } else if n(2) == 2 {
        HandCategory::TwoPair
    } else if n(2) == 1 {
        HandCategory::OnePair
    } else {
        HandCategory::HighCard
    }
}

#[test]
fn categories_match_the_cards() {
    let ev = HandEvaluator::new();
    // Nine to ace, and the deuce, in every suit.
    let pool: Vec<Card> = (0..52u8)
        .map(Card::from_index)
        .filter(|c| c.rank.index() >= 7 || c.rank.index() == 0)
        .collect();
    let n = pool.len();
    let mut seen = std::collections::HashSet::new();
    for a in 0..n {
        for b in a + 1..n {
            for c in b + 1..n {
                for d in c + 1..n {
                    for e in d + 1..n {
                        let h = [pool[a], pool[b], pool[c], pool[d], pool[e]];
                        let cat = ev.evaluate_five(&h).category();
                        assert_eq!(cat, naive_category(&h));
                        seen.insert(cat);
                    }
                }
            }
        }
    }
    assert_eq!(seen.len(), 10);
}

fn parse_all(s: &[&str]) -> Vec<Card> {
    s.iter().map(|t| Card::from_str(t).unwrap()).collect()
}

fn five(v: &[Card]) -> [Card; 5] {
    [v[0], v[1], v[2], v[3], v[4]]
}

#[test]
fn is_flush_matches_flush_categories() {
    let hands = [
        ["Ah", "Kh", "Qh", "Jh", "Th"],
        ["9c", "8c", "7c", "6c", "5c"],
        ["Ad", "9d", "7d", "4d", "2d"],
        ["Ah", "Kh", "Qh", "Jh", "Ts"],
        ["As", "Ad", "Ah", "Ac", "Kd"],
        ["2c", "3d", "4h", "5s", "6c"],
        ["Kc", "Kd", "7h", "7s", "2c"],
    ];
    for h in hands.iter() {
        let cards = five(&parse_all(h));
        let cat = evaluate_five(&cards).category();
        let flush_cat = cat == HandCategory::Flush
            || cat == HandCategory::StraightFlush
            || cat == HandCategory::RoyalFlush;
        assert_eq!(is_flush(&cards), flush_cat, "{:?}", h);
    }
}

#[test]
fn renaming_suits_keeps_value() {
    let h = parse_all(&["Ah", "Kh", "Qh", "9s", "2d"]);
    let renamed = parse_all(&["Ac", "Kc", "Qc", "9h", "2s"]);
    assert_eq!(evaluate_five(&five(&h)), evaluate_five(&five(&renamed)));
    let flush = parse_all(&["Ah", "Jh", "8h", "6h", "3h"]);
    let flush_renamed = parse_all(&["As", "Js", "8s", "6s", "3s"]);
    assert_eq!(evaluate_five(&five(&flush)), evaluate_five(&five(&flush_renamed)));
}

#[test]
fn reordering_seven_cards_keeps_best() {
    let a = parse_all(&["Ah", "Kd", "Qs", "Jc", "Th", "2d", "3c"]);
    let order = [6usize, 2, 4, 0, 5, 1, 3];
    let b: Vec<Card> = order.iter().map(|&i| a[i]).collect();
    let a7 = [a[0], a[1], a[2], a[3], a[4], a[5], a[6]];
    let b7 = [b[0], b[1], b[2], b[3], b[4], b[5], b[6]];
    assert_eq!(best_five_of_seven(&a7), best_five_of_seven(&b7));
    assert_eq!(best_five_of_n(&a), best_five_of_n(&b));
    assert_eq!(best_five_of_seven(&a7).category(), HandCategory::Straight);
}

#[test]
fn reordering_omaha_hole_and_board_keeps_best() {
    let hole = parse_all(&["Ah", "Kh", "2c", "7d"]);
    let board = parse_all(&["Qh", "Jh", "3h", "9s", "4d"]);
    let hole2 = [hole[3], hole[1], hole[0], hole[2]];
    let board2 = [board[4], board[2], board[0], board[3], board[1]];
    let h4 = [hole[0], hole[1], hole[2], hole[3]];
    let v1 = evaluate_omaha(&h4, &five(&board));
    let v2 = evaluate_omaha(&hole2, &board2);
    assert_eq!(v1, v2);
    assert_eq!(v1.category(), HandCategory::Flush);
}

#[test]
fn omaha_never_beats_free_choice() {
    let hole = parse_all(&["Ah", "As", "Ad", "2c"]);
    let board = parse_all(&["Ac", "Kh", "Kd", "7s", "3c"]);
    let mut nine = hole.clone();
    nine.extend(board.iter().copied());
    let omaha = evaluate_omaha(&[hole[0], hole[1], hole[2], hole[3]], &five(&board));
    let free = best_five_of_n(&nine);
    assert!(omaha <= free);
    assert_eq!(free.category(), HandCategory::FourOfAKind);
    assert_eq!(omaha.category(), HandCategory::FullHouse);
}

#[test]
fn suits_never_break_ties() {
    let a = parse_all(&["Kh", "Kd", "9s", "7c", "3h"]);
    let b = parse_all(&["Ks", "Kc", "9h", "7d", "3s"]);
    assert_eq!(evaluate_five(&five(&a)), evaluate_five(&five(&b)));
}

#[test]
fn highest_differing_rank_decides_high_cards() {
    let lower = parse_all(&["Ah", "Qd", "9s", "7c", "3h"]);
    let higher = parse_all(&["As", "Qc", "9h", "8d", "2s"]);
    assert!(evaluate_five(&five(&lower)) < evaluate_five(&five(&higher)));
    assert_eq!(evaluate_five(&five(&higher)).category(), HandCategory::HighCard);
}

#[test]
fn higher_straight_wins_and_wheel_is_lowest() {
    let wheel = parse_all(&["Ah", "2d", "3s", "4c", "5h"]);
    let six_high = parse_all(&["2h", "3d", "4s", "5c", "6h"]);
    let broadway = parse_all(&["Ah", "Kd", "Qs", "Jc", "Th"]);
    let w = evaluate_five(&five(&wheel));
    let s = evaluate_five(&five(&six_high));
    let b = evaluate_five(&five(&broadway));
    assert!(w < s && s < b);
}

#[test]
fn paired_hands_compare_group_then_kickers() {
    let trips_low_kick = parse_all(&["Kh", "Kd", "Ks", "7c", "3h"]);
    let trips_high_kick = parse_all(&["Kh", "Kd", "Kc", "8c", "2h"]);
    let lower_trips = parse_all(&["Qh", "Qd", "Qs", "Ac", "Jh"]);
    let a = evaluate_five(&five(&trips_low_kick));
    let b = evaluate_five(&five(&trips_high_kick));
    let c = evaluate_five(&five(&lower_trips));
    assert!(c < a && a < b);
}
