use poker_odds::cards::{Card, Rank, Suit};
use poker_odds::game::GameVariant;
use poker_odds::sim::request::{
    parse_range_or_all, prepare_odds_request, prepare_solve_request, validate_card, validate_range,
    OddsRequest,
};

fn request(variant: &str, hole: &[&str], board: &[&str]) -> OddsRequest {
    OddsRequest {
        variant: variant.to_string(),
        hole_cards: hole.iter().map(|s| s.to_string()).collect(),
        community_cards: board.iter().map(|s| s.to_string()).collect(),
        opponent_count: 1,
        iterations: None,
        exact_threshold: None,
        rng_seed: None,
    }
}

fn error_of(req: &OddsRequest) -> String {
    match prepare_odds_request(req) {
        Ok(_) => panic!("the request should be refused"),
        Err(m) => m,
    }
}

#[test]
fn request_with_unknown_variant_is_refused() {
    let m = error_of(&request("badugi", &["Ah", "Kh"], &[]));
    assert_eq!(
        m,
        "Unknown variant 'badugi'. Use one of: texas_holdem, omaha_holdem, seven_card_stud, five_card_draw"
    );
}

#[test]
fn request_with_bad_card_text_is_refused() {
    let m = error_of(&request("texas_holdem", &["Ah", "Xh"], &[]));
    assert_eq!(m, "Invalid card 'Xh': unknown rank 'X'");
    let m = error_of(&request("texas_holdem", &["Ah", "Kh"], &["Qh", "A"]));
    assert_eq!(
        m,
        "Invalid card 'A': invalid card string 'A' \u{2014} expected format like 'Ah', 'Td', '2c'"
    );
    // The first failure in order is the one reported.
    let m = error_of(&request("texas_holdem", &["Ah", "Kz", "1h"], &[]));
    assert_eq!(m, "Invalid card 'Kz': unknown suit 'z'");
}

#[test]
fn request_with_wrong_hole_count_is_refused() {
    let m = error_of(&request("texas_holdem", &["Ah"], &[]));
    assert_eq!(m, "Texas Hold'em requires 2 hole cards, got 1");
    let m = error_of(&request("omaha_holdem", &["Ah", "Kh"], &[]));
    assert_eq!(m, "Omaha Hold'em requires 4 hole cards, got 2");
}

#[test]
fn request_with_duplicate_card_is_refused() {
    let m = error_of(&request("texas_holdem", &["Ah", "Kh"], &["Qd", "ah"]));
    assert_eq!(m, "Duplicate card: A\u{2665}");
}

#[test]
fn request_builds_hand_and_settings() {
    let mut req = request("texas_holdem", &["Ah", " kh "], &["Qh", "Jh", "Th"]);
    req.opponent_count = 0;
    req.iterations = Some(500);
    req.exact_threshold = Some(7);
    req.rng_seed = Some(42);
    let (state, config) = prepare_odds_request(&req).unwrap();
    assert_eq!(state.variant, GameVariant::TexasHoldem);
    assert_eq!(
        state.hole_cards,
        vec![Card::new(Rank::Ace, Suit::Hearts), Card::new(Rank::King, Suit::Hearts)]
    );
    assert_eq!(state.community_cards.len(), 3);
    assert_eq!(state.opponent_count, 1);
    assert_eq!(config.iterations, 1000);
    assert_eq!(config.exact_threshold, 7);
    assert_eq!(config.rng_seed, Some(42));

    req.iterations = Some(5_000_000);
    let (_, config) = prepare_odds_request(&req).unwrap();
    assert_eq!(config.iterations, 2_000_000);
    req.iterations = None;
    req.exact_threshold = None;
    let (_, config) = prepare_odds_request(&req).unwrap();
    assert_eq!(config.iterations, 500_000);
    assert_eq!(config.exact_threshold, 50_000);
}

#[test]
fn card_texts_are_validated() {
    assert!(validate_card("Ah"));
    assert!(validate_card(" td "));
    assert!(!validate_card("1h"));
    assert!(!validate_card("Ahh"));
}

#[test]
fn range_texts_are_counted() {
    assert_eq!(validate_range("AA,KK"), Ok(12));
    assert_eq!(validate_range("AKs"), Ok(4));
    assert_eq!(validate_range("AK"), Ok(16));
    assert_eq!(validate_range("ZZ"), Err("invalid card: unknown rank 'Z'".to_string()));
}

#[test]
fn range_all_or_empty_means_every_hand() {
    assert_eq!(parse_range_or_all("all").unwrap().num_combos(), 1326);
    assert_eq!(parse_range_or_all(" ALL ").unwrap().num_combos(), 1326);
    assert_eq!(parse_range_or_all("").unwrap().num_combos(), 1326);
    assert_eq!(parse_range_or_all("AA").unwrap().num_combos(), 6);
    match parse_range_or_all(" ZZ ") {
        Err(m) => assert_eq!(m, "invalid range ' ZZ ': invalid card: unknown rank 'Z'"),
        Ok(_) => panic!("ZZ is no range"),
    }
}

#[test]
fn solve_request_checks_board_then_ranges() {
    let board = |v: &[&str]| -> Vec<String> { v.iter().map(|s| s.to_string()).collect() };
    match prepare_solve_request(&board(&["Ah", "Kd"]), "all", "all") {
        Err(m) => assert_eq!(m, "unsupported board length 2: expected 3 (flop), 4 (turn) or 5 (river)"),
        Ok(_) => panic!("two cards are no board"),
    }
    match prepare_solve_request(&board(&["Ah", "Kd", "5x"]), "all", "all") {
        Err(m) => assert_eq!(m, "Invalid card '5x': unknown suit 'x'"),
        Ok(_) => panic!("5x is no card"),
    }
    match prepare_solve_request(&board(&["Ah", "Kd", "5c"]), "AA", "ZZ") {
        Err(m) => assert_eq!(m, "invalid range 'ZZ': invalid card: unknown rank 'Z'"),
        Ok(_) => panic!("ZZ is no range"),
    }
    let (cards, oop, ip) = prepare_solve_request(&board(&["Ah", "Kd", "5c", "2s"]), "AA", "").unwrap();
    assert_eq!(cards.len(), 4);
    assert_eq!(oop.num_combos(), 6);
    assert_eq!(ip.num_combos(), 1326);
}
