use poker_odds::cards::{Card, Rank, Suit};
use poker_odds::game::{BettingRound, GameState, GameVariant};
use poker_odds::sim::SimConfig;
use poker_odds::tui::card_input::{CardInput, InputState, MultiCardInput};
use poker_odds::tui::keys::Key;
use poker_odds::tui::screens::community::{CommunityAction, CommunityScreen};
use poker_odds::tui::screens::hole_cards::HoleCardsScreen;
use poker_odds::tui::screens::odds_display::{OddsAction, OddsDisplayScreen};
use poker_odds::tui::screens::settings::{
    decimal_chars, parse_decimal, Field, SettingsAction, SettingsScreen,
};
use poker_odds::tui::screens::solver_config::Street;
use poker_odds::tui::screens::solver_results::{SolverResultsAction, SolverResultsScreen};
use poker_odds::tui::screens::variant_select::{VariantSelectResult, VariantSelectScreen};

fn card(r: Rank, s: Suit) -> Card {
    Card::new(r, s)
}

fn chars(s: &str) -> Vec<char> {
    s.chars().collect()
}

fn type_card(m: &mut MultiCardInput, r: char, s: char, used: &[Card]) {
    m.handle_key(Key::Char(r), used);
    m.handle_key(Key::Char(s), used);
}

#[test]
fn card_input_reads_rank_then_suit() {
    let mut c = CardInput::new();
    assert_eq!(c.hint(), "_ _");
    assert_eq!(c.handle_key(Key::Char('k'), &[]), None);
    assert_eq!(c.state, InputState::AwaitingSuit(Rank::King));
    assert_eq!(c.hint(), "K_");
    assert_eq!(c.handle_key(Key::Char('S'), &[]), Some(card(Rank::King, Suit::Spades)));
    assert!(c.is_complete());
    assert_eq!(c.card(), Some(card(Rank::King, Suit::Spades)));
    assert_eq!(c.hint(), "K\u{2660}");
    c.handle_key(Key::Backspace, &[]);
    assert_eq!(c.state, InputState::AwaitingRank);
}

#[test]
fn card_input_refusals() {
    let mut c = CardInput::new();
    c.handle_key(Key::Char('x'), &[]);
    assert_eq!(c.state, InputState::AwaitingRank);
    assert_eq!(c.error.as_deref(), Some("Unknown rank 'x'. Use 2-9, T, J, Q, K, A"));
    c.handle_key(Key::Char('A'), &[]);
    assert!(c.error.is_none());
    c.handle_key(Key::Char('z'), &[]);
    assert_eq!(c.state, InputState::AwaitingSuit(Rank::Ace));
    assert_eq!(c.error.as_deref(), Some("Unknown suit 'z'. Use c, d, h, s"));
    let used = [card(Rank::Ace, Suit::Hearts)];
    assert_eq!(c.handle_key(Key::Char('h'), &used), None);
    assert_eq!(c.state, InputState::AwaitingRank);
    assert_eq!(c.error.as_deref(), Some("A\u{2665} is already in use"));
    c.clear();
    assert!(c.error.is_none());
}

#[test]
fn multi_input_moves_to_next_empty_slot() {
    let mut m = MultiCardInput::new(3, "Board");
    assert_eq!(m.label, "Board");
    type_card(&mut m, 'A', 'h', &[]);
    assert_eq!(m.active_slot, 1);
    type_card(&mut m, 'K', 'd', &[]);
    assert_eq!(m.active_slot, 2);
    assert!(!m.all_complete());
    type_card(&mut m, '2', 'c', &[]);
    assert!(m.all_complete());
    // No empty slot left: the focus stays.
    assert_eq!(m.active_slot, 2);
    assert_eq!(
        m.cards(),
        vec![card(Rank::Ace, Suit::Hearts), card(Rank::King, Suit::Diamonds), card(Rank::Two, Suit::Clubs)]
    );
}

#[test]
fn multi_input_tab_goes_round() {
    let mut m = MultiCardInput::new(3, "x");
    m.handle_key(Key::BackTab, &[]);
    assert_eq!(m.active_slot, 2);
    m.handle_key(Key::Tab, &[]);
    assert_eq!(m.active_slot, 0);
    m.handle_key(Key::Tab, &[]);
    assert_eq!(m.active_slot, 1);
}

#[test]
fn multi_input_skips_filled_slots_and_reports_errors() {
    let mut m = MultiCardInput::new(3, "x");
    m.handle_key(Key::Tab, &[]);
    m.handle_key(Key::Tab, &[]);
    type_card(&mut m, 'Q', 's', &[]);
    // From the last slot the next empty one is the first.
    assert_eq!(m.active_slot, 0);
    m.handle_key(Key::Char('1'), &[]);
    assert_eq!(m.error(), Some("Unknown rank '1'. Use 2-9, T, J, Q, K, A"));
    m.reset();
    assert_eq!(m.active_slot, 0);
    assert!(m.error().is_none());
    assert!(m.cards().is_empty());
}

#[test]
fn empty_multi_input_is_complete() {
    let m = MultiCardInput::new(0, "none");
    assert!(m.all_complete());
    assert!(m.cards().is_empty());
}

fn flop_state() -> GameState {
    let mut s = GameState::new(GameVariant::TexasHoldem);
    s.hole_cards = vec![card(Rank::Ace, Suit::Hearts), card(Rank::Ace, Suit::Spades)];
    s.current_round = BettingRound::Flop;
    s
}

#[test]
fn community_screen_reads_the_round() {
    let state = flop_state();
    let mut sc = CommunityScreen::new(&state);
    assert_eq!(sc.input.slots.len(), 3);
    assert_eq!(sc.input.label, "Flop");
    assert_eq!(sc.all_known, state.hole_cards);
    // Enter before the cards are in goes to the slots.
    assert!(matches!(sc.handle_key(Key::Enter), CommunityAction::Idle));
    // A card already held is refused.
    sc.handle_key(Key::Char('A'));
    sc.handle_key(Key::Char('h'));
    assert_eq!(sc.input.error(), Some("A\u{2665} is already in use"));
    for (r, s) in [('K', 'h'), ('7', 'd'), ('2', 'c')] {
        sc.handle_key(Key::Char(r));
        sc.handle_key(Key::Char(s));
    }
    match sc.handle_key(Key::Enter) {
        CommunityAction::Cards(v) => assert_eq!(
            v,
            vec![card(Rank::King, Suit::Hearts), card(Rank::Seven, Suit::Diamonds), card(Rank::Two, Suit::Clubs)]
        ),
        _ => panic!("expected the cards"),
    }
    assert!(matches!(sc.handle_key(Key::Char('b')), CommunityAction::Back));
}

#[test]
fn community_screen_with_no_cards_continues() {
    let state = GameState::new(GameVariant::TexasHoldem);
    let mut sc = CommunityScreen::new(&state);
    assert_eq!(sc.input.slots.len(), 0);
    match sc.handle_key(Key::Enter) {
        CommunityAction::Cards(v) => assert!(v.is_empty()),
        _ => panic!("expected an empty board step"),
    }
}

#[test]
fn hole_screen_collects_cards_and_opponents() {
    let mut sc = HoleCardsScreen::new(GameVariant::FiveCardDraw);
    assert_eq!(sc.input.slots.len(), 5);
    assert_eq!(sc.opponent_count, 1);
    for (r, s) in [('A', 'h'), ('K', 'h'), ('Q', 'h'), ('J', 'h')] {
        assert_eq!(sc.handle_key(Key::Char(r)), None);
        assert_eq!(sc.handle_key(Key::Char(s)), None);
    }
    // The fifth card may not repeat one already entered.
    sc.handle_key(Key::Char('A'));
    sc.handle_key(Key::Char('h'));
    assert_eq!(sc.input.error(), Some("A\u{2665} is already in use"));
    sc.handle_key(Key::Char('T'));
    sc.handle_key(Key::Char('h'));
    assert!(sc.input.all_complete());
    assert!(!sc.editing_opponents);
    sc.handle_key(Key::Tab);
    assert!(sc.editing_opponents);
    for _ in 0..10 {
        sc.handle_key(Key::Up);
    }
    // Five-card draw seats six: at most five opponents.
    assert_eq!(sc.opponent_count, 5);
    sc.handle_key(Key::Down);
    assert_eq!(sc.opponent_count, 4);
    sc.handle_key(Key::Tab);
    assert!(!sc.editing_opponents);
    let (cards, opp) = sc.handle_key(Key::Enter).unwrap();
    assert_eq!(cards.len(), 5);
    assert_eq!(cards[4], card(Rank::Ten, Suit::Hearts));
    assert_eq!(opp, 4);
    assert_eq!(sc.handle_key(Key::Esc), None);
}

#[test]
fn hole_screen_keeps_at_least_one_opponent() {
    let mut sc = HoleCardsScreen::new(GameVariant::TexasHoldem);
    for (r, s) in [('A', 'h'), ('K', 'h')] {
        sc.handle_key(Key::Char(r));
        sc.handle_key(Key::Char(s));
    }
    sc.handle_key(Key::Tab);
    sc.handle_key(Key::Down);
    assert_eq!(sc.opponent_count, 1);
}

#[test]
fn odds_screen_keys() {
    let sc = OddsDisplayScreen::new(GameVariant::TexasHoldem);
    let mut state = flop_state();
    assert_eq!(sc.handle_key(Key::Enter, &state), OddsAction::NextRound);
    assert_eq!(sc.handle_key(Key::Char('n'), &state), OddsAction::NextRound);
    assert_eq!(sc.handle_key(Key::Char('r'), &state), OddsAction::Restart);
    assert_eq!(sc.handle_key(Key::Esc, &state), OddsAction::Back);
    assert_eq!(sc.handle_key(Key::Char('s'), &state), OddsAction::Settings);
    assert_eq!(sc.handle_key(Key::Char('x'), &state), OddsAction::Idle);
    state.community_cards = vec![
        card(Rank::Two, Suit::Clubs),
        card(Rank::Three, Suit::Clubs),
        card(Rank::Four, Suit::Diamonds),
        card(Rank::Nine, Suit::Spades),
        card(Rank::Jack, Suit::Hearts),
    ];
    // At showdown there is no next round.
    assert_eq!(sc.handle_key(Key::Enter, &state), OddsAction::Idle);
}

#[test]
fn settings_edit_and_save() {
    let mut sc = SettingsScreen::new(SimConfig::default());
    assert_eq!(sc.active_field(), 0);
    sc.handle_key(Key::Enter);
    assert!(sc.is_editing());
    assert_eq!(sc.edit_buffer(), chars("500000").as_slice());
    sc.handle_key(Key::Backspace);
    sc.handle_key(Key::Char('x'));
    sc.handle_key(Key::Char('7'));
    assert_eq!(sc.edit_buffer(), chars("500007").as_slice());
    sc.handle_key(Key::Enter);
    assert!(!sc.is_editing());
    assert_eq!(sc.config.iterations, 500_007);
    match sc.handle_key(Key::Char('s')) {
        SettingsAction::Save(c) => assert_eq!(c.iterations, 500_007),
        _ => panic!("expected save"),
    }
    assert!(matches!(sc.handle_key(Key::Char('q')), SettingsAction::Close));
}

#[test]
fn settings_values_are_brought_into_range() {
    let mut sc = SettingsScreen::new(SimConfig::default());
    // Iterations: at least 1000.
    sc.handle_key(Key::Char('e'));
    for _ in 0..6 {
        sc.handle_key(Key::Backspace);
    }
    sc.handle_key(Key::Char('5'));
    sc.handle_key(Key::Enter);
    assert_eq!(sc.config.iterations, 1000);
    // Exact threshold: at most 1_000_000.
    sc.handle_key(Key::Down);
    sc.handle_key(Key::Enter);
    assert_eq!(sc.edit_buffer(), chars("50000").as_slice());
    for ch in "000".chars() {
        sc.handle_key(Key::Char(ch));
    }
    sc.handle_key(Key::Enter);
    assert_eq!(sc.config.exact_threshold, 1_000_000);
    // Threads: at most 64.
    sc.handle_key(Key::Char('j'));
    sc.handle_key(Key::Char('j'));
    assert_eq!(sc.active_field(), 2);
    sc.handle_key(Key::Enter);
    assert_eq!(sc.edit_buffer(), chars("0").as_slice());
    sc.handle_key(Key::Char('9'));
    sc.handle_key(Key::Char('9'));
    sc.handle_key(Key::Enter);
    assert_eq!(sc.config.threads, 64);
    // An empty text changes nothing; Esc leaves the value as it was.
    sc.handle_key(Key::Enter);
    sc.handle_key(Key::Backspace);
    sc.handle_key(Key::Backspace);
    sc.handle_key(Key::Enter);
    assert_eq!(sc.config.threads, 64);
    sc.handle_key(Key::Enter);
    sc.handle_key(Key::Char('3'));
    sc.handle_key(Key::Esc);
    assert_eq!(sc.config.threads, 64);
    assert!(sc.edit_buffer().is_empty());
    sc.handle_key(Key::Up);
    sc.handle_key(Key::Up);
    sc.handle_key(Key::Up);
    assert_eq!(sc.active_field(), 0);
}

#[test]
fn field_names() {
    assert_eq!(Field::at(0).label(), "Monte Carlo Iterations");
    assert_eq!(Field::at(1), Field::ExactThreshold);
    assert_eq!(Field::at(2).label(), "Threads (0 = auto)");
    assert_eq!(Field::at(1).hint(), "Switch to exact when combinations \u{2264} this value");
}

#[test]
fn decimal_text_round_trips() {
    assert_eq!(decimal_chars(0), chars("0"));
    assert_eq!(decimal_chars(10_000_000), chars("10000000"));
    assert_eq!(parse_decimal(&decimal_chars(u64::MAX)), Some(u64::MAX));
    assert_eq!(parse_decimal(&chars("0042")), Some(42));
    assert_eq!(parse_decimal(&[]), None);
    assert_eq!(parse_decimal(&chars("12a")), None);
    assert_eq!(parse_decimal(&chars("18446744073709551616")), None);
}

#[test]
fn street_cycle() {
    assert_eq!(Street::Flop.next(), Street::Turn);
    assert_eq!(Street::River.next(), Street::Flop);
    assert_eq!(Street::Turn.board_cards(), 4);
    assert_eq!(Street::River.name(), "River");
    assert_eq!(Street::Flop.next().next().next(), Street::Flop);
}

#[test]
fn results_screen_scrolls() {
    let mut sc = SolverResultsScreen::new();
    assert_eq!(sc.handle_key(Key::Up), SolverResultsAction::Idle);
    assert_eq!(sc.scroll_offset(), 0);
    sc.handle_key(Key::Down);
    sc.handle_key(Key::Char('j'));
    assert_eq!(sc.scroll_offset(), 2);
    sc.handle_key(Key::Char('k'));
    assert_eq!(sc.scroll_offset(), 1);
    assert_eq!(sc.handle_key(Key::Char('r')), SolverResultsAction::Reconfigure);
    assert_eq!(sc.handle_key(Key::Esc), SolverResultsAction::Back);
}

#[test]
fn variant_screen_selects() {
    let mut sc = VariantSelectScreen::new();
    assert!(sc.handle_key(Key::Up).is_none());
    assert_eq!(sc.selected, 0);
    sc.handle_key(Key::Down);
    assert!(matches!(
        sc.handle_key(Key::Enter),
        Some(VariantSelectResult::Variant(GameVariant::OmahaHoldem))
    ));
    for _ in 0..10 {
        sc.handle_key(Key::Char('j'));
    }
    assert_eq!(sc.selected, 4);
    assert!(matches!(sc.handle_key(Key::Char(' ')), Some(VariantSelectResult::GtoSolver)));
    sc.handle_key(Key::Char('k'));
    assert!(matches!(
        sc.handle_key(Key::Enter),
        Some(VariantSelectResult::Variant(GameVariant::FiveCardDraw))
    ));
    assert!(matches!(sc.handle_key(Key::Char('g')), Some(VariantSelectResult::GtoSolver)));
}

#[test]
fn settings_enter_twice_keeps_the_value() {
    let mut sc = SettingsScreen::new(SimConfig::default());
    sc.handle_key(Key::Down);
    sc.handle_key(Key::Enter);
    sc.handle_key(Key::Enter);
    assert_eq!(sc.config.exact_threshold, 50_000);
    assert_eq!(sc.config.iterations, 500_000);
}
