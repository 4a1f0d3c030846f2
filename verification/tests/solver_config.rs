use poker_odds::cards::{Card, Rank, Suit};
use poker_odds::solver::cfr::CfrAlgorithm;
use poker_odds::solver::range::{range_text_panics, HandRange};
use poker_odds::tui::keys::Key;
use poker_odds::tui::screens::solver_config::{
    Field, SolverConfigAction, SolverConfigScreen, Street, FIELD_COUNT,
};

fn press(s: &mut SolverConfigScreen, keys: &[Key]) -> Vec<SolverConfigAction> {
    keys.iter().map(|&k| s.handle_key(k)).collect()
}

fn type_text(s: &mut SolverConfigScreen, text: &str) {
    for c in text.chars() {
        s.handle_key(Key::Char(c));
    }
}

fn buffer(s: &SolverConfigScreen) -> String {
    s.edit_buffer.iter().collect()
}

fn focus(s: &mut SolverConfigScreen, field: usize) {
    while s.active_field != field {
        s.handle_key(Key::Tab);
    }
}

#[test]
fn config_screen_starts_on_a_river_solve() {
    let s = SolverConfigScreen::new();
    assert_eq!(s.active_field, 0);
    assert_eq!(s.street, Street::River);
    assert_eq!(s.board_input.slots.len(), 5);
    assert_eq!(s.algorithm, CfrAlgorithm::CfrPlus);
    assert_eq!(s.iterations, 1000);
    assert_eq!(s.max_raises, 2);
    assert!(!s.editing);
    assert!(s.error.is_none());
}

#[test]
fn config_screen_tab_goes_round() {
    let mut s = SolverConfigScreen::new();
    s.handle_key(Key::BackTab);
    assert_eq!(s.active_field, FIELD_COUNT - 1);
    s.handle_key(Key::Tab);
    assert_eq!(s.active_field, 0);
    s.handle_key(Key::Up);
    assert_eq!(s.active_field, 0);
    s.handle_key(Key::Char('j'));
    assert_eq!(s.active_field, 1);
    // On the board, Down goes to the card slots and the focus stays.
    s.handle_key(Key::Down);
    assert_eq!(s.active_field, 1);
    s.handle_key(Key::Tab);
    s.handle_key(Key::Char('k'));
    assert_eq!(s.active_field, 1);
}

#[test]
fn config_screen_street_and_algorithm_toggle() {
    let mut s = SolverConfigScreen::new();
    s.handle_key(Key::Enter);
    assert_eq!(s.street, Street::Flop);
    assert_eq!(s.board_input.slots.len(), 3);
    s.handle_key(Key::Char('e'));
    assert_eq!(s.street, Street::Turn);
    assert_eq!(s.board_input.slots.len(), 4);
    focus(&mut s, 4);
    s.handle_key(Key::Enter);
    assert_eq!(s.algorithm, CfrAlgorithm::Dcfr);
    s.handle_key(Key::Enter);
    assert_eq!(s.algorithm, CfrAlgorithm::CfrPlus);
}

#[test]
fn config_screen_board_entry_and_run() {
    let mut s = SolverConfigScreen::new();
    // An incomplete board: the screen says how many cards it needs.
    let r = s.handle_key(Key::Char('r'));
    assert!(matches!(r, SolverConfigAction::Idle));
    assert_eq!(
        s.error.as_deref(),
        Some("Enter all 5 board cards for River solve")
    );
    focus(&mut s, 1);
    for c in "AsKhQd7c2s".chars() {
        s.handle_key(Key::Char(c));
    }
    assert!(s.board_input.all_complete());
    s.handle_key(Key::Enter);
    assert_eq!(s.active_field, 2);
    let r = s.handle_key(Key::Char('r'));
    match r {
        SolverConfigAction::Run(req) => {
            assert_eq!(
                req.board,
                vec![
                    Card::new(Rank::Ace, Suit::Spades),
                    Card::new(Rank::King, Suit::Hearts),
                    Card::new(Rank::Queen, Suit::Diamonds),
                    Card::new(Rank::Seven, Suit::Clubs),
                    Card::new(Rank::Two, Suit::Spades),
                ]
            );
            assert_eq!(req.iterations, 1000);
            assert_eq!(req.street, Street::River);
            assert_eq!(req.algorithm, CfrAlgorithm::CfrPlus);
        }
        _ => panic!("a complete board should ask for the solve"),
    }
}

#[test]
fn config_screen_range_editing() {
    let mut s = SolverConfigScreen::new();
    focus(&mut s, 2);
    s.handle_key(Key::Enter);
    assert!(s.editing);
    type_text(&mut s, " AA,KK! ");
    assert_eq!(buffer(&s), " AA,KK ");
    s.handle_key(Key::Enter);
    assert!(!s.editing);
    assert_eq!(s.range_oop, "AA,KK");
    assert!(s.error.is_none());

    // Reopening starts from the kept text; an invalid range keeps the old value.
    s.handle_key(Key::Enter);
    assert_eq!(buffer(&s), "AA,KK");
    press(&mut s, &[Key::Backspace; 5]);
    type_text(&mut s, "ZZ");
    s.handle_key(Key::Enter);
    assert_eq!(s.range_oop, "AA,KK");
    assert_eq!(s.error.as_deref(), Some("Invalid OOP range: invalid card: unknown rank 'Z'"));

    // Empty text clears the range.
    s.handle_key(Key::Tab);
    s.handle_key(Key::Enter);
    type_text(&mut s, "QQ-TT");
    s.handle_key(Key::Enter);
    assert_eq!(s.range_ip, "QQ-TT");
    assert!(s.error.is_none());
    s.handle_key(Key::Enter);
    press(&mut s, &[Key::Backspace; 5]);
    s.handle_key(Key::Enter);
    assert_eq!(s.range_ip, "");
}

#[test]
fn config_screen_whole_number_fields() {
    let mut s = SolverConfigScreen::new();
    focus(&mut s, 5);
    s.handle_key(Key::Enter);
    assert_eq!(buffer(&s), "1000");
    press(&mut s, &[Key::Backspace; 4]);
    type_text(&mut s, "5x");
    assert_eq!(buffer(&s), "5");
    s.handle_key(Key::Enter);
    assert_eq!(s.iterations, 10);
    s.handle_key(Key::Enter);
    type_text(&mut s, "0000000");
    s.handle_key(Key::Enter);
    assert_eq!(s.iterations, 1_000_000);
    // Text that is no number leaves the value.
    s.handle_key(Key::Enter);
    type_text(&mut s, ".5");
    s.handle_key(Key::Enter);
    assert_eq!(s.iterations, 1_000_000);

    focus(&mut s, 10);
    s.handle_key(Key::Enter);
    assert_eq!(buffer(&s), "2");
    s.handle_key(Key::Backspace);
    type_text(&mut s, "9");
    s.handle_key(Key::Enter);
    assert_eq!(s.max_raises, 5);
    // Esc closes the editor without applying it.
    s.handle_key(Key::Enter);
    s.handle_key(Key::Backspace);
    type_text(&mut s, "1");
    s.handle_key(Key::Esc);
    assert_eq!(s.max_raises, 5);
    assert!(!s.editing);
}

#[test]
fn config_screen_hands_fractional_fields_to_the_application() {
    let mut s = SolverConfigScreen::new();
    focus(&mut s, 6);
    let r = s.handle_key(Key::Enter);
    assert!(matches!(r, SolverConfigAction::OpenNumber(Field::StartingPot)));
    assert!(s.editing);
    assert!(s.edit_buffer.is_empty());
    s.set_edit_text(&['1', '0', '0']);
    type_text(&mut s, ".5");
    let r = s.handle_key(Key::Enter);
    match r {
        SolverConfigAction::ApplyNumber(f, text) => {
            assert_eq!(f, Field::StartingPot);
            assert_eq!(text.iter().collect::<String>(), "100.5");
        }
        _ => panic!("the text should go to the application"),
    }
    assert!(!s.editing);
    assert!(s.edit_buffer.is_empty());
}

#[test]
fn config_screen_esc_goes_back() {
    let mut s = SolverConfigScreen::new();
    assert!(matches!(s.handle_key(Key::Esc), SolverConfigAction::Back));
    s.handle_key(Key::Tab);
    assert!(matches!(s.handle_key(Key::Esc), SolverConfigAction::Back));
}

#[test]
fn config_field_labels() {
    assert_eq!(Field::at(0), Field::Street);
    assert_eq!(Field::at(10), Field::MaxRaises);
    assert_eq!(Field::BetSizes.label(), "Bet Sizes (% of pot)");
    assert!(Field::RangeIP.is_text_edit());
    assert!(Field::EffectiveStack.is_number());
    assert!(!Field::Iterations.is_number());
}

#[test]
fn bad_range_tokens_are_found_before_parsing() {
    assert!(range_text_panics("2c2c"));
    assert!(range_text_panics("AA, 2c2c"));
    assert!(range_text_panics("23s-22"));
    assert!(!range_text_panics("AA,KK"));
    // A failure before the bad token stops the parse first.
    assert!(!range_text_panics("ZZ,2c2c"));
    assert!(HandRange::from_str("ZZ,2c2c").is_err());
}

#[test]
fn range_error_messages() {
    let e = HandRange::from_str("ZZ").unwrap_err();
    assert_eq!(e.message(), "invalid card: unknown rank 'Z'");
    let e = HandRange::from_str("AKx").unwrap_err();
    assert_eq!(e.message(), "invalid range token 'AKx'");
}

#[test]
fn config_screen_reopening_a_number_keeps_it() {
    let mut s = SolverConfigScreen::new();
    focus(&mut s, 5);
    s.handle_key(Key::Enter);
    s.handle_key(Key::Enter);
    assert_eq!(s.iterations, 1000);
    focus(&mut s, 10);
    s.handle_key(Key::Enter);
    s.handle_key(Key::Enter);
    assert_eq!(s.max_raises, 2);
    assert!(!s.editing);
}
