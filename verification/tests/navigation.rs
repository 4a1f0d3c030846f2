use poker_odds::game::GameVariant;
use poker_odds::tui::keys::Key;
use poker_odds::tui::navigation::{AppCommand, Navigator, Screen};

fn press(n: &mut Navigator, keys: &[Key]) -> Vec<AppCommand> {
    keys.iter().map(|&k| n.handle_key(k)).collect()
}

fn type_text(n: &mut Navigator, text: &str) {
    for c in text.chars() {
        n.handle_key(Key::Char(c));
    }
}

#[test]
fn holdem_hand_goes_to_the_board_then_the_odds() {
    let mut n = Navigator::new();
    assert!(matches!(n.screen, Some(Screen::VariantSelect(_))));
    n.handle_key(Key::Enter);
    assert!(matches!(n.screen, Some(Screen::HoleCards(ref h)) if h.variant == GameVariant::TexasHoldem));
    type_text(&mut n, "AhKh");
    let cmd = n.handle_key(Key::Enter);
    assert!(matches!(cmd, AppCommand::Nothing));
    assert!(matches!(n.screen, Some(Screen::Community(_))));
    let st = n.game_state.as_ref().unwrap();
    assert_eq!(st.hole_cards.len(), 2);
    type_text(&mut n, "QhJhTh");
    let cmd = n.handle_key(Key::Enter);
    assert!(matches!(cmd, AppCommand::RestartSimulation));
    assert!(matches!(n.screen, Some(Screen::OddsDisplay(_))));
    assert_eq!(n.game_state.as_ref().unwrap().community_cards.len(), 3);
    // Next round: the turn.
    n.handle_key(Key::Char('n'));
    assert!(matches!(n.screen, Some(Screen::Community(ref c)) if c.input.slots.len() == 1));
}

#[test]
fn draw_hand_goes_straight_to_the_odds() {
    let mut n = Navigator::new();
    press(&mut n, &[Key::Down, Key::Down, Key::Down]);
    n.handle_key(Key::Enter);
    type_text(&mut n, "AhKhQhJhTh");
    let cmd = n.handle_key(Key::Enter);
    assert!(matches!(cmd, AppCommand::StartSimulation));
    assert!(matches!(n.screen, Some(Screen::OddsDisplay(ref o)) if o.variant == GameVariant::FiveCardDraw));
    // Restart drops the hand.
    let cmd = n.handle_key(Key::Char('r'));
    assert!(matches!(cmd, AppCommand::CancelSimulation));
    assert!(n.game_state.is_none());
    assert!(matches!(n.screen, Some(Screen::VariantSelect(ref v)) if v.selected == 0));
}

#[test]
fn settings_open_over_the_odds_and_save() {
    let mut n = Navigator::new();
    press(&mut n, &[Key::Down, Key::Down, Key::Down, Key::Enter]);
    type_text(&mut n, "AhKhQhJhTh");
    n.handle_key(Key::Enter);
    n.handle_key(Key::Char('s'));
    assert!(matches!(n.screen, Some(Screen::Settings(_, _))));
    // Edit the iterations to 2000 and save.
    n.handle_key(Key::Enter);
    for _ in 0..6 {
        n.handle_key(Key::Backspace);
    }
    type_text(&mut n, "2000");
    n.handle_key(Key::Enter);
    let cmd = n.handle_key(Key::Char('s'));
    assert!(matches!(cmd, AppCommand::RestartSimulation));
    assert_eq!(n.sim_config.iterations, 2000);
    assert!(matches!(n.screen, Some(Screen::OddsDisplay(_))));
}

#[test]
fn solver_screens_round_trip() {
    let mut n = Navigator::new();
    n.handle_key(Key::Char('g'));
    assert!(matches!(n.screen, Some(Screen::SolverConfig(_))));
    // Open the starting pot: the application fills the editor.
    press(&mut n, &[Key::Tab; 6]);
    let cmd = n.handle_key(Key::Enter);
    assert!(matches!(cmd, AppCommand::OpenNumber(_)));
    n.set_config_edit_text(&['1', '0', '0']);
    match &n.screen {
        Some(Screen::SolverConfig(c)) => assert_eq!(c.edit_buffer, vec!['1', '0', '0']),
        _ => panic!("still on the configuration"),
    }
    let cmd = n.handle_key(Key::Enter);
    assert!(matches!(cmd, AppCommand::ApplyNumber(_, ref t) if t.len() == 3));
    let cmd = n.handle_key(Key::Esc);
    assert!(matches!(cmd, AppCommand::Nothing));
    assert!(matches!(n.screen, Some(Screen::VariantSelect(_))));
    assert!(n.allows(Key::Down));
}
