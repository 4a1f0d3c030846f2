//! Moving between the screens of the terminal front end: which screen a key
//! leads to, how the hand and the settings change on the way, and what the
//! application is asked to do (start or stop the simulation, handle a
//! fractional setting, run the solver).

use crate::cards::card::Card;
use crate::game::state::GameState;
use crate::game::variant::{variant_rounds, GameVariant};
use crate::sim::config::SimConfig;
use crate::tui::card_input::InputState;
use crate::tui::keys::Key;
use crate::tui::screens::community::{community_key_effect, CommunityAction, CommunityScreen};
use crate::tui::screens::hole_cards::{hole_key_effect, HoleCardsScreen};
use crate::tui::screens::odds_display::{odds_action, OddsAction, OddsDisplayScreen};
use crate::tui::screens::settings::{settings_key_effect, SettingsAction, SettingsScreen};
use crate::tui::screens::solver_config::{
    browse_effect, edit_effect, enter_reaches_bad_range, fresh_board, Field, SolverConfigAction,
    SolverConfigScreen, SolverRequest, Street, FIELD_COUNT,
};
use crate::tui::screens::solver_results::{
    results_key_effect, SolverResultsAction, SolverResultsScreen,
};
use crate::tui::screens::variant_select::{
    variant_key_effect, VariantSelectResult, VariantSelectScreen,
};
use crate::solver::cfr::CfrAlgorithm;
use vstd::prelude::*;

verus! {

/// The screen shown.
pub enum Screen {
    VariantSelect(VariantSelectScreen),
    HoleCards(HoleCardsScreen),
    Community(CommunityScreen),
    OddsDisplay(OddsDisplayScreen),
    /// The settings, over the screen they were opened from.
    Settings(SettingsScreen, Box<Screen>),
    SolverConfig(SolverConfigScreen),
    SolverResults(SolverResultsScreen),
}

/// What the application does after a key, besides showing the new screen.
pub enum AppCommand {
    Nothing,
    /// Start simulating the current hand.
    StartSimulation,
    /// Stop the running simulation and start simulating the current hand.
    RestartSimulation,
    /// Stop the running simulation.
    CancelSimulation,
    /// Put the text of a fractional setting in the open editor (see
    /// `Navigator::set_config_edit_text`).
    OpenNumber(Field),
    /// Read the edited text of a fractional setting.
    ApplyNumber(Field, Vec<char>),
    /// Run the solver.
    RunSolver(SolverRequest),
}

/// The screen shown, the hand being played and the simulation settings.
pub struct Navigator {
    pub screen: Option<Screen>,
    pub game_state: Option<GameState>,
    pub sim_config: SimConfig,
}

/// `s` is the opening screen with focus on the first entry.
pub open spec fn fresh_opening(s: Option<Screen>) -> bool {
    s matches Some(Screen::VariantSelect(v)) && v.selected == 0
}

/// `h` is an empty hole-card screen for variant `v`.
pub open spec fn fresh_hole_screen(h: HoleCardsScreen, v: GameVariant) -> bool {
    &&& h.variant == v
    &&& h.input.slots@.len() == v.spec_hole_card_count()
    &&& forall|i: int|
        0 <= i < h.input.slots@.len() ==> (#[trigger] h.input.slots@[i]).state
            == InputState::AwaitingRank && h.input.slots@[i].error is None
    &&& h.input.active_slot == 0
    &&& h.input.label@ == "Your Hole Cards"@
    &&& h.opponent_count == 1
    &&& !h.editing_opponents
}

/// `c` is an empty board screen for the round of hand `st`.
pub open spec fn community_screen_for(c: CommunityScreen, st: GameState) -> bool {
    &&& c.round == st.current_round
    &&& c.variant == st.variant
    &&& c.existing_community@ == st.community_cards@
    &&& c.all_known@ == st.hole_cards@ + st.community_cards@
    &&& c.input.slots@.len() == st.current_round.spec_revealed()
    &&& forall|i: int|
        0 <= i < c.input.slots@.len() ==> (#[trigger] c.input.slots@[i]).state
            == InputState::AwaitingRank && c.input.slots@[i].error is None
    &&& c.input.active_slot == 0
    &&& c.input.label@ == st.current_round.spec_name()
}

/// `s` is the settings screen opened on `config`.
pub open spec fn settings_opened(s: SettingsScreen, config: SimConfig) -> bool {
    &&& s.spec_config() == config
    &&& s.spec_active() == 0
    &&& !s.spec_editing()
    &&& s.spec_buffer() == Seq::<char>::empty()
}

/// `c` is the solver configuration screen as it opens.
pub open spec fn fresh_config(c: SolverConfigScreen) -> bool {
    &&& c.active_field == 0
    &&& c.street == Street::River
    &&& fresh_board(c.board_input, 5)
    &&& c.range_oop@.len() == 0
    &&& c.range_ip@.len() == 0
    &&& c.algorithm == CfrAlgorithm::CfrPlus
    &&& c.iterations == 1000
    &&& c.max_raises == 2
    &&& c.edit_buffer@.len() == 0
    &&& !c.editing
    &&& c.error is None
}

/// The hand dealt after the hole-card screen: the variant, the hole cards
/// and the opponents, an empty board and no stud rows, and the round after
/// the first when the variant has a board (its first round otherwise).
pub open spec fn dealt_hand(st: GameState, v: GameVariant, hole: Seq<Card>, opponents: usize) -> bool {
    &&& st.variant == v
    &&& st.hole_cards@ == hole
    &&& st.community_cards@.len() == 0
    &&& st.opponent_count == opponents
    &&& st.stud_visible@.len() == 6
    &&& forall|i: int| 0 <= i < 6 ==> (#[trigger] st.stud_visible@[i])@.len() == 0
    &&& st.current_round == if v.spec_community_card_count() > 0 {
        variant_rounds(v)[1]
    } else {
        variant_rounds(v)[0]
    }
}

/// `after` is hand `before` in its next round (the same round after the
/// last one), everything else unchanged.
pub open spec fn next_round_of(before: GameState, after: GameState) -> bool {
    let rs = variant_rounds(before.variant);
    let pos = rs.index_of_first(before.current_round);
    &&& after == GameState { current_round: after.current_round, ..before }
    &&& if pos matches Some(p) && p + 1 < rs.len() {
        after.current_round == rs[pos->0 + 1]
    } else {
        after.current_round == before.current_round
    }
}

/// What the screen in view requires of a key: the solver configuration
/// screen's focus is on a field and the key reaches no range token that the
/// range parser cannot number; the results cannot scroll past the end.
pub open spec fn key_allowed(screen: Option<Screen>, key: Key) -> bool {
    match screen {
        Some(Screen::SolverConfig(c)) => c.active_field < FIELD_COUNT && !enter_reaches_bad_range(
            c,
            key,
        ),
        Some(Screen::SolverResults(s)) => (key == Key::Down || key == Key::Char('j'))
            ==> s.spec_scroll() < usize::MAX,
        _ => true,
    }
}

/// `a` is `b` showing `screen`.
pub open spec fn showing(b: Navigator, a: Navigator, screen: Option<Screen>) -> bool {
    a == Navigator { screen, ..b }
}

/// `a` is `b` back on the opening screen.
pub open spec fn back_to_opening(b: Navigator, a: Navigator) -> bool {
    &&& fresh_opening(a.screen)
    &&& a.game_state == b.game_state
    &&& a.sim_config == b.sim_config
}

/// What a key does on the opening screen.
pub open spec fn opening_step(b: Navigator, s: VariantSelectScreen, key: Key, a: Navigator, cmd: AppCommand) -> bool {
    exists|s2: VariantSelectScreen, r: Option<VariantSelectResult>|
        #[trigger] variant_key_effect(s, key, s2, r) && cmd is Nothing && a.game_state == b.game_state
            && a.sim_config == b.sim_config && match r {
            Some(VariantSelectResult::Variant(v)) => a.screen matches Some(Screen::HoleCards(h))
                && fresh_hole_screen(h, v),
            Some(VariantSelectResult::GtoSolver) => a.screen matches Some(Screen::SolverConfig(c))
                && fresh_config(c),
            None => a.screen == Some(Screen::VariantSelect(s2)),
        }
}

/// What a key does on the hole-card screen: Esc goes back to the opening
/// screen; complete hole cards deal the hand, which goes on to the board
/// (or, without a board, to the odds, starting the simulation).
pub open spec fn hole_step(b: Navigator, h: HoleCardsScreen, key: Key, a: Navigator, cmd: AppCommand) -> bool {
    if key == Key::Esc {
        back_to_opening(b, a) && cmd is Nothing
    } else {
        exists|h2: HoleCardsScreen, r: Option<(Vec<Card>, usize)>|
            #[trigger] hole_key_effect(h, key, h2, r) && match r {
                None => showing(b, a, Some(Screen::HoleCards(h2))) && cmd is Nothing,
                Some(p) => {
                    &&& a.game_state matches Some(st) && dealt_hand(st, h.variant, p.0@, p.1)
                    &&& a.sim_config == b.sim_config
                    &&& if h.variant.spec_community_card_count() > 0 {
                        &&& cmd is Nothing
                        &&& a.screen matches Some(Screen::Community(c)) && community_screen_for(
                            c,
                            a.game_state->0,
                        )
                    } else {
                        &&& cmd is StartSimulation
                        &&& a.screen == Some(
                            Screen::OddsDisplay(OddsDisplayScreen { variant: h.variant }),
                        )
                    }
                },
            }
    }
}

/// What a key does on the board screen: new cards join the hand's board and
/// the simulation restarts on the odds screen; going back returns to the
/// hole cards of the hand's variant.
pub open spec fn community_step(b: Navigator, c: CommunityScreen, key: Key, a: Navigator, cmd: AppCommand) -> bool {
    exists|c2: CommunityScreen, r: CommunityAction|
        #[trigger] community_key_effect(c, key, c2, r) && match r {
            CommunityAction::Idle => showing(b, a, Some(Screen::Community(c2))) && cmd is Nothing,
            CommunityAction::Back => cmd is Nothing && match b.game_state {
                Some(st) => {
                    &&& a.screen matches Some(Screen::HoleCards(h)) && fresh_hole_screen(h, st.variant)
                    &&& a.game_state == b.game_state
                    &&& a.sim_config == b.sim_config
                },
                None => back_to_opening(b, a),
            },
            CommunityAction::Cards(new_cards) => match b.game_state {
                Some(st) => {
                    &&& a.game_state matches Some(st2) && st2 == GameState {
                        community_cards: st2.community_cards,
                        ..st
                    } && st2.community_cards@ == st.community_cards@ + new_cards@
                    &&& a.screen == Some(Screen::OddsDisplay(OddsDisplayScreen { variant: st.variant }))
                    &&& a.sim_config == b.sim_config
                    &&& cmd is RestartSimulation
                },
                None => showing(b, a, Some(Screen::Community(c2))) && cmd is Nothing,
            },
        }
}

/// What a key does on the odds screen: the next round's board, a new hand,
/// back to the board, or the settings over the odds.
pub open spec fn odds_step(b: Navigator, o: OddsDisplayScreen, key: Key, a: Navigator, cmd: AppCommand) -> bool {
    match b.game_state {
        None => showing(b, a, Some(Screen::OddsDisplay(o))) && cmd is Nothing,
        Some(st) => match odds_action(key, st) {
            OddsAction::Idle => showing(b, a, Some(Screen::OddsDisplay(o))) && cmd is Nothing,
            OddsAction::NextRound => {
                &&& cmd is Nothing
                &&& a.sim_config == b.sim_config
                &&& a.game_state matches Some(st2) && next_round_of(st, st2)
                &&& if a.game_state->0.spec_is_complete() {
                    a.screen == Some(Screen::OddsDisplay(o))
                } else {
                    a.screen matches Some(Screen::Community(c)) && community_screen_for(
                        c,
                        a.game_state->0,
                    )
                }
            },
            OddsAction::Restart => {
                &&& cmd is CancelSimulation
                &&& a.game_state is None
                &&& fresh_opening(a.screen)
                &&& a.sim_config == b.sim_config
            },
            OddsAction::Back => {
                &&& cmd is Nothing
                &&& a.game_state == b.game_state
                &&& a.sim_config == b.sim_config
                &&& a.screen matches Some(Screen::Community(c)) && community_screen_for(c, st)
            },
            OddsAction::Settings => {
                &&& cmd is Nothing
                &&& a.game_state == b.game_state
                &&& a.sim_config == b.sim_config
                &&& a.screen matches Some(Screen::Settings(s, prev)) && settings_opened(
                    s,
                    b.sim_config,
                ) && *prev == Screen::OddsDisplay(o)
            },
        },
    }
}

/// What a key does on the settings: closing returns to the screen below;
/// saving also takes the settings and restarts the simulation of a hand in
/// play.
pub open spec fn settings_step(
    b: Navigator,
    s: SettingsScreen,
    prev: Box<Screen>,
    key: Key,
    a: Navigator,
    cmd: AppCommand,
) -> bool {
    exists|s2: SettingsScreen, r: SettingsAction|
        #[trigger] settings_key_effect(s, key, s2, r) && match r {
            SettingsAction::Idle => showing(b, a, Some(Screen::Settings(s2, prev))) && cmd is Nothing,
            SettingsAction::Close => showing(b, a, Some(*prev)) && cmd is Nothing,
            SettingsAction::Save(config) => {
                &&& a == Navigator { screen: Some(*prev), sim_config: config, ..b }
                &&& if b.game_state is Some {
                    cmd is RestartSimulation
                } else {
                    cmd is Nothing
                }
            },
        }
}

/// What a key does on the solver configuration: the screen's own handling,
/// then back to the opening screen, or the solver run with the results
/// screen shown; fractional settings go to the application.
pub open spec fn config_step(b: Navigator, c: SolverConfigScreen, key: Key, a: Navigator, cmd: AppCommand) -> bool {
    exists|c2: SolverConfigScreen, r: SolverConfigAction|
        (if c.editing {
            edit_effect(c, key, c2, r)
        } else {
            browse_effect(c, key, c2, r)
        }) && #[trigger] config_routed(b, c2, r, a, cmd)
}

/// Where the solver configuration's action `r` leads, the screen being `c2`.
pub open spec fn config_routed(b: Navigator, c2: SolverConfigScreen, r: SolverConfigAction, a: Navigator, cmd: AppCommand) -> bool {
    match r {
        SolverConfigAction::Idle => showing(b, a, Some(Screen::SolverConfig(c2))) && cmd is Nothing,
        SolverConfigAction::Back => back_to_opening(b, a) && cmd is Nothing,
        SolverConfigAction::OpenNumber(f) => showing(b, a, Some(Screen::SolverConfig(c2))) && cmd
            == AppCommand::OpenNumber(f),
        SolverConfigAction::ApplyNumber(f, t) => showing(b, a, Some(Screen::SolverConfig(c2)))
            && cmd == AppCommand::ApplyNumber(f, t),
        SolverConfigAction::Run(req) => {
            &&& a.screen matches Some(Screen::SolverResults(s)) && s.spec_scroll() == 0
            &&& a.game_state == b.game_state
            &&& a.sim_config == b.sim_config
            &&& cmd == AppCommand::RunSolver(req)
        },
    }
}

/// What a key does on the solver results: back to the opening screen, or to
/// a new configuration.
pub open spec fn results_step(b: Navigator, s: SolverResultsScreen, key: Key, a: Navigator, cmd: AppCommand) -> bool {
    exists|s2: SolverResultsScreen, r: SolverResultsAction|
        #[trigger] results_key_effect(s, key, s2, r) && cmd is Nothing && match r {
            SolverResultsAction::Idle => showing(b, a, Some(Screen::SolverResults(s2))),
            SolverResultsAction::Back => back_to_opening(b, a),
            SolverResultsAction::Reconfigure => {
                &&& a.screen matches Some(Screen::SolverConfig(c)) && fresh_config(c)
                &&& a.game_state == b.game_state
                &&& a.sim_config == b.sim_config
            },
        }
}

/// What a key does, by the screen in view.
pub open spec fn nav_effect(b: Navigator, key: Key, a: Navigator, cmd: AppCommand) -> bool {
    match b.screen {
        None => a == b && cmd is Nothing,
        Some(Screen::VariantSelect(s)) => opening_step(b, s, key, a, cmd),
        Some(Screen::HoleCards(h)) => hole_step(b, h, key, a, cmd),
        Some(Screen::Community(c)) => community_step(b, c, key, a, cmd),
        Some(Screen::OddsDisplay(o)) => odds_step(b, o, key, a, cmd),
        Some(Screen::Settings(s, prev)) => settings_step(b, s, prev, key, a, cmd),
        Some(Screen::SolverConfig(c)) => config_step(b, c, key, a, cmd),
        Some(Screen::SolverResults(s)) => results_step(b, s, key, a, cmd),
    }
}

/// A fresh hand is in its variant's first round, found at position 0.
proof fn lemma_first_round(st: GameState)
    requires
        st.current_round == variant_rounds(st.variant)[0],
    ensures
        variant_rounds(st.variant).index_of_first(st.current_round) == Some(0int),
{
    let rs = variant_rounds(st.variant);
    rs.index_of_first_ensures(st.current_round);
    assert(rs.contains(st.current_round)) by {
        assert(rs[0] == st.current_round);
    }
}

/// A copy of the settings.
fn copy_config(c: &SimConfig) -> (r: SimConfig)
    ensures
        r == *c,
{
    SimConfig {
        iterations: c.iterations,
        exact_threshold: c.exact_threshold,
        threads: c.threads,
        update_interval_ms: c.update_interval_ms,
        rng_seed: c.rng_seed,
    }
}

impl Navigator {
    /// The opening screen, no hand, the default settings.
    pub fn new() -> (n: Navigator)
        ensures
            fresh_opening(n.screen),
            n.game_state is None,
            n.sim_config.iterations == 500_000,
            n.sim_config.exact_threshold == 50_000,
            n.sim_config.threads == 0,
            n.sim_config.update_interval_ms == 100,
            n.sim_config.rng_seed is None,
    {
        Navigator {
            screen: Some(Screen::VariantSelect(VariantSelectScreen::new())),
            game_state: None,
            sim_config: SimConfig::default(),
        }
    }

    /// Whether the screen in view takes `key` (see `key_allowed`).
    pub fn allows(&self, key: Key) -> (b: bool)
        ensures
            b == key_allowed(self.screen, key),
    {
        match &self.screen {
            Some(Screen::SolverConfig(c)) => c.active_field < FIELD_COUNT
                && !c.key_reaches_bad_range(key),
            Some(Screen::SolverResults(s)) => !((key == Key::Down || key == Key::Char('j'))
                && s.scroll_offset() == usize::MAX),
            _ => true,
        }
    }

    /// Put `text` in the open editor of the solver configuration (the text
    /// of a fractional setting); other screens stay as they are.
    pub fn set_config_edit_text(&mut self, text: &[char])
        ensures
            match old(self).screen {
                Some(Screen::SolverConfig(c)) => final(self).screen matches Some(
                    Screen::SolverConfig(c2),
                ) && c2 == SolverConfigScreen { edit_buffer: c2.edit_buffer, ..c }
                    && c2.edit_buffer@ == text@,
                _ => final(self).screen == old(self).screen,
            },
            final(self).game_state == old(self).game_state,
            final(self).sim_config == old(self).sim_config,
    {
        let screen = self.screen.take();
        self.screen = match screen {
            Some(Screen::SolverConfig(mut c)) => {
                c.set_edit_text(text);
                Some(Screen::SolverConfig(c))
            },
            other => other,
        };
    }

    /// A key on the hole-card screen `s`, taken out of view.
    fn hole_cards_key(&mut self, s: HoleCardsScreen, key: Key, Ghost(b): Ghost<Navigator>) -> (cmd: AppCommand)
        requires
            *old(self) == (Navigator { screen: None, ..b }),
            b.screen == Some(Screen::HoleCards(s)),
        ensures
            hole_step(b, s, key, *final(self), cmd),
    {
        let mut s = s;
        if key == Key::Esc {
            self.screen = Some(Screen::VariantSelect(VariantSelectScreen::new()));
            return AppCommand::Nothing;
        }
        let ghost s0 = s;
        let r = s.handle_key(key);
        proof {
            assert(hole_key_effect(s0, key, s, r));
        }
        match r {
            None => {
                self.screen = Some(Screen::HoleCards(s));
                AppCommand::Nothing
            },
            Some((hole_cards, opponent_count)) => {
                let variant = s.variant;
                let mut state = GameState::new(variant);
                state.hole_cards = hole_cards;
                state.opponent_count = opponent_count;
                if variant.has_community_cards() {
                    let ghost before = state;
                    let _ = state.advance_round();
                    proof {
                        lemma_first_round(before);
                    }
                    let community_screen = CommunityScreen::new(&state);
                    self.game_state = Some(state);
                    self.screen = Some(Screen::Community(community_screen));
                    AppCommand::Nothing
                } else {
                    self.game_state = Some(state);
                    self.screen = Some(Screen::OddsDisplay(OddsDisplayScreen::new(variant)));
                    AppCommand::StartSimulation
                }
            },
        }
    }

    /// A key on the board screen `s`, taken out of view.
    fn community_key(&mut self, s: CommunityScreen, key: Key, Ghost(b): Ghost<Navigator>) -> (cmd: AppCommand)
        requires
            *old(self) == (Navigator { screen: None, ..b }),
            b.screen == Some(Screen::Community(s)),
        ensures
            community_step(b, s, key, *final(self), cmd),
    {
        let mut s = s;
        let ghost s0 = s;
        let r = s.handle_key(key);
        proof {
            assert(community_key_effect(s0, key, s, r));
        }
        match r {
            CommunityAction::Idle => {
                self.screen = Some(Screen::Community(s));
                AppCommand::Nothing
            },
            CommunityAction::Back => {
                match &self.game_state {
                    Some(state) => {
                        self.screen = Some(Screen::HoleCards(HoleCardsScreen::new(state.variant)));
                    },
                    None => {
                        self.screen = Some(Screen::VariantSelect(VariantSelectScreen::new()));
                    },
                }
                AppCommand::Nothing
            },
            CommunityAction::Cards(new_cards) => {
                let taken = self.game_state.take();
                match taken {
                    Some(mut state) => {
                        let ghost st0 = state;
                        let mut extra = new_cards;
                        state.community_cards.append(&mut extra);
                        let variant = state.variant;
                        proof {
                            assert(state == GameState { community_cards: state.community_cards, ..st0 });
                        }
                        self.game_state = Some(state);
                        self.screen = Some(Screen::OddsDisplay(OddsDisplayScreen::new(variant)));
                        AppCommand::RestartSimulation
                    },
                    None => {
                        self.screen = Some(Screen::Community(s));
                        AppCommand::Nothing
                    },
                }
            },
        }
    }

    /// A key on the odds screen `s`, taken out of view.
    fn odds_key(&mut self, s: OddsDisplayScreen, key: Key, Ghost(b): Ghost<Navigator>) -> (cmd: AppCommand)
        requires
            *old(self) == (Navigator { screen: None, ..b }),
            b.screen == Some(Screen::OddsDisplay(s)),
        ensures
            odds_step(b, s, key, *final(self), cmd),
    {
        let action = match &self.game_state {
            Some(state) => s.handle_key(key, state),
            None => OddsAction::Idle,
        };
        match action {
            OddsAction::Idle => {
                self.screen = Some(Screen::OddsDisplay(s));
                AppCommand::Nothing
            },
            OddsAction::NextRound => {
                let taken = self.game_state.take();
                match taken {
                    Some(mut state) => {
                        let _ = state.advance_round();
                        if state.is_complete() {
                            self.game_state = Some(state);
                            self.screen = Some(Screen::OddsDisplay(s));
                        } else {
                            let community_screen = CommunityScreen::new(&state);
                            self.game_state = Some(state);
                            self.screen = Some(Screen::Community(community_screen));
                        }
                        AppCommand::Nothing
                    },
                    None => {
                        self.screen = Some(Screen::OddsDisplay(s));
                        AppCommand::Nothing
                    },
                }
            },
            OddsAction::Restart => {
                self.game_state = None;
                self.screen = Some(Screen::VariantSelect(VariantSelectScreen::new()));
                AppCommand::CancelSimulation
            },
            OddsAction::Back => {
                match &self.game_state {
                    Some(state) => {
                        self.screen = Some(Screen::Community(CommunityScreen::new(state)));
                    },
                    None => {
                        self.screen = Some(Screen::VariantSelect(VariantSelectScreen::new()));
                    },
                }
                AppCommand::Nothing
            },
            OddsAction::Settings => {
                let settings = SettingsScreen::new(copy_config(&self.sim_config));
                self.screen = Some(Screen::Settings(settings, Box::new(Screen::OddsDisplay(s))));
                AppCommand::Nothing
            },
        }
    }

    /// Handle a key on the screen in view (see `nav_effect`).
    pub fn handle_key(&mut self, key: Key) -> (cmd: AppCommand)
        requires
            key_allowed(old(self).screen, key),
        ensures
            nav_effect(*old(self), key, *final(self), cmd),
    {
        let screen = self.screen.take();
        match screen {
            None => {
                self.screen = None;
                AppCommand::Nothing
            },
            Some(Screen::VariantSelect(mut s)) => {
                let ghost s0 = s;
                let chosen = s.handle_key(key);
                proof {
                    assert(variant_key_effect(s0, key, s, chosen));
                }
                self.screen = match chosen {
                    Some(VariantSelectResult::Variant(variant)) => Some(
                        Screen::HoleCards(HoleCardsScreen::new(variant)),
                    ),
                    Some(VariantSelectResult::GtoSolver) => Some(
                        Screen::SolverConfig(SolverConfigScreen::new()),
                    ),
                    None => Some(Screen::VariantSelect(s)),
                };
                AppCommand::Nothing
            },
            Some(Screen::HoleCards(s)) => self.hole_cards_key(s, key, Ghost(*old(self))),
            Some(Screen::Community(s)) => self.community_key(s, key, Ghost(*old(self))),
            Some(Screen::OddsDisplay(s)) => self.odds_key(s, key, Ghost(*old(self))),
            Some(Screen::Settings(mut s, prev)) => {
                let ghost s0 = s;
                let r = s.handle_key(key);
                proof {
                    assert(settings_key_effect(s0, key, s, r));
                }
                match r {
                    SettingsAction::Idle => {
                        self.screen = Some(Screen::Settings(s, prev));
                        AppCommand::Nothing
                    },
                    SettingsAction::Close => {
                        self.screen = Some(*prev);
                        AppCommand::Nothing
                    },
                    SettingsAction::Save(config) => {
                        self.sim_config = config;
                        self.screen = Some(*prev);
                        if self.game_state.is_some() {
                            AppCommand::RestartSimulation
                        } else {
                            AppCommand::Nothing
                        }
                    },
                }
            },
            Some(Screen::SolverConfig(mut c)) => {
                let ghost c0 = c;
                let r = c.handle_key(key);
                let ghost c1 = c;
                let ghost r0 = r;
                let cmd = match r {
                    SolverConfigAction::Idle => {
                        self.screen = Some(Screen::SolverConfig(c));
                        AppCommand::Nothing
                    },
                    SolverConfigAction::Back => {
                        self.screen = Some(Screen::VariantSelect(VariantSelectScreen::new()));
                        AppCommand::Nothing
                    },
                    SolverConfigAction::OpenNumber(f) => {
                        self.screen = Some(Screen::SolverConfig(c));
                        AppCommand::OpenNumber(f)
                    },
                    SolverConfigAction::ApplyNumber(f, t) => {
                        self.screen = Some(Screen::SolverConfig(c));
                        AppCommand::ApplyNumber(f, t)
                    },
                    SolverConfigAction::Run(req) => {
                        self.screen = Some(Screen::SolverResults(SolverResultsScreen::new()));
                        AppCommand::RunSolver(req)
                    },
                };
                proof {
                    assert(config_routed(*old(self), c1, r0, *self, cmd));
                }
                cmd
            },
            Some(Screen::SolverResults(mut s)) => {
                let ghost s0 = s;
                let r = s.handle_key(key);
                proof {
                    assert(results_key_effect(s0, key, s, r));
                }
                self.screen = match r {
                    SolverResultsAction::Idle => Some(Screen::SolverResults(s)),
                    SolverResultsAction::Back => Some(
                        Screen::VariantSelect(VariantSelectScreen::new()),
                    ),
                    SolverResultsAction::Reconfigure => Some(
                        Screen::SolverConfig(SolverConfigScreen::new()),
                    ),
                };
                AppCommand::Nothing
            },
        }
    }
}

} // verus!
