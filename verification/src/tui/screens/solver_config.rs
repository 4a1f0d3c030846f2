//! The screen that sets up a solve: the street and board, the two ranges,
//! the algorithm and the limits. The pot, the stack and the bet sizes are
//! fractional numbers the application keeps; the screen opens and closes
//! their editor and hands their text over.

use crate::cards::card::{str_chars, str_trim, string_of_chars, trim_spec, Card};
use crate::solver::cfr::CfrAlgorithm;
use crate::solver::range::{
    failure_of, pieces_panic, range_error_text, range_text_panics, range_text_result, split_on,
    HandRange, RangeParseError,
};
use crate::tui::card_input::{
    all_confirmed, confirmed_cards, multi_key_effect, slot_states, InputState, MultiCardInput,
};
use crate::tui::keys::Key;
use crate::tui::screens::settings::{decimal_chars, decimal_text, is_digit, parse_decimal, parse_u64};
use vstd::prelude::*;

verus! {

/// Which street to solve from.
#[derive(Clone, Copy, Debug, PartialEq, Eq, Structural)]
pub enum Street {
    Flop,
    Turn,
    River,
}

impl Street {
    /// Cards on the board at this street.
    pub fn board_cards(self) -> (r: usize)
        ensures
            r == match self {
                Street::Flop => 3usize,
                Street::Turn => 4usize,
                Street::River => 5usize,
            },
    {
        match self {
            Street::Flop => 3,
            Street::Turn => 4,
            Street::River => 5,
        }
    }

    pub fn name(self) -> (r: &'static str)
        ensures
            r@ == match self {
                Street::Flop => "Flop"@,
                Street::Turn => "Turn"@,
                Street::River => "River"@,
            },
    {
        match self {
            Street::Flop => "Flop",
            Street::Turn => "Turn",
            Street::River => "River",
        }
    }

    /// The following street, going round from the river to the flop.
    pub open spec fn spec_next(self) -> Street {
        match self {
            Street::Flop => Street::Turn,
            Street::Turn => Street::River,
            Street::River => Street::Flop,
        }
    }

    /// The following street, going round from the river to the flop.
    pub fn next(self) -> (r: Street)
        ensures
            r == self.spec_next(),
    {
        match self {
            Street::Flop => Street::Turn,
            Street::Turn => Street::River,
            Street::River => Street::Flop,
        }
    }
}

/// Going to the next street three times comes back to the start.
pub proof fn lemma_street_cycle(s: Street)
    ensures
        s.spec_next().spec_next().spec_next() == s,
{
}

/// Number of fields on the screen.
pub const FIELD_COUNT: usize = 11;

/// A field of the screen, in screen order.
#[derive(Clone, Copy, Debug, PartialEq, Eq, Structural)]
pub enum Field {
    Street,
    Board,
    RangeOOP,
    RangeIP,
    Algorithm,
    Iterations,
    StartingPot,
    EffectiveStack,
    BetSizes,
    RaiseSizes,
    MaxRaises,
}

/// The field at position `i` (the last one for any later position).
pub open spec fn field_at(i: int) -> Field {
    if i <= 0 {
        Field::Street
    } else if i == 1 {
        Field::Board
    } else if i == 2 {
        Field::RangeOOP
    } else if i == 3 {
        Field::RangeIP
    } else if i == 4 {
        Field::Algorithm
    } else if i == 5 {
        Field::Iterations
    } else if i == 6 {
        Field::StartingPot
    } else if i == 7 {
        Field::EffectiveStack
    } else if i == 8 {
        Field::BetSizes
    } else if i == 9 {
        Field::RaiseSizes
    } else {
        Field::MaxRaises
    }
}

/// Whether the field holds a range, edited as free text.
pub open spec fn field_is_text(f: Field) -> bool {
    f == Field::RangeOOP || f == Field::RangeIP
}

/// Whether the field holds a fractional number that the application keeps.
pub open spec fn field_is_number(f: Field) -> bool {
    f == Field::StartingPot || f == Field::EffectiveStack || f == Field::BetSizes || f
        == Field::RaiseSizes
}

/// Whether `c` is an ASCII letter or digit.
pub open spec fn is_ascii_alnum(c: char) -> bool {
    ('0' <= c && c <= '9') || ('a' <= c && c <= 'z') || ('A' <= c && c <= 'Z')
}

/// Whether the editor of field `f` takes the character `c`: ranges take
/// letters, digits, ',', '-' and ' '; numbers take digits, ',' and '.'.
pub open spec fn accepts_char(f: Field, c: char) -> bool {
    if field_is_text(f) {
        is_ascii_alnum(c) || c == ',' || c == '-' || c == ' '
    } else {
        is_digit(c) || c == ',' || c == '.'
    }
}

impl Field {
    /// The field at position `i`.
    pub fn at(i: usize) -> (f: Field)
        ensures
            f == field_at(i as int),
    {
        if i == 0 {
            Field::Street
        } else if i == 1 {
            Field::Board
        } else if i == 2 {
            Field::RangeOOP
        } else if i == 3 {
            Field::RangeIP
        } else if i == 4 {
            Field::Algorithm
        } else if i == 5 {
            Field::Iterations
        } else if i == 6 {
            Field::StartingPot
        } else if i == 7 {
            Field::EffectiveStack
        } else if i == 8 {
            Field::BetSizes
        } else if i == 9 {
            Field::RaiseSizes
        } else {
            Field::MaxRaises
        }
    }

    /// The field's name on the screen.
    pub fn label(self) -> (r: &'static str)
        ensures
            r@ == match self {
                Field::Street => "Street"@,
                Field::Board => "Board Cards"@,
                Field::RangeOOP => "OOP Range"@,
                Field::RangeIP => "IP Range"@,
                Field::Algorithm => "Algorithm"@,
                Field::Iterations => "Iterations"@,
                Field::StartingPot => "Starting Pot"@,
                Field::EffectiveStack => "Effective Stack"@,
                Field::BetSizes => "Bet Sizes (% of pot)"@,
                Field::RaiseSizes => "Raise Sizes (% of pot)"@,
                Field::MaxRaises => "Max Raises / Street"@,
            },
    {
        match self {
            Field::Street => "Street",
            Field::Board => "Board Cards",
            Field::RangeOOP => "OOP Range",
            Field::RangeIP => "IP Range",
            Field::Algorithm => "Algorithm",
            Field::Iterations => "Iterations",
            Field::StartingPot => "Starting Pot",
            Field::EffectiveStack => "Effective Stack",
            Field::BetSizes => "Bet Sizes (% of pot)",
            Field::RaiseSizes => "Raise Sizes (% of pot)",
            Field::MaxRaises => "Max Raises / Street",
        }
    }

    /// The line of help under the field.
    pub fn hint(self) -> (r: &'static str)
        ensures
            r@ == match self {
                Field::Street => "Flop (3 cards), Turn (4 cards), or River (5 cards)"@,
                Field::Board => "Enter board cards (rank then suit, e.g. Ah Kd Qs)"@,
                Field::RangeOOP => "Out-of-position range, e.g. AA,AKs,QQ-TT,AJs-A9s"@,
                Field::RangeIP => "In-position range, e.g. AA-22,AKs-A2s,KQs-KTs"@,
                Field::Algorithm => "CFR+ or DCFR (Discounted CFR converges faster)"@,
                Field::Iterations => "Number of CFR iterations (more = more precise, slower)"@,
                Field::StartingPot => "Total pot size in chips before this street"@,
                Field::EffectiveStack => "Chips remaining behind for each player"@,
                Field::BetSizes => "Comma-separated pot fractions, e.g. 33,50,75,100"@,
                Field::RaiseSizes => "Comma-separated pot fractions for raises"@,
                Field::MaxRaises => "Cap on raises per street (prevents infinite trees)"@,
            },
    {
        match self {
            Field::Street => "Flop (3 cards), Turn (4 cards), or River (5 cards)",
            Field::Board => "Enter board cards (rank then suit, e.g. Ah Kd Qs)",
            Field::RangeOOP => "Out-of-position range, e.g. AA,AKs,QQ-TT,AJs-A9s",
            Field::RangeIP => "In-position range, e.g. AA-22,AKs-A2s,KQs-KTs",
            Field::Algorithm => "CFR+ or DCFR (Discounted CFR converges faster)",
            Field::Iterations => "Number of CFR iterations (more = more precise, slower)",
            Field::StartingPot => "Total pot size in chips before this street",
            Field::EffectiveStack => "Chips remaining behind for each player",
            Field::BetSizes => "Comma-separated pot fractions, e.g. 33,50,75,100",
            Field::RaiseSizes => "Comma-separated pot fractions for raises",
            Field::MaxRaises => "Cap on raises per street (prevents infinite trees)",
        }
    }

    /// Whether this field is edited as free text (the ranges).
    pub fn is_text_edit(self) -> (r: bool)
        ensures
            r == field_is_text(self),
    {
        self == Field::RangeOOP || self == Field::RangeIP
    }

    /// Whether this field holds a fractional number that the application keeps.
    pub fn is_number(self) -> (r: bool)
        ensures
            r == field_is_number(self),
    {
        self == Field::StartingPot || self == Field::EffectiveStack || self == Field::BetSizes
            || self == Field::RaiseSizes
    }
}

/// What the screen gathers for a solve, besides the fractional numbers the
/// application keeps.
pub struct SolverRequest {
    pub board: Vec<Card>,
    pub algorithm: CfrAlgorithm,
    pub iterations: u32,
    pub max_raises: u8,
    pub street: Street,
    pub range_oop: String,
    pub range_ip: String,
}

/// What the solver configuration screen asks of the application.
pub enum SolverConfigAction {
    /// Nothing to do: the screen stays.
    Idle,
    Back,
    /// A fractional field was opened: the application puts its value's text
    /// in with `set_edit_text`.
    OpenNumber(Field),
    /// A fractional field was closed with Enter: the application reads the
    /// text into the value it keeps.
    ApplyNumber(Field, Vec<char>),
    Run(SolverRequest),
}

/// The solver configuration screen: the field in focus, the settings of
/// the solve, and the editor of the open field.
pub struct SolverConfigScreen {
    pub active_field: usize,
    pub street: Street,
    pub board_input: MultiCardInput,
    pub range_oop: String,
    pub range_ip: String,
    pub algorithm: CfrAlgorithm,
    pub iterations: u32,
    pub max_raises: u8,
    pub edit_buffer: Vec<char>,
    pub editing: bool,
    pub error: Option<String>,
}

/// `m` is an empty row of card slots for `count` cards, labelled "Board".
pub open spec fn fresh_board(m: MultiCardInput, count: int) -> bool {
    &&& m.slots@.len() == count
    &&& forall|i: int|
        0 <= i < count ==> (#[trigger] m.slots@[i]).state == InputState::AwaitingRank
            && m.slots@[i].error is None
    &&& m.active_slot == 0
    &&& m.label@ == "Board"@
}

/// The position Tab moves to from `i`, going round.
pub open spec fn tab_next(i: int) -> int {
    if i + 1 < FIELD_COUNT {
        i + 1
    } else {
        0
    }
}

/// The position Shift+Tab moves to from `i`, going round.
pub open spec fn tab_prev(i: int) -> int {
    if i == 0 {
        FIELD_COUNT - 1
    } else {
        i - 1
    }
}

/// `s` with focus on `i`.
pub open spec fn with_active(s: SolverConfigScreen, i: int) -> SolverConfigScreen {
    SolverConfigScreen { active_field: i as usize, ..s }
}

/// `after` is `before` on street `st`: unchanged when already there, else
/// with the street set and an empty board of the street's size.
pub open spec fn street_set(before: SolverConfigScreen, st: Street, after: SolverConfigScreen) -> bool {
    if before.street == st {
        after == before
    } else {
        &&& after == SolverConfigScreen { street: st, board_input: after.board_input, ..before }
        &&& fresh_board(after.board_input, street_cards(st))
    }
}

/// Cards on the board at street `st`.
pub open spec fn street_cards(st: Street) -> int {
    match st {
        Street::Flop => 3,
        Street::Turn => 4,
        Street::River => 5,
    }
}

/// The name of street `st`.
pub open spec fn street_name(st: Street) -> Seq<char> {
    match st {
        Street::Flop => "Flop"@,
        Street::Turn => "Turn"@,
        Street::River => "River"@,
    }
}

/// The other algorithm.
pub open spec fn toggled(a: CfrAlgorithm) -> CfrAlgorithm {
    match a {
        CfrAlgorithm::CfrPlus => CfrAlgorithm::Dcfr,
        CfrAlgorithm::Dcfr => CfrAlgorithm::CfrPlus,
    }
}

/// The text the editor of field `f` starts from, for the fields whose value
/// the screen holds.
pub open spec fn start_text(s: SolverConfigScreen, f: Field) -> Seq<char> {
    match f {
        Field::RangeOOP => s.range_oop@,
        Field::RangeIP => s.range_ip@,
        Field::Iterations => decimal_text(s.iterations as nat),
        Field::MaxRaises => decimal_text(s.max_raises as nat),
        _ => Seq::empty(),
    }
}

/// `after` is `before` with the editor of the field in focus open on
/// `text`, and no error.
pub open spec fn opened(before: SolverConfigScreen, text: Seq<char>, after: SolverConfigScreen) -> bool {
    &&& after == SolverConfigScreen {
        editing: true,
        error: None,
        edit_buffer: after.edit_buffer,
        ..before
    }
    &&& after.edit_buffer@ == text
}

/// `after` is `before` with the editor closed and emptied.
pub open spec fn closed_editor(before: SolverConfigScreen, after: SolverConfigScreen) -> bool {
    &&& after == SolverConfigScreen { editing: false, edit_buffer: after.edit_buffer, ..before }
    &&& after.edit_buffer@.len() == 0
}

/// The message when the board is not complete.
pub open spec fn board_missing_text(st: Street) -> Seq<char> {
    "Enter all "@ + decimal_text(street_cards(st) as nat) + " board cards for "@ + street_name(st)
        + " solve"@
}

/// What `r` asks for a solve on the screen `s`: its board, settings and ranges.
pub open spec fn request_of(s: SolverConfigScreen, r: SolverRequest) -> bool {
    &&& r.board@ == confirmed_cards(slot_states(s.board_input.slots@))
    &&& r.algorithm == s.algorithm
    &&& r.iterations == s.iterations
    &&& r.max_raises == s.max_raises
    &&& r.street == s.street
    &&& r.range_oop@ == s.range_oop@
    &&& r.range_ip@ == s.range_ip@
}

/// The key `r`: with an incomplete board the screen shows how many cards
/// the street needs; else it asks for the solve.
pub open spec fn run_effect(before: SolverConfigScreen, after: SolverConfigScreen, r: SolverConfigAction) -> bool {
    if !all_confirmed(before.board_input.slots@) {
        &&& r is Idle
        &&& after == SolverConfigScreen { error: after.error, ..before }
        &&& after.error matches Some(m) && m@ == board_missing_text(before.street)
    } else {
        &&& after == before
        &&& r matches SolverConfigAction::Run(req) && request_of(before, req)
    }
}

/// What a key does with no editor open.
pub open spec fn browse_effect(
    before: SolverConfigScreen,
    key: Key,
    after: SolverConfigScreen,
    r: SolverConfigAction,
) -> bool {
    let a = before.active_field as int;
    let f = field_at(a);
    if f == Field::Board {
        if key == Key::Esc {
            r is Back && after == before
        } else if key == Key::Tab || (key == Key::Enter && all_confirmed(
            before.board_input.slots@,
        )) {
            r is Idle && after == with_active(before, tab_next(a))
        } else if key == Key::BackTab {
            r is Idle && after == with_active(before, tab_prev(a))
        } else {
            &&& r is Idle
            &&& after == SolverConfigScreen { board_input: after.board_input, ..before }
            &&& multi_key_effect(before.board_input, key, Seq::empty(), after.board_input)
        }
    } else if key == Key::Esc {
        r is Back && after == before
    } else if (key == Key::Up || key == Key::Char('k')) && a > 0 {
        r is Idle && after == with_active(before, a - 1)
    } else if (key == Key::Down || key == Key::Char('j')) && a < FIELD_COUNT - 1 {
        r is Idle && after == with_active(before, a + 1)
    } else if key == Key::Tab {
        r is Idle && after == with_active(before, tab_next(a))
    } else if key == Key::BackTab {
        r is Idle && after == with_active(before, tab_prev(a))
    } else if key == Key::Enter || key == Key::Char('e') {
        if f == Field::Street {
            r is Idle && street_set(before, before.street.spec_next(), after)
        } else if f == Field::Algorithm {
            r is Idle && after == SolverConfigScreen { algorithm: toggled(before.algorithm), ..before }
        } else if field_is_number(f) {
            r == SolverConfigAction::OpenNumber(f) && opened(before, Seq::empty(), after)
        } else {
            r is Idle && opened(before, start_text(before, f), after)
        }
    } else if key == Key::Char('r') {
        run_effect(before, after, r)
    } else {
        r is Idle && after == before
    }
}

/// The range field's value after Enter on `text`: empty text clears it
/// (leaving the error as it was), a valid range is kept trimmed and clears
/// the error, and an invalid one keeps the old value and shows why, after
/// `prefix`.
pub open spec fn range_applied(
    old_value: Seq<char>,
    old_error: Option<String>,
    text: Seq<char>,
    prefix: Seq<char>,
    value: Seq<char>,
    error: Option<String>,
) -> bool {
    let t = trim_spec(text);
    if t.len() == 0 {
        value.len() == 0 && error == old_error
    } else {
        match range_text_result(t) {
            Ok(_) => value == t && error is None,
            Err(fail) => {
                &&& value == old_value
                &&& error matches Some(m) && exists|e: RangeParseError|
                    failure_of(e) == fail && m@ == prefix + range_error_text(e)
            },
        }
    }
}

/// `v` brought into `lo..=hi`.
pub open spec fn clamp_u32(v: int, lo: int, hi: int) -> int {
    if v < lo {
        lo
    } else if v > hi {
        hi
    } else {
        v
    }
}

/// The screen after Enter applies the editor's text to field `f` (one
/// whose value the screen holds), before the editor closes: a range is
/// checked, the iterations are read and brought into 10..=1,000,000, the
/// raise cap is read and held at most 5; text that reads as no number
/// changes nothing.
pub open spec fn edit_applied(before: SolverConfigScreen, f: Field, after: SolverConfigScreen) -> bool {
    let text = before.edit_buffer@;
    if f == Field::RangeOOP {
        &&& after == SolverConfigScreen { range_oop: after.range_oop, error: after.error, ..before }
        &&& range_applied(
            before.range_oop@,
            before.error,
            text,
            "Invalid OOP range: "@,
            after.range_oop@,
            after.error,
        )
    } else if f == Field::RangeIP {
        &&& after == SolverConfigScreen { range_ip: after.range_ip, error: after.error, ..before }
        &&& range_applied(
            before.range_ip@,
            before.error,
            text,
            "Invalid IP range: "@,
            after.range_ip@,
            after.error,
        )
    } else if f == Field::Iterations {
        match parse_u64(text) {
            Some(v) if v <= u32::MAX => after == SolverConfigScreen {
                iterations: clamp_u32(v as int, 10, 1_000_000) as u32,
                ..before
            },
            _ => after == before,
        }
    } else if f == Field::MaxRaises {
        match parse_u64(text) {
            Some(v) if v <= u8::MAX => after == SolverConfigScreen {
                max_raises: if v < 5 {
                    v as u8
                } else {
                    5
                },
                ..before
            },
            _ => after == before,
        }
    } else {
        after == before
    }
}

/// What a key does with the editor open: Esc closes it, Enter applies the
/// text and closes it (handing the text of a fractional field to the
/// application), Backspace removes the last character, and a character the
/// field takes is appended.
pub open spec fn edit_effect(
    before: SolverConfigScreen,
    key: Key,
    after: SolverConfigScreen,
    r: SolverConfigAction,
) -> bool {
    let f = field_at(before.active_field as int);
    if key == Key::Esc {
        r is Idle && closed_editor(before, after)
    } else if key == Key::Enter {
        if field_is_number(f) {
            &&& r matches SolverConfigAction::ApplyNumber(g, t) && g == f && t@ == before.edit_buffer@
            &&& closed_editor(before, after)
        } else {
            &&& r is Idle
            &&& exists|mid: SolverConfigScreen| edit_applied(before, f, mid) && closed_editor(mid, after)
        }
    } else if key == Key::Backspace {
        &&& r is Idle
        &&& after == SolverConfigScreen { edit_buffer: after.edit_buffer, ..before }
        &&& after.edit_buffer@ == if before.edit_buffer@.len() > 0 {
            before.edit_buffer@.drop_last()
        } else {
            before.edit_buffer@
        }
    } else {
        match key {
            Key::Char(c) => if accepts_char(f, c) {
                &&& r is Idle
                &&& after == SolverConfigScreen { edit_buffer: after.edit_buffer, ..before }
                &&& after.edit_buffer@ == before.edit_buffer@.push(c)
            } else {
                r is Idle && after == before
            },
            _ => r is Idle && after == before,
        }
    }
}

/// Enter on an open range field whose trimmed text reaches a token on which
/// the range parser's index formula underflows.
pub open spec fn enter_reaches_bad_range(s: SolverConfigScreen, key: Key) -> bool {
    let f = field_at(s.active_field as int);
    let t = trim_spec(s.edit_buffer@);
    &&& s.editing
    &&& key == Key::Enter
    &&& field_is_text(f)
    &&& t.len() > 0
    &&& pieces_panic(split_on(t, ','))
}

/// Tab and Shift+Tab undo each other.
pub proof fn lemma_tab_round_trip(i: int)
    requires
        0 <= i < FIELD_COUNT,
    ensures
        tab_prev(tab_next(i)) == i,
        tab_next(tab_prev(i)) == i,
        0 <= tab_next(i) < FIELD_COUNT,
        0 <= tab_prev(i) < FIELD_COUNT,
{
}

/// Opening the iterations or the raise cap and applying the text unchanged
/// keeps the value, when it is already within the field's range.
pub proof fn lemma_number_edit_keeps(s: SolverConfigScreen, after: SolverConfigScreen)
    requires
        field_at(s.active_field as int) == Field::Iterations || field_at(s.active_field as int)
            == Field::MaxRaises,
        field_at(s.active_field as int) == Field::Iterations ==> 10 <= s.iterations <= 1_000_000,
        field_at(s.active_field as int) == Field::MaxRaises ==> s.max_raises <= 5,
        s.edit_buffer@ == start_text(s, field_at(s.active_field as int)),
        edit_applied(s, field_at(s.active_field as int), after),
    ensures
        after == s,
{
    let f = field_at(s.active_field as int);
    if f == Field::Iterations {
        crate::tui::screens::settings::lemma_decimal_round_trip(s.iterations as nat);
        assert(parse_u64(s.edit_buffer@) == Some(s.iterations as u64));
    } else {
        crate::tui::screens::settings::lemma_decimal_round_trip(s.max_raises as nat);
        assert(parse_u64(s.edit_buffer@) == Some(s.max_raises as u64));
    }
}

/// Whether the editor of field `f` takes `c`.
fn accepts(f: Field, c: char) -> (b: bool)
    ensures
        b == accepts_char(f, c),
{
    if f.is_text_edit() {
        ('0' <= c && c <= '9') || ('a' <= c && c <= 'z') || ('A' <= c && c <= 'Z') || c == ','
            || c == '-' || c == ' '
    } else {
        ('0' <= c && c <= '9') || c == ',' || c == '.'
    }
}

impl SolverConfigScreen {
    /// The screen for a river solve: empty board and ranges, CFR+, 1,000
    /// iterations, at most two raises a street, focus on the first field.
    pub fn new() -> (s: SolverConfigScreen)
        ensures
            s.active_field == 0,
            s.street == Street::River,
            fresh_board(s.board_input, 5),
            s.range_oop@.len() == 0,
            s.range_ip@.len() == 0,
            s.algorithm == CfrAlgorithm::CfrPlus,
            s.iterations == 1000,
            s.max_raises == 2,
            s.edit_buffer@.len() == 0,
            !s.editing,
            s.error is None,
    {
        SolverConfigScreen {
            active_field: 0,
            street: Street::River,
            board_input: MultiCardInput::new(5, "Board"),
            range_oop: String::new(),
            range_ip: String::new(),
            algorithm: CfrAlgorithm::CfrPlus,
            iterations: 1_000,
            max_raises: 2,
            edit_buffer: Vec::new(),
            editing: false,
            error: None,
        }
    }

    /// Go to `street`, with an empty board of its size when it changes.
    pub fn set_street(&mut self, street: Street)
        ensures
            street_set(*old(self), street, *final(self)),
    {
        if self.street != street {
            self.street = street;
            self.board_input = MultiCardInput::new(street.board_cards(), "Board");
        }
    }

    /// Put `text` in the editor: the text of a fractional field the
    /// application opened.
    pub fn set_edit_text(&mut self, text: &[char])
        ensures
            *final(self) == (SolverConfigScreen { edit_buffer: final(self).edit_buffer, ..*old(self) }),
            final(self).edit_buffer@ == text@,
    {
        let mut v: Vec<char> = Vec::new();
        let mut i: usize = 0;
        while i < text.len()
            invariant
                i <= text@.len(),
                v@ == text@.take(i as int),
            decreases text@.len() - i,
        {
            v.push(text[i]);
            assert(text@.take(i + 1) =~= text@.take(i as int).push(text@[i as int]));
            i += 1;
        }
        assert(text@.take(text@.len() as int) =~= text@);
        self.edit_buffer = v;
    }

    /// Whether `handle_key` would reach a range token on which the range
    /// parser's index formula underflows.
    pub fn key_reaches_bad_range(&self, key: Key) -> (b: bool)
        requires
            self.active_field < FIELD_COUNT,
        ensures
            b == enter_reaches_bad_range(*self, key),
    {
        if !self.editing || key != Key::Enter || !Field::at(self.active_field).is_text_edit() {
            return false;
        }
        let text = string_of_chars(self.edit_buffer.as_slice());
        let trimmed = str_trim(text.as_str());
        !trimmed.is_empty() && range_text_panics(trimmed)
    }

    /// Handle a key: with an editor open it goes to the editor (see
    /// `handle_edit_key`). Otherwise, on the board the keys go to the card
    /// slots but for Esc (back), Tab and Shift+Tab (next and previous field)
    /// and Enter on a complete board (next field); elsewhere Esc goes back,
    /// Up/`k` and Down/`j` move within the fields, Tab and Shift+Tab move
    /// going round, Enter or `e` changes the street, switches the algorithm
    /// or opens the field, and `r` asks for the solve.
    pub fn handle_key(&mut self, key: Key) -> (r: SolverConfigAction)
        requires
            old(self).active_field < FIELD_COUNT,
            !enter_reaches_bad_range(*old(self), key),
        ensures
            old(self).editing ==> edit_effect(*old(self), key, *final(self), r),
            !old(self).editing ==> browse_effect(*old(self), key, *final(self), r),
    {
        if self.editing {
            return self.handle_edit_key(key);
        }
        let current_field = Field::at(self.active_field);
        if current_field == Field::Board {
            if key == Key::Esc {
                return SolverConfigAction::Back;
            } else if key == Key::Tab {
                self.active_field = (self.active_field + 1) % FIELD_COUNT;
            } else if key == Key::BackTab {
                self.active_field = if self.active_field == 0 {
                    FIELD_COUNT - 1
                } else {
                    self.active_field - 1
                };
            } else if key == Key::Enter && self.board_input.all_complete() {
                self.active_field = (self.active_field + 1) % FIELD_COUNT;
            } else {
                let none: Vec<Card> = Vec::new();
                assert(none@ =~= Seq::<Card>::empty());
                self.board_input.handle_key(key, none.as_slice());
            }
            return SolverConfigAction::Idle;
        }
        if key == Key::Esc {
            return SolverConfigAction::Back;
        }
        if (key == Key::Up || key == Key::Char('k')) && self.active_field > 0 {
            self.active_field -= 1;
        } else if (key == Key::Down || key == Key::Char('j')) && self.active_field < FIELD_COUNT
            - 1 {
            self.active_field += 1;
        } else if key == Key::Tab {
            self.active_field = (self.active_field + 1) % FIELD_COUNT;
        } else if key == Key::BackTab {
            self.active_field = if self.active_field == 0 {
                FIELD_COUNT - 1
            } else {
                self.active_field - 1
            };
        } else if key == Key::Enter || key == Key::Char('e') {
            if current_field == Field::Street {
                let next = self.street.next();
                self.set_street(next);
            } else if current_field == Field::Algorithm {
                self.algorithm = match self.algorithm {
                    CfrAlgorithm::CfrPlus => CfrAlgorithm::Dcfr,
                    CfrAlgorithm::Dcfr => CfrAlgorithm::CfrPlus,
                };
            } else if current_field.is_number() {
                self.editing = true;
                self.error = None;
                self.edit_buffer = Vec::new();
                return SolverConfigAction::OpenNumber(current_field);
            } else {
                self.start_edit();
            }
        } else if key == Key::Char('r') {
            return self.try_run();
        }
        SolverConfigAction::Idle
    }

    /// Open the field in focus, one whose value the screen holds, on its
    /// value's text.
    fn start_edit(&mut self)
        requires
            old(self).active_field < FIELD_COUNT,
        ensures
            opened(*old(self), start_text(*old(self), field_at(old(self).active_field as int)), *final(self)),
    {
        let text = match Field::at(self.active_field) {
            Field::RangeOOP => str_chars(self.range_oop.as_str()),
            Field::RangeIP => str_chars(self.range_ip.as_str()),
            Field::Iterations => decimal_chars(self.iterations as u64),
            Field::MaxRaises => decimal_chars(self.max_raises as u64),
            _ => Vec::new(),
        };
        self.editing = true;
        self.error = None;
        self.edit_buffer = text;
    }

    /// With the editor open: Esc closes it, Enter applies the text and
    /// closes it, Backspace removes the last character, and a character the
    /// field takes is appended.
    pub fn handle_edit_key(&mut self, key: Key) -> (r: SolverConfigAction)
        requires
            old(self).active_field < FIELD_COUNT,
            !enter_reaches_bad_range((SolverConfigScreen { editing: true, ..*old(self) }), key),
        ensures
            edit_effect(*old(self), key, *final(self), r),
    {
        let current_field = Field::at(self.active_field);
        match key {
            Key::Esc => {
                self.editing = false;
                self.edit_buffer = Vec::new();
            },
            Key::Enter => {
                if current_field.is_number() {
                    let mut text: Vec<char> = Vec::new();
                    std::mem::swap(&mut text, &mut self.edit_buffer);
                    self.editing = false;
                    return SolverConfigAction::ApplyNumber(current_field, text);
                }
                self.apply_edit();
                let ghost mid = *self;
                self.editing = false;
                self.edit_buffer = Vec::new();
                assert(closed_editor(mid, *self));
            },
            Key::Backspace => {
                let _ = self.edit_buffer.pop();
            },
            Key::Char(c) => {
                if accepts(current_field, c) {
                    self.edit_buffer.push(c);
                }
            },
            _ => {},
        }
        SolverConfigAction::Idle
    }

    /// Apply the editor's text to the field in focus, one whose value the
    /// screen holds.
    fn apply_edit(&mut self)
        requires
            old(self).active_field < FIELD_COUNT,
            !field_is_number(field_at(old(self).active_field as int)),
            field_is_text(field_at(old(self).active_field as int)) && trim_spec(
                old(self).edit_buffer@,
            ).len() > 0 ==> !pieces_panic(split_on(trim_spec(old(self).edit_buffer@), ',')),
        ensures
            edit_applied(*old(self), field_at(old(self).active_field as int), *final(self)),
    {
        let field = Field::at(self.active_field);
        if field == Field::RangeOOP || field == Field::RangeIP {
            let text = string_of_chars(self.edit_buffer.as_slice());
            let trimmed = str_trim(text.as_str());
            if trimmed.is_empty() {
                if field == Field::RangeOOP {
                    self.range_oop = String::new();
                } else {
                    self.range_ip = String::new();
                }
            } else {
                match HandRange::from_str(trimmed) {
                    Ok(_) => {
                        if field == Field::RangeOOP {
                            self.range_oop = trimmed.to_owned();
                        } else {
                            self.range_ip = trimmed.to_owned();
                        }
                        self.error = None;
                    },
                    Err(e) => {
                        let mut m = if field == Field::RangeOOP {
                            String::from_str("Invalid OOP range: ")
                        } else {
                            String::from_str("Invalid IP range: ")
                        };
                        let detail = e.message();
                        m.append(detail.as_str());
                        self.error = Some(m);
                    },
                }
            }
        } else if field == Field::Iterations {
            match parse_decimal(self.edit_buffer.as_slice()) {
                Some(v) => {
                    if v <= 4294967295 {
                        let v32 = v as u32;
                        self.iterations = if v32 < 10 {
                            10
                        } else if v32 > 1_000_000 {
                            1_000_000
                        } else {
                            v32
                        };
                    }
                },
                None => {},
            }
        } else if field == Field::MaxRaises {
            match parse_decimal(self.edit_buffer.as_slice()) {
                Some(v) => {
                    if v <= 255 {
                        let v8 = v as u8;
                        self.max_raises = if v8 < 5 {
                            v8
                        } else {
                            5
                        };
                    }
                },
                None => {},
            }
        }
    }

    /// Ask for the solve, or show how many board cards the street needs.
    fn try_run(&mut self) -> (r: SolverConfigAction)
        ensures
            run_effect(*old(self), *final(self), r),
    {
        let required_cards = self.street.board_cards();
        if !self.board_input.all_complete() {
            let mut m = String::from_str("Enter all ");
            let digits = decimal_chars(required_cards as u64);
            let count = string_of_chars(digits.as_slice());
            m.append(count.as_str());
            m.append(" board cards for ");
            m.append(self.street.name());
            m.append(" solve");
            self.error = Some(m);
            return SolverConfigAction::Idle;
        }
        let board = self.board_input.cards();
        SolverConfigAction::Run(
            SolverRequest {
                board,
                algorithm: self.algorithm,
                iterations: self.iterations,
                max_raises: self.max_raises,
                street: self.street,
                range_oop: self.range_oop.clone(),
                range_ip: self.range_ip.clone(),
            },
        )
    }
}

} // verus!
