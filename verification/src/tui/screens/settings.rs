//! The screen that edits the simulation settings: three numeric fields, each
//! edited as a row of decimal digits.

use crate::sim::config::SimConfig;
use crate::tui::keys::Key;
use vstd::prelude::*;

verus! {

/// What the settings screen asks of the application.
pub enum SettingsAction {
    /// Nothing to do: the screen stays.
    Idle,
    Close,
    Save(SimConfig),
}

/// A setting the screen edits.
#[derive(Clone, Copy, Debug, PartialEq, Eq, Structural)]
pub enum Field {
    Iterations,
    ExactThreshold,
    Threads,
}

/// Number of fields on the screen.
pub const FIELD_COUNT: usize = 3;

/// The field at position `i` (the last one for any later position).
pub open spec fn field_at(i: int) -> Field {
    if i == 0 {
        Field::Iterations
    } else if i == 1 {
        Field::ExactThreshold
    } else {
        Field::Threads
    }
}

/// Whether `c` is an ASCII decimal digit.
pub open spec fn is_digit(c: char) -> bool {
    '0' <= c && c <= '9'
}

/// The character of the decimal digit `d`.
pub open spec fn digit_char(d: nat) -> char {
    ((48 + d) as u8) as char
}

/// The decimal text of `n`, without leading zeros.
pub open spec fn decimal_text(n: nat) -> Seq<char>
    decreases n,
{
    if n < 10 {
        seq![digit_char(n)]
    } else {
        decimal_text(n / 10).push(digit_char(n % 10))
    }
}

/// The number a row of decimal digits reads as.
pub open spec fn digits_value(s: Seq<char>) -> nat
    decreases s.len(),
{
    if s.len() == 0 {
        0
    } else {
        digits_value(s.drop_last()) * 10 + (s.last() as int - 48) as nat
    }
}

/// What reading `s` as a `u64` gives: its value when it is a non-empty row
/// of digits whose value fits.
pub open spec fn parse_u64(s: Seq<char>) -> Option<u64> {
    if s.len() > 0 && (forall|i: int| 0 <= i < s.len() ==> is_digit(#[trigger] s[i]))
        && digits_value(s) <= u64::MAX {
        Some(digits_value(s) as u64)
    } else {
        None
    }
}

/// `v` brought into `lo..=hi`.
pub open spec fn clamp_u64(v: u64, lo: u64, hi: u64) -> u64 {
    if v < lo {
        lo
    } else if v > hi {
        hi
    } else {
        v
    }
}

/// The value of a field, as the text the editor starts from.
pub open spec fn field_text(config: SimConfig, field: Field) -> Seq<char> {
    match field {
        Field::Iterations => decimal_text(config.iterations as nat),
        Field::ExactThreshold => decimal_text(config.exact_threshold as nat),
        Field::Threads => decimal_text(config.threads as nat),
    }
}

/// The settings after the edited text of `field` is applied: a text that
/// reads as a number sets the field, brought into its range; any other text
/// changes nothing.
pub open spec fn edited_config(config: SimConfig, field: Field, text: Seq<char>) -> SimConfig {
    match parse_u64(text) {
        None => config,
        Some(v) => match field {
            Field::Iterations => SimConfig { iterations: clamp_u64(v, 1000, 10_000_000), ..config },
            Field::ExactThreshold => SimConfig {
                exact_threshold: clamp_u64(v, 10, 1_000_000),
                ..config
            },
            Field::Threads => SimConfig {
                threads: if (v as usize) < 64 {
                    v as usize
                } else {
                    64
                },
                ..config
            },
        },
    }
}

/// Appending one more digit: the value is ten times the old one plus the
/// digit.
proof fn lemma_digits_push(s: Seq<char>, c: char)
    ensures
        digits_value(s.push(c)) == digits_value(s) * 10 + (c as int - 48) as nat,
{
    assert(s.push(c).drop_last() =~= s);
}

/// The decimal text of `n` is a row of digits that reads back as `n`.
pub proof fn lemma_decimal_round_trip(n: nat)
    ensures
        forall|i: int| 0 <= i < decimal_text(n).len() ==> is_digit(#[trigger] decimal_text(n)[i]),
        decimal_text(n).len() > 0,
        digits_value(decimal_text(n)) == n,
    decreases n,
{
    if n < 10 {
        assert(seq![digit_char(n)].drop_last() =~= Seq::<char>::empty());
        assert(((48 + n) as u8) as int == 48 + n);
        assert(digit_char(n) as int == 48 + n);
        assert(digits_value(Seq::<char>::empty()) == 0);
        assert(digits_value(decimal_text(n)) == n);
    } else {
        lemma_decimal_round_trip(n / 10);
        lemma_digits_push(decimal_text(n / 10), digit_char(n % 10));
        assert(((48 + n % 10) as u8) as int == 48 + n % 10);
        assert(digit_char(n % 10) as int == 48 + n % 10);
        assert(n == (n / 10) * 10 + n % 10);
        assert(digits_value(decimal_text(n)) == n);
    }
}

/// Opening a field and applying its text unchanged keeps the settings, when
/// the field's value is already within the range the field is brought into.
pub proof fn lemma_edit_unchanged_keeps(config: SimConfig, field: Field)
    requires
        field == Field::Iterations ==> 1000 <= config.iterations <= 10_000_000,
        field == Field::ExactThreshold ==> 10 <= config.exact_threshold <= 1_000_000,
        field == Field::Threads ==> config.threads <= 64,
    ensures
        edited_config(config, field, field_text(config, field)) == config,
{
    let v: nat = match field {
        Field::Iterations => config.iterations as nat,
        Field::ExactThreshold => config.exact_threshold as nat,
        Field::Threads => config.threads as nat,
    };
    lemma_decimal_round_trip(v);
    assert(parse_u64(decimal_text(v)) == Some(v as u64));
}

/// A row of digits reads as at least any of its prefixes.
proof fn lemma_digits_prefix(s: Seq<char>, i: int)
    requires
        0 <= i <= s.len(),
        forall|j: int| 0 <= j < s.len() ==> is_digit(#[trigger] s[j]),
    ensures
        digits_value(s) >= digits_value(s.take(i)),
    decreases s.len(),
{
    if i == s.len() {
        assert(s.take(i) =~= s);
    } else {
        let t = s.drop_last();
        assert(forall|j: int| 0 <= j < t.len() ==> is_digit(#[trigger] t[j])) by {
            assert(forall|j: int| 0 <= j < t.len() ==> t[j] == s[j]);
        }
        lemma_digits_prefix(t, i);
        assert(t.take(i) =~= s.take(i));
    }
}

/// The decimal text of `v`.
pub fn decimal_chars(v: u64) -> (r: Vec<char>)
    ensures
        r@ == decimal_text(v as nat),
{
    let mut out: Vec<char> = Vec::new();
    push_decimal(v, &mut out);
    out
}

/// Append the decimal text of `v`.
fn push_decimal(v: u64, out: &mut Vec<char>)
    ensures
        final(out)@ == old(out)@ + decimal_text(v as nat),
    decreases v,
{
    if v >= 10 {
        push_decimal(v / 10, out);
    }
    let d: u8 = (v % 10) as u8;
    out.push((48u8 + d) as char);
    proof {
        if v >= 10 {
            assert(decimal_text(v as nat) == decimal_text((v / 10) as nat).push(
                digit_char((v % 10) as nat),
            ));
        }
    }
}

/// Read a row of characters as a `u64`.
pub fn parse_decimal(s: &[char]) -> (r: Option<u64>)
    ensures
        r == parse_u64(s@),
{
    if s.len() == 0 {
        return None;
    }
    let mut acc: u64 = 0;
    let mut i: usize = 0;
    proof {
        assert(s@.take(0) =~= Seq::<char>::empty());
    }
    while i < s.len()
        invariant
            i <= s@.len(),
            s@.len() > 0,
            acc as nat == digits_value(s@.take(i as int)),
            forall|j: int| 0 <= j < i ==> is_digit(#[trigger] s@[j]),
        decreases s@.len() - i,
    {
        let c = s[i];
        if !('0' <= c && c <= '9') {
            return None;
        }
        let d: u64 = ((c as u32) - 48) as u64;
        proof {
            assert(s@.take(i + 1) =~= s@.take(i as int).push(c));
            lemma_digits_push(s@.take(i as int), c);
        }
        let next = match acc.checked_mul(10) {
            Some(m) => m.checked_add(d),
            None => None,
        };
        match next {
            Some(n) => {
                acc = n;
            },
            None => {
                proof {
                    if forall|j: int| 0 <= j < s@.len() ==> is_digit(#[trigger] s@[j]) {
                        lemma_digits_prefix(s@, i + 1);
                    }
                }
                return None;
            },
        }
        i += 1;
    }
    proof {
        assert(s@.take(i as int) =~= s@);
    }
    Some(acc)
}

impl Field {
    /// The field at position `i`.
    pub fn at(i: usize) -> (f: Field)
        ensures
            f == field_at(i as int),
    {
        if i == 0 {
            Field::Iterations
        } else if i == 1 {
            Field::ExactThreshold
        } else {
            Field::Threads
        }
    }

    /// The field's name on the screen.
    pub fn label(self) -> (r: &'static str)
        ensures
            r@ == match self {
                Field::Iterations => "Monte Carlo Iterations"@,
                Field::ExactThreshold => "Exact Enumeration Threshold"@,
                Field::Threads => "Threads (0 = auto)"@,
            },
    {
        match self {
            Field::Iterations => "Monte Carlo Iterations",
            Field::ExactThreshold => "Exact Enumeration Threshold",
            Field::Threads => "Threads (0 = auto)",
        }
    }

    /// The line of help under the field.
    pub fn hint(self) -> (r: &'static str)
        ensures
            r@ == match self {
                Field::Iterations => "Number of random simulations (higher = more accurate)"@,
                Field::ExactThreshold => "Switch to exact when combinations ≤ this value"@,
                Field::Threads => "CPU threads for simulation (0 = use all available)"@,
            },
    {
        match self {
            Field::Iterations => "Number of random simulations (higher = more accurate)",
            Field::ExactThreshold => "Switch to exact when combinations ≤ this value",
            Field::Threads => "CPU threads for simulation (0 = use all available)",
        }
    }
}

/// The settings screen: the settings, the field in focus, and the text being
/// edited when a field is open.
pub struct SettingsScreen {
    pub config: SimConfig,
    active_field: usize,
    edit_buffer: Vec<char>,
    editing: bool,
}

/// A copy of the settings.
fn copy_config(c: &SimConfig) -> (r: SimConfig)
    ensures
        r == *c,
{
    SimConfig {
        iterations: c.iterations,
        exact_threshold: c.exact_threshold,
        threads: c.threads,
        update_interval_ms: c.update_interval_ms,
        rng_seed: c.rng_seed,
    }
}

/// What a key does on the settings screen: with a field open it goes to
/// the editor; otherwise Esc or `q` closes, Up/`k` and Down/`j` move the
/// focus, Enter or `e` opens the field in focus on its value, `s` saves.
pub open spec fn settings_key_effect(
    before: SettingsScreen,
    key: Key,
    after: SettingsScreen,
    r: SettingsAction,
) -> bool {
    if before.spec_editing() {
        r is Idle && edit_key_effect(before, key, after)
    } else {
        if key == Key::Esc || key == Key::Char('q') {
            r is Close && after == before
        } else if key == Key::Up || key == Key::Char('k') {
            &&& r is Idle
            &&& after.spec_config() == before.spec_config()
            &&& after.spec_active() == if before.spec_active() > 0 {
                before.spec_active() - 1
            } else {
                before.spec_active()
            }
            &&& !after.spec_editing()
            &&& after.spec_buffer() == before.spec_buffer()
        } else if key == Key::Down || key == Key::Char('j') {
            &&& r is Idle
            &&& after.spec_config() == before.spec_config()
            &&& after.spec_active() == if before.spec_active() < FIELD_COUNT - 1 {
                before.spec_active() + 1
            } else {
                before.spec_active()
            }
            &&& !after.spec_editing()
            &&& after.spec_buffer() == before.spec_buffer()
        } else if key == Key::Enter || key == Key::Char('e') {
            &&& r is Idle
            &&& after.spec_config() == before.spec_config()
            &&& after.spec_active() == before.spec_active()
            &&& after.spec_editing()
            &&& after.spec_buffer() == field_text(
                before.spec_config(),
                field_at(before.spec_active()),
            )
        } else if key == Key::Char('s') {
            &&& after == before
            &&& r matches SettingsAction::Save(c)
            &&& c == before.spec_config()
        } else {
            r is Idle && after == before
        }
    }
}

impl SettingsScreen {
    /// The settings being edited.
    pub closed spec fn spec_config(self) -> SimConfig {
        self.config
    }

    /// Position of the field in focus.
    pub closed spec fn spec_active(self) -> int {
        self.active_field as int
    }

    /// Whether a field is open for editing.
    pub closed spec fn spec_editing(self) -> bool {
        self.editing
    }

    /// The text being edited.
    pub closed spec fn spec_buffer(self) -> Seq<char> {
        self.edit_buffer@
    }

    /// The screen on `config`, focus on the first field, nothing open.
    pub fn new(config: SimConfig) -> (s: SettingsScreen)
        ensures
            s.spec_config() == config,
            s.spec_active() == 0,
            !s.spec_editing(),
            s.spec_buffer() == Seq::<char>::empty(),
    {
        SettingsScreen { config, active_field: 0, edit_buffer: Vec::new(), editing: false }
    }

    /// Position of the field in focus.
    pub fn active_field(&self) -> (r: usize)
        ensures
            r as int == self.spec_active(),
    {
        self.active_field
    }

    /// Whether a field is open for editing.
    pub fn is_editing(&self) -> (r: bool)
        ensures
            r == self.spec_editing(),
    {
        self.editing
    }

    /// The text being edited.
    pub fn edit_buffer(&self) -> (r: &[char])
        ensures
            r@ == self.spec_buffer(),
    {
        self.edit_buffer.as_slice()
    }

    /// With no field open: Esc or `q` closes, Up/`k` and Down/`j` move the
    /// focus within the fields, Enter or `e` opens the field in focus with
    /// its value as text, `s` saves. With a field open, the key goes to the
    /// editor (see `handle_edit_key`).
    pub fn handle_key(&mut self, key: Key) -> (r: SettingsAction)
        ensures
            settings_key_effect(*old(self), key, *final(self), r),
    {
        if self.editing {
            return self.handle_edit_key(key);
        }
        if key == Key::Esc || key == Key::Char('q') {
            return SettingsAction::Close;
        }
        if key == Key::Up || key == Key::Char('k') {
            if self.active_field > 0 {
                self.active_field -= 1;
            }
        } else if key == Key::Down || key == Key::Char('j') {
            if self.active_field < FIELD_COUNT - 1 {
                self.active_field += 1;
            }
        } else if key == Key::Enter || key == Key::Char('e') {
            self.start_edit();
        } else if key == Key::Char('s') {
            return SettingsAction::Save(copy_config(&self.config));
        }
        SettingsAction::Idle
    }

    /// Open the field in focus, with its value as text.
    fn start_edit(&mut self)
        ensures
            final(self).config == old(self).config,
            final(self).active_field == old(self).active_field,
            final(self).editing,
            final(self).edit_buffer@ == field_text(
                old(self).config,
                field_at(old(self).active_field as int),
            ),
    {
        self.editing = true;
        self.edit_buffer = match Field::at(self.active_field) {
            Field::Iterations => decimal_chars(self.config.iterations),
            Field::ExactThreshold => decimal_chars(self.config.exact_threshold),
            Field::Threads => decimal_chars(self.config.threads as u64),
        };
    }

    /// With a field open: Esc closes it unchanged, Enter applies its text
    /// and closes it, Backspace removes the last character, a digit is
    /// appended; other keys do nothing.
    pub fn handle_edit_key(&mut self, key: Key) -> (r: SettingsAction)
        ensures
            r is Idle,
            edit_key_effect(*old(self), key, *final(self)),
    {
        match key {
            Key::Esc => {
                self.editing = false;
                self.edit_buffer = Vec::new();
            },
            Key::Enter => {
                self.apply_edit();
                self.editing = false;
                self.edit_buffer = Vec::new();
            },
            Key::Backspace => {
                let _ = self.edit_buffer.pop();
            },
            Key::Char(c) => {
                if '0' <= c && c <= '9' {
                    self.edit_buffer.push(c);
                }
            },
            _ => {},
        }
        SettingsAction::Idle
    }

    /// Apply the edited text to the field in focus.
    fn apply_edit(&mut self)
        ensures
            final(self).config == edited_config(
                old(self).config,
                field_at(old(self).active_field as int),
                old(self).edit_buffer@,
            ),
            final(self).active_field == old(self).active_field,
            final(self).edit_buffer == old(self).edit_buffer,
            final(self).editing == old(self).editing,
    {
        match parse_decimal(self.edit_buffer.as_slice()) {
            Some(val) => match Field::at(self.active_field) {
                Field::Iterations => {
                    self.config.iterations = if val < 1000 {
                        1000
                    } else if val > 10_000_000 {
                        10_000_000
                    } else {
                        val
                    };
                },
                Field::ExactThreshold => {
                    self.config.exact_threshold = if val < 10 {
                        10
                    } else if val > 1_000_000 {
                        1_000_000
                    } else {
                        val
                    };
                },
                Field::Threads => {
                    let t = val as usize;
                    self.config.threads = if t < 64 {
                        t
                    } else {
                        64
                    };
                },
            },
            None => {},
        }
    }
}

/// What a key does to the settings screen while a field is open.
pub open spec fn edit_key_effect(before: SettingsScreen, key: Key, after: SettingsScreen) -> bool {
    &&& after.spec_active() == before.spec_active()
    &&& match key {
        Key::Esc => {
            &&& after.spec_config() == before.spec_config()
            &&& !after.spec_editing()
            &&& after.spec_buffer() == Seq::<char>::empty()
        },
        Key::Enter => {
            &&& after.spec_config() == edited_config(
                before.spec_config(),
                field_at(before.spec_active()),
                before.spec_buffer(),
            )
            &&& !after.spec_editing()
            &&& after.spec_buffer() == Seq::<char>::empty()
        },
        Key::Backspace => {
            &&& after.spec_config() == before.spec_config()
            &&& after.spec_editing() == before.spec_editing()
            &&& after.spec_buffer() == if before.spec_buffer().len() > 0 {
                before.spec_buffer().drop_last()
            } else {
                before.spec_buffer()
            }
        },
        Key::Char(c) => {
            &&& after.spec_config() == before.spec_config()
            &&& after.spec_editing() == before.spec_editing()
            &&& after.spec_buffer() == if is_digit(c) {
                before.spec_buffer().push(c)
            } else {
                before.spec_buffer()
            }
        },
        _ => after == before,
    }
}

} // verus!
