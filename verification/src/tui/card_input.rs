//! Interactive card input: one slot reads a rank then a suit; a row of slots
//! collects several different cards.

use crate::cards::card::{
    one_char_string, rank_of_char, suit_of_char, two_char_string, Card, Rank, Suit,
};
use crate::tui::keys::Key;
use vstd::multiset::Multiset;
use vstd::prelude::*;

verus! {

/// What a card slot is waiting for.
#[derive(Clone, Copy, Debug, PartialEq, Eq, Structural)]
pub enum InputState {
    /// Waiting for a rank character.
    AwaitingRank,
    /// Got a rank, waiting for a suit character.
    AwaitingSuit(Rank),
    /// Card confirmed.
    Confirmed(Card),
}

/// Why the last key of a slot was refused.
pub enum InputError {
    /// The key was accepted.
    NoError,
    /// The character names no rank.
    UnknownRank(char),
    /// The card is already held elsewhere.
    InUse(Card),
    /// The character names no suit.
    UnknownSuit(char),
}

/// The message a refusal reads as.
pub open spec fn error_text(e: InputError) -> Option<Seq<char>> {
    match e {
        InputError::NoError => None,
        InputError::UnknownRank(c) => Some(
            "Unknown rank '"@ + seq![c] + "'. Use 2-9, T, J, Q, K, A"@,
        ),
        InputError::InUse(card) => Some(
            seq![card.rank.spec_char(), card.suit.spec_glyph()] + " is already in use"@,
        ),
        InputError::UnknownSuit(c) => Some("Unknown suit '"@ + seq![c] + "'. Use c, d, h, s"@),
    }
}

/// One step of a slot: its next state, the refusal if any, and the card it
/// confirms if any.
pub open spec fn input_step(state: InputState, key: Key, used: Seq<Card>) -> (
    InputState,
    InputError,
    Option<Card>,
) {
    match state {
        InputState::AwaitingRank => match key {
            Key::Char(c) => match rank_of_char(c) {
                Some(r) => (InputState::AwaitingSuit(r), InputError::NoError, None),
                None => (InputState::AwaitingRank, InputError::UnknownRank(c), None),
            },
            _ => (state, InputError::NoError, None),
        },
        InputState::AwaitingSuit(rank) => match key {
            Key::Backspace => (InputState::AwaitingRank, InputError::NoError, None),
            Key::Char(c) => match suit_of_char(c) {
                Some(s) => {
                    let card = Card { rank, suit: s };
                    if used.contains(card) {
                        (InputState::AwaitingRank, InputError::InUse(card), None)
                    } else {
                        (InputState::Confirmed(card), InputError::NoError, Some(card))
                    }
                },
                None => (state, InputError::UnknownSuit(c), None),
            },
            _ => (state, InputError::NoError, None),
        },
        InputState::Confirmed(_) => match key {
            Key::Backspace | Key::Delete => (InputState::AwaitingRank, InputError::NoError, None),
            _ => (state, InputError::NoError, None),
        },
    }
}

/// A single card input slot.
#[derive(Clone, Debug)]
pub struct CardInput {
    pub state: InputState,
    pub error: Option<String>,
}

/// The refusal message for an unknown rank character.
fn unknown_rank_message(c: char) -> (m: String)
    ensures
        m@ == "Unknown rank '"@ + seq![c] + "'. Use 2-9, T, J, Q, K, A"@,
{
    let one = one_char_string(c);
    let m = String::from_str("Unknown rank '");
    let m = m.concat(one.as_str());
    m.concat("'. Use 2-9, T, J, Q, K, A")
}

/// The refusal message for a card already in use.
fn in_use_message(rank: char, glyph: char) -> (m: String)
    ensures
        m@ == seq![rank, glyph] + " is already in use"@,
{
    let m = two_char_string(rank, glyph);
    m.concat(" is already in use")
}

/// The refusal message for an unknown suit character.
fn unknown_suit_message(c: char) -> (m: String)
    ensures
        m@ == "Unknown suit '"@ + seq![c] + "'. Use c, d, h, s"@,
{
    let one = one_char_string(c);
    let m = String::from_str("Unknown suit '");
    let m = m.concat(one.as_str());
    m.concat("'. Use c, d, h, s")
}

/// Whether `used` holds `card`.
fn holds(used: &[Card], card: Card) -> (r: bool)
    ensures
        r == used@.contains(card),
{
    let mut i: usize = 0;
    while i < used.len()
        invariant
            i <= used@.len(),
            forall|j: int| 0 <= j < i ==> used@[j] != card,
        decreases used@.len() - i,
    {
        if used[i] == card {
            return true;
        }
        i += 1;
    }
    false
}

/// The error message of a slot, as plain text.
pub open spec fn error_view(e: Option<String>) -> Option<Seq<char>> {
    match e {
        Some(s) => Some(s@),
        None => None,
    }
}

impl CardInput {
    pub fn new() -> (c: CardInput)
        ensures
            c.state == InputState::AwaitingRank,
            c.error is None,
    {
        CardInput { state: InputState::AwaitingRank, error: None }
    }

    /// Back to waiting for a rank, with no error.
    pub fn clear(&mut self)
        ensures
            final(self).state == InputState::AwaitingRank,
            final(self).error is None,
    {
        self.state = InputState::AwaitingRank;
        self.error = None;
    }

    pub fn is_complete(&self) -> (r: bool)
        ensures
            r == (self.state is Confirmed),
    {
        match self.state {
            InputState::Confirmed(_) => true,
            _ => false,
        }
    }

    pub fn card(&self) -> (r: Option<Card>)
        ensures
            r == match self.state {
                InputState::Confirmed(c) => Some(c),
                _ => None,
            },
    {
        match self.state {
            InputState::Confirmed(c) => Some(c),
            _ => None,
        }
    }

    /// The slot after a key press, and the card it confirms if any.
    pub fn step(&self, key: Key, already_used: &[Card]) -> (r: (CardInput, Option<Card>))
        ensures
            r.0.state == input_step(self.state, key, already_used@).0,
            error_view(r.0.error) == error_text(input_step(self.state, key, already_used@).1),
            r.1 == input_step(self.state, key, already_used@).2,
    {
        match self.state {
            InputState::AwaitingRank => {
                if let Key::Char(c) = key {
                    match Rank::from_char(c) {
                        Ok(rank) => (CardInput { state: InputState::AwaitingSuit(rank), error: None }, None),
                        Err(_) => (
                            CardInput {
                                state: InputState::AwaitingRank,
                                error: Some(unknown_rank_message(c)),
                            },
                            None,
                        ),
                    }
                } else {
                    (CardInput { state: self.state, error: None }, None)
                }
            },
            InputState::AwaitingSuit(rank) => match key {
                Key::Backspace => (CardInput { state: InputState::AwaitingRank, error: None }, None),
                Key::Char(c) => match Suit::from_char(c) {
                    Ok(suit) => {
                        let card = Card::new(rank, suit);
                        if holds(already_used, card) {
                            (
                                CardInput {
                                    state: InputState::AwaitingRank,
                                    error: Some(in_use_message(rank.to_char(), suit.glyph())),
                                },
                                None,
                            )
                        } else {
                            (CardInput { state: InputState::Confirmed(card), error: None }, Some(card))
                        }
                    },
                    Err(_) => (
                        CardInput { state: self.state, error: Some(unknown_suit_message(c)) },
                        None,
                    ),
                },
                _ => (CardInput { state: self.state, error: None }, None),
            },
            InputState::Confirmed(_) => match key {
                Key::Backspace | Key::Delete => (
                    CardInput { state: InputState::AwaitingRank, error: None },
                    None,
                ),
                _ => (CardInput { state: self.state, error: None }, None),
            },
        }
    }

    /// Handle a key press. Returns the completed card if just confirmed.
    pub fn handle_key(&mut self, key: Key, already_used: &[Card]) -> (r: Option<Card>)
        ensures
            final(self).state == input_step(old(self).state, key, already_used@).0,
            error_view(final(self).error) == error_text(
                input_step(old(self).state, key, already_used@).1,
            ),
            r == input_step(old(self).state, key, already_used@).2,
    {
        let (next, confirmed) = self.step(key, already_used);
        *self = next;
        confirmed
    }

    /// Display hint for this input slot: "_ _", the rank and "_", or the
    /// card with its suit symbol.
    pub fn hint(&self) -> (s: String)
        ensures
            s@ == match self.state {
                InputState::AwaitingRank => "_ _"@,
                InputState::AwaitingSuit(r) => seq![r.spec_char(), '_'],
                InputState::Confirmed(c) => seq![c.rank.spec_char(), c.suit.spec_glyph()],
            },
    {
        match self.state {
            InputState::AwaitingRank => "_ _".to_owned(),
            InputState::AwaitingSuit(r) => two_char_string(r.to_char(), '_'),
            InputState::Confirmed(c) => two_char_string(c.rank.to_char(), c.suit.glyph()),
        }
    }
}

impl Default for CardInput {
    fn default() -> (c: CardInput)
        ensures
            c.state == InputState::AwaitingRank,
            c.error is None,
    {
        CardInput::new()
    }
}

/// Multi-slot card input, for entering several cards.
#[derive(Clone, Debug)]
pub struct MultiCardInput {
    pub slots: Vec<CardInput>,
    pub active_slot: usize,
    pub label: String,
}

/// The states of the slots.
pub open spec fn slot_states(slots: Seq<CardInput>) -> Seq<InputState> {
    slots.map_values(|s: CardInput| s.state)
}

/// The slot `i` steps after `active`, going round.
pub open spec fn cyclic(active: int, i: int, n: int) -> int {
    (active + i) % n
}

/// The first slot that is not complete among those `i..=n` steps after
/// `active`, going round.
pub open spec fn first_incomplete(states: Seq<InputState>, active: int, i: int) -> Option<int>
    decreases states.len() + 1 - i,
{
    let n = states.len() as int;
    if i > n || i < 1 {
        None
    } else if !(states[cyclic(active, i, n)] is Confirmed) {
        Some(cyclic(active, i, n))
    } else {
        first_incomplete(states, active, i + 1)
    }
}

/// The confirmed cards of the slots, in slot order.
pub open spec fn confirmed_cards(states: Seq<InputState>) -> Seq<Card>
    decreases states.len(),
{
    if states.len() == 0 {
        Seq::empty()
    } else {
        let prev = confirmed_cards(states.drop_last());
        match states.last() {
            InputState::Confirmed(c) => prev.push(c),
            _ => prev,
        }
    }
}

/// Whether every slot holds a confirmed card.
pub open spec fn all_confirmed(slots: Seq<CardInput>) -> bool {
    forall|i: int| 0 <= i < slots.len() ==> (#[trigger] slots[i]).state is Confirmed
}

/// The first error message among the slots.
pub open spec fn first_error(slots: Seq<CardInput>) -> Option<Seq<char>>
    decreases slots.len(),
{
    if slots.len() == 0 {
        None
    } else {
        match error_view(slots[0].error) {
            Some(m) => Some(m),
            None => first_error(slots.drop_first()),
        }
    }
}

/// The active slot after a key that confirmed a card (or not), then after
/// Tab or Shift+Tab.
pub open spec fn next_active(
    states: Seq<InputState>,
    active: int,
    confirmed: bool,
    key: Key,
) -> int {
    let n = states.len() as int;
    let a1 = if confirmed {
        match first_incomplete(states, active, 1) {
            Some(x) => x,
            None => active,
        }
    } else {
        active
    };
    if key == Key::Tab {
        (a1 + 1) % n
    } else if key == Key::BackTab {
        (a1 + n - 1) % n
    } else {
        a1
    }
}

/// What a key press does to a row of slots: nothing when the active slot is
/// out of range; else the active slot steps on the key, the others stay, and
/// the active slot moves as `next_active` says.
pub open spec fn multi_key_effect(
    before: MultiCardInput,
    key: Key,
    used: Seq<Card>,
    after: MultiCardInput,
) -> bool {
    if before.active_slot >= before.slots@.len() {
        after == before
    } else {
        let a = before.active_slot as int;
        let step = input_step(before.slots@[a].state, key, used);
        let states = slot_states(before.slots@).update(a, step.0);
        &&& after.slots@.len() == before.slots@.len()
        &&& slot_states(after.slots@) == states
        &&& error_view(after.slots@[a].error) == error_text(step.1)
        &&& forall|j: int|
            0 <= j < before.slots@.len() && j != a ==> #[trigger] after.slots@[j]
                == before.slots@[j]
        &&& after.active_slot as int == next_active(states, a, step.2 is Some, key)
        &&& after.label == before.label
    }
}

/// The slot found by `first_incomplete` is a slot.
proof fn lemma_first_incomplete_range(states: Seq<InputState>, active: int, i: int)
    requires
        states.len() > 0,
    ensures
        first_incomplete(states, active, i) matches Some(x) ==> 0 <= x < states.len(),
    decreases states.len() + 1 - i,
{
    let n = states.len() as int;
    if i >= 1 && i <= n {
        vstd::arithmetic::div_mod::lemma_mod_bound(active + i, n);
        lemma_first_incomplete_range(states, active, i + 1);
    }
}

/// Going round `n` slots: `i` steps after `active`, without overflow.
proof fn lemma_cyclic(active: int, i: int, n: int)
    requires
        0 <= active < n,
        0 <= i <= n,
    ensures
        cyclic(active, i, n) == if i < n - active {
            active + i
        } else {
            i - (n - active)
        },
{
    if i < n - active {
        vstd::arithmetic::div_mod::lemma_small_mod((active + i) as nat, n as nat);
    } else {
        vstd::arithmetic::div_mod::lemma_mod_add_multiples_vanish(i - (n - active), n);
        vstd::arithmetic::div_mod::lemma_small_mod((i - (n - active)) as nat, n as nat);
        assert(active + i == n + (i - (n - active)));
    }
}

impl MultiCardInput {
    pub fn new(count: usize, label: &str) -> (m: MultiCardInput)
        ensures
            m.slots@.len() == count,
            forall|i: int|
                0 <= i < count ==> (#[trigger] m.slots@[i]).state == InputState::AwaitingRank
                    && m.slots@[i].error is None,
            m.active_slot == 0,
            m.label@ == label@,
    {
        let mut slots: Vec<CardInput> = Vec::new();
        let mut i: usize = 0;
        while i < count
            invariant
                i <= count,
                slots@.len() == i,
                forall|j: int|
                    0 <= j < i ==> (#[trigger] slots@[j]).state == InputState::AwaitingRank
                        && slots@[j].error is None,
            decreases count - i,
        {
            slots.push(CardInput::new());
            i += 1;
        }
        MultiCardInput { slots, active_slot: 0, label: label.to_owned() }
    }

    /// The first slot after the active one, going round, that is not
    /// complete.
    fn next_incomplete_slot(&self) -> (r: Option<usize>)
        requires
            self.active_slot < self.slots@.len(),
        ensures
            r == match first_incomplete(slot_states(self.slots@), self.active_slot as int, 1) {
                Some(x) => Some(x as usize),
                None => None::<usize>,
            },
            r matches Some(x) ==> x < self.slots@.len(),
    {
        let n = self.slots.len();
        let ghost states = slot_states(self.slots@);
        let mut k: usize = 0;
        while k < n
            invariant
                k <= n,
                n == self.slots@.len(),
                self.active_slot < n,
                states == slot_states(self.slots@),
                first_incomplete(states, self.active_slot as int, 1) == first_incomplete(
                    states,
                    self.active_slot as int,
                    k + 1,
                ),
            decreases n - k,
        {
            let i = k + 1;
            let d = n - self.active_slot;
            let idx = if i < d {
                self.active_slot + i
            } else {
                i - d
            };
            proof {
                lemma_cyclic(self.active_slot as int, i as int, n as int);
                assert(idx as int == cyclic(self.active_slot as int, i as int, n as int));
                assert(states[idx as int] == self.slots@[idx as int].state);
            }
            if !self.slots[idx].is_complete() {
                return Some(idx);
            }
            k = i;
        }
        None
    }

    /// Handle a key press in the active slot: a confirmed card moves on to
    /// the next incomplete slot; Tab and Shift+Tab move between slots.
    pub fn handle_key(&mut self, key: Key, already_used: &[Card])
        ensures
            multi_key_effect(*old(self), key, already_used@, *final(self)),
    {
        if self.active_slot >= self.slots.len() {
            return;
        }
        let a = self.active_slot;
        let (next, completed) = self.slots[a].step(key, already_used);
        self.slots.set(a, next);
        let ghost states = slot_states(self.slots@);
        proof {
            assert(states =~= slot_states(old(self).slots@).update(
                a as int,
                input_step(old(self).slots@[a as int].state, key, already_used@).0,
            ));
        }
        let mut a1 = a;
        if completed.is_some() {
            let found = self.next_incomplete_slot();
            proof {
                lemma_first_incomplete_range(states, a as int, 1);
                assert(self.active_slot == a);
                assert(found == match first_incomplete(states, a as int, 1) {
                    Some(x) => Some(x as usize),
                    None => None::<usize>,
                });
            }
            match found {
                Some(nx) => {
                    a1 = nx;
                },
                None => {},
            }
        }
        let n = self.slots.len();
        proof {
            assert(a1 < n);
            assert(a1 as int == if completed is Some {
                match first_incomplete(states, a as int, 1) {
                    Some(x) => x,
                    None => a as int,
                }
            } else {
                a as int
            });
        }
        self.active_slot = a1;
        if key == Key::Tab {
            self.active_slot = (self.active_slot + 1) % n;
        }
        if key == Key::BackTab {
            self.active_slot = if self.active_slot == 0 {
                n - 1
            } else {
                self.active_slot - 1
            };
            proof {
                lemma_cyclic(a1 as int, (n - 1) as int, n as int);
            }
        }
    }

    pub fn all_complete(&self) -> (r: bool)
        ensures
            r == all_confirmed(self.slots@),
    {
        let mut i: usize = 0;
        while i < self.slots.len()
            invariant
                i <= self.slots@.len(),
                forall|j: int| 0 <= j < i ==> (#[trigger] self.slots@[j]).state is Confirmed,
            decreases self.slots@.len() - i,
        {
            if !self.slots[i].is_complete() {
                return false;
            }
            i += 1;
        }
        true
    }

    /// The confirmed cards, in slot order.
    pub fn cards(&self) -> (r: Vec<Card>)
        ensures
            r@ == confirmed_cards(slot_states(self.slots@)),
    {
        let mut out: Vec<Card> = Vec::new();
        let mut i: usize = 0;
        while i < self.slots.len()
            invariant
                i <= self.slots@.len(),
                out@ == confirmed_cards(slot_states(self.slots@.take(i as int))),
            decreases self.slots@.len() - i,
        {
            proof {
                assert(slot_states(self.slots@.take(i + 1)).drop_last() =~= slot_states(
                    self.slots@.take(i as int),
                ));
            }
            if let Some(c) = self.slots[i].card() {
                out.push(c);
            }
            i += 1;
        }
        proof {
            assert(self.slots@.take(i as int) =~= self.slots@);
        }
        out
    }

    /// The first error message among the slots.
    pub fn error(&self) -> (r: Option<&str>)
        ensures
            match r {
                Some(m) => first_error(self.slots@) == Some(m@),
                None => first_error(self.slots@) is None,
            },
    {
        let mut i: usize = 0;
        assert(self.slots@.skip(0) =~= self.slots@);
        while i < self.slots.len()
            invariant
                i <= self.slots@.len(),
                first_error(self.slots@) == first_error(self.slots@.skip(i as int)),
            decreases self.slots@.len() - i,
        {
            proof {
                assert(self.slots@.skip(i as int)[0] == self.slots@[i as int]);
                assert(self.slots@.skip(i as int).drop_first() =~= self.slots@.skip(i + 1));
            }
            match &self.slots[i].error {
                Some(m) => {
                    return Some(m.as_str());
                },
                None => {},
            }
            i += 1;
        }
        None
    }

    /// Clear every slot and go back to the first.
    pub fn reset(&mut self)
        ensures
            final(self).slots@.len() == old(self).slots@.len(),
            forall|i: int|
                0 <= i < final(self).slots@.len() ==> (#[trigger] final(self).slots@[i]).state
                    == InputState::AwaitingRank && final(self).slots@[i].error is None,
            final(self).active_slot == 0,
            final(self).label == old(self).label,
    {
        let mut i: usize = 0;
        while i < self.slots.len()
            invariant
                i <= self.slots@.len(),
                self.slots@.len() == old(self).slots@.len(),
                self.label == old(self).label,
                forall|j: int|
                    0 <= j < i ==> (#[trigger] self.slots@[j]).state == InputState::AwaitingRank
                        && self.slots@[j].error is None,
            decreases self.slots@.len() - i,
        {
            self.slots.set(i, CardInput::new());
            i += 1;
        }
        self.active_slot = 0;
    }
}

/// A step never confirms a card that is in use: a new card is confirmed
/// only when `used` does not hold it, and a confirmed card stays as it was.
pub proof fn lemma_step_confirms_unused(state: InputState, key: Key, used: Seq<Card>)
    ensures
        input_step(state, key, used).0 matches InputState::Confirmed(c) ==> (state
            == InputState::Confirmed(c) || (state is AwaitingSuit && !used.contains(c))),
        input_step(state, key, used).2 matches Some(c) ==> !used.contains(c)
            && input_step(state, key, used).0 == InputState::Confirmed(c),
{
}

/// The confirmed card of a slot, as a multiset of at most one card.
pub open spec fn confirmed_part(st: InputState) -> Multiset<Card> {
    match st {
        InputState::Confirmed(c) => Multiset::singleton(c),
        _ => Multiset::empty(),
    }
}

/// Replacing one slot's state replaces its confirmed card among the
/// confirmed cards of the row.
pub(crate) proof fn lemma_confirmed_update(s: Seq<InputState>, a: int, x: InputState)
    requires
        0 <= a < s.len(),
    ensures
        confirmed_cards(s.update(a, x)).to_multiset().add(confirmed_part(s[a]))
            == confirmed_cards(s).to_multiset().add(confirmed_part(x)),
    decreases s.len(),
{
    broadcast use vstd::seq_lib::group_to_multiset_ensures;
    broadcast use vstd::multiset::group_multiset_axioms;

    let t = s.update(a, x);
    if a == s.len() - 1 {
        assert(t.drop_last() =~= s.drop_last());
        let p = confirmed_cards(s.drop_last()).to_multiset();
        match x {
            InputState::Confirmed(c) => {
                assert(confirmed_cards(t) == confirmed_cards(s.drop_last()).push(c));
            },
            _ => {
                assert(confirmed_cards(t) == confirmed_cards(s.drop_last()));
            },
        }
        match s[a] {
            InputState::Confirmed(c) => {
                assert(confirmed_cards(s) == confirmed_cards(s.drop_last()).push(c));
            },
            _ => {
                assert(confirmed_cards(s) == confirmed_cards(s.drop_last()));
            },
        }
        assert(confirmed_cards(t).to_multiset().add(confirmed_part(s[a])) =~= p.add(confirmed_part(x)).add(
            confirmed_part(s[a]),
        ));
        assert(confirmed_cards(s).to_multiset().add(confirmed_part(x)) =~= p.add(confirmed_part(s[a])).add(
            confirmed_part(x),
        ));
    } else {
        let u = s.drop_last();
        lemma_confirmed_update(u, a, x);
        assert(t.drop_last() =~= u.update(a, x));
        assert(t.last() == s.last());
        let l = confirmed_part(s.last());
        match s.last() {
            InputState::Confirmed(c) => {
                assert(confirmed_cards(t) == confirmed_cards(u.update(a, x)).push(c));
                assert(confirmed_cards(s) == confirmed_cards(u).push(c));
            },
            _ => {
                assert(confirmed_cards(t) == confirmed_cards(u.update(a, x)));
                assert(confirmed_cards(s) == confirmed_cards(u));
            },
        }
        assert(confirmed_cards(t).to_multiset() =~= confirmed_cards(u.update(a, x)).to_multiset().add(l));
        assert(confirmed_cards(s).to_multiset() =~= confirmed_cards(u).to_multiset().add(l));
        assert(confirmed_cards(t).to_multiset().add(confirmed_part(s[a])) =~= confirmed_cards(u.update(
            a,
            x,
        )).to_multiset().add(confirmed_part(u[a])).add(l));
        assert(confirmed_cards(s).to_multiset().add(confirmed_part(x)) =~= confirmed_cards(u).to_multiset().add(
            confirmed_part(x),
        ).add(l));
    }
}

/// A key pressed in a row whose slots are checked against the row's own
/// confirmed cards keeps those cards pairwise different: no card is ever
/// confirmed twice.
pub proof fn lemma_row_keeps_cards_apart(before: MultiCardInput, key: Key, after: MultiCardInput)
    requires
        confirmed_cards(slot_states(before.slots@)).no_duplicates(),
        multi_key_effect(before, key, confirmed_cards(slot_states(before.slots@)), after),
    ensures
        confirmed_cards(slot_states(after.slots@)).no_duplicates(),
{
    broadcast use vstd::multiset::group_multiset_axioms;

    if before.active_slot < before.slots@.len() {
        let a = before.active_slot as int;
        let s = slot_states(before.slots@);
        let used = confirmed_cards(s);
        let x = input_step(s[a], key, used).0;
        let s2 = slot_states(after.slots@);
        assert(s[a] == before.slots@[a].state);
        assert(s2 == s.update(a, x));
        lemma_step_confirms_unused(s[a], key, used);
        lemma_confirmed_update(s, a, x);
        used.lemma_multiset_has_no_duplicates();
        let m = confirmed_cards(s).to_multiset();
        let m2 = confirmed_cards(s2).to_multiset();
        assert forall|y: Card| m2.contains(y) implies m2.count(y) == 1 by {
            assert(m2.add(confirmed_part(s[a])).count(y) == m.add(confirmed_part(x)).count(y));
            if m.contains(y) {
                assert(m.count(y) == 1);
            }
            match x {
                InputState::Confirmed(c) => {
                    if s[a] != x {
                        assert(!used.contains(c));
                        assert(!m.contains(c)) by {
                            broadcast use vstd::seq_lib::group_to_multiset_ensures;
                        }
                    }
                },
                _ => {},
            }
        }
        confirmed_cards(s2).lemma_multiset_has_no_duplicates_conv();
    }
}

} // verus!
