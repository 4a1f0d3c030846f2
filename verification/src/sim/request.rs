//! The checks of the requests the web front ends receive: an odds request
//! (a variant id and card texts) turned into a hand and simulation
//! settings, and single card and range texts.

use crate::cards::card::{
    ascii_lower, str_chars, str_trim, invalid_format_text, is_card_shaped, card_from_chars, parse_error_text, string_of_chars,
    trim_spec, utf8_width, Card,
};
use crate::game::state::GameState;
use crate::game::variant::{lemma_variant_id_round_trip, variant_id, GameVariant};
use crate::cards::card::lemma_card_index_round_trip;
use crate::sim::config::SimConfig;
use crate::sim::engine::distinct_cards;
use crate::solver::range::{
    count_in, failure_of, pieces_panic, range_error_text, range_text_result, split_on, HandRange,
    RangeParseError,
};
use crate::tui::screens::settings::{decimal_chars, decimal_text};
use vstd::prelude::*;

verus! {

/// An odds request: the variant's id, the card texts, the number of
/// opponents and the optional simulation settings.
pub struct OddsRequest {
    pub variant: String,
    pub hole_cards: Vec<String>,
    pub community_cards: Vec<String>,
    pub opponent_count: usize,
    pub iterations: Option<u64>,
    pub exact_threshold: Option<u64>,
    pub rng_seed: Option<u64>,
}

/// The card a text names, once trimmed, if it names one.
pub open spec fn card_text_ok(s: Seq<char>) -> Option<Card> {
    let t = trim_spec(s);
    if is_card_shaped(t) {
        match card_from_chars(t[0], t[1]) {
            Ok(c) => Some(c),
            Err(_) => None,
        }
    } else {
        None
    }
}

/// Why a text names no card.
pub open spec fn card_error_text(s: Seq<char>) -> Seq<char> {
    let t = trim_spec(s);
    if is_card_shaped(t) {
        match card_from_chars(t[0], t[1]) {
            Ok(_) => Seq::empty(),
            Err(e) => parse_error_text(e),
        }
    } else {
        invalid_format_text(t)
    }
}

/// A text that the card parser is not given: a single two-byte character.
pub open spec fn card_text_panics(s: Seq<char>) -> bool {
    trim_spec(s).len() == 1 && utf8_width(trim_spec(s)[0]) == 2
}

/// The position of the first text that names no card, or the number of
/// texts when they all do.
pub open spec fn first_bad(t: Seq<Seq<char>>) -> int
    decreases t.len(),
{
    if t.len() == 0 {
        0
    } else {
        let p = first_bad(t.drop_last());
        if p < t.len() - 1 {
            p
        } else if card_text_ok(t.last()) is Some {
            t.len() as int
        } else {
            t.len() - 1
        }
    }
}

/// The cards the texts name (when they all name one).
pub open spec fn cards_of(t: Seq<Seq<char>>) -> Seq<Card> {
    Seq::new(t.len(), |i: int| card_text_ok(t[i])->0)
}

/// The position of the first card that repeats an earlier one, or the
/// number of cards when none does.
pub open spec fn first_repeat(s: Seq<Card>) -> int
    decreases s.len(),
{
    if s.len() == 0 {
        0
    } else {
        let p = first_repeat(s.drop_last());
        if p < s.len() - 1 {
            p
        } else if s.drop_last().contains(s.last()) {
            s.len() - 1
        } else {
            s.len() as int
        }
    }
}

/// The texts of strings.
pub open spec fn texts(v: Seq<String>) -> Seq<Seq<char>> {
    v.map_values(|s: String| s@)
}

/// The message for a text that names no card.
pub open spec fn invalid_card_message(s: Seq<char>) -> Seq<char> {
    "Invalid card '"@ + s + "': "@ + card_error_text(s)
}

/// The variant's name.
pub open spec fn variant_name(v: GameVariant) -> Seq<char> {
    match v {
        GameVariant::TexasHoldem => "Texas Hold'em"@,
        GameVariant::OmahaHoldem => "Omaha Hold'em"@,
        GameVariant::SevenCardStud => "7-Card Stud"@,
        GameVariant::FiveCardDraw => "5-Card Draw"@,
    }
}

/// The message for a wrong number of hole cards.
pub open spec fn hole_count_message(v: GameVariant, got: nat) -> Seq<char> {
    variant_name(v) + " requires "@ + decimal_text(v.spec_hole_card_count() as nat)
        + " hole cards, got "@ + decimal_text(got)
}

/// The message for a card given twice.
pub open spec fn duplicate_message(c: Card) -> Seq<char> {
    "Duplicate card: "@ + seq![c.rank.spec_char(), c.suit.spec_glyph()]
}

/// The message for an unknown variant id.
pub open spec fn unknown_variant_message(s: Seq<char>) -> Seq<char> {
    "Unknown variant '"@ + s
        + "'. Use one of: texas_holdem, omaha_holdem, seven_card_stud, five_card_draw"@
}

/// Whether the request names a variant.
pub open spec fn names_variant(req: OddsRequest) -> bool {
    exists|v: GameVariant| variant_id(v) == req.variant@
}

/// The variant the request names.
pub open spec fn request_variant(req: OddsRequest) -> GameVariant {
    choose|v: GameVariant| variant_id(v) == req.variant@
}

/// The request's card texts that are parsed before any failure hold no text
/// the card parser is not given.
pub open spec fn parsed_texts_fine(req: OddsRequest) -> bool {
    let hole = texts(req.hole_cards@);
    let comm = texts(req.community_cards@);
    &&& forall|i: int|
        0 <= i < hole.len() && i <= first_bad(hole) ==> !card_text_panics(#[trigger] hole[i])
    &&& first_bad(hole) == hole.len() ==> forall|i: int|
        0 <= i < comm.len() && i <= first_bad(comm) ==> !card_text_panics(#[trigger] comm[i])
}

/// The simulation settings of the request: the defaults, with the iterations
/// (brought into 1,000..=2,000,000), the exact threshold and the seed it
/// gives.
pub open spec fn request_config(req: OddsRequest, c: SimConfig) -> bool {
    &&& c.iterations == match req.iterations {
        Some(n) => if n < 1000 {
            1000
        } else if n > 2_000_000 {
            2_000_000
        } else {
            n
        },
        None => 500_000,
    }
    &&& c.exact_threshold == match req.exact_threshold {
        Some(t) => t,
        None => 50_000,
    }
    &&& c.threads == 0
    &&& c.update_interval_ms == 100
    &&& c.rng_seed == req.rng_seed
}

/// The first `i` texts all name cards, read as `cards`.
proof fn lemma_first_bad_step(t: Seq<Seq<char>>, i: int)
    requires
        0 <= i < t.len(),
        first_bad(t.take(i)) == i,
    ensures
        first_bad(t.take(i + 1)) == if card_text_ok(t[i]) is Some {
            i + 1
        } else {
            i
        },
{
    assert(t.take(i + 1).drop_last() =~= t.take(i));
}

/// Texts that all name cards up to `j` leave the first bad one at `j` or
/// later.
proof fn lemma_first_bad_mono(t: Seq<Seq<char>>, j: int)
    requires
        0 <= j <= t.len(),
        first_bad(t.take(j)) == j,
    ensures
        first_bad(t) >= j,
    decreases t.len(),
{
    if j == t.len() {
        assert(t.take(j) =~= t);
    } else {
        assert(t.drop_last().take(j) =~= t.take(j));
        lemma_first_bad_mono(t.drop_last(), j);
    }
}

/// `first_bad` of all texts is that of a prefix ending at a bad one.
proof fn lemma_first_bad_prefix(t: Seq<Seq<char>>, j: int)
    requires
        0 <= j <= t.len(),
        first_bad(t.take(j)) < j,
    ensures
        first_bad(t) == first_bad(t.take(j)),
    decreases t.len(),
{
    if j < t.len() {
        assert(t.drop_last().take(j) =~= t.take(j));
        lemma_first_bad_prefix(t.drop_last(), j);
    } else {
        assert(t.take(j) =~= t);
    }
}

/// One more card for `first_repeat`.
proof fn lemma_first_repeat_step(s: Seq<Card>, j: int)
    requires
        0 <= j < s.len(),
        first_repeat(s.take(j)) == j,
    ensures
        first_repeat(s.take(j + 1)) == if s.take(j).contains(s[j]) {
            j
        } else {
            j + 1
        },
{
    assert(s.take(j + 1).drop_last() =~= s.take(j));
}

/// `first_repeat` of all cards is that of a prefix ending at a repeat.
proof fn lemma_first_repeat_prefix(s: Seq<Card>, j: int)
    requires
        0 <= j <= s.len(),
        first_repeat(s.take(j)) < j,
    ensures
        first_repeat(s) == first_repeat(s.take(j)),
    decreases s.len(),
{
    if j < s.len() {
        assert(s.drop_last().take(j) =~= s.take(j));
        lemma_first_repeat_prefix(s.drop_last(), j);
    } else {
        assert(s.take(j) =~= s);
    }
}

/// `first_repeat` is at most the number of cards.
proof fn lemma_first_repeat_bound(s: Seq<Card>)
    ensures
        0 <= first_repeat(s) <= s.len(),
    decreases s.len(),
{
    if s.len() > 0 {
        lemma_first_repeat_bound(s.drop_last());
    }
}

/// Cards that pass the duplicate check are pairwise different cards, as the
/// simulation asks of the known cards: a request the check accepts can be
/// simulated.
pub proof fn lemma_no_repeat_distinct(s: Seq<Card>)
    requires
        first_repeat(s) == s.len(),
    ensures
        distinct_cards(s),
    decreases s.len(),
{
    if s.len() > 0 {
        let t = s.drop_last();
        lemma_first_repeat_bound(t);
        lemma_no_repeat_distinct(t);
        assert forall|i: int, j: int| 0 <= i < j < s.len() implies s[i].idx() != s[j].idx() by {
            if j < s.len() - 1 {
                assert(t[i] == s[i] && t[j] == s[j]);
            } else {
                assert(t[i] == s[i]);
                assert(s[i] != s.last());
                lemma_card_index_round_trip(s[i], 0);
                lemma_card_index_round_trip(s[j], 0);
            }
        }
    }
}

/// Read card texts in order, stopping at the first that names no card with
/// its message.
fn parse_cards(v: &Vec<String>) -> (r: Result<Vec<Card>, String>)
    requires
        forall|i: int|
            0 <= i < v@.len() && i <= first_bad(texts(v@)) ==> !card_text_panics(
                #[trigger] texts(v@)[i],
            ),
    ensures
        match r {
            Ok(cards) => first_bad(texts(v@)) == v@.len() && cards@ == cards_of(texts(v@)),
            Err(m) => first_bad(texts(v@)) < v@.len() && m@ == invalid_card_message(
                texts(v@)[first_bad(texts(v@))],
            ),
        },
{
    let ghost t = texts(v@);
    let mut out: Vec<Card> = Vec::new();
    let mut i: usize = 0;
    proof {
        assert(t.take(0) =~= Seq::<Seq<char>>::empty());
    }
    while i < v.len()
        invariant
            i <= v@.len(),
            t == texts(v@),
            t.len() == v@.len(),
            first_bad(t.take(i as int)) == i,
            forall|k: int| 0 <= k < t.len() && k <= first_bad(t) ==> !card_text_panics(#[trigger] t[k]),
            out@.len() == i,
            forall|k: int| 0 <= k < i ==> out@[k] == card_text_ok(#[trigger] t[k])->0,
            forall|k: int| 0 <= k < i ==> card_text_ok(#[trigger] t[k]) is Some,
        decreases v@.len() - i,
    {
        proof {
            lemma_first_bad_step(t, i as int);
            assert(t[i as int] == v@[i as int]@);
            lemma_first_bad_mono(t, i as int);
        }
        let s = &v[i];
        match Card::from_str(s.as_str()) {
            Ok(c) => {
                out.push(c);
            },
            Err(e) => {
                proof {
                    lemma_first_bad_prefix(t, i + 1);
                }
                let mut m = String::from_str("Invalid card '");
                m.append(s.as_str());
                m.append("': ");
                let detail = e.message();
                m.append(detail.as_str());
                return Err(m);
            },
        }
        i += 1;
    }
    proof {
        assert(t.take(i as int) =~= t);
        assert(out@ =~= cards_of(t));
    }
    Ok(out)
}

/// The position of the first card that repeats an earlier one, or the
/// number of cards.
fn first_duplicate(known: &Vec<Card>) -> (r: usize)
    ensures
        r == first_repeat(known@),
{
    let ghost all = known@;
    let mut j: usize = 0;
    proof {
        assert(all.take(0) =~= Seq::<Card>::empty());
    }
    while j < known.len()
        invariant
            j <= known@.len(),
            all == known@,
            first_repeat(all.take(j as int)) == j,
        decreases known@.len() - j,
    {
        let c = known[j];
        let mut i: usize = 0;
        while i < j
            invariant
                i <= j,
                j < known@.len(),
                all == known@,
                c == all[j as int],
                first_repeat(all.take(j as int)) == j,
                forall|x: int| 0 <= x < i ==> all[x] != c,
            decreases j - i,
        {
            if known[i] == c {
                proof {
                    assert(all.take(j as int)[i as int] == c);
                    lemma_first_repeat_step(all, j as int);
                    lemma_first_repeat_prefix(all, j + 1);
                }
                return j;
            }
            i += 1;
        }
        proof {
            lemma_first_repeat_step(all, j as int);
            assert(!all.take(j as int).contains(c)) by {
                if all.take(j as int).contains(c) {
                    let x = choose|x: int| 0 <= x < j && all.take(j as int)[x] == c;
                    assert(all[x] == c);
                }
            }
        }
        j += 1;
    }
    proof {
        assert(all.take(j as int) =~= all);
    }
    j
}

/// Check an odds request and turn it into the hand and the simulation
/// settings: the variant must be known, every card text must name a card,
/// the hole cards must be as many as the variant deals, and no card may be
/// given twice; the first failure in that order is reported. There is at
/// least one opponent.
pub fn prepare_odds_request(req: &OddsRequest) -> (r: Result<(GameState, SimConfig), String>)
    requires
        names_variant(*req) ==> parsed_texts_fine(*req),
    ensures
        ({
            let hole = texts(req.hole_cards@);
            let comm = texts(req.community_cards@);
            let v = request_variant(*req);
            let known = cards_of(hole) + cards_of(comm);
            if !names_variant(*req) {
                r matches Err(m) && m@ == unknown_variant_message(req.variant@)
            } else if first_bad(hole) < hole.len() {
                r matches Err(m) && m@ == invalid_card_message(hole[first_bad(hole)])
            } else if first_bad(comm) < comm.len() {
                r matches Err(m) && m@ == invalid_card_message(comm[first_bad(comm)])
            } else if hole.len() != v.spec_hole_card_count() {
                r matches Err(m) && m@ == hole_count_message(v, hole.len())
            } else if first_repeat(known) < known.len() {
                r matches Err(m) && m@ == duplicate_message(known[first_repeat(known)])
            } else {
                &&& r matches Ok((state, config))
                &&& state.variant == v
                &&& state.hole_cards@ == cards_of(hole)
                &&& state.community_cards@ == cards_of(comm)
                &&& state.opponent_count == if req.opponent_count < 1 {
                    1
                } else {
                    req.opponent_count
                }
                &&& state.stud_visible@.len() == 6
                &&& forall|i: int| 0 <= i < 6 ==> (#[trigger] state.stud_visible@[i])@.len() == 0
                &&& request_config(*req, config)
            }
        }),
{
    let variant = match GameVariant::from_id(req.variant.as_str()) {
        Ok(v) => v,
        Err(m) => {
            return Err(m);
        },
    };
    proof {
        assert(names_variant(*req));
        let w = request_variant(*req);
        lemma_variant_id_round_trip(variant, w);
    }
    let mut state = GameState::new(variant);
    state.hole_cards = match parse_cards(&req.hole_cards) {
        Ok(c) => c,
        Err(m) => {
            return Err(m);
        },
    };
    state.community_cards = match parse_cards(&req.community_cards) {
        Ok(c) => c,
        Err(m) => {
            return Err(m);
        },
    };
    state.opponent_count = if req.opponent_count < 1 {
        1
    } else {
        req.opponent_count
    };
    if !state.hole_cards_complete() {
        let mut m = String::from_str(variant.name());
        m.append(" requires ");
        let need = string_of_chars(decimal_chars(variant.hole_card_count() as u64).as_slice());
        m.append(need.as_str());
        m.append(" hole cards, got ");
        let got = string_of_chars(decimal_chars(state.hole_cards.len() as u64).as_slice());
        m.append(got.as_str());
        return Err(m);
    }
    // Duplicate check over the known cards: the hole cards, then the board.
    let mut known: Vec<Card> = Vec::new();
    let mut k: usize = 0;
    while k < state.hole_cards.len()
        invariant
            k <= state.hole_cards@.len(),
            known@ == state.hole_cards@.take(k as int),
        decreases state.hole_cards@.len() - k,
    {
        known.push(state.hole_cards[k]);
        assert(state.hole_cards@.take(k + 1) =~= state.hole_cards@.take(k as int).push(
            state.hole_cards@[k as int],
        ));
        k += 1;
    }
    k = 0;
    assert(state.hole_cards@.take(state.hole_cards@.len() as int) =~= state.hole_cards@);
    while k < state.community_cards.len()
        invariant
            k <= state.community_cards@.len(),
            known@ == state.hole_cards@ + state.community_cards@.take(k as int),
        decreases state.community_cards@.len() - k,
    {
        known.push(state.community_cards[k]);
        assert(state.community_cards@.take(k + 1) =~= state.community_cards@.take(k as int).push(
            state.community_cards@[k as int],
        ));
        k += 1;
    }
    assert(state.community_cards@.take(state.community_cards@.len() as int)
        =~= state.community_cards@);
    let dup = first_duplicate(&known);
    if dup < known.len() {
        let mut m = String::from_str("Duplicate card: ");
        let shown = known[dup].display_unicode();
        m.append(shown.as_str());
        return Err(m);
    }
    let mut config = SimConfig::default();
    match req.iterations {
        Some(n) => {
            config.iterations = if n < 1000 {
                1000
            } else if n > 2_000_000 {
                2_000_000
            } else {
                n
            };
        },
        None => {},
    }
    match req.exact_threshold {
        Some(t) => {
            config.exact_threshold = t;
        },
        None => {},
    }
    config.rng_seed = req.rng_seed;
    Ok((state, config))
}

/// Whether a text names a card.
pub fn validate_card(s: &str) -> (b: bool)
    requires
        !card_text_panics(s@),
    ensures
        b == card_text_ok(s@) is Some,
{
    Card::from_str(s).is_ok()
}

/// The number of combinations a range text holds, or the message of why it
/// is refused.
pub fn validate_range(range: &str) -> (r: Result<u32, String>)
    requires
        !pieces_panic(split_on(range@, ',')),
    ensures
        match r {
            Ok(n) => range_text_result(range@) matches Ok(f) && n == count_in(
                Seq::new(1326, |k: int| f(k)),
                1326,
            ),
            Err(m) => range_text_result(range@) matches Err(fail) && exists|e: RangeParseError|
                failure_of(e) == fail && m@ == range_error_text(e),
        },
{
    match HandRange::from_str(range) {
        Ok(h) => {
            let n = h.num_combos();
            proof {
                let f = range_text_result(range@)->Ok_0;
                assert(h@ =~= Seq::new(1326, |k: int| f(k)));
                lemma_count_in_bound(h@, 1326);
            }
            Ok(n as u32)
        },
        Err(e) => Err(e.message()),
    }
}

/// At most `n` of the first `n` flags are set.
proof fn lemma_count_in_bound(s: Seq<bool>, n: int)
    requires
        n >= 0,
    ensures
        0 <= count_in(s, n) <= n,
    decreases n,
{
    if n > 0 {
        lemma_count_in_bound(s, n - 1);
    }
}

/// Whether trimmed text `t` is "all", in any case.
pub open spec fn is_all_text(t: Seq<char>) -> bool {
    t.len() == 3 && ascii_lower(t[0]) == 'a' && ascii_lower(t[1]) == 'l' && ascii_lower(t[2])
        == 'l'
}

/// Whether a range text, where "all" or nothing means every combination,
/// is refused.
pub open spec fn range_or_all_fails(s: Seq<char>) -> bool {
    let t = trim_spec(s);
    !(is_all_text(t) || t.len() == 0) && range_text_result(t) is Err
}

/// `h` holds the combinations of the range text `s`, where "all" or nothing
/// means every combination.
pub open spec fn range_or_all_members(s: Seq<char>, h: HandRange) -> bool {
    let t = trim_spec(s);
    &&& h@.len() == 1326
    &&& if is_all_text(t) || t.len() == 0 {
        forall|k: int| 0 <= k < 1326 ==> #[trigger] h@[k]
    } else {
        range_text_result(t) matches Ok(f) && forall|k: int| 0 <= k < 1326 ==> #[trigger] h@[k]
            == f(k)
    }
}

/// `m` reports why the range text `s` is refused, with the text as given.
pub open spec fn range_or_all_error(s: Seq<char>, m: Seq<char>) -> bool {
    range_text_result(trim_spec(s)) matches Err(fail) && exists|e: RangeParseError|
        failure_of(e) == fail && m == "invalid range '"@ + s + "': "@ + range_error_text(e)
}

/// The range texts the range parser is not given.
pub open spec fn range_or_all_panics(s: Seq<char>) -> bool {
    let t = trim_spec(s);
    !is_all_text(t) && t.len() > 0 && pieces_panic(split_on(t, ','))
}

/// Parse a range text where "all" (in any case) or nothing means every
/// combination; a refused text is reported with the text as given.
pub fn parse_range_or_all(s: &str) -> (r: Result<HandRange, String>)
    requires
        !range_or_all_panics(s@),
    ensures
        range_or_all_fails(s@) ==> (r matches Err(m) && range_or_all_error(s@, m@)),
        !range_or_all_fails(s@) ==> (r matches Ok(h) && range_or_all_members(s@, h)),
{
    let trimmed = str_trim(s);
    let chars = str_chars(trimmed);
    let all = chars.len() == 3 && lower_ascii(chars[0]) == 'a' && lower_ascii(chars[1]) == 'l'
        && lower_ascii(chars[2]) == 'l';
    if all || trimmed.is_empty() {
        return Ok(HandRange::full());
    }
    match HandRange::from_str(trimmed) {
        Ok(h) => Ok(h),
        Err(e) => {
            let mut m = String::from_str("invalid range '");
            m.append(s);
            m.append("': ");
            let detail = e.message();
            m.append(detail.as_str());
            Err(m)
        },
    }
}

/// `c` with an ASCII upper-case letter turned into its lower-case form.
fn lower_ascii(c: char) -> (r: char)
    ensures
        r == ascii_lower(c),
{
    if 'A' <= c && c <= 'Z' {
        ((c as u32) + 32) as u8 as char
    } else {
        c
    }
}

/// The parts of a postflop solve request that are not fractional numbers:
/// the board (three to five cards) and the two ranges ("all" or nothing
/// meaning every combination); the first failure in that order is
/// reported.
pub fn prepare_solve_request(board: &Vec<String>, range_oop: &str, range_ip: &str) -> (r: Result<
    (Vec<Card>, HandRange, HandRange),
    String,
>)
    requires
        forall|i: int|
            0 <= i < board@.len() && i <= first_bad(texts(board@)) ==> !card_text_panics(
                #[trigger] texts(board@)[i],
            ),
        !range_or_all_panics(range_oop@),
        !range_or_all_panics(range_ip@),
    ensures
        ({
            let t = texts(board@);
            if first_bad(t) < t.len() {
                r matches Err(m) && m@ == invalid_card_message(t[first_bad(t)])
            } else if t.len() < 3 || t.len() > 5 {
                r matches Err(m) && m@ == "unsupported board length "@ + decimal_text(t.len())
                    + ": expected 3 (flop), 4 (turn) or 5 (river)"@
            } else if range_or_all_fails(range_oop@) {
                r matches Err(m) && range_or_all_error(range_oop@, m@)
            } else if range_or_all_fails(range_ip@) {
                r matches Err(m) && range_or_all_error(range_ip@, m@)
            } else {
                &&& r matches Ok((cards, oop, ip))
                &&& cards@ == cards_of(t)
                &&& range_or_all_members(range_oop@, oop)
                &&& range_or_all_members(range_ip@, ip)
            }
        }),
{
    let cards = match parse_cards(board) {
        Ok(c) => c,
        Err(m) => {
            return Err(m);
        },
    };
    if cards.len() < 3 || cards.len() > 5 {
        let mut m = String::from_str("unsupported board length ");
        let n = string_of_chars(decimal_chars(cards.len() as u64).as_slice());
        m.append(n.as_str());
        m.append(": expected 3 (flop), 4 (turn) or 5 (river)");
        return Err(m);
    }
    let oop = match parse_range_or_all(range_oop) {
        Ok(h) => h,
        Err(m) => {
            return Err(m);
        },
    };
    let ip = match parse_range_or_all(range_ip) {
        Ok(h) => h,
        Err(m) => {
            return Err(m);
        },
    };
    Ok((cards, oop, ip))
}

} // verus!
