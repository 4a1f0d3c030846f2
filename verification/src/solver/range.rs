//! Two-card combinations and preflop hand ranges.
//!
//! The 1326 two-card combinations are numbered by their lower card, then
//! their higher card (by compact card index). A range is the set of
//! combinations it holds; the text form is a comma-separated list such as
//! "AA,AKs,QQ-TT,A5s-A2s,KJo,AhKs".

use crate::cards::card::{
    ascii_lower, ascii_upper, card_at, lemma_card_index_round_trip, rank_at, rank_of_char,
    one_char_string, str_chars, str_trim, suit_at, suit_of_char, trim_spec, parse_error_text, Card, CardParseError, Rank, Suit,
};
use vstd::prelude::*;

verus! {

/// Combinations whose lower card has index below `lo`: `51 + 50 + ...`.
pub open spec fn tri(lo: int) -> int
    decreases lo,
{
    if lo <= 0 {
        0
    } else {
        tri(lo - 1) + 52 - lo
    }
}

/// The number of the combination of the cards with indices `lo < hi`.
pub open spec fn pair_index(lo: int, hi: int) -> int {
    tri(lo) + hi - lo - 1
}

/// The number the index formula gives two cards, lower index first (for
/// two equal cards it is one less than the first number of their group).
pub open spec fn spec_combo_index(a: Card, b: Card) -> int {
    if a.idx() < b.idx() {
        pair_index(a.idx(), b.idx())
    } else {
        pair_index(b.idx(), a.idx())
    }
}

/// The closed form of `tri`.
pub(crate) proof fn lemma_tri_closed(lo: int)
    requires
        0 <= lo,
    ensures
        2 * tri(lo) == lo * (103 - lo),
    decreases lo,
{
    if lo > 0 {
        lemma_tri_closed(lo - 1);
        assert(tri(lo) == tri(lo - 1) + 52 - lo);
        assert(lo * (103 - lo) == (lo - 1) * (103 - (lo - 1)) + 2 * (52 - lo)) by (nonlinear_arith);
    } else {
        assert(lo * (103 - lo) == 0) by (nonlinear_arith)
            requires
                lo == 0,
        ;
    }
}

/// `tri` grows: each group of lower card `lo` holds `51 - lo` combinations.
proof fn lemma_tri_mono(a: int, b: int)
    requires
        0 <= a <= b <= 52,
    ensures
        tri(a) + (b - a) * (103 - a - b) / 2 == tri(b),
        a < b ==> tri(a) + 51 - a <= tri(b),
        tri(a) <= tri(b),
    decreases b - a,
{
    lemma_tri_closed(a);
    lemma_tri_closed(b);
    assert((b - a) * (103 - a - b) == b * (103 - b) - a * (103 - a)) by (nonlinear_arith);
    assert((b - a) * (103 - a - b) >= 0) by (nonlinear_arith)
        requires
            0 <= a <= b <= 52,
    ;
    if a < b {
        assert((b - a) * (103 - a - b) >= 2 * (51 - a)) by (nonlinear_arith)
            requires
                0 <= a < b <= 52,
        ;
    }
}

/// The numbers of the combinations of `lo` fill `tri(lo)..tri(lo + 1)`.
proof fn lemma_pair_index_group(lo: int, hi: int)
    requires
        0 <= lo < hi < 52,
    ensures
        tri(lo) <= pair_index(lo, hi) < tri(lo + 1),
        0 <= pair_index(lo, hi) < 1326,
{
    lemma_tri_mono(lo + 1, 51);
    lemma_tri_mono(0, lo);
    assert(tri(lo + 1) == tri(lo) + 52 - (lo + 1));
    assert(tri(51) == 1326) by {
        lemma_tri_closed(51);
    }
}

/// Different combinations have different numbers.
proof fn lemma_pair_index_injective(lo1: int, hi1: int, lo2: int, hi2: int)
    requires
        0 <= lo1 < hi1 < 52,
        0 <= lo2 < hi2 < 52,
        pair_index(lo1, hi1) == pair_index(lo2, hi2),
    ensures
        lo1 == lo2,
        hi1 == hi2,
{
    lemma_pair_index_group(lo1, hi1);
    lemma_pair_index_group(lo2, hi2);
    if lo1 < lo2 {
        lemma_tri_mono(lo1 + 1, lo2);
    } else if lo2 < lo1 {
        lemma_tri_mono(lo2 + 1, lo1);
    }
}

/// `lo * 103 / 2 - lo * lo / 2` is `tri(lo)`: both products have the parity
/// of `lo`.
proof fn lemma_index_formula(lo: int)
    requires
        0 <= lo < 52,
    ensures
        (lo * 103) / 2 - (lo * lo) / 2 == tri(lo),
        0 <= tri(lo) <= 1326,
{
    lemma_tri_closed(lo);
    lemma_tri_mono(lo, 51);
    assert(tri(51) == 1326) by {
        lemma_tri_closed(51);
    }
    let m = lo / 2;
    if lo % 2 == 0 {
        assert(lo == 2 * m);
        assert((lo * 103) / 2 == m * 103 && (lo * lo) / 2 == 2 * m * m && lo * (103 - lo) == 2 * (m
            * 103 - 2 * m * m)) by (nonlinear_arith)
            requires
                lo == 2 * m,
        ;
    } else {
        assert(lo == 2 * m + 1);
        assert((lo * 103) / 2 == m * 103 + 51 && (lo * lo) / 2 == 2 * m * m + 2 * m && lo * (103
            - lo) == 2 * (m * 103 + 51 - 2 * m * m - 2 * m)) by (nonlinear_arith)
            requires
                lo == 2 * m + 1,
        ;
    }
}

/// The card indices of combination `i`, lower first.
pub open spec fn combo_pair(i: int) -> (int, int) {
    choose|p: (int, int)| 0 <= p.0 < p.1 < 52 && pair_index(p.0, p.1) == i
}

/// The combination numbered by `pair_index(lo, hi)` decodes to `(lo, hi)`.
pub proof fn lemma_combo_pair(lo: int, hi: int)
    requires
        0 <= lo < hi < 52,
    ensures
        combo_pair(pair_index(lo, hi)) == (lo, hi),
        0 <= pair_index(lo, hi) < 1326,
{
    let i = pair_index(lo, hi);
    assert(0 <= (lo, hi).0 < (lo, hi).1 < 52 && pair_index((lo, hi).0, (lo, hi).1) == i);
    let p = combo_pair(i);
    lemma_pair_index_injective(p.0, p.1, lo, hi);
    lemma_pair_index_group(lo, hi);
}

/// A number in `tri(lo)..1326` is the number of a combination whose lower
/// card is at least `lo`.
proof fn lemma_pair_found(lo: int, i: int)
    requires
        0 <= lo <= 50,
        tri(lo) <= i < 1326,
    ensures
        exists|p: (int, int)| 0 <= p.0 < p.1 < 52 && pair_index(p.0, p.1) == i,
    decreases 51 - lo,
{
    assert(tri(lo + 1) == tri(lo) + 51 - lo);
    if i < tri(lo + 1) {
        let hi = i - tri(lo) + lo + 1;
        assert(0 <= (lo, hi).0 < (lo, hi).1 < 52 && pair_index((lo, hi).0, (lo, hi).1) == i);
    } else {
        assert(tri(51) == 1326) by {
            lemma_tri_closed(51);
        }
        assert(lo + 1 < 51);
        lemma_pair_found(lo + 1, i);
    }
}

/// Every number below 1326 is a combination: two card indices, lower
/// first, that the index formula numbers so.
pub proof fn lemma_combo_pair_bounds(i: int)
    requires
        0 <= i < 1326,
    ensures
        0 <= combo_pair(i).0 < combo_pair(i).1 < 52,
        pair_index(combo_pair(i).0, combo_pair(i).1) == i,
{
    lemma_pair_found(0, i);
}

/// The pair of card indices of combination `idx`, lower first: its group of
/// lower card, then the higher card within the group.
pub fn combo_cards(idx: u16) -> (r: (u8, u8))
    requires
        idx < 1326,
    ensures
        r.0 < r.1 < 52,
        pair_index(r.0 as int, r.1 as int) == idx,
        combo_pair(idx as int) == (r.0 as int, r.1 as int),
{
    let mut lo: u16 = 0;
    let mut remaining = idx;
    loop
        invariant
            lo <= 50,
            idx < 1326,
            remaining as int == idx - tri(lo as int),
        ensures
            lo <= 50,
            remaining as int == idx - tri(lo as int),
            remaining < 51 - lo,
        decreases 51 - lo,
    {
        proof {
            lemma_tri_mono(lo as int, 51);
            lemma_tri_closed(51);
            lemma_tri_mono(lo as int, (lo + 1) as int);
        }
        let combos_for_lo = 51 - lo;
        if remaining < combos_for_lo {
            break;
        }
        remaining -= combos_for_lo;
        lo += 1;
        proof {
            if lo == 51 {
                assert(tri(51) == 1326);
            }
        }
    }
    let hi = lo + 1 + remaining;
    proof {
        lemma_combo_pair(lo as int, hi as int);
    }
    (lo as u8, hi as u8)
}

/// Numbered combinations of a preflop range.
#[derive(Clone, Debug)]
pub struct HandRange {
    members: Vec<bool>,
}

impl View for HandRange {
    type V = Seq<bool>;

    /// Whether each of the 1326 combinations is in the range.
    closed spec fn view(&self) -> Seq<bool> {
        self.members@
    }
}

impl HandRange {
    /// Map a pair of cards to its combination number (0..1326), in either
    /// order. Two equal cards get one less than the first number of their
    /// group, which the index formula cannot give for the card with index 0.
    pub fn combo_index(c1: Card, c2: Card) -> (r: u16)
        requires
            !(c1.idx() == 0 && c2.idx() == 0),
        ensures
            r as int == spec_combo_index(c1, c2),
            r < 1326,
    {
        let (lo, hi) = if c1.index() < c2.index() {
            (c1.index() as u16, c2.index() as u16)
        } else {
            (c2.index() as u16, c1.index() as u16)
        };
        proof {
            lemma_index_formula(lo as int);
            lemma_tri_mono(lo as int, (lo + 1) as int);
            if lo < hi {
                lemma_pair_index_group(lo as int, hi as int);
            } else {
                assert(lo >= 1);
                lemma_tri_mono(0, lo as int);
            }
            assert(lo * 103 / 2 >= lo * lo / 2);
        }
        lo * 103 / 2 - lo * lo / 2 + hi - lo - 1
    }

    /// The two cards of combination `idx`, lower index first.
    pub fn cards_from_index(idx: u16) -> (r: (Card, Card))
        requires
            idx < 1326,
        ensures
            r.0.idx() < r.1.idx(),
            pair_index(r.0.idx(), r.1.idx()) == idx,
            0 <= combo_pair(idx as int).0 < combo_pair(idx as int).1 < 52,
            r.0 == card_at(combo_pair(idx as int).0),
            r.1 == card_at(combo_pair(idx as int).1),
    {
        let (lo, hi) = combo_cards(idx);
        (Card::from_index(lo), Card::from_index(hi))
    }
}

/// The index of two cards does not depend on their order.
pub proof fn lemma_combo_index_symmetric(a: Card, b: Card)
    ensures
        spec_combo_index(a, b) == spec_combo_index(b, a),
{
}

/// The numbering is a bijection between the pairs of different cards and
/// `0..1326`: every pair gets a number in range, different pairs get
/// different numbers, and decoding a number gives back its pair.
pub proof fn lemma_combo_index_bijective(a: Card, b: Card, c: Card, d: Card)
    requires
        a != b,
        c != d,
        spec_combo_index(a, b) == spec_combo_index(c, d),
    ensures
        0 <= spec_combo_index(a, b) < 1326,
        (a == c && b == d) || (a == d && b == c),
{
    lemma_card_index_round_trip(a, 0);
    lemma_card_index_round_trip(b, 0);
    lemma_card_index_round_trip(c, 0);
    lemma_card_index_round_trip(d, 0);
    let (lo1, hi1) = if a.idx() < b.idx() {
        (a.idx(), b.idx())
    } else {
        (b.idx(), a.idx())
    };
    let (lo2, hi2) = if c.idx() < d.idx() {
        (c.idx(), d.idx())
    } else {
        (d.idx(), c.idx())
    };
    assert(a.idx() != b.idx()) by {
        if a.idx() == b.idx() {
            crate::cards::card::lemma_card_index_injective(a, b);
        }
    }
    assert(c.idx() != d.idx()) by {
        if c.idx() == d.idx() {
            crate::cards::card::lemma_card_index_injective(c, d);
        }
    }
    lemma_pair_index_group(lo1, hi1);
    lemma_pair_index_injective(lo1, hi1, lo2, hi2);
    assert(card_at(lo1) == card_at(lo2) && card_at(hi1) == card_at(hi2));
}

// ---------------------------------------------------------------------------
// The combinations of a range token.

/// The card of rank `r` and the suit with index `s`.
pub open spec fn card_of(r: Rank, s: int) -> Card {
    Card { rank: r, suit: suit_at(s) }
}

/// Combination `k` is one of the six of the pocket pair of `r`.
pub open spec fn pair_has(r: Rank, k: int) -> bool {
    exists|s1: int, s2: int|
        0 <= s1 < s2 < 4 && k == spec_combo_index(#[trigger] card_of(r, s1), #[trigger] card_of(r, s2))
}

/// Combination `k` is one of the four suited combinations of `r1` and `r2`.
pub open spec fn suited_has(r1: Rank, r2: Rank, k: int) -> bool {
    exists|s: int| 0 <= s < 4 && k == spec_combo_index(#[trigger] card_of(r1, s), card_of(r2, s))
}

/// Combination `k` is one of the twelve offsuit combinations of `r1` and
/// `r2`.
pub open spec fn offsuit_has(r1: Rank, r2: Rank, k: int) -> bool {
    exists|s1: int, s2: int|
        0 <= s1 < 4 && 0 <= s2 < 4 && s1 != s2 && k == spec_combo_index(
            #[trigger] card_of(r1, s1),
            #[trigger] card_of(r2, s2),
        )
}

/// Why a range string is refused, as plain values.
pub enum RangeFailure {
    /// The whole token is malformed.
    Token(Seq<char>),
    /// A character names no rank or no suit.
    Card(CardParseError),
}

/// Why the range parse failed.
#[derive(Debug, PartialEq, Eq)]
pub enum RangeParseError {
    /// A token of the range that has no valid form.
    InvalidToken(String),
    /// A character of a token that names no rank or suit.
    InvalidCard(CardParseError),
    /// A rank range whose first rank is not the higher one.
    InvalidRankRange(char, char),
}

/// The failure that an error stands for.
pub open spec fn failure_of(e: RangeParseError) -> RangeFailure {
    match e {
        RangeParseError::InvalidToken(s) => RangeFailure::Token(s@),
        RangeParseError::InvalidCard(c) => RangeFailure::Card(c),
        RangeParseError::InvalidRankRange(a, b) => RangeFailure::Token(seq![a, '-', b]),
    }
}

/// The failure for a character that names no rank.
pub open spec fn rank_fail(c: char) -> RangeFailure {
    RangeFailure::Card(CardParseError::UnknownRank(ascii_upper(c)))
}

/// The failure for a character that names no suit.
pub open spec fn suit_fail(c: char) -> RangeFailure {
    RangeFailure::Card(CardParseError::UnknownSuit(ascii_lower(c)))
}

/// The combinations a token without '-' stands for, or why it is refused:
/// two specific cards ("AhKs"), a pocket pair ("AA"), or two ranks, suited
/// ("AKs"), offsuit ("AKo") or both ("AK").
pub open spec fn single_effect(t: Seq<char>) -> Result<spec_fn(int) -> bool, RangeFailure> {
    if t.len() == 4 {
        if rank_of_char(t[0]) is None {
            Err(rank_fail(t[0]))
        } else if suit_of_char(t[1]) is None {
            Err(suit_fail(t[1]))
        } else if rank_of_char(t[2]) is None {
            Err(rank_fail(t[2]))
        } else if suit_of_char(t[3]) is None {
            Err(suit_fail(t[3]))
        } else {
            let c1 = Card { rank: rank_of_char(t[0])->0, suit: suit_of_char(t[1])->0 };
            let c2 = Card { rank: rank_of_char(t[2])->0, suit: suit_of_char(t[3])->0 };
            Ok(|k: int| k == spec_combo_index(c1, c2))
        }
    } else if t.len() < 2 || t.len() > 3 {
        Err(RangeFailure::Token(t))
    } else if rank_of_char(t[0]) is None {
        Err(rank_fail(t[0]))
    } else if rank_of_char(t[1]) is None {
        Err(rank_fail(t[1]))
    } else {
        let r1 = rank_of_char(t[0])->0;
        let r2 = rank_of_char(t[1])->0;
        if r1 == r2 {
            Ok(|k: int| pair_has(r1, k))
        } else if t.len() == 2 {
            Ok(|k: int| suited_has(r1, r2, k) || offsuit_has(r1, r2, k))
        } else if t[2] == 's' {
            Ok(|k: int| suited_has(r1, r2, k))
        } else if t[2] == 'o' {
            Ok(|k: int| offsuit_has(r1, r2, k))
        } else {
            Err(RangeFailure::Token(t))
        }
    }
}

/// A four-character token naming the card with index 0 twice, on which the
/// index formula underflows.
pub open spec fn single_panics(t: Seq<char>) -> bool {
    &&& t.len() == 4
    &&& rank_of_char(t[0]) == Some(Rank::Two) && suit_of_char(t[1]) == Some(Suit::Clubs)
    &&& rank_of_char(t[2]) == Some(Rank::Two) && suit_of_char(t[3]) == Some(Suit::Clubs)
}

/// The combinations a token "start-end" stands for, or why it is refused: a
/// run of pocket pairs ("QQ-TT"), or the hands of one first rank with a run
/// of second ranks ("A5s-A2s"), suited, offsuit or both as the start says.
pub open spec fn range_effect(t: Seq<char>, start: Seq<char>, end: Seq<char>) -> Result<
    spec_fn(int) -> bool,
    RangeFailure,
> {
    if start.len() < 2 || end.len() < 2 {
        Err(RangeFailure::Token(t))
    } else if rank_of_char(start[0]) is None {
        Err(rank_fail(start[0]))
    } else if rank_of_char(start[1]) is None {
        Err(rank_fail(start[1]))
    } else if rank_of_char(end[0]) is None {
        Err(rank_fail(end[0]))
    } else if rank_of_char(end[1]) is None {
        Err(rank_fail(end[1]))
    } else {
        let r1s = rank_of_char(start[0])->0;
        let r2s = rank_of_char(start[1])->0;
        let r1e = rank_of_char(end[0])->0;
        let r2e = rank_of_char(end[1])->0;
        if r1s == r2s && r1e == r2e {
            let lo = if r1s.idx() < r1e.idx() {
                r1s.idx()
            } else {
                r1e.idx()
            };
            let hi = if r1s.idx() < r1e.idx() {
                r1e.idx()
            } else {
                r1s.idx()
            };
            Ok(|k: int| exists|ri: int| lo <= ri <= hi && pair_has(#[trigger] rank_at(ri), k))
        } else if r1s == r1e {
            let lo = if r2s.idx() < r2e.idx() {
                r2s.idx()
            } else {
                r2e.idx()
            };
            let hi = if r2s.idx() < r2e.idx() {
                r2e.idx()
            } else {
                r2s.idx()
            };
            if start.len() == 2 {
                Ok(
                    |k: int|
                        exists|ri: int|
                            lo <= ri <= hi && (suited_has(r1s, #[trigger] rank_at(ri), k)
                                || offsuit_has(r1s, rank_at(ri), k)),
                )
            } else if start[2] == 's' {
                Ok(|k: int| exists|ri: int| lo <= ri <= hi && suited_has(r1s, #[trigger] rank_at(ri), k))
            } else if start[2] == 'o' {
                Ok(|k: int| exists|ri: int| lo <= ri <= hi && offsuit_has(r1s, #[trigger] rank_at(ri), k))
            } else {
                Err(RangeFailure::Token(t))
            }
        } else {
            Err(RangeFailure::Token(t))
        }
    }
}

/// A run "2x-2y" of suited hands with first rank Two reaching the Two
/// itself: the suited "pair" of the card with index 0 underflows the index
/// formula.
pub open spec fn range_panics(start: Seq<char>, end: Seq<char>) -> bool {
    &&& start.len() >= 2 && end.len() >= 2
    &&& rank_of_char(start[0]) == Some(Rank::Two) && rank_of_char(end[0]) == Some(Rank::Two)
    &&& rank_of_char(start[1]) is Some && rank_of_char(end[1]) is Some
    &&& !(rank_of_char(start[1]) == Some(Rank::Two) && rank_of_char(end[1]) == Some(Rank::Two))
    &&& (rank_of_char(start[1]) == Some(Rank::Two) || rank_of_char(end[1]) == Some(Rank::Two))
    &&& (start.len() == 2 || start[2] == 's')
}

/// The position of the first `c` in `t`, or its length.
pub open spec fn first_index(t: Seq<char>, c: char) -> int
    decreases t.len(),
{
    if t.len() == 0 {
        0
    } else if t[0] == c {
        0
    } else {
        1 + first_index(t.drop_first(), c)
    }
}

/// What one comma-separated piece stands for, once trimmed: nothing when
/// empty, a run when it holds '-', else a single token.
pub open spec fn piece_effect(p: Seq<char>) -> Result<spec_fn(int) -> bool, RangeFailure> {
    let t = trim_spec(p);
    let i = first_index(t, '-');
    if t.len() == 0 {
        Ok(|k: int| false)
    } else if i < t.len() {
        range_effect(t, t.take(i), t.skip(i + 1))
    } else {
        single_effect(t)
    }
}

/// Whether a piece, once trimmed, is one on which the index formula
/// underflows.
pub open spec fn piece_panics(p: Seq<char>) -> bool {
    let t = trim_spec(p);
    let i = first_index(t, '-');
    if t.len() == 0 {
        false
    } else if i < t.len() {
        range_panics(t.take(i), t.skip(i + 1))
    } else {
        single_panics(t)
    }
}

/// The pieces of `s` between the separators `sep`, as `str::split` gives
/// them.
pub open spec fn split_on(s: Seq<char>, sep: char) -> Seq<Seq<char>>
    decreases s.len(),
{
    if s.len() == 0 {
        seq![Seq::empty()]
    } else {
        let prev = split_on(s.drop_last(), sep);
        if s.last() == sep {
            prev.push(Seq::empty())
        } else {
            prev.update(prev.len() - 1, prev.last().push(s.last()))
        }
    }
}

/// The combinations of the pieces, or the failure of the first piece that
/// fails.
pub open spec fn pieces_result(ps: Seq<Seq<char>>) -> Result<spec_fn(int) -> bool, RangeFailure>
    decreases ps.len(),
{
    if ps.len() == 0 {
        Ok(|k: int| false)
    } else {
        match pieces_result(ps.drop_last()) {
            Err(f) => Err(f),
            Ok(m) => match piece_effect(ps.last()) {
                Err(f) => Err(f),
                Ok(a) => Ok(|k: int| m(k) || a(k)),
            },
        }
    }
}

/// Whether a piece reached before any failure underflows the index formula.
pub open spec fn pieces_panic(ps: Seq<Seq<char>>) -> bool
    decreases ps.len(),
{
    if ps.len() == 0 {
        false
    } else {
        pieces_panic(ps.drop_last()) || (pieces_result(ps.drop_last()) is Ok && piece_panics(
            ps.last(),
        ))
    }
}

/// The combinations of the range text `s`, or why it is refused.
pub open spec fn range_text_result(s: Seq<char>) -> Result<spec_fn(int) -> bool, RangeFailure> {
    pieces_result(split_on(s, ','))
}

// ---------------------------------------------------------------------------
// Building ranges.

impl HandRange {
    /// Empty range (no hands).
    pub fn empty() -> (r: HandRange)
        ensures
            r@.len() == 1326,
            forall|k: int| 0 <= k < 1326 ==> !#[trigger] r@[k],
    {
        HandRange { members: vec![false; 1326] }
    }

    /// Full range (all 1326 hands).
    pub fn full() -> (r: HandRange)
        ensures
            r@.len() == 1326,
            forall|k: int| 0 <= k < 1326 ==> #[trigger] r@[k],
    {
        HandRange { members: vec![true; 1326] }
    }

    /// Add the combination of two cards.
    fn mark_cards(&mut self, c1: Card, c2: Card)
        requires
            !(c1.idx() == 0 && c2.idx() == 0),
            old(self)@.len() == 1326,
        ensures
            0 <= spec_combo_index(c1, c2) < 1326,
            final(self)@ == old(self)@.update(spec_combo_index(c1, c2), true),
    {
        let idx = Self::combo_index(c1, c2);
        self.members.set(idx as usize, true);
    }

    /// Add all six combinations of a pocket pair.
    fn add_pair(&mut self, rank: Rank)
        requires
            old(self)@.len() == 1326,
        ensures
            final(self)@.len() == 1326,
            forall|k: int|
                0 <= k < 1326 ==> #[trigger] final(self)@[k] == (old(self)@[k] || pair_has(rank, k)),
    {
        let mut i: u8 = 0;
        while i < 4
            invariant
                i <= 4,
                self@.len() == 1326,
                forall|k: int|
                    0 <= k < 1326 ==> #[trigger] self@[k] == (old(self)@[k] || exists|t1: int, t2: int|
                        0 <= t1 < i && t1 < t2 < 4 && k == spec_combo_index(
                            #[trigger] card_of(rank, t1),
                            #[trigger] card_of(rank, t2),
                        )),
            decreases 4 - i,
        {
            let ghost before = self@;
            let mut j: u8 = i + 1;
            while j < 4
                invariant
                    i < 4,
                    i + 1 <= j <= 4,
                    self@.len() == 1326,
                    forall|k: int|
                        0 <= k < 1326 ==> #[trigger] self@[k] == (before[k] || exists|t2: int|
                            i < t2 < j && k == spec_combo_index(card_of(rank, i as int), #[trigger] card_of(rank, t2))),
                decreases 4 - j,
            {
                let c1 = Card::new(rank, Suit::from_index(i));
                let c2 = Card::new(rank, Suit::from_index(j));
                proof {
                    assert(c1 == card_of(rank, i as int) && c2 == card_of(rank, j as int));
                    assert(c1.idx() != c2.idx());
                }
                self.mark_cards(c1, c2);
                j += 1;
            }
            proof {
                assert forall|k: int| 0 <= k < 1326 implies #[trigger] self@[k] == (old(self)@[k] || exists|t1: int, t2: int|
                    0 <= t1 < i + 1 && t1 < t2 < 4 && k == spec_combo_index(
                        #[trigger] card_of(rank, t1),
                        #[trigger] card_of(rank, t2),
                    )) by {
                    if exists|t2: int| i < t2 < 4 && k == spec_combo_index(card_of(rank, i as int), #[trigger] card_of(rank, t2)) {
                        let t2 = choose|t2: int| i < t2 < 4 && k == spec_combo_index(card_of(rank, i as int), #[trigger] card_of(rank, t2));
                        assert(0 <= i < i + 1 && i < t2 < 4 && k == spec_combo_index(card_of(rank, i as int), card_of(rank, t2)));
                    }
                    if exists|t1: int, t2: int| 0 <= t1 < i + 1 && t1 < t2 < 4 && k == spec_combo_index(
                        #[trigger] card_of(rank, t1),
                        #[trigger] card_of(rank, t2),
                    ) {
                        let (t1, t2) = choose|t1: int, t2: int| 0 <= t1 < i + 1 && t1 < t2 < 4 && k == spec_combo_index(
                            #[trigger] card_of(rank, t1),
                            #[trigger] card_of(rank, t2),
                        );
                        if t1 == i {
                            assert(i < t2 < 4 && k == spec_combo_index(card_of(rank, i as int), card_of(rank, t2)));
                        }
                    }
                }
            }
            i += 1;
        }
    }

    /// Add all four suited combinations of two ranks.
    fn add_suited(&mut self, r1: Rank, r2: Rank)
        requires
            !(r1 == Rank::Two && r2 == Rank::Two),
            old(self)@.len() == 1326,
        ensures
            final(self)@.len() == 1326,
            forall|k: int|
                0 <= k < 1326 ==> #[trigger] final(self)@[k] == (old(self)@[k] || suited_has(r1, r2, k)),
    {
        let mut s: u8 = 0;
        while s < 4
            invariant
                s <= 4,
                self@.len() == 1326,
                !(r1 == Rank::Two && r2 == Rank::Two),
                forall|k: int|
                    0 <= k < 1326 ==> #[trigger] self@[k] == (old(self)@[k] || exists|t: int|
                        0 <= t < s && k == spec_combo_index(#[trigger] card_of(r1, t), card_of(r2, t))),
            decreases 4 - s,
        {
            let suit = Suit::from_index(s);
            let c1 = Card::new(r1, suit);
            let c2 = Card::new(r2, suit);
            proof {
                assert(c1 == card_of(r1, s as int) && c2 == card_of(r2, s as int));
            }
            self.mark_cards(c1, c2);
            s += 1;
        }
    }

    /// Add all twelve offsuit combinations of two ranks.
    fn add_offsuit(&mut self, r1: Rank, r2: Rank)
        requires
            old(self)@.len() == 1326,
        ensures
            final(self)@.len() == 1326,
            forall|k: int|
                0 <= k < 1326 ==> #[trigger] final(self)@[k] == (old(self)@[k] || offsuit_has(r1, r2, k)),
    {
        let mut a: u8 = 0;
        while a < 4
            invariant
                a <= 4,
                self@.len() == 1326,
                forall|k: int|
                    0 <= k < 1326 ==> #[trigger] self@[k] == (old(self)@[k] || exists|t1: int, t2: int|
                        0 <= t1 < a && 0 <= t2 < 4 && t1 != t2 && k == spec_combo_index(
                            #[trigger] card_of(r1, t1),
                            #[trigger] card_of(r2, t2),
                        )),
            decreases 4 - a,
        {
            let ghost before = self@;
            let mut b: u8 = 0;
            while b < 4
                invariant
                    a < 4,
                    b <= 4,
                    self@.len() == 1326,
                    forall|k: int|
                        0 <= k < 1326 ==> #[trigger] self@[k] == (before[k] || exists|t2: int|
                            0 <= t2 < b && a != t2 && k == spec_combo_index(card_of(r1, a as int), #[trigger] card_of(r2, t2))),
                decreases 4 - b,
            {
                if a != b {
                    let c1 = Card::new(r1, Suit::from_index(a));
                    let c2 = Card::new(r2, Suit::from_index(b));
                    proof {
                        assert(c1 == card_of(r1, a as int) && c2 == card_of(r2, b as int));
                        assert(c1.idx() != c2.idx() || c1.idx() != 0);
                    }
                    self.mark_cards(c1, c2);
                }
                b += 1;
            }
            proof {
                assert forall|k: int| 0 <= k < 1326 implies #[trigger] self@[k] == (old(self)@[k] || exists|t1: int, t2: int|
                    0 <= t1 < a + 1 && 0 <= t2 < 4 && t1 != t2 && k == spec_combo_index(
                        #[trigger] card_of(r1, t1),
                        #[trigger] card_of(r2, t2),
                    )) by {
                    if exists|t2: int| 0 <= t2 < 4 && a != t2 && k == spec_combo_index(card_of(r1, a as int), #[trigger] card_of(r2, t2)) {
                        let t2 = choose|t2: int| 0 <= t2 < 4 && a != t2 && k == spec_combo_index(card_of(r1, a as int), #[trigger] card_of(r2, t2));
                        assert(0 <= a < a + 1 && 0 <= t2 < 4 && a != t2 && k == spec_combo_index(card_of(r1, a as int), card_of(r2, t2)));
                    }
                    if exists|t1: int, t2: int| 0 <= t1 < a + 1 && 0 <= t2 < 4 && t1 != t2 && k == spec_combo_index(
                        #[trigger] card_of(r1, t1),
                        #[trigger] card_of(r2, t2),
                    ) {
                        let (t1, t2) = choose|t1: int, t2: int| 0 <= t1 < a + 1 && 0 <= t2 < 4 && t1 != t2 && k == spec_combo_index(
                            #[trigger] card_of(r1, t1),
                            #[trigger] card_of(r2, t2),
                        );
                        if t1 == a {
                            assert(0 <= t2 < 4 && a != t2 && k == spec_combo_index(card_of(r1, a as int), card_of(r2, t2)));
                        }
                    }
                }
            }
            a += 1;
        }
    }
}

// ---------------------------------------------------------------------------
// Parsing.

/// `str::split(',')`, collected: the pieces of `s` between its commas.
#[verifier::external_body]
fn split_commas(s: &str) -> (r: Vec<&str>)
    ensures
        r@.len() == split_on(s@, ',').len(),
        forall|i: int| 0 <= i < r@.len() ==> #[trigger] r@[i]@ == split_on(s@, ',')[i],
{
    s.split(',').collect()
}

/// The position of the first `c` in `t`, or its length.
fn find_char(t: &Vec<char>, c: char) -> (r: usize)
    ensures
        r as int == first_index(t@, c),
        r <= t@.len(),
{
    let mut i: usize = 0;
    while i < t.len()
        invariant
            i <= t@.len(),
            forall|j: int| 0 <= j < i ==> t@[j] != c,
        decreases t@.len() - i,
    {
        if t[i] == c {
            proof {
                lemma_first_index(t@, c, i as int);
            }
            return i;
        }
        i += 1;
    }
    proof {
        lemma_first_index(t@, c, i as int);
    }
    i
}

/// `first_index` finds the first occurrence.
proof fn lemma_first_index(t: Seq<char>, c: char, i: int)
    requires
        0 <= i <= t.len(),
        forall|j: int| 0 <= j < i ==> t[j] != c,
        i == t.len() || t[i] == c,
    ensures
        first_index(t, c) == i,
    decreases t.len(),
{
    if t.len() > 0 && i > 0 {
        let u = t.drop_first();
        assert forall|j: int| 0 <= j < i - 1 implies u[j] != c by {
            assert(u[j] == t[j + 1]);
        }
        lemma_first_index(u, c, i - 1);
    }
}

/// A failure before the last piece leaves no panic to the pieces after it.
proof fn lemma_pieces_panic_prefix(ps: Seq<Seq<char>>, j: int)
    requires
        0 <= j <= ps.len(),
        !pieces_panic(ps),
    ensures
        !pieces_panic(ps.take(j)),
    decreases ps.len(),
{
    if j < ps.len() {
        assert(ps.drop_last().take(j) =~= ps.take(j));
        lemma_pieces_panic_prefix(ps.drop_last(), j);
    } else {
        assert(ps.take(j) =~= ps);
    }
}

/// A failure among the first pieces is the failure of all of them.
proof fn lemma_pieces_err_prefix(ps: Seq<Seq<char>>, j: int)
    requires
        0 <= j <= ps.len(),
        pieces_result(ps.take(j)) is Err,
    ensures
        pieces_result(ps) == pieces_result(ps.take(j)),
    decreases ps.len(),
{
    if j < ps.len() {
        assert(ps.drop_last().take(j) =~= ps.take(j));
        lemma_pieces_err_prefix(ps.drop_last(), j);
    } else {
        assert(ps.take(j) =~= ps);
    }
}

impl HandRange {
    /// Parse a token without '-': two specific cards ("AhKs"), a pocket pair
    /// ("AA"), or two ranks suited ("AKs"), offsuit ("AKo") or both ("AK").
    fn parse_single(&mut self, t: &Vec<char>, token: &str) -> (r: Result<(), RangeParseError>)
        requires
            old(self)@.len() == 1326,
            t@ == token@,
            !single_panics(t@),
        ensures
            final(self)@.len() == 1326,
            match r {
                Ok(_) => single_effect(t@) matches Ok(f) && forall|k: int|
                    0 <= k < 1326 ==> #[trigger] final(self)@[k] == (old(self)@[k] || f(k)),
                Err(e) => single_effect(t@) == Err::<spec_fn(int) -> bool, _>(failure_of(e)),
            },
    {
        if t.len() == 4 {
            let r0 = match Rank::from_char(t[0]) {
                Ok(r) => r,
                Err(e) => {
                    return Err(RangeParseError::InvalidCard(e));
                },
            };
            let s1 = match Suit::from_char(t[1]) {
                Ok(s) => s,
                Err(e) => {
                    return Err(RangeParseError::InvalidCard(e));
                },
            };
            let r2 = match Rank::from_char(t[2]) {
                Ok(r) => r,
                Err(e) => {
                    return Err(RangeParseError::InvalidCard(e));
                },
            };
            let s3 = match Suit::from_char(t[3]) {
                Ok(s) => s,
                Err(e) => {
                    return Err(RangeParseError::InvalidCard(e));
                },
            };
            let c1 = Card::new(r0, s1);
            let c2 = Card::new(r2, s3);
            proof {
                if c1.idx() == 0 && c2.idx() == 0 {
                    assert(r0 == Rank::Two && s1 == Suit::Clubs && r2 == Rank::Two && s3
                        == Suit::Clubs);
                }
            }
            self.mark_cards(c1, c2);
            return Ok(());
        }
        if t.len() < 2 || t.len() > 3 {
            return Err(RangeParseError::InvalidToken(token.to_owned()));
        }
        let r1 = match Rank::from_char(t[0]) {
            Ok(r) => r,
            Err(e) => {
                return Err(RangeParseError::InvalidCard(e));
            },
        };
        let r2 = match Rank::from_char(t[1]) {
            Ok(r) => r,
            Err(e) => {
                return Err(RangeParseError::InvalidCard(e));
            },
        };
        if r1 == r2 {
            self.add_pair(r1);
        } else if t.len() == 2 {
            let ghost before = self@;
            self.add_suited(r1, r2);
            let ghost mid = self@;
            self.add_offsuit(r1, r2);
            proof {
                assert forall|k: int| 0 <= k < 1326 implies #[trigger] self@[k] == (before[k] || (
                suited_has(r1, r2, k) || offsuit_has(r1, r2, k))) by {
                    assert(mid[k] == (before[k] || suited_has(r1, r2, k)));
                }
            }
        } else if t[2] == 's' {
            self.add_suited(r1, r2);
        } else if t[2] == 'o' {
            self.add_offsuit(r1, r2);
        } else {
            return Err(RangeParseError::InvalidToken(token.to_owned()));
        }
        Ok(())
    }

    /// Parse a run "start-end" split at its first '-' (position `dash`): a
    /// run of pocket pairs ("QQ-TT"), or one first rank with a run of second
    /// ranks ("A5s-A2s"), suited, offsuit or both as the start says.
    fn parse_range(&mut self, t: &Vec<char>, dash: usize, token: &str) -> (r: Result<
        (),
        RangeParseError,
    >)
        requires
            old(self)@.len() == 1326,
            t@ == token@,
            dash < t@.len(),
            !range_panics(t@.take(dash as int), t@.skip(dash + 1)),
        ensures
            final(self)@.len() == 1326,
            match r {
                Ok(_) => range_effect(t@, t@.take(dash as int), t@.skip(dash + 1)) matches Ok(f)
                    && forall|k: int|
                    0 <= k < 1326 ==> #[trigger] final(self)@[k] == (old(self)@[k] || f(k)),
                Err(e) => range_effect(t@, t@.take(dash as int), t@.skip(dash + 1)) == Err::<
                    spec_fn(int) -> bool,
                    _,
                >(failure_of(e)),
            },
    {
        let ghost start = t@.take(dash as int);
        let ghost end = t@.skip(dash + 1);
        if dash < 2 || t.len() - dash - 1 < 2 {
            return Err(RangeParseError::InvalidToken(token.to_owned()));
        }
        assert(start[0] == t@[0] && start[1] == t@[1]);
        assert(end[0] == t@[dash + 1] && end[1] == t@[dash + 2]);
        let r1_start = match Rank::from_char(t[0]) {
            Ok(r) => r,
            Err(e) => {
                return Err(RangeParseError::InvalidCard(e));
            },
        };
        let r2_start = match Rank::from_char(t[1]) {
            Ok(r) => r,
            Err(e) => {
                return Err(RangeParseError::InvalidCard(e));
            },
        };
        let r1_end = match Rank::from_char(t[dash + 1]) {
            Ok(r) => r,
            Err(e) => {
                return Err(RangeParseError::InvalidCard(e));
            },
        };
        let r2_end = match Rank::from_char(t[dash + 2]) {
            Ok(r) => r,
            Err(e) => {
                return Err(RangeParseError::InvalidCard(e));
            },
        };
        if r1_start == r2_start && r1_end == r2_end {
            let a = r1_start.index();
            let b = r1_end.index();
            let hi = if a < b {
                b
            } else {
                a
            };
            let lo = if a < b {
                a
            } else {
                b
            };
            let mut ri = lo;
            while ri <= hi
                invariant
                    lo <= ri <= hi + 1,
                    hi < 13,
                    self@.len() == 1326,
                    forall|k: int|
                        0 <= k < 1326 ==> #[trigger] self@[k] == (old(self)@[k] || exists|x: int|
                            lo <= x < ri && pair_has(#[trigger] rank_at(x), k)),
                decreases hi + 1 - ri,
            {
                let rank = Rank::from_index(ri);
                let ghost before = self@;
                self.add_pair(rank);
                proof {
                    assert forall|k: int| 0 <= k < 1326 implies #[trigger] self@[k] == (old(self)@[k] || exists|x: int|
                        lo <= x < ri + 1 && pair_has(#[trigger] rank_at(x), k)) by {
                        if pair_has(rank, k) {
                            assert(lo <= ri < ri + 1 && pair_has(rank_at(ri as int), k));
                        }
                        if exists|x: int| lo <= x < ri + 1 && pair_has(#[trigger] rank_at(x), k) {
                            let x = choose|x: int| lo <= x < ri + 1 && pair_has(#[trigger] rank_at(x), k);
                            if x == ri {
                                assert(pair_has(rank, k));
                            }
                        }
                    }
                }
                ri += 1;
            }
            Ok(())
        } else if r1_start == r1_end {
            let a = r2_start.index();
            let b = r2_end.index();
            let hi = if a < b {
                b
            } else {
                a
            };
            let lo = if a < b {
                a
            } else {
                b
            };
            let suited = dash == 2 || t[2] == 's';
            let offsuit = dash == 2 || t[2] == 'o';
            if !suited && !offsuit {
                return Err(RangeParseError::InvalidToken(token.to_owned()));
            }
            assert(dash >= 3 ==> start[2] == t@[2]);
            let mut ri = lo;
            while ri <= hi
                invariant
                    lo <= ri <= hi + 1,
                    hi < 13,
                    self@.len() == 1326,
                    suited ==> !(r1_start == Rank::Two && lo == 0),
                    forall|k: int|
                        0 <= k < 1326 ==> #[trigger] self@[k] == (old(self)@[k] || exists|x: int|
                            lo <= x < ri && ((suited && suited_has(r1_start, #[trigger] rank_at(x), k)) || (
                            offsuit && offsuit_has(r1_start, rank_at(x), k)))),
                decreases hi + 1 - ri,
            {
                let r2 = Rank::from_index(ri);
                let ghost before = self@;
                if suited {
                    self.add_suited(r1_start, r2);
                }
                let ghost mid = self@;
                if offsuit {
                    self.add_offsuit(r1_start, r2);
                }
                proof {
                    assert forall|k: int| 0 <= k < 1326 implies #[trigger] self@[k] == (old(self)@[k] || exists|x: int|
                        lo <= x < ri + 1 && ((suited && suited_has(r1_start, #[trigger] rank_at(x), k)) || (
                        offsuit && offsuit_has(r1_start, rank_at(x), k)))) by {
                        assert(mid[k] == (before[k] || (suited && suited_has(r1_start, r2, k))));
                        assert(self@[k] == (mid[k] || (offsuit && offsuit_has(r1_start, r2, k))));
                        if (suited && suited_has(r1_start, r2, k)) || (offsuit && offsuit_has(r1_start, r2, k)) {
                            assert(r2 == rank_at(ri as int));
                        }
                        if exists|x: int| lo <= x < ri + 1 && ((suited && suited_has(r1_start, #[trigger] rank_at(x), k)) || (
                            offsuit && offsuit_has(r1_start, rank_at(x), k))) {
                            let x = choose|x: int| lo <= x < ri + 1 && ((suited && suited_has(r1_start, #[trigger] rank_at(x), k)) || (
                                offsuit && offsuit_has(r1_start, rank_at(x), k)));
                            if x == ri {
                                assert(r2 == rank_at(x));
                            }
                        }
                    }
                }
                ri += 1;
            }
            proof {
                let f = range_effect(t@, start, end)->Ok_0;
                assert forall|k: int| 0 <= k < 1326 implies #[trigger] self@[k] == (old(self)@[k] || f(k)) by {
                    if dash == 2 {
                    } else if t@[2] == 's' {
                    } else {
                    }
                }
            }
            Ok(())
        } else {
            Err(RangeParseError::InvalidToken(token.to_owned()))
        }
    }

    /// Parse a comma-separated range string, such as
    /// "AA,AKs,QQ-TT,A5s-A2s,KJo,AhKs"; white space around a token is
    /// ignored, and empty tokens are skipped.
    pub fn from_str(s: &str) -> (r: Result<HandRange, RangeParseError>)
        requires
            !pieces_panic(split_on(s@, ',')),
        ensures
            match r {
                Ok(h) => h@.len() == 1326 && (range_text_result(s@) matches Ok(f) && forall|k: int|
                    0 <= k < 1326 ==> #[trigger] h@[k] == f(k)),
                Err(e) => range_text_result(s@) == Err::<spec_fn(int) -> bool, _>(failure_of(e)),
            },
    {
        let pieces = split_commas(s);
        let ghost ps = split_on(s@, ',');
        let mut range = HandRange::empty();
        let mut i: usize = 0;
        while i < pieces.len()
            invariant
                i <= pieces@.len(),
                pieces@.len() == ps.len(),
                ps == split_on(s@, ','),
                forall|j: int| 0 <= j < pieces@.len() ==> #[trigger] pieces@[j]@ == ps[j],
                !pieces_panic(ps),
                range@.len() == 1326,
                (pieces_result(ps.take(i as int)) matches Ok(f) && forall|k: int|
                    0 <= k < 1326 ==> #[trigger] range@[k] == f(k)),
            decreases pieces@.len() - i,
        {
            let ghost before = range@;
            let ghost prev = pieces_result(ps.take(i as int))->Ok_0;
            proof {
                assert(ps.take(i + 1).drop_last() =~= ps.take(i as int));
                assert(ps.take(i + 1).last() == ps[i as int]);
                lemma_pieces_panic_prefix(ps, i + 1);
            }
            let token = str_trim(pieces[i]);
            let chars = str_chars(token);
            if chars.len() > 0 {
                let dash = find_char(&chars, '-');
                let res = if dash < chars.len() {
                    range.parse_range(&chars, dash, token)
                } else {
                    range.parse_single(&chars, token)
                };
                match res {
                    Ok(_) => {},
                    Err(e) => {
                        proof {
                            assert(pieces_result(ps.take(i + 1)) == Err::<spec_fn(int) -> bool, _>(failure_of(e)));
                            lemma_pieces_err_prefix(ps, i + 1);
                        }
                        return Err(e);
                    },
                }
            }
            proof {
                let g = pieces_result(ps.take(i + 1))->Ok_0;
                let a = piece_effect(ps[i as int])->Ok_0;
                assert forall|k: int| 0 <= k < 1326 implies #[trigger] range@[k] == g(k) by {
                    assert(g(k) == (prev(k) || a(k)));
                    assert(before[k] == prev(k));
                }
            }
            i += 1;
        }
        proof {
            assert(ps.take(i as int) =~= ps);
        }
        Ok(range)
    }

    /// Number of combinations in the range.
    pub fn num_combos(&self) -> (n: usize)
        ensures
            n == count_in(self@, self@.len() as int),
    {
        let mut n: usize = 0;
        let mut i: usize = 0;
        while i < self.members.len()
            invariant
                i <= self@.len(),
                self@ == self.members@,
                n == count_in(self@, i as int),
                n <= i,
            decreases self@.len() - i,
        {
            if self.members[i] {
                n += 1;
            }
            i += 1;
        }
        n
    }

    /// The numbers of the combinations in the range, in increasing order.
    pub fn combos(&self) -> (r: Vec<u16>)
        requires
            self@.len() == 1326,
        ensures
            forall|j: int| 0 <= j < r@.len() ==> r@[j] < 1326 && self@[#[trigger] r@[j] as int],
            forall|k: int| 0 <= k < 1326 && #[trigger] self@[k] ==> exists|j: int| 0 <= j < r@.len() && r@[j] == k,
            forall|a: int, b: int| 0 <= a < b < r@.len() ==> r@[a] < r@[b],
    {
        let mut out: Vec<u16> = Vec::new();
        let mut i: u16 = 0;
        while i < 1326
            invariant
                i <= 1326,
                self@ == self.members@,
                self@.len() == 1326,
                forall|j: int| 0 <= j < out@.len() ==> out@[j] < i && self@[#[trigger] out@[j] as int],
                forall|k: int| 0 <= k < i && #[trigger] self@[k] ==> exists|j: int| 0 <= j < out@.len() && out@[j] == k,
                forall|a: int, b: int| 0 <= a < b < out@.len() ==> out@[a] < out@[b],
            decreases 1326 - i,
        {
            if self.members[i as usize] {
                let ghost old_out = out@;
                out.push(i);
                proof {
                    assert forall|k: int| 0 <= k < i + 1 && #[trigger] self@[k] implies exists|j: int| 0 <= j < out@.len() && out@[j] == k by {
                        if k == i {
                            assert(out@[out@.len() - 1] == k);
                        } else {
                            let j = choose|j: int| 0 <= j < old_out.len() && old_out[j] == k;
                            assert(out@[j] == k);
                        }
                    }
                }
            }
            i += 1;
        }
        out
    }
}

/// Whether `c` reads as the rank `r`.
fn is_rank_char(c: char, r: Rank) -> (b: bool)
    ensures
        b == (rank_of_char(c) == Some(r)),
{
    match Rank::from_char(c) {
        Ok(x) => x == r,
        Err(_) => false,
    }
}

/// Whether `c` reads as a rank.
fn is_any_rank_char(c: char) -> (b: bool)
    ensures
        b == rank_of_char(c) is Some,
{
    Rank::from_char(c).is_ok()
}

/// Whether a token without '-' is one on which the index formula underflows.
fn single_token_panics(t: &Vec<char>) -> (b: bool)
    ensures
        b == single_panics(t@),
{
    if t.len() != 4 {
        return false;
    }
    let s1 = match Suit::from_char(t[1]) {
        Ok(x) => x == Suit::Clubs,
        Err(_) => false,
    };
    let s3 = match Suit::from_char(t[3]) {
        Ok(x) => x == Suit::Clubs,
        Err(_) => false,
    };
    is_rank_char(t[0], Rank::Two) && s1 && is_rank_char(t[2], Rank::Two) && s3
}

/// Whether the run "start-end" is one on which the index formula underflows.
fn run_token_panics(t: &Vec<char>, dash: usize) -> (b: bool)
    requires
        dash < t@.len(),
    ensures
        b == range_panics(t@.take(dash as int), t@.skip(dash + 1)),
{
    let ghost start = t@.take(dash as int);
    let ghost end = t@.skip(dash + 1);
    if dash < 2 || t.len() - (dash + 1) < 2 {
        return false;
    }
    assert(start[0] == t@[0] && start[1] == t@[1]);
    assert(end[0] == t@[dash + 1] && end[1] == t@[dash + 2]);
    let start_two = is_rank_char(t[1], Rank::Two);
    let end_two = is_rank_char(t[dash + 2], Rank::Two);
    let shape = if dash == 2 {
        true
    } else {
        assert(start[2] == t@[2]);
        t[2] == 's'
    };
    is_rank_char(t[0], Rank::Two) && is_rank_char(t[dash + 1], Rank::Two) && is_any_rank_char(t[1])
        && is_any_rank_char(t[dash + 2]) && !(start_two && end_two) && (start_two || end_two)
        && shape
}

/// One more piece: a panic so far, or a panic of the piece after pieces
/// that all parsed.
proof fn lemma_pieces_panic_step(ps: Seq<Seq<char>>, i: int)
    requires
        0 <= i < ps.len(),
    ensures
        pieces_panic(ps.take(i + 1)) == (pieces_panic(ps.take(i)) || (pieces_result(ps.take(i)) is Ok
            && piece_panics(ps[i]))),
        pieces_result(ps.take(i + 1)) is Ok <==> (pieces_result(ps.take(i)) is Ok && piece_effect(
            ps[i],
        ) is Ok),
{
    assert(ps.take(i + 1).drop_last() =~= ps.take(i));
}

/// A panic among the first pieces is a panic of all of them.
proof fn lemma_pieces_panic_grows(ps: Seq<Seq<char>>, j: int)
    requires
        0 <= j <= ps.len(),
        pieces_panic(ps.take(j)),
    ensures
        pieces_panic(ps),
    decreases ps.len(),
{
    if j < ps.len() {
        assert(ps.drop_last().take(j) =~= ps.take(j));
        lemma_pieces_panic_grows(ps.drop_last(), j);
    } else {
        assert(ps.take(j) =~= ps);
    }
}

/// After a failure no later piece panics.
proof fn lemma_pieces_panic_after_err(ps: Seq<Seq<char>>, j: int)
    requires
        0 <= j <= ps.len(),
        pieces_result(ps.take(j)) is Err,
    ensures
        pieces_panic(ps) == pieces_panic(ps.take(j)),
    decreases ps.len(),
{
    if j < ps.len() {
        assert(ps.drop_last().take(j) =~= ps.take(j));
        lemma_pieces_panic_after_err(ps.drop_last(), j);
        lemma_pieces_err_prefix(ps.drop_last(), j);
    } else {
        assert(ps.take(j) =~= ps);
    }
}

/// Whether parsing the range text `s` reaches a token on which the index
/// formula underflows: the inputs that `HandRange::from_str` is not given.
pub fn range_text_panics(s: &str) -> (b: bool)
    ensures
        b == pieces_panic(split_on(s@, ',')),
{
    let pieces = split_commas(s);
    let ghost ps = split_on(s@, ',');
    let mut scratch = HandRange::empty();
    let mut i: usize = 0;
    proof {
        assert(ps.take(0) =~= Seq::<Seq<char>>::empty());
    }
    while i < pieces.len()
        invariant
            i <= pieces@.len(),
            pieces@.len() == ps.len(),
            ps == split_on(s@, ','),
            forall|j: int| 0 <= j < pieces@.len() ==> #[trigger] pieces@[j]@ == ps[j],
            scratch@.len() == 1326,
            pieces_result(ps.take(i as int)) is Ok,
            !pieces_panic(ps.take(i as int)),
        decreases pieces@.len() - i,
    {
        proof {
            lemma_pieces_panic_step(ps, i as int);
        }
        let token = str_trim(pieces[i]);
        let chars = str_chars(token);
        if chars.len() > 0 {
            let dash = find_char(&chars, '-');
            let res = if dash < chars.len() {
                if run_token_panics(&chars, dash) {
                    proof {
                        lemma_pieces_panic_grows(ps, i + 1);
                    }
                    return true;
                }
                scratch.parse_range(&chars, dash, token)
            } else {
                if single_token_panics(&chars) {
                    proof {
                        lemma_pieces_panic_grows(ps, i + 1);
                    }
                    return true;
                }
                scratch.parse_single(&chars, token)
            };
            if res.is_err() {
                proof {
                    lemma_pieces_panic_after_err(ps, i + 1);
                }
                return false;
            }
        }
        i += 1;
    }
    proof {
        assert(ps.take(i as int) =~= ps);
    }
    false
}

/// The message of a refused token.
fn token_message(token: &str) -> (m: String)
    ensures
        m@ == "invalid range token '"@ + token@ + "'"@,
{
    let m = String::from_str("invalid range token '");
    let m = m.concat(token);
    m.concat("'")
}

/// The message of a run whose first rank is not the higher one.
fn rank_run_message(a: char, b: char) -> (m: String)
    ensures
        m@ == "invalid rank range '"@ + seq![a, '-', b] + "': first rank must be higher"@,
{
    proof {
        reveal_strlit("-");
    }
    let first = one_char_string(a);
    let second = one_char_string(b);
    let m = String::from_str("invalid rank range '");
    let m = m.concat(first.as_str());
    let m = m.concat("-");
    let m = m.concat(second.as_str());
    let m = m.concat("': first rank must be higher");
    assert(m@ =~= "invalid rank range '"@ + seq![a, '-', b] + "': first rank must be higher"@);
    m
}

/// The message of a card error inside a range.
fn card_in_range_message(card_message: &str) -> (m: String)
    ensures
        m@ == "invalid card: "@ + card_message@,
{
    let m = String::from_str("invalid card: ");
    m.concat(card_message)
}

/// The text a range error reads as.
pub open spec fn range_error_text(e: RangeParseError) -> Seq<char> {
    match e {
        RangeParseError::InvalidToken(t) => "invalid range token '"@ + t@ + "'"@,
        RangeParseError::InvalidCard(c) => "invalid card: "@ + parse_error_text(c),
        RangeParseError::InvalidRankRange(a, b) => "invalid rank range '"@ + seq![a, '-', b]
            + "': first rank must be higher"@,
    }
}

impl RangeParseError {
    /// The message the error reads as.
    pub fn message(&self) -> (r: String)
        ensures
            r@ == range_error_text(*self),
    {
        match self {
            RangeParseError::InvalidToken(t) => token_message(t.as_str()),
            RangeParseError::InvalidCard(c) => {
                let m = c.message();
                card_in_range_message(m.as_str())
            },
            RangeParseError::InvalidRankRange(a, b) => rank_run_message(*a, *b),
        }
    }
}

/// How many of the first `n` flags are set.
pub open spec fn count_in(s: Seq<bool>, n: int) -> int
    decreases n,
{
    if n <= 0 {
        0
    } else {
        count_in(s, n - 1) + if s[n - 1] {
            1int
        } else {
            0int
        }
    }
}

/// Whether combination `k` is among those a parse result stands for: none
/// when the text is refused.
pub open spec fn effect_has(r: Result<spec_fn(int) -> bool, RangeFailure>, k: int) -> bool {
    match r {
        Ok(f) => f(k),
        Err(_) => false,
    }
}

/// Two different ranks without a suffix stand for their suited and their
/// offsuit hands together: "AK" is "AKs" and "AKo".
pub proof fn lemma_unsuffixed_token_is_both(x: char, y: char)
    requires
        rank_of_char(x) is Some,
        rank_of_char(y) is Some,
        rank_of_char(x) != rank_of_char(y),
    ensures
        single_effect(seq![x, y]) is Ok,
        single_effect(seq![x, y, 's']) is Ok,
        single_effect(seq![x, y, 'o']) is Ok,
        forall|k: int|
            effect_has(single_effect(seq![x, y]), k) == (effect_has(single_effect(seq![x, y, 's']), k)
                || effect_has(single_effect(seq![x, y, 'o']), k)),
{
}

/// A run whose start has no suffix stands for the same run suited and the
/// same run offsuit together: "A5-A2" is "A5s-A2s" and "A5o-A2o" (for a run
/// of pocket pairs all three are the same run). The three are refused
/// alike.
pub proof fn lemma_unsuffixed_run_is_both(
    t: Seq<char>,
    ts: Seq<char>,
    to: Seq<char>,
    x: char,
    y: char,
    end: Seq<char>,
)
    ensures
        (range_effect(t, seq![x, y], end) is Ok) == (range_effect(ts, seq![x, y, 's'], end) is Ok),
        (range_effect(t, seq![x, y], end) is Ok) == (range_effect(to, seq![x, y, 'o'], end) is Ok),
        forall|k: int|
            effect_has(range_effect(t, seq![x, y], end), k) == (effect_has(
                range_effect(ts, seq![x, y, 's'], end),
                k,
            ) || effect_has(range_effect(to, seq![x, y, 'o'], end), k)),
{
    let both = seq![x, y];
    let su = seq![x, y, 's'];
    let of = seq![x, y, 'o'];
    assert(su[0] == x && su[1] == y && su[2] == 's' && su.len() == 3);
    assert(of[0] == x && of[1] == y && of[2] == 'o' && of.len() == 3);
    assert(both[0] == x && both[1] == y && both.len() == 2);
}

} // verus!
