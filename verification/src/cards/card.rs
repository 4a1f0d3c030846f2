//! Ranks, suits and cards, with their compact 0..52 encoding and the
//! two-character text form ("Ah", "Td", "2c").

use vstd::prelude::*;

verus! {

/// Why a card string was refused.
#[derive(Debug, PartialEq, Eq)]
pub enum CardParseError {
    /// The trimmed input is not two characters long (in UTF-8 bytes).
    InvalidFormat(String),
    /// The first character names no rank (the upper-cased character).
    UnknownRank(char),
    /// The second character names no suit (the lower-cased character).
    UnknownSuit(char),
}

/// The message for text that is not card-shaped.
pub open spec fn invalid_format_text(s: Seq<char>) -> Seq<char> {
    "invalid card string '"@ + s + "' \u{2014} expected format like 'Ah', 'Td', '2c'"@
}

/// The message for a character that names no `what` (rank or suit).
pub open spec fn unknown_char_text(what: Seq<char>, c: char) -> Seq<char> {
    "unknown "@ + what + " '"@ + seq![c] + "'"@
}

/// The message a card parse error reads as.
pub open spec fn parse_error_text(e: CardParseError) -> Seq<char> {
    match e {
        CardParseError::InvalidFormat(s) => invalid_format_text(s@),
        CardParseError::UnknownRank(c) => unknown_char_text("rank"@, c),
        CardParseError::UnknownSuit(c) => unknown_char_text("suit"@, c),
    }
}

impl CardParseError {
    /// The message the error reads as.
    pub fn message(&self) -> (r: String)
        ensures
            r@ == parse_error_text(*self),
    {
        match self {
            CardParseError::InvalidFormat(s) => invalid_format_message(s.as_str()),
            CardParseError::UnknownRank(c) => unknown_char_message("rank", *c),
            CardParseError::UnknownSuit(c) => unknown_char_message("suit", *c),
        }
    }
}

/// The message for text that is not card-shaped.
fn invalid_format_message(s: &str) -> (m: String)
    ensures
        m@ == invalid_format_text(s@),
{
    let m = String::from_str("invalid card string '");
    let m = m.concat(s);
    m.concat("' \u{2014} expected format like 'Ah', 'Td', '2c'")
}

/// The message for a character that names no rank or suit.
fn unknown_char_message(what: &str, c: char) -> (m: String)
    ensures
        m@ == unknown_char_text(what@, c),
{
    let one = one_char_string(c);
    let m = String::from_str("unknown ");
    let m = m.concat(what);
    let m = m.concat(" '");
    let m = m.concat(one.as_str());
    m.concat("'")
}

/// `c` with an ASCII lower-case letter turned into its upper-case form.
pub open spec fn ascii_upper(c: char) -> char {
    if 'a' <= c && c <= 'z' {
        ((c as int) - 32) as char
    } else {
        c
    }
}

/// `c` with an ASCII upper-case letter turned into its lower-case form.
pub open spec fn ascii_lower(c: char) -> char {
    if 'A' <= c && c <= 'Z' {
        ((c as int) + 32) as char
    } else {
        c
    }
}

/// The upper-case form of an ASCII lower-case letter; any other character
/// as it is.
fn to_ascii_upper(c: char) -> (r: char)
    ensures
        r == ascii_upper(c),
{
    if 'a' <= c && c <= 'z' {
        let code = c as u32;
        let up = (code - 32) as u8;
        up as char
    } else {
        c
    }
}

/// The lower-case form of an ASCII upper-case letter; any other character
/// as it is.
fn to_ascii_lower(c: char) -> (r: char)
    ensures
        r == ascii_lower(c),
{
    if 'A' <= c && c <= 'Z' {
        let code = c as u32;
        let low = (code + 32) as u8;
        low as char
    } else {
        c
    }
}

/// The thirteen ranks, from Two up to Ace.
#[derive(Clone, Copy, Debug, PartialEq, Eq, PartialOrd, Ord, Hash, Structural)]
pub enum Rank {
    Two,
    Three,
    Four,
    Five,
    Six,
    Seven,
    Eight,
    Nine,
    Ten,
    Jack,
    Queen,
    King,
    Ace,
}

/// The rank at position `i` (0 = Two, 12 = Ace).
pub open spec fn rank_at(i: int) -> Rank {
    if i <= 0 {
        Rank::Two
    } else if i == 1 {
        Rank::Three
    } else if i == 2 {
        Rank::Four
    } else if i == 3 {
        Rank::Five
    } else if i == 4 {
        Rank::Six
    } else if i == 5 {
        Rank::Seven
    } else if i == 6 {
        Rank::Eight
    } else if i == 7 {
        Rank::Nine
    } else if i == 8 {
        Rank::Ten
    } else if i == 9 {
        Rank::Jack
    } else if i == 10 {
        Rank::Queen
    } else if i == 11 {
        Rank::King
    } else {
        Rank::Ace
    }
}

/// The rank that a character names, after upper-casing.
pub open spec fn rank_of_char(c: char) -> Option<Rank> {
    let u = ascii_upper(c);
    if u == '2' {
        Some(Rank::Two)
    } else if u == '3' {
        Some(Rank::Three)
    } else if u == '4' {
        Some(Rank::Four)
    } else if u == '5' {
        Some(Rank::Five)
    } else if u == '6' {
        Some(Rank::Six)
    } else if u == '7' {
        Some(Rank::Seven)
    } else if u == '8' {
        Some(Rank::Eight)
    } else if u == '9' {
        Some(Rank::Nine)
    } else if u == 'T' {
        Some(Rank::Ten)
    } else if u == 'J' {
        Some(Rank::Jack)
    } else if u == 'Q' {
        Some(Rank::Queen)
    } else if u == 'K' {
        Some(Rank::King)
    } else if u == 'A' {
        Some(Rank::Ace)
    } else {
        None
    }
}

impl Rank {
    pub const ALL: [Rank; 13] = [
        Rank::Two,
        Rank::Three,
        Rank::Four,
        Rank::Five,
        Rank::Six,
        Rank::Seven,
        Rank::Eight,
        Rank::Nine,
        Rank::Ten,
        Rank::Jack,
        Rank::Queen,
        Rank::King,
        Rank::Ace,
    ];

    /// Position of the rank: Two = 0 up to Ace = 12.
    pub open spec fn idx(self) -> int {
        match self {
            Rank::Two => 0,
            Rank::Three => 1,
            Rank::Four => 2,
            Rank::Five => 3,
            Rank::Six => 4,
            Rank::Seven => 5,
            Rank::Eight => 6,
            Rank::Nine => 7,
            Rank::Ten => 8,
            Rank::Jack => 9,
            Rank::Queen => 10,
            Rank::King => 11,
            Rank::Ace => 12,
        }
    }

    /// The character that names the rank.
    pub open spec fn spec_char(self) -> char {
        match self {
            Rank::Two => '2',
            Rank::Three => '3',
            Rank::Four => '4',
            Rank::Five => '5',
            Rank::Six => '6',
            Rank::Seven => '7',
            Rank::Eight => '8',
            Rank::Nine => '9',
            Rank::Ten => 'T',
            Rank::Jack => 'J',
            Rank::Queen => 'Q',
            Rank::King => 'K',
            Rank::Ace => 'A',
        }
    }

    /// The prime that stands for the rank in prime-product hand keys.
    pub open spec fn prime_of(self) -> int {
        match self {
            Rank::Two => 2,
            Rank::Three => 3,
            Rank::Four => 5,
            Rank::Five => 7,
            Rank::Six => 11,
            Rank::Seven => 13,
            Rank::Eight => 17,
            Rank::Nine => 19,
            Rank::Ten => 23,
            Rank::Jack => 29,
            Rank::Queen => 31,
            Rank::King => 37,
            Rank::Ace => 41,
        }
    }

    /// 0-based index (Two = 0 ... Ace = 12).
    pub fn index(self) -> (r: u8)
        ensures
            r as int == self.idx(),
            r < 13,
    {
        match self {
            Rank::Two => 0,
            Rank::Three => 1,
            Rank::Four => 2,
            Rank::Five => 3,
            Rank::Six => 4,
            Rank::Seven => 5,
            Rank::Eight => 6,
            Rank::Nine => 7,
            Rank::Ten => 8,
            Rank::Jack => 9,
            Rank::Queen => 10,
            Rank::King => 11,
            Rank::Ace => 12,
        }
    }

    /// The rank with the given 0-based index.
    pub fn from_index(idx: u8) -> (r: Rank)
        requires
            idx < 13,
        ensures
            r.idx() == idx as int,
            r == rank_at(idx as int),
    {
        match idx {
            0 => Rank::Two,
            1 => Rank::Three,
            2 => Rank::Four,
            3 => Rank::Five,
            4 => Rank::Six,
            5 => Rank::Seven,
            6 => Rank::Eight,
            7 => Rank::Nine,
            8 => Rank::Ten,
            9 => Rank::Jack,
            10 => Rank::Queen,
            11 => Rank::King,
            _ => Rank::Ace,
        }
    }

    /// Parse a rank character ('2'-'9', 'T', 'J', 'Q', 'K', 'A'; either case).
    pub fn from_char(c: char) -> (r: Result<Rank, CardParseError>)
        ensures
            match r {
                Ok(rank) => rank_of_char(c) == Some(rank),
                Err(e) => rank_of_char(c) is None && e == CardParseError::UnknownRank(
                    ascii_upper(c),
                ),
            },
    {
        let u = to_ascii_upper(c);
        match u {
            '2' => Ok(Rank::Two),
            '3' => Ok(Rank::Three),
            '4' => Ok(Rank::Four),
            '5' => Ok(Rank::Five),
            '6' => Ok(Rank::Six),
            '7' => Ok(Rank::Seven),
            '8' => Ok(Rank::Eight),
            '9' => Ok(Rank::Nine),
            'T' => Ok(Rank::Ten),
            'J' => Ok(Rank::Jack),
            'Q' => Ok(Rank::Queen),
            'K' => Ok(Rank::King),
            'A' => Ok(Rank::Ace),
            other => Err(CardParseError::UnknownRank(other)),
        }
    }

    /// The character that names the rank.
    pub fn to_char(self) -> (r: char)
        ensures
            r == self.spec_char(),
    {
        match self {
            Rank::Two => '2',
            Rank::Three => '3',
            Rank::Four => '4',
            Rank::Five => '5',
            Rank::Six => '6',
            Rank::Seven => '7',
            Rank::Eight => '8',
            Rank::Nine => '9',
            Rank::Ten => 'T',
            Rank::Jack => 'J',
            Rank::Queen => 'Q',
            Rank::King => 'K',
            Rank::Ace => 'A',
        }
    }

    /// Prime number assigned to each rank for hash-based hand evaluation.
    pub fn prime(self) -> (r: u32)
        ensures
            r as int == self.prime_of(),
    {
        match self {
            Rank::Two => 2,
            Rank::Three => 3,
            Rank::Four => 5,
            Rank::Five => 7,
            Rank::Six => 11,
            Rank::Seven => 13,
            Rank::Eight => 17,
            Rank::Nine => 19,
            Rank::Ten => 23,
            Rank::Jack => 29,
            Rank::Queen => 31,
            Rank::King => 37,
            Rank::Ace => 41,
        }
    }

    /// The rank's character as a one-character string.
    pub fn to_display_string(self) -> (s: String)
        ensures
            s@ == seq![self.spec_char()],
    {
        one_char_string(self.to_char())
    }
}

/// Ranks are determined by their index, and every index names a rank.
pub proof fn lemma_rank_index(r: Rank, i: int)
    requires
        0 <= i < 13,
    ensures
        rank_at(r.idx()) == r,
        rank_at(i).idx() == i,
        0 <= r.idx() < 13,
{
}

/// Reading back the character of a rank gives the rank again.
pub proof fn lemma_rank_char_round_trip(r: Rank)
    ensures
        rank_of_char(r.spec_char()) == Some(r),
{
}

/// The four suits.
#[derive(Clone, Copy, Debug, PartialEq, Eq, Hash, Structural)]
pub enum Suit {
    Clubs,
    Diamonds,
    Hearts,
    Spades,
}

/// The suit at position `i` (0 = clubs, 3 = spades).
pub open spec fn suit_at(i: int) -> Suit {
    if i <= 0 {
        Suit::Clubs
    } else if i == 1 {
        Suit::Diamonds
    } else if i == 2 {
        Suit::Hearts
    } else {
        Suit::Spades
    }
}

/// The suit that a character names, after lower-casing.
pub open spec fn suit_of_char(c: char) -> Option<Suit> {
    let l = ascii_lower(c);
    if l == 'c' {
        Some(Suit::Clubs)
    } else if l == 'd' {
        Some(Suit::Diamonds)
    } else if l == 'h' {
        Some(Suit::Hearts)
    } else if l == 's' {
        Some(Suit::Spades)
    } else {
        None
    }
}

impl Suit {
    pub const ALL: [Suit; 4] = [Suit::Clubs, Suit::Diamonds, Suit::Hearts, Suit::Spades];

    /// Position of the suit: clubs 0, diamonds 1, hearts 2, spades 3.
    pub open spec fn idx(self) -> int {
        match self {
            Suit::Clubs => 0,
            Suit::Diamonds => 1,
            Suit::Hearts => 2,
            Suit::Spades => 3,
        }
    }

    /// The letter that names the suit.
    pub open spec fn spec_char(self) -> char {
        match self {
            Suit::Clubs => 'c',
            Suit::Diamonds => 'd',
            Suit::Hearts => 'h',
            Suit::Spades => 's',
        }
    }

    /// The suit symbol.
    pub open spec fn spec_glyph(self) -> char {
        match self {
            Suit::Clubs => '\u{2663}',
            Suit::Diamonds => '\u{2666}',
            Suit::Hearts => '\u{2665}',
            Suit::Spades => '\u{2660}',
        }
    }

    /// 0-based index of the suit.
    pub fn index(self) -> (r: u8)
        ensures
            r as int == self.idx(),
            r < 4,
    {
        match self {
            Suit::Clubs => 0,
            Suit::Diamonds => 1,
            Suit::Hearts => 2,
            Suit::Spades => 3,
        }
    }

    /// The suit with the given 0-based index.
    pub fn from_index(idx: u8) -> (r: Suit)
        requires
            idx < 4,
        ensures
            r.idx() == idx as int,
            r == suit_at(idx as int),
    {
        match idx {
            0 => Suit::Clubs,
            1 => Suit::Diamonds,
            2 => Suit::Hearts,
            _ => Suit::Spades,
        }
    }

    /// Parse a suit letter ('c', 'd', 'h', 's'; either case).
    pub fn from_char(c: char) -> (r: Result<Suit, CardParseError>)
        ensures
            match r {
                Ok(suit) => suit_of_char(c) == Some(suit),
                Err(e) => suit_of_char(c) is None && e == CardParseError::UnknownSuit(
                    ascii_lower(c),
                ),
            },
    {
        let l = to_ascii_lower(c);
        match l {
            'c' => Ok(Suit::Clubs),
            'd' => Ok(Suit::Diamonds),
            'h' => Ok(Suit::Hearts),
            's' => Ok(Suit::Spades),
            other => Err(CardParseError::UnknownSuit(other)),
        }
    }

    /// The letter that names the suit.
    pub fn to_char(self) -> (r: char)
        ensures
            r == self.spec_char(),
    {
        match self {
            Suit::Clubs => 'c',
            Suit::Diamonds => 'd',
            Suit::Hearts => 'h',
            Suit::Spades => 's',
        }
    }

    /// Unicode glyph for display.
    pub fn glyph(self) -> (r: char)
        ensures
            r == self.spec_glyph(),
    {
        match self {
            Suit::Clubs => '\u{2663}',
            Suit::Diamonds => '\u{2666}',
            Suit::Hearts => '\u{2665}',
            Suit::Spades => '\u{2660}',
        }
    }

    /// The suit's letter as a one-character string.
    pub fn to_display_string(self) -> (s: String)
        ensures
            s@ == seq![self.spec_char()],
    {
        one_char_string(self.to_char())
    }
}

/// Reading back the letter of a suit gives the suit again.
pub proof fn lemma_suit_char_round_trip(s: Suit)
    ensures
        suit_of_char(s.spec_char()) == Some(s),
{
}

/// A playing card.
#[derive(Clone, Copy, Debug, PartialEq, Eq, Hash, Structural)]
pub struct Card {
    pub rank: Rank,
    pub suit: Suit,
}

/// The card with compact index `i` (rank index * 4 + suit index).
pub open spec fn card_at(i: int) -> Card {
    Card { rank: rank_at(i / 4), suit: suit_at(i % 4) }
}

/// Characters that Unicode lists as White_Space, which `str::trim` removes.
pub open spec fn is_unicode_whitespace(c: char) -> bool {
    let u = c as int;
    (0x9 <= u && u <= 0xD) || u == 0x20 || u == 0x85 || u == 0xA0 || u == 0x1680 || (0x2000 <= u
        && u <= 0x200A) || u == 0x2028 || u == 0x2029 || u == 0x202F || u == 0x205F || u
        == 0x3000
}

/// `s` without its leading white space.
pub open spec fn trim_start_spec(s: Seq<char>) -> Seq<char>
    decreases s.len(),
{
    if s.len() > 0 && is_unicode_whitespace(s[0]) {
        trim_start_spec(s.drop_first())
    } else {
        s
    }
}

/// `s` without its trailing white space.
pub open spec fn trim_end_spec(s: Seq<char>) -> Seq<char>
    decreases s.len(),
{
    if s.len() > 0 && is_unicode_whitespace(s.last()) {
        trim_end_spec(s.drop_last())
    } else {
        s
    }
}

/// `s` without leading and trailing white space.
pub open spec fn trim_spec(s: Seq<char>) -> Seq<char> {
    trim_end_spec(trim_start_spec(s))
}

/// Number of bytes of the UTF-8 encoding of `c`.
pub open spec fn utf8_width(c: char) -> int {
    if (c as int) < 0x80 {
        1
    } else if (c as int) < 0x800 {
        2
    } else if (c as int) < 0x10000 {
        3
    } else {
        4
    }
}

/// `str::trim`: the string slice without leading and trailing characters
/// that have the Unicode White_Space property.
#[verifier::external_body]
pub(crate) fn str_trim(s: &str) -> (r: &str)
    ensures
        r@ == trim_spec(s@),
{
    s.trim()
}

/// The characters of the string, in order.
pub(crate) fn str_chars(s: &str) -> (r: Vec<char>)
    ensures
        r@ == s@,
{
    broadcast use vstd::string::axiom_spec_iter;

    let mut r: Vec<char> = Vec::new();
    for c in it: s.chars()
        invariant
            it.seq() == s@,
            r@.len() == it.index(),
            forall|i: int| 0 <= i < r@.len() ==> r@[i] == s@[i],
    {
        r.push(c);
    }
    assert(r@ =~= s@);
    r
}

/// A string of the characters `v`.
pub(crate) fn string_of_chars(v: &[char]) -> (s: String)
    ensures
        s@ == v@,
{
    let mut s = String::new();
    let mut i: usize = 0;
    while i < v.len()
        invariant
            i <= v@.len(),
            s@ == v@.take(i as int),
        decreases v@.len() - i,
    {
        let one = one_char_string(v[i]);
        s.append(one.as_str());
        assert(v@.take(i + 1) =~= v@.take(i as int) + seq![v@[i as int]]);
        i += 1;
    }
    assert(v@.take(v@.len() as int) =~= v@);
    s
}

/// A string of one character, written with `format!`.
#[verifier::external_body]
pub(crate) fn one_char_string(a: char) -> (s: String)
    ensures
        s@ == seq![a],
{
    format!("{}", a)
}

/// A string of two characters, written with `format!`.
#[verifier::external_body]
pub(crate) fn two_char_string(a: char, b: char) -> (s: String)
    ensures
        s@ == seq![a, b],
{
    format!("{}{}", a, b)
}

/// The card that a rank character and a suit character name, or the error
/// for the first of the two that names nothing.
pub open spec fn card_from_chars(a: char, b: char) -> Result<Card, CardParseError> {
    match rank_of_char(a) {
        None => Err(CardParseError::UnknownRank(ascii_upper(a))),
        Some(rank) => match suit_of_char(b) {
            None => Err(CardParseError::UnknownSuit(ascii_lower(b))),
            Some(suit) => Ok(Card { rank, suit }),
        },
    }
}

/// Whether trimmed text `t` has the two-byte shape of a card: two ASCII characters.
pub open spec fn is_card_shaped(t: Seq<char>) -> bool {
    t.len() == 2 && (t[0] as int) < 0x80 && (t[1] as int) < 0x80
}

impl Card {
    /// Compact index: rank index * 4 + suit index.
    pub open spec fn idx(self) -> int {
        self.rank.idx() * 4 + self.suit.idx()
    }

    pub fn new(rank: Rank, suit: Suit) -> (c: Card)
        ensures
            c.rank == rank,
            c.suit == suit,
    {
        Card { rank, suit }
    }

    /// Compact 0-51 encoding: rank_index * 4 + suit_index.
    pub fn index(self) -> (r: u8)
        ensures
            r as int == self.idx(),
            r < 52,
    {
        self.rank.index() * 4 + self.suit.index()
    }

    /// The card with the given compact index.
    pub fn from_index(idx: u8) -> (c: Card)
        requires
            idx < 52,
        ensures
            c.idx() == idx as int,
            c == card_at(idx as int),
    {
        let rank = Rank::from_index(idx / 4);
        let suit = Suit::from_index(idx % 4);
        Card { rank, suit }
    }

    /// Parse strings like "Ah", "Td", "2c", "Ks" (surrounding white space is
    /// ignored; rank and suit letters may be of either case).
    ///
    /// The trimmed text must be two UTF-8 bytes long; a single two-byte
    /// character passes that test and then has no second character, an input
    /// that the `requires` leaves out.
    pub fn from_str(s: &str) -> (r: Result<Card, CardParseError>)
        requires
            !(trim_spec(s@).len() == 1 && utf8_width(trim_spec(s@)[0]) == 2),
        ensures
            is_card_shaped(trim_spec(s@)) ==> r == card_from_chars(
                trim_spec(s@)[0],
                trim_spec(s@)[1],
            ),
            !is_card_shaped(trim_spec(s@)) ==> (r matches Err(CardParseError::InvalidFormat(m))
                && m@ == trim_spec(s@)),
    {
        let t = str_trim(s);
        let chars = str_chars(t);
        let n = chars.len();
        let two_ascii = n == 2 && (chars[0] as u32) < 0x80 && (chars[1] as u32) < 0x80;
        if !two_ascii {
            return Err(CardParseError::InvalidFormat(t.to_owned()));
        }
        let rank = match Rank::from_char(chars[0]) {
            Ok(rank) => rank,
            Err(e) => {
                return Err(e);
            },
        };
        let suit = match Suit::from_char(chars[1]) {
            Ok(suit) => suit,
            Err(e) => {
                return Err(e);
            },
        };
        Ok(Card { rank, suit })
    }

    /// Two-character form such as "Ah".
    pub fn display_short(self) -> (s: String)
        ensures
            s@ == seq![self.rank.spec_char(), self.suit.spec_char()],
    {
        two_char_string(self.rank.to_char(), self.suit.to_char())
    }

    /// Rank character followed by the suit symbol, such as "A\u{2665}".
    pub fn display_unicode(self) -> (s: String)
        ensures
            s@ == seq![self.rank.spec_char(), self.suit.spec_glyph()],
    {
        two_char_string(self.rank.to_char(), self.suit.glyph())
    }
}

/// The compact index is a bijection between cards and 0..52.
pub proof fn lemma_card_index_round_trip(c: Card, i: int)
    requires
        0 <= i < 52,
    ensures
        card_at(c.idx()) == c,
        card_at(i).idx() == i,
        0 <= c.idx() < 52,
{
}

/// The two-character text of a card parses back to the card: it has no
/// white space to trim, has the shape of a card, and its characters name the
/// card's rank and suit.
pub proof fn lemma_card_text_round_trip(c: Card)
    ensures
        ({
            let t = seq![c.rank.spec_char(), c.suit.spec_char()];
            &&& trim_spec(t) == t
            &&& is_card_shaped(trim_spec(t))
            &&& card_from_chars(trim_spec(t)[0], trim_spec(t)[1]) == Ok::<Card, CardParseError>(c)
        }),
{
    let t = seq![c.rank.spec_char(), c.suit.spec_char()];
    lemma_rank_char_round_trip(c.rank);
    lemma_suit_char_round_trip(c.suit);
    assert(!is_unicode_whitespace(t[0]));
    assert(!is_unicode_whitespace(t[1]));
    assert(trim_start_spec(t) == t);
    assert(t.last() == t[1]);
    assert(trim_end_spec(t) == t);
}

/// Two cards with the same index are the same card.
pub proof fn lemma_card_index_injective(a: Card, b: Card)
    requires
        a.idx() == b.idx(),
    ensures
        a == b,
{
    lemma_card_index_round_trip(a, 0);
    lemma_card_index_round_trip(b, 0);
}

} // verus!
