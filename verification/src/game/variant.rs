//! The supported poker variants and their betting rounds.

use crate::cards::card::str_chars;
use vstd::prelude::*;

verus! {

/// A poker variant.
#[derive(Clone, Copy, Debug, PartialEq, Eq, Hash, Structural)]
pub enum GameVariant {
    TexasHoldem,
    OmahaHoldem,
    SevenCardStud,
    FiveCardDraw,
}

/// Whether two string slices hold the same characters.
fn str_eq(a: &str, b: &str) -> (r: bool)
    ensures
        r == (a@ == b@),
{
    let x = str_chars(a);
    let y = str_chars(b);
    if x.len() != y.len() {
        return false;
    }
    let mut i: usize = 0;
    while i < x.len()
        invariant
            x@ == a@,
            y@ == b@,
            x@.len() == y@.len(),
            i <= x@.len(),
            forall|k: int| 0 <= k < i ==> x@[k] == y@[k],
        decreases x.len() - i,
    {
        if x[i] != y[i] {
            return false;
        }
        i += 1;
    }
    assert(x@ =~= y@);
    true
}

/// The message for an unknown variant identifier.
fn unknown_variant_message(s: &str) -> (m: String)
    ensures
        m@ == "Unknown variant '"@ + s@
            + "'. Use one of: texas_holdem, omaha_holdem, seven_card_stud, five_card_draw"@,
{
    let m = String::from_str("Unknown variant '");
    let m = m.concat(s);
    m.concat("'. Use one of: texas_holdem, omaha_holdem, seven_card_stud, five_card_draw")
}

/// The stable identifier of a variant.
pub open spec fn variant_id(v: GameVariant) -> Seq<char> {
    match v {
        GameVariant::TexasHoldem => "texas_holdem"@,
        GameVariant::OmahaHoldem => "omaha_holdem"@,
        GameVariant::SevenCardStud => "seven_card_stud"@,
        GameVariant::FiveCardDraw => "five_card_draw"@,
    }
}

/// The betting rounds of a variant, in order.
pub open spec fn variant_rounds(v: GameVariant) -> Seq<BettingRound> {
    match v {
        GameVariant::TexasHoldem => seq![
            BettingRound::Preflop,
            BettingRound::Flop,
            BettingRound::Turn,
            BettingRound::River,
        ],
        GameVariant::OmahaHoldem => seq![
            BettingRound::Preflop,
            BettingRound::Flop,
            BettingRound::Turn,
            BettingRound::River,
        ],
        GameVariant::SevenCardStud => seq![
            BettingRound::StudStreet3,
            BettingRound::StudStreet4,
            BettingRound::StudStreet5,
            BettingRound::StudStreet6,
            BettingRound::StudStreet7,
        ],
        GameVariant::FiveCardDraw => seq![BettingRound::DrawInitial, BettingRound::DrawAfter],
    }
}

impl GameVariant {
    pub const ALL: [GameVariant; 4] = [
        GameVariant::TexasHoldem,
        GameVariant::OmahaHoldem,
        GameVariant::SevenCardStud,
        GameVariant::FiveCardDraw,
    ];

    /// Number of hole cards a player holds.
    pub open spec fn spec_hole_card_count(self) -> int {
        match self {
            GameVariant::TexasHoldem => 2,
            GameVariant::OmahaHoldem => 4,
            GameVariant::SevenCardStud => 7,
            GameVariant::FiveCardDraw => 5,
        }
    }

    /// Number of community cards dealt to the board.
    pub open spec fn spec_community_card_count(self) -> int {
        match self {
            GameVariant::TexasHoldem => 5,
            GameVariant::OmahaHoldem => 5,
            GameVariant::SevenCardStud => 0,
            GameVariant::FiveCardDraw => 0,
        }
    }

    /// Stable string identifier used in the JS/Tauri API (e.g. `"texas_holdem"`).
    pub fn id(self) -> (r: &'static str)
        ensures
            r@ == variant_id(self),
    {
        match self {
            GameVariant::TexasHoldem => "texas_holdem",
            GameVariant::OmahaHoldem => "omaha_holdem",
            GameVariant::SevenCardStud => "seven_card_stud",
            GameVariant::FiveCardDraw => "five_card_draw",
        }
    }

    /// Parse the stable string identifier produced by [`GameVariant::id`].
    pub fn from_id(s: &str) -> (r: Result<GameVariant, String>)
        ensures
            match r {
                Ok(v) => variant_id(v) == s@,
                Err(m) => (forall|v: GameVariant| variant_id(v) != s@) && m@ == "Unknown variant '"@
                    + s@
                    + "'. Use one of: texas_holdem, omaha_holdem, seven_card_stud, five_card_draw"@,
            },
    {
        if str_eq(s, "texas_holdem") {
            Ok(GameVariant::TexasHoldem)
        } else if str_eq(s, "omaha_holdem") {
            Ok(GameVariant::OmahaHoldem)
        } else if str_eq(s, "seven_card_stud") {
            Ok(GameVariant::SevenCardStud)
        } else if str_eq(s, "five_card_draw") {
            Ok(GameVariant::FiveCardDraw)
        } else {
            Err(unknown_variant_message(s))
        }
    }

    /// The display name, as text.
    pub open spec fn spec_name(self) -> Seq<char> {
        match self {
            GameVariant::TexasHoldem => "Texas Hold'em"@,
            GameVariant::OmahaHoldem => "Omaha Hold'em"@,
            GameVariant::SevenCardStud => "7-Card Stud"@,
            GameVariant::FiveCardDraw => "5-Card Draw"@,
        }
    }

    /// The display name.
    pub fn name(self) -> (r: &'static str)
        ensures
            r@ == self.spec_name(),
    {
        match self {
            GameVariant::TexasHoldem => "Texas Hold'em",
            GameVariant::OmahaHoldem => "Omaha Hold'em",
            GameVariant::SevenCardStud => "7-Card Stud",
            GameVariant::FiveCardDraw => "5-Card Draw",
        }
    }

    /// The one-line description of the variant's rules, as text.
    pub open spec fn spec_description(self) -> Seq<char> {
        match self {
            GameVariant::TexasHoldem => "2 hole cards + 5 community cards. Best 5-card hand wins."@,
            GameVariant::OmahaHoldem => "4 hole cards + 5 community cards. Must use exactly 2 hole + 3 board."@,
            GameVariant::SevenCardStud => "7 cards dealt individually (3 down, 4 up). No community cards."@,
            GameVariant::FiveCardDraw => "5 hole cards. No community cards. Can draw new cards."@,
        }
    }

    /// A one-line description of the variant's rules.
    pub fn description(self) -> (r: &'static str)
        ensures
            r@ == self.spec_description(),
    {
        match self {
            GameVariant::TexasHoldem => "2 hole cards + 5 community cards. Best 5-card hand wins.",
            GameVariant::OmahaHoldem => {
                "4 hole cards + 5 community cards. Must use exactly 2 hole + 3 board."
            },
            GameVariant::SevenCardStud => {
                "7 cards dealt individually (3 down, 4 up). No community cards."
            },
            GameVariant::FiveCardDraw => "5 hole cards. No community cards. Can draw new cards.",
        }
    }

    /// Number of hole cards a player holds.
    pub fn hole_card_count(self) -> (r: usize)
        ensures
            r as int == self.spec_hole_card_count(),
    {
        match self {
            GameVariant::TexasHoldem => 2,
            GameVariant::OmahaHoldem => 4,
            GameVariant::SevenCardStud => 7,
            GameVariant::FiveCardDraw => 5,
        }
    }

    /// Number of community cards dealt to the board.
    pub fn community_card_count(self) -> (r: usize)
        ensures
            r as int == self.spec_community_card_count(),
    {
        match self {
            GameVariant::TexasHoldem => 5,
            GameVariant::OmahaHoldem => 5,
            GameVariant::SevenCardStud => 0,
            GameVariant::FiveCardDraw => 0,
        }
    }

    /// Whether the variant deals community cards.
    pub fn has_community_cards(self) -> (r: bool)
        ensures
            r == (self.spec_community_card_count() > 0),
    {
        self.community_card_count() > 0
    }

    /// Largest number of players at a table.
    pub open spec fn spec_max_players(self) -> int {
        match self {
            GameVariant::TexasHoldem => 9,
            GameVariant::OmahaHoldem => 9,
            GameVariant::SevenCardStud => 7,
            GameVariant::FiveCardDraw => 6,
        }
    }

    /// Largest number of players at a table.
    pub fn max_players(self) -> (r: usize)
        ensures
            r == self.spec_max_players(),
    {
        match self {
            GameVariant::TexasHoldem => 9,
            GameVariant::OmahaHoldem => 9,
            GameVariant::SevenCardStud => 7,
            GameVariant::FiveCardDraw => 6,
        }
    }

    /// The betting rounds of the variant, in order.
    pub fn rounds(self) -> (r: Vec<BettingRound>)
        ensures
            r@ == variant_rounds(self),
    {
        match self {
            GameVariant::TexasHoldem => vec![
                BettingRound::Preflop,
                BettingRound::Flop,
                BettingRound::Turn,
                BettingRound::River,
            ],
            GameVariant::OmahaHoldem => vec![
                BettingRound::Preflop,
                BettingRound::Flop,
                BettingRound::Turn,
                BettingRound::River,
            ],
            GameVariant::SevenCardStud => vec![
                BettingRound::StudStreet3,
                BettingRound::StudStreet4,
                BettingRound::StudStreet5,
                BettingRound::StudStreet6,
                BettingRound::StudStreet7,
            ],
            GameVariant::FiveCardDraw => vec![BettingRound::DrawInitial, BettingRound::DrawAfter],
        }
    }
}

/// Identifiers are distinct, so parsing an identifier gives back its variant.
pub proof fn lemma_variant_id_round_trip(v: GameVariant, w: GameVariant)
    ensures
        variant_id(v) == variant_id(w) ==> v == w,
{
    reveal_strlit("texas_holdem");
    reveal_strlit("omaha_holdem");
    reveal_strlit("seven_card_stud");
    reveal_strlit("five_card_draw");
    if variant_id(v) == variant_id(w) && v != w {
        assert(variant_id(v).len() != variant_id(w).len() || variant_id(v)[0] != variant_id(w)[0]);
    }
}

/// A betting round.
#[derive(Clone, Copy, Debug, PartialEq, Eq, Structural)]
pub enum BettingRound {
    // Hold'em rounds
    Preflop,
    Flop,
    Turn,
    River,
    // Stud rounds
    StudStreet3,
    StudStreet4,
    StudStreet5,
    StudStreet6,
    StudStreet7,
    // Draw rounds
    DrawInitial,
    DrawAfter,
}

impl BettingRound {
    /// How many community cards are revealed in this round (Hold'em only).
    pub open spec fn spec_revealed(self) -> int {
        match self {
            BettingRound::Flop => 3,
            BettingRound::Turn => 1,
            BettingRound::River => 1,
            _ => 0,
        }
    }

    /// The display name of a round, as text.
    pub open spec fn spec_name(self) -> Seq<char> {
        match self {
            BettingRound::Preflop => "Pre-Flop"@,
            BettingRound::Flop => "Flop"@,
            BettingRound::Turn => "Turn"@,
            BettingRound::River => "River"@,
            BettingRound::StudStreet3 => "3rd Street"@,
            BettingRound::StudStreet4 => "4th Street"@,
            BettingRound::StudStreet5 => "5th Street"@,
            BettingRound::StudStreet6 => "6th Street"@,
            BettingRound::StudStreet7 => "7th Street (Showdown)"@,
            BettingRound::DrawInitial => "Initial Deal"@,
            BettingRound::DrawAfter => "After Draw"@,
        }
    }

    /// The round's display name.
    pub fn name(self) -> (r: &'static str)
        ensures
            r@ == self.spec_name(),
    {
        match self {
            BettingRound::Preflop => "Pre-Flop",
            BettingRound::Flop => "Flop",
            BettingRound::Turn => "Turn",
            BettingRound::River => "River",
            BettingRound::StudStreet3 => "3rd Street",
            BettingRound::StudStreet4 => "4th Street",
            BettingRound::StudStreet5 => "5th Street",
            BettingRound::StudStreet6 => "6th Street",
            BettingRound::StudStreet7 => "7th Street (Showdown)",
            BettingRound::DrawInitial => "Initial Deal",
            BettingRound::DrawAfter => "After Draw",
        }
    }

    /// How many community cards are revealed in this round (Hold'em only).
    pub fn community_cards_revealed(self) -> (r: usize)
        ensures
            r as int == self.spec_revealed(),
    {
        match self {
            BettingRound::Flop => 3,
            BettingRound::Turn => 1,
            BettingRound::River => 1,
            _ => 0,
        }
    }

    /// Total community cards on board after this round.
    pub fn total_community_after(self) -> (r: usize)
        ensures
            r == match self {
                BettingRound::Flop => 3usize,
                BettingRound::Turn => 4usize,
                BettingRound::River => 5usize,
                _ => 0usize,
            },
    {
        match self {
            BettingRound::Preflop => 0,
            BettingRound::Flop => 3,
            BettingRound::Turn => 4,
            BettingRound::River => 5,
            _ => 0,
        }
    }
}

/// Along the Hold'em rounds, the board after each round holds what earlier
/// rounds revealed plus what this round reveals.
pub proof fn lemma_holdem_board_growth(v: GameVariant, i: int)
    requires
        v == GameVariant::TexasHoldem || v == GameVariant::OmahaHoldem,
        0 < i < variant_rounds(v).len(),
    ensures
        ({
            let rs = variant_rounds(v);
            let after = |r: BettingRound|
                match r {
                    BettingRound::Flop => 3int,
                    BettingRound::Turn => 4int,
                    BettingRound::River => 5int,
                    _ => 0int,
                };
            after(rs[i]) == after(rs[i - 1]) + rs[i].spec_revealed()
        }),
{
}

} // verus!
