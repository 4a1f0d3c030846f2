//! Hand values (higher is stronger) and the hand categories they fall in.

use vstd::prelude::*;

verus! {

/// Hand rank value: higher is better. The payload is `7463 - ck`, where `ck`
/// is the Cactus Kev rank (1 = royal flush, 7462 = worst high card).
#[derive(Clone, Copy, Debug, PartialEq, Eq, PartialOrd, Ord, Hash, Structural)]
pub struct HandValue(pub u16);

/// Canonical hand category (independent of kickers).
#[derive(Clone, Copy, Debug, PartialEq, Eq, PartialOrd, Ord, Hash, Structural)]
pub enum HandCategory {
    HighCard,
    OnePair,
    TwoPair,
    ThreeOfAKind,
    Straight,
    Flush,
    FullHouse,
    FourOfAKind,
    StraightFlush,
    RoyalFlush,
}

/// The category that a hand value falls in, by the Cactus Kev ranges.
pub open spec fn category_of_value(v: int) -> HandCategory {
    if v == 7462 {
        HandCategory::RoyalFlush
    } else if 7453 <= v <= 7461 {
        HandCategory::StraightFlush
    } else if 7297 <= v <= 7452 {
        HandCategory::FourOfAKind
    } else if 7141 <= v <= 7296 {
        HandCategory::FullHouse
    } else if 5864 <= v <= 7140 {
        HandCategory::Flush
    } else if 5854 <= v <= 5863 {
        HandCategory::Straight
    } else if 4996 <= v <= 5853 {
        HandCategory::ThreeOfAKind
    } else if 4138 <= v <= 4995 {
        HandCategory::TwoPair
    } else if 1278 <= v <= 4137 {
        HandCategory::OnePair
    } else {
        HandCategory::HighCard
    }
}

impl HandCategory {
    pub const ALL: [HandCategory; 10] = [
        HandCategory::HighCard,
        HandCategory::OnePair,
        HandCategory::TwoPair,
        HandCategory::ThreeOfAKind,
        HandCategory::Straight,
        HandCategory::Flush,
        HandCategory::FullHouse,
        HandCategory::FourOfAKind,
        HandCategory::StraightFlush,
        HandCategory::RoyalFlush,
    ];

    /// Position of the category, from high card (0) to royal flush (9).
    pub open spec fn idx(self) -> int {
        match self {
            HandCategory::HighCard => 0,
            HandCategory::OnePair => 1,
            HandCategory::TwoPair => 2,
            HandCategory::ThreeOfAKind => 3,
            HandCategory::Straight => 4,
            HandCategory::Flush => 5,
            HandCategory::FullHouse => 6,
            HandCategory::FourOfAKind => 7,
            HandCategory::StraightFlush => 8,
            HandCategory::RoyalFlush => 9,
        }
    }

    /// Position of the category, from high card (0) to royal flush (9).
    pub fn index(self) -> (r: usize)
        ensures
            r as int == self.idx(),
            r < 10,
    {
        match self {
            HandCategory::HighCard => 0,
            HandCategory::OnePair => 1,
            HandCategory::TwoPair => 2,
            HandCategory::ThreeOfAKind => 3,
            HandCategory::Straight => 4,
            HandCategory::Flush => 5,
            HandCategory::FullHouse => 6,
            HandCategory::FourOfAKind => 7,
            HandCategory::StraightFlush => 8,
            HandCategory::RoyalFlush => 9,
        }
    }

    /// The category's display name.
    pub fn name(self) -> (r: &'static str)
        ensures
            r@ == category_name(self),
    {
        match self {
            HandCategory::HighCard => "High Card",
            HandCategory::OnePair => "One Pair",
            HandCategory::TwoPair => "Two Pair",
            HandCategory::ThreeOfAKind => "Three of a Kind",
            HandCategory::Straight => "Straight",
            HandCategory::Flush => "Flush",
            HandCategory::FullHouse => "Full House",
            HandCategory::FourOfAKind => "Four of a Kind",
            HandCategory::StraightFlush => "Straight Flush",
            HandCategory::RoyalFlush => "Royal Flush",
        }
    }
}

/// The display name of a category.
pub open spec fn category_name(c: HandCategory) -> Seq<char> {
    match c {
        HandCategory::HighCard => "High Card"@,
        HandCategory::OnePair => "One Pair"@,
        HandCategory::TwoPair => "Two Pair"@,
        HandCategory::ThreeOfAKind => "Three of a Kind"@,
        HandCategory::Straight => "Straight"@,
        HandCategory::Flush => "Flush"@,
        HandCategory::FullHouse => "Full House"@,
        HandCategory::FourOfAKind => "Four of a Kind"@,
        HandCategory::StraightFlush => "Straight Flush"@,
        HandCategory::RoyalFlush => "Royal Flush"@,
    }
}

impl HandValue {
    /// Convert a Cactus Kev rank (1 = best, 7462 = worst) to the inverted
    /// value, higher = better.
    pub fn from_cactus_kev(ck: u16) -> (v: HandValue)
        requires
            ck <= 7463,
        ensures
            v.0 == 7463 - ck,
    {
        HandValue(7463 - ck)
    }

    /// The category the value falls in.
    pub fn category(self) -> (c: HandCategory)
        ensures
            c == category_of_value(self.0 as int),
    {
        let v = self.0;
        if v == 7462 {
            HandCategory::RoyalFlush
        } else if 7453 <= v && v <= 7461 {
            HandCategory::StraightFlush
        } else if 7297 <= v && v <= 7452 {
            HandCategory::FourOfAKind
        } else if 7141 <= v && v <= 7296 {
            HandCategory::FullHouse
        } else if 5864 <= v && v <= 7140 {
            HandCategory::Flush
        } else if 5854 <= v && v <= 5863 {
            HandCategory::Straight
        } else if 4996 <= v && v <= 5853 {
            HandCategory::ThreeOfAKind
        } else if 4138 <= v && v <= 4995 {
            HandCategory::TwoPair
        } else if 1278 <= v && v <= 4137 {
            HandCategory::OnePair
        } else {
            HandCategory::HighCard
        }
    }
}

/// Categories are ordered as the values in them: a value in a higher
/// category is larger.
pub proof fn lemma_category_monotone(v: int, w: int)
    requires
        1 <= v <= 7462,
        1 <= w <= 7462,
        category_of_value(v).idx() < category_of_value(w).idx(),
    ensures
        v < w,
{
}

} // verus!
