//! The thirteen ranks, from the ace (1) to the king (13).

use vstd::prelude::*;

verus! {

/// The lowest rank, the ace.
pub const MIN_RANK: u8 = 1;

/// The highest rank, the king.
pub const MAX_RANK: u8 = 13;

/// Number of ranks in a suit.
pub const NB_RANKS: usize = 13;

/// The rank of a card.
#[derive(Debug, Clone, Copy, Hash, PartialEq, Eq, PartialOrd, Ord, Structural)]
pub struct Rank(pub u8);

impl Rank {
    /// A rank is valid when it lies between the ace and the king.
    pub open spec fn wf(self) -> bool {
        MIN_RANK <= self.0 <= MAX_RANK
    }

    /// The symbol printed for the rank `value`.
    pub open spec fn spec_symbol(value: u8) -> char {
        if value == 1 {
            'A'
        } else if value == 2 {
            '2'
        } else if value == 3 {
            '3'
        } else if value == 4 {
            '4'
        } else if value == 5 {
            '5'
        } else if value == 6 {
            '6'
        } else if value == 7 {
            '7'
        } else if value == 8 {
            '8'
        } else if value == 9 {
            '9'
        } else if value == 10 {
            '0'
        } else if value == 11 {
            'J'
        } else if value == 12 {
            'Q'
        } else {
            'K'
        }
    }

    /// The name of the rank `value`.
    pub open spec fn spec_name(value: u8) -> Seq<char> {
        if value == 1 {
            "Ace"@
        } else if value == 2 {
            "2"@
        } else if value == 3 {
            "3"@
        } else if value == 4 {
            "4"@
        } else if value == 5 {
            "5"@
        } else if value == 6 {
            "6"@
        } else if value == 7 {
            "7"@
        } else if value == 8 {
            "8"@
        } else if value == 9 {
            "9"@
        } else if value == 10 {
            "10"@
        } else if value == 11 {
            "Jack"@
        } else if value == 12 {
            "Queen"@
        } else {
            "King"@
        }
    }

    /// Whether this rank is just below or just above `other`.
    pub open spec fn spec_is_above_or_below(self, other: Rank) -> bool {
        self.0 == other.0 - 1 || self.0 == other.0 + 1
    }

    /// The rank of value `item`.
    pub fn from(item: u8) -> (r: Rank)
        requires
            MIN_RANK <= item <= MAX_RANK,
        ensures
            r == Rank(item),
            r.wf(),
    {
        Rank(item)
    }

    /// The value of the rank, from 1 to 13.
    pub fn as_u8(&self) -> (r: u8)
        ensures
            r == self.0,
    {
        self.0
    }

    /// Returns the one-character symbol of the rank.
    pub fn symbol(&self) -> (r: char)
        requires
            self.wf(),
        ensures
            r == Self::spec_symbol(self.0),
    {
        let value: u8 = self.0;
        if value == 1 {
            'A'
        } else if value == 2 {
            '2'
        } else if value == 3 {
            '3'
        } else if value == 4 {
            '4'
        } else if value == 5 {
            '5'
        } else if value == 6 {
            '6'
        } else if value == 7 {
            '7'
        } else if value == 8 {
            '8'
        } else if value == 9 {
            '9'
        } else if value == 10 {
            '0'
        } else if value == 11 {
            'J'
        } else if value == 12 {
            'Q'
        } else {
            'K'
        }
    }

    /// Returns the name of the rank.
    pub fn name(&self) -> (r: &'static str)
        requires
            self.wf(),
        ensures
            r@ == Self::spec_name(self.0),
    {
        let value: u8 = self.0;
        if value == 1 {
            "Ace"
        } else if value == 2 {
            "2"
        } else if value == 3 {
            "3"
        } else if value == 4 {
            "4"
        } else if value == 5 {
            "5"
        } else if value == 6 {
            "6"
        } else if value == 7 {
            "7"
        } else if value == 8 {
            "8"
        } else if value == 9 {
            "9"
        } else if value == 10 {
            "10"
        } else if value == 11 {
            "Jack"
        } else if value == 12 {
            "Queen"
        } else {
            "King"
        }
    }

    /// Checks if the rank is just above or just below the other rank.
    pub fn is_above_or_below(&self, other: &Rank) -> (r: bool)
        ensures
            r == self.spec_is_above_or_below(*other),
    {
        self.is_above(other) || self.is_below(other)
    }

    /// Checks if the rank is just above the other rank.
    pub fn is_above(&self, other: &Rank) -> (r: bool)
        ensures
            r == (self.0 == other.0 + 1),
    {
        other.0 < u8::MAX && self.0 == other.0 + 1
    }

    /// Checks if the rank is just below the other rank.
    pub fn is_below(&self, other: &Rank) -> (r: bool)
        ensures
            r == (self.0 == other.0 - 1),
    {
        other.0 > 0 && self.0 == other.0 - 1
    }
}

} // verus!
