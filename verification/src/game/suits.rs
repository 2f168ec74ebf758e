//! The four suits and their two colours.

use vstd::prelude::*;

verus! {

/// Number of suits in a deck.
pub const NB_SUITS: usize = 4;

/// A suit. The declaration order is the suit ordering:
/// club < diamond < heart < spade.
#[derive(PartialEq, Eq, PartialOrd, Ord, Debug, Clone, Copy, Hash, Structural)]
pub enum Suit {
    Club,
    Diamond,
    Heart,
    Spade,
}

/// The colour of a suit.
#[derive(PartialEq, Eq, Debug, Clone, Copy, Structural)]
pub enum Color {
    Red,
    Black,
}

impl Suit {
    /// Position of the suit in the suit ordering, from 0 (club) to 3 (spade).
    pub open spec fn spec_order(self) -> int {
        match self {
            Suit::Club => 0,
            Suit::Diamond => 1,
            Suit::Heart => 2,
            Suit::Spade => 3,
        }
    }

    /// The colour of the suit: diamonds and hearts are red, clubs and spades black.
    pub open spec fn spec_color(self) -> Color {
        match self {
            Suit::Club => Color::Black,
            Suit::Diamond => Color::Red,
            Suit::Heart => Color::Red,
            Suit::Spade => Color::Black,
        }
    }

    /// The letter that stands for the suit in card descriptions.
    pub open spec fn spec_letter(self) -> char {
        match self {
            Suit::Club => 'c',
            Suit::Diamond => 'd',
            Suit::Heart => 'h',
            Suit::Spade => 's',
        }
    }

    /// The symbol printed for the suit.
    pub open spec fn spec_symbol(self) -> char {
        match self {
            Suit::Club => '\u{2663}',
            Suit::Diamond => '\u{2666}',
            Suit::Heart => '\u{2665}',
            Suit::Spade => '\u{2660}',
        }
    }

    /// Whether `item` is the letter of some suit.
    pub open spec fn is_letter(item: char) -> bool {
        item == 'c' || item == 'd' || item == 'h' || item == 's'
    }

    /// The suit whose letter is `item`, if there is one.
    pub fn from_letter(item: char) -> (r: Option<Suit>)
        ensures
            r is Some <==> Self::is_letter(item),
            r matches Some(s) ==> s.spec_letter() == item,
    {
        if item == 'c' {
            Some(Suit::Club)
        } else if item == 'd' {
            Some(Suit::Diamond)
        } else if item == 'h' {
            Some(Suit::Heart)
        } else if item == 's' {
            Some(Suit::Spade)
        } else {
            None
        }
    }

    /// The suit whose letter is `item`.
    pub fn from(item: char) -> (r: Suit)
        requires
            Self::is_letter(item),
        ensures
            r.spec_letter() == item,
    {
        if item == 'c' {
            Suit::Club
        } else if item == 'd' {
            Suit::Diamond
        } else if item == 'h' {
            Suit::Heart
        } else {
            Suit::Spade
        }
    }

    /// Returns the position of the suit in the suit ordering.
    pub fn order(&self) -> (r: u8)
        ensures
            r == self.spec_order(),
    {
        match self {
            Suit::Club => 0,
            Suit::Diamond => 1,
            Suit::Heart => 2,
            Suit::Spade => 3,
        }
    }

    /// Returns the symbol associated with the suit.
    pub fn symbol(&self) -> (r: char)
        ensures
            r == self.spec_symbol(),
    {
        match self {
            Suit::Club => '\u{2663}',
            Suit::Diamond => '\u{2666}',
            Suit::Heart => '\u{2665}',
            Suit::Spade => '\u{2660}',
        }
    }

    /// Returns the letter associated with the suit.
    pub fn letter(&self) -> (r: char)
        ensures
            r == self.spec_letter(),
    {
        match self {
            Suit::Club => 'c',
            Suit::Diamond => 'd',
            Suit::Heart => 'h',
            Suit::Spade => 's',
        }
    }

    /// Returns the colour of the suit.
    pub fn color(&self) -> (r: Color)
        ensures
            r == self.spec_color(),
    {
        match self {
            Suit::Club => Color::Black,
            Suit::Diamond => Color::Red,
            Suit::Heart => Color::Red,
            Suit::Spade => Color::Black,
        }
    }

    /// Returns the four suits in increasing order.
    pub fn into_iter() -> (r: [Suit; 4])
        ensures
            r@ == seq![Suit::Club, Suit::Diamond, Suit::Heart, Suit::Spade],
    {
        let suits = [Suit::Club, Suit::Diamond, Suit::Heart, Suit::Spade];
        assert(suits@ =~= seq![Suit::Club, Suit::Diamond, Suit::Heart, Suit::Spade]);
        suits
    }
}

/// The suit ordering tells the suits apart.
pub proof fn lemma_suit_order_injective(a: Suit, b: Suit)
    requires
        a.spec_order() == b.spec_order(),
    ensures
        a == b,
{
}

} // verus!
