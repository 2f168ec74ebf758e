//! Playing cards.
//!
//! Two cards are the same card when they have the same rank and suit: the
//! owner and the side that faces up play no part in equality and ordering.

use std::cmp::Ordering;
use vstd::prelude::*;
use vstd::std_specs::cmp::PartialEqSpecImpl;
use vstd::std_specs::cmp::PartialOrdSpecImpl;

use super::players::Player;
use super::ranks::Rank;
use super::suits::Color;
use super::suits::Suit;

verus! {

/// A card of one of the two decks.
#[derive(Debug, Clone, Copy)]
pub struct Card {
    pub rank: Rank,
    pub suit: Suit,
    pub player: Player,
    pub face_up: bool,
}

/// The number that stands for a rank and a suit in the compact encoding of a
/// board: the rank in the low four bits, the suit in the two bits above.
pub open spec fn spec_rank_suit_to_id(rank: Rank, suit: Suit) -> u8 {
    (rank.0 & 0x0F) | (((suit.spec_order() as u8) & 0x03) << 4)
}

/// Computes the number that stands for a rank and a suit in the compact
/// encoding of a board. The owner and the facing are not taken into account.
pub fn rank_suit_to_id(rank: &Rank, suit: &Suit) -> (r: u8)
    ensures
        r == spec_rank_suit_to_id(*rank, *suit),
        rank.wf() ==> r == rank.0 + 16 * suit.spec_order(),
{
    let low: u8 = rank.as_u8();
    let high: u8 = suit.order();
    assert(low <= 13 && high <= 3 ==> ((low & 0x0F) | ((high & 0x03) << 4)) == low + 16 * high)
        by (bit_vector);
    (low & 0x0F) | ((high & 0x03) << 4)
}

impl Card {
    /// The rank and the suit as a pair of integers, which is all that
    /// equality and ordering look at.
    pub open spec fn key(self) -> (int, int) {
        (self.rank.0 as int, self.suit.spec_order())
    }

    /// A card is valid when its rank is.
    pub open spec fn wf(self) -> bool {
        self.rank.wf()
    }

    /// The number of the card in the compact encoding of a board.
    pub open spec fn spec_id(self) -> u8 {
        spec_rank_suit_to_id(self.rank, self.suit)
    }

    /// Whether the two cards have the same colour.
    pub open spec fn spec_is_same_color(self, other: Card) -> bool {
        self.suit.spec_color() == other.suit.spec_color()
    }

    /// Whether the rank of this card is next to the rank of `other`.
    pub open spec fn spec_is_above_or_below(self, other: Card) -> bool {
        self.rank.spec_is_above_or_below(other.rank)
    }

    /// The same card with the given side up.
    pub open spec fn facing(self, face_up: bool) -> Card {
        Card { rank: self.rank, suit: self.suit, player: self.player, face_up }
    }

    /// Creates a card that faces down.
    pub fn new(rank: Rank, suit: Suit, player: Player) -> (r: Self)
        ensures
            r == (Card { rank, suit, player, face_up: false }),
    {
        Card { rank, suit, player, face_up: false }
    }

    /// Creates a card that faces up.
    pub fn new_up(rank: Rank, suit: Suit, player: Player) -> (r: Self)
        ensures
            r == (Card { rank, suit, player, face_up: true }),
    {
        Card { rank, suit, player, face_up: true }
    }

    /// Returns the rank of the card.
    pub fn rank(&self) -> (r: &Rank)
        ensures
            *r == self.rank,
    {
        &self.rank
    }

    /// Returns the suit of the card.
    pub fn suit(&self) -> (r: &Suit)
        ensures
            *r == self.suit,
    {
        &self.suit
    }

    /// Returns the owner of the card.
    pub fn player(&self) -> (r: &Player)
        ensures
            *r == self.player,
    {
        &self.player
    }

    /// Returns the number of the card in the compact encoding of a board.
    pub fn id(&self) -> (r: u8)
        ensures
            r == self.spec_id(),
            self.wf() ==> r == self.rank.0 + 16 * self.suit.spec_order(),
    {
        rank_suit_to_id(&self.rank, &self.suit)
    }

    /// Turns the card face up.
    pub fn set_face_up(&mut self)
        ensures
            *final(self) == old(self).facing(true),
    {
        self.face_up = true;
    }

    /// Turns the card face down.
    pub fn set_face_down(&mut self)
        ensures
            *final(self) == old(self).facing(false),
    {
        self.face_up = false;
    }

    /// Returns the symbol associated with the suit of the card.
    pub fn suit_symbol(&self) -> (r: char)
        ensures
            r == self.suit.spec_symbol(),
    {
        self.suit.symbol()
    }

    /// Returns the colour of the card.
    pub fn color(&self) -> (r: Color)
        ensures
            r == self.suit.spec_color(),
    {
        self.suit.color()
    }

    /// Checks if the colour is the same as the other card's.
    pub fn is_same_color(&self, other: &Card) -> (r: bool)
        ensures
            r == self.spec_is_same_color(*other),
    {
        self.suit.color() == other.suit.color()
    }

    /// Checks whether this card comes strictly before `other`: by rank
    /// first, then by suit.
    pub fn is_before(&self, other: &Card) -> (r: bool)
        ensures
            r == key_lt(self.key(), other.key()),
    {
        self.rank.0 < other.rank.0 || (self.rank.0 == other.rank.0 && self.suit.order()
            < other.suit.order())
    }

    /// Checks if the rank is just above or just below the other card's rank.
    pub fn is_above_or_below(&self, other: &Card) -> (r: bool)
        ensures
            r == self.spec_is_above_or_below(*other),
    {
        self.rank.is_above_or_below(&other.rank)
    }
}

/// Whether the key `a` comes strictly before the key `b`: by rank first,
/// then by suit.
pub open spec fn key_lt(a: (int, int), b: (int, int)) -> bool {
    a.0 < b.0 || (a.0 == b.0 && a.1 < b.1)
}

impl PartialEq for Card {
    fn eq(&self, other: &Self) -> (r: bool) {
        self.rank.0 == other.rank.0 && self.suit.order() == other.suit.order()
    }
}

impl Eq for Card {

}

impl PartialEqSpecImpl for Card {
    open spec fn obeys_eq_spec() -> bool {
        true
    }

    open spec fn eq_spec(&self, other: &Self) -> bool {
        self.key() == other.key()
    }
}

impl PartialOrd for Card {
    fn partial_cmp(&self, other: &Self) -> (r: Option<Ordering>) {
        if self.rank.0 < other.rank.0 {
            Some(Ordering::Less)
        } else if self.rank.0 > other.rank.0 {
            Some(Ordering::Greater)
        } else if self.suit.order() < other.suit.order() {
            Some(Ordering::Less)
        } else if self.suit.order() > other.suit.order() {
            Some(Ordering::Greater)
        } else {
            Some(Ordering::Equal)
        }
    }
}

impl PartialOrdSpecImpl for Card {
    open spec fn obeys_partial_cmp_spec() -> bool {
        true
    }

    open spec fn partial_cmp_spec(&self, other: &Self) -> Option<Ordering> {
        if key_lt(self.key(), other.key()) {
            Some(Ordering::Less)
        } else if key_lt(other.key(), self.key()) {
            Some(Ordering::Greater)
        } else {
            Some(Ordering::Equal)
        }
    }
}

} // verus!
