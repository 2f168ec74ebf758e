//! Piles of cards and the rules that say which card may join or leave one.

use std::cmp::Ordering;
use vstd::prelude::*;

use super::cards::key_lt;
use super::cards::Card;
use super::keys::keys_of;
use super::keys::lemma_lex_first_difference;
use super::keys::lemma_lex_irreflexive;
use super::keys::lex_lt;
use super::keys::pile_lt;
use super::keys::PileKey;
use super::players::Player;
use super::ranks::Rank;
use super::suits::Suit;

verus! {

/// Number of cards dealt to each crape at the start of a game.
pub const NB_CRAPE_START: usize = 13;

/// The kind of a pile, with the slot or the player it belongs to.
#[derive(Debug, Clone, Copy, Hash, PartialEq, Eq, Structural)]
pub enum PileType {
    Foundation { id: u8, suit: Suit },
    Tableau { id: u8 },
    Stock { player: Player },
    Waste { player: Player },
    Crape { player: Player },
}

impl PileType {
    /// Whether the two kinds name the same pile of a board: the same variant,
    /// with the same player or the same slot. The suit of a foundation plays
    /// no part.
    pub open spec fn spec_is_same(self, other: PileType) -> bool {
        match (self, other) {
            (PileType::Crape { player: a }, PileType::Crape { player: b }) => a == b,
            (PileType::Waste { player: a }, PileType::Waste { player: b }) => a == b,
            (PileType::Stock { player: a }, PileType::Stock { player: b }) => a == b,
            (PileType::Foundation { id: id1, .. }, PileType::Foundation { id: id2, .. }) => id1
                == id2,
            (PileType::Tableau { id: id1 }, PileType::Tableau { id: id2 }) => id1 == id2,
            _ => false,
        }
    }

    /// Whether the two kinds are the same variant, whatever the player or slot.
    pub open spec fn same_variant(self, other: PileType) -> bool {
        match (self, other) {
            (PileType::Crape { .. }, PileType::Crape { .. }) => true,
            (PileType::Waste { .. }, PileType::Waste { .. }) => true,
            (PileType::Stock { .. }, PileType::Stock { .. }) => true,
            (PileType::Foundation { .. }, PileType::Foundation { .. }) => true,
            (PileType::Tableau { .. }, PileType::Tableau { .. }) => true,
            _ => false,
        }
    }

    /// Checks whether the two kinds name the same pile of a board.
    pub fn is_same(&self, other: &PileType) -> (r: bool)
        ensures
            r == self.spec_is_same(*other),
    {
        match (self, other) {
            (PileType::Crape { player: a }, PileType::Crape { player: b }) => *a == *b,
            (PileType::Waste { player: a }, PileType::Waste { player: b }) => *a == *b,
            (PileType::Stock { player: a }, PileType::Stock { player: b }) => *a == *b,
            (PileType::Foundation { id: id1, .. }, PileType::Foundation { id: id2, .. }) => *id1
                == *id2,
            (PileType::Tableau { id: id1 }, PileType::Tableau { id: id2 }) => *id1 == *id2,
            _ => false,
        }
    }

    /// Checks whether the two kinds are the same variant.
    pub fn is_same_variant(&self, other: &PileType) -> (r: bool)
        ensures
            r == self.same_variant(*other),
    {
        match (self, other) {
            (PileType::Crape { .. }, PileType::Crape { .. }) => true,
            (PileType::Waste { .. }, PileType::Waste { .. }) => true,
            (PileType::Stock { .. }, PileType::Stock { .. }) => true,
            (PileType::Foundation { .. }, PileType::Foundation { .. }) => true,
            (PileType::Tableau { .. }, PileType::Tableau { .. }) => true,
            _ => false,
        }
    }
}

/// What a pile is to the rules: its cards from the bottom to the top, and its kind.
pub struct PileView {
    pub cards: Seq<Card>,
    pub kind: PileType,
}

impl PileView {
    /// The keys of the cards, from the bottom up.
    pub open spec fn key(self) -> PileKey {
        keys_of(self.cards)
    }

    /// The card on top, if the pile is not empty.
    pub open spec fn top(self) -> Option<Card> {
        if self.cards.len() > 0 {
            Some(self.cards.last())
        } else {
            None
        }
    }

    /// The invariant of a pile: every card has a valid rank, and a foundation
    /// holds the cards of its suit from the ace up, without a gap.
    pub open spec fn wf(self) -> bool {
        &&& forall|i: int| 0 <= i < self.cards.len() ==> (#[trigger] self.cards[i]).wf()
        &&& self.kind matches PileType::Foundation { suit, .. } ==> forall|i: int|
            0 <= i < self.cards.len() ==> {
                &&& (#[trigger] self.cards[i]).suit == suit
                &&& self.cards[i].rank.0 == i + 1
            }
    }

    /// Whether `card`, taken from a pile of kind `origin`, may be put on this
    /// pile by `player`.
    pub open spec fn can_add_card(self, card: Card, origin: PileType, player: Player) -> bool {
        match self.kind {
            PileType::Foundation { suit, .. } => card.suit == suit && card.rank.0
                == self.cards.len() + 1,
            PileType::Tableau { .. } => match self.top() {
                None => true,
                Some(top) => card.rank.0 == top.rank.0 - 1 && !card.spec_is_same_color(top),
            },
            PileType::Stock { .. } => false,
            PileType::Waste { player: owner } => if owner == player {
                origin == (PileType::Stock { player })
            } else {
                match self.top() {
                    None => false,
                    Some(top) => card.suit == top.suit && card.spec_is_above_or_below(top),
                }
            },
            PileType::Crape { player: owner } => owner != player && match self.top() {
                None => false,
                Some(top) => top.face_up && card.suit == top.suit && card.spec_is_above_or_below(
                    top,
                ),
            },
        }
    }

    /// Whether `player` may take the top card of this pile.
    pub open spec fn can_pop_card(self, player: Player) -> bool {
        match self.kind {
            PileType::Foundation { .. } | PileType::Waste { .. } => false,
            PileType::Tableau { .. } => true,
            PileType::Stock { player: owner } | PileType::Crape { player: owner } => player
                == owner,
        }
    }

    /// Whether `player` may turn the top card of this pile face up.
    pub open spec fn can_flip_card_up(self, player: Player) -> bool {
        match self.kind {
            PileType::Stock { player: owner } | PileType::Crape { player: owner } => player
                == owner && self.cards.len() > 0 && !self.cards.last().face_up,
            _ => false,
        }
    }

    /// Whether the pile can take no more cards: a foundation or a tableau pile
    /// that holds a whole suit's worth of cards.
    pub open spec fn is_full(self) -> bool {
        match self.kind {
            PileType::Foundation { .. } | PileType::Tableau { .. } => self.cards.len() == 13,
            _ => false,
        }
    }

    /// The pile with `card` put on top.
    pub open spec fn push(self, card: Card) -> PileView {
        PileView { cards: self.cards.push(card), kind: self.kind }
    }

    /// The pile without its top card.
    pub open spec fn drop_top(self) -> PileView {
        PileView { cards: self.cards.drop_last(), kind: self.kind }
    }

    /// The pile with its top card turned face up.
    pub open spec fn flip_top(self) -> PileView {
        if self.cards.len() > 0 {
            PileView {
                cards: self.cards.update(self.cards.len() - 1, self.cards.last().facing(true)),
                kind: self.kind,
            }
        } else {
            self
        }
    }
}

/// A pile of cards, from the bottom (first) to the top (last).
#[derive(Debug)]
pub struct Pile {
    pub cards: Vec<Card>,
    pub kind: PileType,
}

impl View for Pile {
    type V = PileView;

    open spec fn view(&self) -> PileView {
        PileView { cards: self.cards@, kind: self.kind }
    }
}

/// Index of the first card at which two piles of one size differ, or their
/// size if they hold the same cards.
fn first_difference(a: &Vec<Card>, b: &Vec<Card>) -> (r: usize)
    requires
        a.len() == b.len(),
    ensures
        r <= a.len(),
        r == a.len() <==> keys_of(a@) == keys_of(b@),
        r < a.len() ==> {
            &&& a@[r as int].key() != b@[r as int].key()
            &&& lex_lt(keys_of(a@), keys_of(b@)) == key_lt(a@[r as int].key(), b@[r as int].key())
            &&& lex_lt(keys_of(b@), keys_of(a@)) == key_lt(b@[r as int].key(), a@[r as int].key())
        },
{
    let mut i: usize = 0;
    while i < a.len()
        invariant
            i <= a.len(),
            a.len() == b.len(),
            forall|j: int| 0 <= j < i ==> a@[j].key() == b@[j].key(),
        decreases a.len() - i,
    {
        if !(a[i] == b[i]) {
            proof {
                let ka = keys_of(a@);
                let kb = keys_of(b@);
                assert(ka[i as int] != kb[i as int]);
                lemma_lex_first_difference(ka, kb, i as int);
                lemma_lex_first_difference(kb, ka, i as int);
            }
            return i;
        }
        i += 1;
    }
    assert(keys_of(a@) =~= keys_of(b@));
    i
}

impl Pile {
    /// Creates the empty foundation pile of a slot and a suit.
    pub fn new_foundation(foundation_id: u8, foundation_suit: Suit) -> (r: Self)
        ensures
            r@.cards == Seq::<Card>::empty(),
            r.kind == (PileType::Foundation { id: foundation_id, suit: foundation_suit }),
    {
        Pile {
            cards: Vec::new(),
            kind: PileType::Foundation { id: foundation_id, suit: foundation_suit },
        }
    }

    /// Creates the empty tableau pile of a slot.
    pub fn new_tableau(tableau_id: u8) -> (r: Self)
        ensures
            r@.cards == Seq::<Card>::empty(),
            r.kind == (PileType::Tableau { id: tableau_id }),
    {
        Pile { cards: Vec::new(), kind: PileType::Tableau { id: tableau_id } }
    }

    /// Creates the empty stock of a player.
    pub fn new_stock(player: Player) -> (r: Self)
        ensures
            r@.cards == Seq::<Card>::empty(),
            r.kind == (PileType::Stock { player }),
    {
        Pile { cards: Vec::new(), kind: PileType::Stock { player } }
    }

    /// Creates the empty waste of a player.
    pub fn new_waste(player: Player) -> (r: Self)
        ensures
            r@.cards == Seq::<Card>::empty(),
            r.kind == (PileType::Waste { player }),
    {
        Pile { cards: Vec::new(), kind: PileType::Waste { player } }
    }

    /// Creates the empty crape of a player.
    pub fn new_crape(player: Player) -> (r: Self)
        ensures
            r@.cards == Seq::<Card>::empty(),
            r.kind == (PileType::Crape { player }),
    {
        Pile { cards: Vec::new(), kind: PileType::Crape { player } }
    }

    /// Checks whether `card`, taken from a pile of kind `origin`, may be put
    /// on this pile by `player`.
    pub fn can_add_card(&self, card: &Card, origin: &PileType, player: &Player) -> (r: bool)
        ensures
            r == self@.can_add_card(*card, *origin, *player),
    {
        match &self.kind {
            PileType::Foundation { suit: foundation_suit, .. } => {
                let n: usize = self.nb_cards();
                *card.suit() == *foundation_suit && card.rank.0 >= 1 && (card.rank.0 - 1) as usize
                    == n
            },
            PileType::Tableau { .. } => match self.top_card() {
                None => true,
                Some(top_card) => card.rank().is_below(top_card.rank()) && !card.is_same_color(
                    top_card,
                ),
            },
            PileType::Stock { .. } => false,
            PileType::Waste { player: self_player } => {
                if *self_player == *player {
                    match origin {
                        PileType::Stock { player: origin_player } => *origin_player == *player,
                        _ => false,
                    }
                } else {
                    match self.top_card() {
                        None => false,
                        Some(top_card) => *card.suit() == *top_card.suit()
                            && card.is_above_or_below(top_card),
                    }
                }
            },
            PileType::Crape { player: self_player } => {
                *self_player != *player && match self.top_card() {
                    None => false,
                    Some(top_card) => top_card.face_up && *card.suit() == *top_card.suit()
                        && card.is_above_or_below(top_card),
                }
            },
        }
    }

    /// Checks whether `player` may take the top card of this pile.
    pub fn can_pop_card(&self, player: &Player) -> (r: bool)
        ensures
            r == self@.can_pop_card(*player),
    {
        match &self.kind {
            PileType::Foundation { .. } | PileType::Waste { .. } => false,
            PileType::Tableau { .. } => true,
            PileType::Stock { player: self_player } => *player == *self_player,
            PileType::Crape { player: self_player } => *player == *self_player,
        }
    }

    /// Checks whether `player` may turn the top card of this pile face up.
    pub fn can_flip_card_up(&self, player: &Player) -> (r: bool)
        ensures
            r == self@.can_flip_card_up(*player),
    {
        let owned = match &self.kind {
            PileType::Stock { player: self_player } => *player == *self_player,
            PileType::Crape { player: self_player } => *player == *self_player,
            _ => false,
        };
        if owned {
            match self.top_card() {
                Some(card) => !card.face_up,
                None => false,
            }
        } else {
            false
        }
    }

    /// Puts `card` on top of the pile.
    pub fn add(&mut self, card: Card)
        ensures
            final(self)@ == old(self)@.push(card),
    {
        self.cards.push(card);
    }

    /// Takes the top card off the pile, if there is one.
    pub fn pop(&mut self) -> (r: Option<Card>)
        ensures
            r == old(self)@.top(),
            r is Some ==> final(self)@ == old(self)@.drop_top(),
            r is None ==> final(self)@ == old(self)@,
    {
        self.cards.pop()
    }

    /// Replaces the cards of the pile by `cards`.
    pub fn set(&mut self, cards: Vec<Card>)
        ensures
            final(self)@ == (PileView { cards: cards@, kind: old(self).kind }),
    {
        self.cards = cards;
    }

    /// Removes every card of the pile.
    pub fn clear(&mut self)
        ensures
            final(self)@ == (PileView { cards: Seq::<Card>::empty(), kind: old(self).kind }),
    {
        self.cards.clear();
    }

    /// Checks whether the pile holds no card.
    pub fn is_empty(&self) -> (r: bool)
        ensures
            r == (self@.cards.len() == 0),
    {
        self.cards.len() == 0
    }

    /// Checks whether the pile can take no more cards.
    pub fn is_full(&self) -> (r: bool)
        ensures
            r == self@.is_full(),
    {
        match self.kind {
            PileType::Foundation { .. } | PileType::Tableau { .. } => self.nb_cards() == 13,
            _ => false,
        }
    }

    /// Checks whether the two piles are the same pile of a board.
    pub fn is_same(&self, other: &Pile) -> (r: bool)
        ensures
            r == self.kind.spec_is_same(other.kind),
    {
        self.kind.is_same(&other.kind)
    }

    /// Returns the number of cards in the pile.
    pub fn nb_cards(&self) -> (r: usize)
        ensures
            r == self@.cards.len(),
    {
        self.cards.len()
    }

    /// Returns the card on top of the pile, if there is one.
    pub fn top_card(&self) -> (r: Option<&Card>)
        ensures
            r is Some == self@.top() is Some,
            r matches Some(c) ==> Some(*c) == self@.top(),
    {
        let n: usize = self.cards.len();
        if n > 0 {
            Some(&self.cards[n - 1])
        } else {
            None
        }
    }

    /// Returns the rank of the card on top of the pile, if there is one.
    pub fn top_rank(&self) -> (r: Option<&Rank>)
        ensures
            r is Some == self@.top() is Some,
            r matches Some(rank) ==> *rank == self@.top()->0.rank,
    {
        match self.top_card() {
            Some(card) => Some(card.rank()),
            None => None,
        }
    }

    /// Turns the top card of the pile face up, if there is one.
    pub fn flip_top_up(&mut self)
        ensures
            final(self)@ == old(self)@.flip_top(),
    {
        let n: usize = self.cards.len();
        if n > 0 {
            let mut card = self.cards[n - 1];
            card.set_face_up();
            self.cards.set(n - 1, card);
        }
    }

    /// Checks whether the two piles hold the same cards, by rank and suit.
    pub fn eq(&self, other: &Pile) -> (r: bool)
        requires
            self.kind.same_variant(other.kind),
        ensures
            r == (self@.key() == other@.key()),
    {
        if self.cards.len() != other.cards.len() {
            assert(self@.key().len() != other@.key().len());
            return false;
        }
        let k: usize = first_difference(&self.cards, &other.cards);
        k == self.cards.len()
    }

    /// Checks whether this pile comes strictly after `other` in the order of
    /// piles.
    pub fn comes_after(&self, other: &Pile) -> (r: bool)
        requires
            self.kind.same_variant(other.kind),
        ensures
            r == pile_lt(other@.key(), self@.key()),
    {
        if self.cards.len() != other.cards.len() {
            return self.cards.len() > other.cards.len();
        }
        let k: usize = first_difference(&self.cards, &other.cards);
        if k == self.cards.len() {
            proof {
                lemma_lex_irreflexive(self@.key());
            }
            false
        } else {
            other.cards[k].is_before(&self.cards[k])
        }
    }

    /// Compares the two piles: first by the number of cards, then card by
    /// card from the bottom up.
    pub fn cmp(&self, other: &Pile) -> (r: Ordering)
        requires
            self.kind.same_variant(other.kind),
        ensures
            r == pile_order_of(self@.key(), other@.key()),
    {
        if self.cards.len() < other.cards.len() {
            return Ordering::Less;
        }
        if self.cards.len() > other.cards.len() {
            return Ordering::Greater;
        }
        let k: usize = first_difference(&self.cards, &other.cards);
        if k == self.cards.len() {
            proof {
                lemma_lex_irreflexive(self@.key());
            }
            Ordering::Equal
        } else if self.cards[k].is_before(&other.cards[k]) {
            Ordering::Less
        } else {
            Ordering::Greater
        }
    }

    /// Compares the two piles, which compare only when they are of one kind.
    pub fn partial_cmp(&self, other: &Pile) -> (r: Option<Ordering>)
        ensures
            r is Some <==> self.kind.same_variant(other.kind),
            r matches Some(o) ==> o == pile_order_of(self@.key(), other@.key()),
    {
        if !self.kind.is_same_variant(&other.kind) {
            return None;
        }
        Some(self.cmp(other))
    }

    /// Returns the card on top of the pile for the caller to change, if there
    /// is one.
    pub fn top_card_mut(&mut self) -> (r: Option<&mut Card>)
        ensures
            r is Some == old(self)@.top() is Some,
            r matches Some(c) ==> {
                &&& Some(*c) == old(self)@.top()
                &&& final(self)@ == (PileView {
                    cards: old(self)@.cards.update(old(self)@.cards.len() - 1, *final(c)),
                    kind: old(self).kind,
                })
            },
            r is None ==> final(self)@ == old(self)@,
    {
        let n: usize = self.cards.len();
        if n > 0 {
            Some(&mut self.cards[n - 1])
        } else {
            None
        }
    }
}

impl Clone for Pile {
    fn clone(&self) -> (r: Self)
        ensures
            r@ == self@,
    {
        let cards = self.cards.clone();
        assert(cards@ =~= self.cards@);
        Pile { cards, kind: self.kind }
    }
}

/// How the keys of two piles compare: `Less` when `a` comes strictly first,
/// `Greater` when `b` does, `Equal` when they hold the same.
pub open spec fn pile_order_of(a: PileKey, b: PileKey) -> Ordering {
    if pile_lt(a, b) {
        Ordering::Less
    } else if pile_lt(b, a) {
        Ordering::Greater
    } else {
        Ordering::Equal
    }
}

} // verus!
