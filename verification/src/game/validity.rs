//! Checking that a board handed in from outside meets its invariant.

use vstd::prelude::*;

use super::board::foundation_suit;
use super::board::player_of;
use super::board::Board;
use super::board::NB_CARDS_BOARD;
use super::piles::Pile;
use super::piles::PileType;
use super::players::Player;
use super::suits::Suit;

verus! {

/// Returns the suit of the foundation pile of slot `slot`.
pub fn suit_of_slot(slot: usize) -> (r: Suit)
    requires
        slot < 8,
    ensures
        r == foundation_suit(slot as int),
{
    if slot == 0 || slot == 7 {
        Suit::Diamond
    } else if slot == 1 || slot == 6 {
        Suit::Club
    } else if slot == 2 || slot == 5 {
        Suit::Heart
    } else {
        Suit::Spade
    }
}

/// Returns the player whose piles stand in slot `slot`.
fn player_of_slot(slot: usize) -> (r: Player)
    requires
        slot < 2,
    ensures
        r == player_of(slot as int),
{
    if slot == 0 {
        Player::Player0
    } else {
        Player::Player1
    }
}

impl Pile {
    /// Checks whether the pile meets its invariant: every card has a valid
    /// rank, and a foundation holds the cards of its suit from the ace up.
    pub fn is_valid(&self) -> (r: bool)
        ensures
            r == self@.wf(),
    {
        let n: usize = self.cards.len();
        let mut i: usize = 0;
        while i < n
            invariant
                i <= n,
                n == self@.cards.len(),
                forall|j: int| 0 <= j < i ==> (#[trigger] self@.cards[j]).wf(),
                self.kind matches PileType::Foundation { suit, .. } ==> forall|j: int|
                    0 <= j < i ==> {
                        &&& (#[trigger] self@.cards[j]).suit == suit
                        &&& self@.cards[j].rank.0 == j + 1
                    },
            decreases n - i,
        {
            let card = &self.cards[i];
            if card.rank.0 < 1 || card.rank.0 > 13 {
                assert(!self@.cards[i as int].wf());
                return false;
            }
            match self.kind {
                PileType::Foundation { suit, .. } => {
                    if card.suit != suit || card.rank.0 as usize != i + 1 {
                        assert(!(self@.cards[i as int].suit == suit && self@.cards[i as int].rank.0
                            == i + 1));
                        return false;
                    }
                },
                _ => {},
            }
            i += 1;
        }
        true
    }
}

/// Checks whether the two piles of a row are valid piles of the kinds
/// `first` and `second`; returns the number of their cards if they are.
fn check_pair(row: &[Pile; 2], first: PileType, second: PileType) -> (r: Option<usize>)
    ensures
        r is Some <==> {
            &&& row@[0].kind == first
            &&& row@[1].kind == second
            &&& row@[0]@.wf()
            &&& row@[1]@.wf()
            &&& row@[0]@.cards.len() + row@[1]@.cards.len() <= NB_CARDS_BOARD
        },
        r matches Some(n) ==> n == row@[0]@.cards.len() + row@[1]@.cards.len(),
{
    if row[0].kind != first || row[1].kind != second {
        return None;
    }
    if !row[0].is_valid() || !row[1].is_valid() {
        return None;
    }
    let a: usize = row[0].nb_cards();
    let b: usize = row[1].nb_cards();
    if a > NB_CARDS_BOARD || b > NB_CARDS_BOARD || a + b > NB_CARDS_BOARD {
        return None;
    }
    Some(a + b)
}

/// Number of cards in the first `n` piles of a row.
pub open spec fn nb_cards_upto(row: Seq<Pile>, n: int) -> int
    decreases n,
{
    if n <= 0 {
        0
    } else {
        nb_cards_upto(row, n - 1) + row[n - 1]@.cards.len()
    }
}

/// Checks whether the eight piles of a row are valid foundation piles, if
/// `foundation` is set, or valid tableau piles, if it is not; returns the
/// number of their cards if they are.
fn check_center(row: &[Pile; 8], foundation: bool) -> (r: Option<usize>)
    ensures
        r is Some <==> {
            &&& forall|i: int|
                0 <= i < 8 ==> (#[trigger] row@[i]).kind == if foundation {
                    PileType::Foundation { id: i as u8, suit: foundation_suit(i) }
                } else {
                    PileType::Tableau { id: i as u8 }
                }
            &&& forall|i: int| 0 <= i < 8 ==> (#[trigger] row@[i])@.wf()
            &&& nb_cards_upto(row@, 8) <= NB_CARDS_BOARD
        },
        r matches Some(n) ==> n == nb_cards_upto(row@, 8),
{
    let mut total: usize = 0;
    let mut i: usize = 0;
    while i < 8
        invariant
            i <= 8,
            total == nb_cards_upto(row@, i as int),
            total <= NB_CARDS_BOARD,
            forall|j: int|
                0 <= j < i ==> (#[trigger] row@[j]).kind == if foundation {
                    PileType::Foundation { id: j as u8, suit: foundation_suit(j) }
                } else {
                    PileType::Tableau { id: j as u8 }
                },
            forall|j: int| 0 <= j < i ==> (#[trigger] row@[j])@.wf(),
        decreases 8 - i,
    {
        let expected = if foundation {
            PileType::Foundation { id: i as u8, suit: suit_of_slot(i) }
        } else {
            PileType::Tableau { id: i as u8 }
        };
        if row[i].kind != expected {
            return None;
        }
        if !row[i].is_valid() {
            return None;
        }
        let n: usize = row[i].nb_cards();
        if n > NB_CARDS_BOARD || total + n > NB_CARDS_BOARD {
            proof {
                lemma_nb_cards_upto_grows(row@, i + 1, 8);
            }
            return None;
        }
        total = total + n;
        i += 1;
    }
    Some(total)
}

/// The number of cards in the first piles of a row does not go down with
/// the number of piles.
proof fn lemma_nb_cards_upto_grows(row: Seq<Pile>, n: int, m: int)
    requires
        n <= m,
    ensures
        nb_cards_upto(row, n) <= nb_cards_upto(row, m),
    decreases m - n,
{
    if n < m {
        lemma_nb_cards_upto_grows(row, n, m - 1);
    }
}

/// The number of cards in the eight piles of a row, pile by pile.
proof fn lemma_nb_cards_upto_eight(row: Seq<Pile>)
    ensures
        nb_cards_upto(row, 8) == row[0]@.cards.len() + row[1]@.cards.len() + row[2]@.cards.len()
            + row[3]@.cards.len() + row[4]@.cards.len() + row[5]@.cards.len()
            + row[6]@.cards.len() + row[7]@.cards.len(),
{
    reveal_with_fuel(nb_cards_upto, 9);
}

impl Board {
    /// Checks whether the board meets its invariant: each pile is of the
    /// kind of its slot and meets the invariant of its kind, and the board
    /// holds no more cards than two decks.
    pub fn is_valid(&self) -> (r: bool)
        ensures
            r == self@.wf(),
    {
        proof {
            lemma_nb_cards_upto_eight(self.foundation@);
            lemma_nb_cards_upto_eight(self.tableau@);
            assert forall|i: int| 0 <= i < 8 implies (#[trigger] self@.foundation[i])
                == self.foundation@[i]@ by {}
            assert forall|i: int| 0 <= i < 8 implies (#[trigger] self@.tableau[i])
                == self.tableau@[i]@ by {}
            assert forall|i: int| 0 <= i < 2 implies (#[trigger] self@.stock[i])
                == self.stock@[i]@ by {}
            assert forall|i: int| 0 <= i < 2 implies (#[trigger] self@.waste[i])
                == self.waste@[i]@ by {}
            assert forall|i: int| 0 <= i < 2 implies (#[trigger] self@.crape[i])
                == self.crape@[i]@ by {}
            assert(self@.foundation[0] == self.foundation@[0]@);
            assert(self@.tableau[0] == self.tableau@[0]@);
            assert(self@.stock[0] == self.stock@[0]@);
            assert(self@.stock[1] == self.stock@[1]@);
            assert(self@.waste[0] == self.waste@[0]@);
            assert(self@.waste[1] == self.waste@[1]@);
            assert(self@.crape[0] == self.crape@[0]@);
            assert(self@.crape[1] == self.crape@[1]@);
        }
        let first = player_of_slot(0);
        let second = player_of_slot(1);
        let stock = check_pair(
            &self.stock,
            PileType::Stock { player: first },
            PileType::Stock { player: second },
        );
        let waste = check_pair(
            &self.waste,
            PileType::Waste { player: first },
            PileType::Waste { player: second },
        );
        let crape = check_pair(
            &self.crape,
            PileType::Crape { player: first },
            PileType::Crape { player: second },
        );
        let foundation = check_center(&self.foundation, true);
        let tableau = check_center(&self.tableau, false);
        match (stock, waste, crape, foundation, tableau) {
            (Some(a), Some(b), Some(c), Some(d), Some(e)) => a + b + c + d + e <= NB_CARDS_BOARD,
            _ => false,
        }
    }
}

impl Pile {
    /// Checks whether the pile can be written out: each of its cards has a
    /// valid rank, and a tableau pile is named by a slot from 0 to 7.
    pub fn can_show(&self) -> (r: bool)
        ensures
            r == self@.shows(),
    {
        match self.kind {
            PileType::Tableau { id } => {
                if id >= 8 {
                    return false;
                }
            },
            _ => {},
        }
        let n: usize = self.cards.len();
        let mut i: usize = 0;
        while i < n
            invariant
                i <= n,
                n == self@.cards.len(),
                forall|j: int| 0 <= j < i ==> (#[trigger] self@.cards[j]).wf(),
            decreases n - i,
        {
            let card = &self.cards[i];
            if card.rank.0 < 1 || card.rank.0 > 13 {
                assert(!self@.cards[i as int].wf());
                return false;
            }
            i += 1;
        }
        true
    }
}

/// Checks whether the two piles of a row can be written out.
fn pair_can_show(row: &[Pile; 2]) -> (r: bool)
    ensures
        r == (row@[0]@.shows() && row@[1]@.shows()),
{
    row[0].can_show() && row[1].can_show()
}

/// Checks whether the eight piles of a row can be written out.
fn center_can_show(row: &[Pile; 8]) -> (r: bool)
    ensures
        r == (forall|i: int| 0 <= i < 8 ==> (#[trigger] row@[i])@.shows()),
{
    let mut i: usize = 0;
    while i < 8
        invariant
            i <= 8,
            forall|j: int| 0 <= j < i ==> (#[trigger] row@[j])@.shows(),
        decreases 8 - i,
    {
        if !row[i].can_show() {
            return false;
        }
        i += 1;
    }
    true
}

impl Board {
    /// Checks whether the board can be written out: each of its piles can,
    /// and no tableau pile of the left side holds more cards than a suit has
    /// ranks.
    pub fn can_show(&self) -> (r: bool)
        ensures
            r == self@.shows(),
    {
        proof {
            assert forall|i: int| 0 <= i < 8 implies (#[trigger] self@.foundation[i])
                == self.foundation@[i]@ by {}
            assert forall|i: int| 0 <= i < 8 implies (#[trigger] self@.tableau[i])
                == self.tableau@[i]@ by {}
            assert(self@.stock[0] == self.stock@[0]@);
            assert(self@.stock[1] == self.stock@[1]@);
            assert(self@.waste[0] == self.waste@[0]@);
            assert(self@.waste[1] == self.waste@[1]@);
            assert(self@.crape[0] == self.crape@[0]@);
            assert(self@.crape[1] == self.crape@[1]@);
            assert(self@.foundation[0] == self.foundation@[0]@);
            assert(self@.tableau[4] == self.tableau@[4]@);
            assert(self@.tableau[5] == self.tableau@[5]@);
            assert(self@.tableau[6] == self.tableau@[6]@);
            assert(self@.tableau[7] == self.tableau@[7]@);
        }
        let stock = pair_can_show(&self.stock);
        let waste = pair_can_show(&self.waste);
        let crape = pair_can_show(&self.crape);
        let foundation = center_can_show(&self.foundation);
        let tableau = center_can_show(&self.tableau);
        let left = self.tableau[4].nb_cards() <= 13 && self.tableau[5].nb_cards() <= 13
            && self.tableau[6].nb_cards() <= 13 && self.tableau[7].nb_cards() <= 13;
        proof {
            if foundation {
                assert forall|i: int| 0 <= i < 8 implies (#[trigger] self@.foundation[i]).shows() by {
                    assert(self.foundation@[i]@.shows());
                }
            } else {
                let i = choose|i: int| 0 <= i < 8 && !(#[trigger] self.foundation@[i])@.shows();
                assert(!self@.foundation[i].shows());
            }
            if tableau {
                assert forall|i: int| 0 <= i < 8 implies (#[trigger] self@.tableau[i]).shows() by {
                    assert(self.tableau@[i]@.shows());
                }
            } else {
                let i = choose|i: int| 0 <= i < 8 && !(#[trigger] self.tableau@[i])@.shows();
                assert(!self@.tableau[i].shows());
            }
        }
        stock && waste && crape && foundation && tableau && left
    }
}

} // verus!
