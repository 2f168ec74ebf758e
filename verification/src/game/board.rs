//! The board of a game: the piles of both players and of the centre, and the
//! actions that change them.

use vstd::prelude::*;

use super::cards::Card;
use super::moves::CardAction;
use super::piles::Pile;
use super::piles::PileType;
use super::piles::PileView;
use super::players::Player;
use super::suits::Suit;

verus! {

/// Number of foundation piles, and of tableau piles.
pub const NB_PILES_CENTER: usize = 8;

/// Number of tableau piles on each side of the board.
pub const NB_ROWS: usize = 4;

/// Number of cards of the two decks of a game.
pub const NB_CARDS_BOARD: usize = 104;

/// The suit of the foundation pile of slot `slot`: the suits run
/// diamond, club, heart, spade from slot 0 and back again to slot 7.
pub open spec fn foundation_suit(slot: int) -> Suit {
    if slot == 0 || slot == 7 {
        Suit::Diamond
    } else if slot == 1 || slot == 6 {
        Suit::Club
    } else if slot == 2 || slot == 5 {
        Suit::Heart
    } else {
        Suit::Spade
    }
}

/// The player whose piles stand in slot `slot` of the per-player arrays.
pub open spec fn player_of(slot: int) -> Player {
    if slot == 0 {
        Player::Player0
    } else {
        Player::Player1
    }
}

/// Number of cards in a row of two piles.
pub open spec fn nb_cards_pair(row: Seq<PileView>) -> nat {
    row[0].cards.len() + row[1].cards.len()
}

/// Number of cards in a row of eight piles.
pub open spec fn nb_cards_center(row: Seq<PileView>) -> nat {
    row[0].cards.len() + row[1].cards.len() + row[2].cards.len() + row[3].cards.len()
        + row[4].cards.len() + row[5].cards.len() + row[6].cards.len() + row[7].cards.len()
}

/// 1 if the pile is empty, 0 otherwise.
pub open spec fn empty_count(pile: PileView) -> int {
    if pile.cards.len() == 0 {
        1
    } else {
        0
    }
}

/// Number of empty piles in a row of eight piles.
pub open spec fn nb_empty(row: Seq<PileView>) -> int {
    empty_count(row[0]) + empty_count(row[1]) + empty_count(row[2]) + empty_count(row[3])
        + empty_count(row[4]) + empty_count(row[5]) + empty_count(row[6]) + empty_count(row[7])
}

/// The cards of a waste as they come to lie on the stock when the waste is
/// turned over: the top card first, each card face down.
pub open spec fn recycled(cards: Seq<Card>) -> Seq<Card> {
    Seq::new(cards.len(), |j: int| cards[cards.len() - 1 - j].facing(false))
}

/// What a board is to the rules: its piles, row by row.
pub struct BoardView {
    pub stock: Seq<PileView>,
    pub waste: Seq<PileView>,
    pub crape: Seq<PileView>,
    pub foundation: Seq<PileView>,
    pub tableau: Seq<PileView>,
}

impl BoardView {
    /// The shape of a board: two stocks, two wastes, two crapes, eight
    /// foundation piles and eight tableau piles, each of the kind of its slot.
    pub open spec fn shape(self) -> bool {
        &&& self.stock.len() == 2
        &&& self.waste.len() == 2
        &&& self.crape.len() == 2
        &&& self.foundation.len() == 8
        &&& self.tableau.len() == 8
        &&& forall|i: int|
            0 <= i < 2 ==> (#[trigger] self.stock[i]).kind == (PileType::Stock {
                player: player_of(i),
            })
        &&& forall|i: int|
            0 <= i < 2 ==> (#[trigger] self.waste[i]).kind == (PileType::Waste {
                player: player_of(i),
            })
        &&& forall|i: int|
            0 <= i < 2 ==> (#[trigger] self.crape[i]).kind == (PileType::Crape {
                player: player_of(i),
            })
        &&& forall|i: int|
            0 <= i < 8 ==> (#[trigger] self.foundation[i]).kind == (PileType::Foundation {
                id: i as u8,
                suit: foundation_suit(i),
            })
        &&& forall|i: int|
            0 <= i < 8 ==> (#[trigger] self.tableau[i]).kind == (PileType::Tableau { id: i as u8 })
    }

    /// Number of cards on the board.
    pub open spec fn nb_cards(self) -> nat {
        nb_cards_pair(self.stock) + nb_cards_pair(self.waste) + nb_cards_pair(self.crape)
            + nb_cards_center(self.foundation) + nb_cards_center(self.tableau)
    }

    /// The invariant of a board: it has the shape of a board, each pile meets
    /// the invariant of its kind, and it holds no more cards than two decks.
    pub open spec fn wf(self) -> bool {
        &&& self.shape()
        &&& self.piles_wf()
        &&& self.nb_cards() <= NB_CARDS_BOARD
    }

    /// Whether each pile of the board meets the invariant of its kind.
    pub open spec fn piles_wf(self) -> bool {
        &&& forall|i: int| 0 <= i < 2 ==> (#[trigger] self.stock[i]).wf()
        &&& forall|i: int| 0 <= i < 2 ==> (#[trigger] self.waste[i]).wf()
        &&& forall|i: int| 0 <= i < 2 ==> (#[trigger] self.crape[i]).wf()
        &&& forall|i: int| 0 <= i < 8 ==> (#[trigger] self.foundation[i]).wf()
        &&& forall|i: int| 0 <= i < 8 ==> (#[trigger] self.tableau[i]).wf()
    }

    /// Whether the board has a pile of kind `kind`: a foundation or a tableau
    /// pile is named by a slot from 0 to 7.
    pub open spec fn has_pile(self, kind: PileType) -> bool {
        match kind {
            PileType::Foundation { id, .. } => id < 8,
            PileType::Tableau { id } => id < 8,
            _ => true,
        }
    }

    /// The pile of kind `kind`.
    pub open spec fn pile(self, kind: PileType) -> PileView {
        match kind {
            PileType::Foundation { id, .. } => self.foundation[id as int],
            PileType::Tableau { id } => self.tableau[id as int],
            PileType::Stock { player } => self.stock[player.spec_index()],
            PileType::Waste { player } => self.waste[player.spec_index()],
            PileType::Crape { player } => self.crape[player.spec_index()],
        }
    }

    /// The board with `pile` in the place of the pile of kind `kind`.
    pub open spec fn set_pile(self, kind: PileType, pile: PileView) -> BoardView {
        match kind {
            PileType::Foundation { id, .. } => BoardView {
                foundation: self.foundation.update(id as int, pile),
                ..self
            },
            PileType::Tableau { id } => BoardView {
                tableau: self.tableau.update(id as int, pile),
                ..self
            },
            PileType::Stock { player } => BoardView {
                stock: self.stock.update(player.spec_index(), pile),
                ..self
            },
            PileType::Waste { player } => BoardView {
                waste: self.waste.update(player.spec_index(), pile),
                ..self
            },
            PileType::Crape { player } => BoardView {
                crape: self.crape.update(player.spec_index(), pile),
                ..self
            },
        }
    }

    /// The board after the top card of `origin` has been moved onto
    /// `destination`.
    pub open spec fn move_card(self, origin: PileType, destination: PileType) -> BoardView {
        let card = self.pile(origin).cards.last();
        let taken = self.set_pile(origin, self.pile(origin).drop_top());
        taken.set_pile(destination, taken.pile(destination).push(card))
    }

    /// The board after `player` has asked to turn the top card of `kind` face
    /// up: the card is turned if the player may turn it, and nothing changes
    /// otherwise.
    pub open spec fn flip_card_up(self, kind: PileType, player: Player) -> BoardView {
        if self.pile(kind).can_flip_card_up(player) {
            self.set_pile(kind, self.pile(kind).flip_top())
        } else {
            self
        }
    }

    /// The board after the waste of `player` has been turned over onto their
    /// stock: the waste is empty, and its cards lie face down on the stock,
    /// the former top card lowest.
    pub open spec fn flip_waste_to_stock(self, player: Player) -> BoardView {
        let i = player.spec_index();
        BoardView {
            stock: self.stock.update(
                i,
                PileView {
                    cards: self.stock[i].cards + recycled(self.waste[i].cards),
                    kind: self.stock[i].kind,
                },
            ),
            waste: self.waste.update(
                i,
                PileView { cards: Seq::<Card>::empty(), kind: self.waste[i].kind },
            ),
            ..self
        }
    }

    /// Whether `action` can be carried out on this board: the piles that it
    /// names are on the board, and a move finds a card on its origin.
    pub open spec fn can_apply(self, action: CardAction) -> bool {
        match action {
            CardAction::Move { origin, destination, .. } => {
                &&& self.has_pile(origin)
                &&& self.has_pile(destination)
                &&& self.pile(origin).cards.len() > 0
            },
            CardAction::Flip { pile } => self.has_pile(pile),
            CardAction::FlipWaste => true,
        }
    }

    /// The board with the top card of the pile `kind` face up, whoever owns
    /// the pile; the same board if the pile is empty.
    pub open spec fn flip_top(self, kind: PileType) -> BoardView {
        self.set_pile(kind, self.pile(kind).flip_top())
    }

    /// The board after `action` has been played in the turn of `player`:
    /// - a move takes the top card of its origin onto its destination;
    /// - a flip turns the top card of its pile face up;
    /// - turning the waste over turns the waste of `player` over onto their
    ///   stock.
    pub open spec fn apply(self, action: CardAction, player: Player) -> BoardView {
        match action {
            CardAction::Move { origin, destination, .. } => self.move_card(origin, destination),
            CardAction::Flip { pile } => self.flip_top(pile),
            CardAction::FlipWaste => self.flip_waste_to_stock(player),
        }
    }

    /// Whether `player` may move the top card of `origin` onto `destination`:
    /// both piles are on the board, the origin has a card that the player may
    /// take, and the destination accepts it.
    pub open spec fn can_move(
        self,
        origin: PileType,
        destination: PileType,
        player: Player,
    ) -> bool {
        &&& self.has_pile(origin)
        &&& self.has_pile(destination)
        &&& self.pile(origin).cards.len() > 0
        &&& self.pile(origin).can_pop_card(player)
        &&& self.pile(destination).can_add_card(self.pile(origin).cards.last(), origin, player)
    }

    /// Whether `action` is legal for `player` on this board. A move names
    /// the top card of its origin and meets `can_move`; a flip names a pile
    /// whose top card the player may turn; the waste is turned over only when
    /// the stock is empty and the waste is not.
    pub open spec fn legal(self, action: CardAction, player: Player) -> bool {
        match action {
            CardAction::Move { card, origin, destination } => {
                &&& self.can_move(origin, destination, player)
                &&& self.pile(origin).top() == Some(card)
            },
            CardAction::Flip { pile } => self.has_pile(pile) && self.pile(pile).can_flip_card_up(
                player,
            ),
            CardAction::FlipWaste => {
                &&& self.stock[player.spec_index()].cards.len() == 0
                &&& self.waste[player.spec_index()].cards.len() > 0
            },
        }
    }

    /// Whether `player` has won: their stock, waste and crape are empty.
    pub open spec fn check_win(self, player: Player) -> bool {
        &&& self.stock[player.spec_index()].cards.len() == 0
        &&& self.waste[player.spec_index()].cards.len() == 0
        &&& self.crape[player.spec_index()].cards.len() == 0
    }
}

/// Replacing a pile by one of the same kind keeps the shape of the board and
/// leaves the other piles alone; the number of cards changes by the
/// difference of the two piles, and the piles keep their invariants if the
/// new pile has its own.
pub proof fn lemma_set_pile(board: BoardView, kind: PileType, pile: PileView)
    requires
        board.shape(),
        board.has_pile(kind),
        pile.kind == board.pile(kind).kind,
    ensures
        board.set_pile(kind, pile).shape(),
        board.set_pile(kind, pile).pile(kind) == pile,
        forall|other: PileType|
            board.has_pile(other) && !other.spec_is_same(kind) ==> #[trigger] board.set_pile(
                kind,
                pile,
            ).pile(other) == board.pile(other),
        board.set_pile(kind, pile).nb_cards() == board.nb_cards() - board.pile(kind).cards.len()
            + pile.cards.len(),
        board.piles_wf() && pile.wf() ==> board.set_pile(kind, pile).piles_wf(),
{
    let after = board.set_pile(kind, pile);
    match kind {
        PileType::Foundation { id, .. } => {
            assert(after.foundation[id as int] == pile);
            assert forall|i: int| 0 <= i < 8 implies (#[trigger] after.foundation[i]).kind == (
            PileType::Foundation { id: i as u8, suit: foundation_suit(i) }) by {
                if i != id {
                    assert(after.foundation[i] == board.foundation[i]);
                }
            }
            if board.piles_wf() && pile.wf() {
                assert forall|i: int| 0 <= i < 8 implies (#[trigger] after.foundation[i]).wf() by {
                    if i != id {
                        assert(after.foundation[i] == board.foundation[i]);
                    }
                }
            }
        },
        PileType::Tableau { id } => {
            assert(after.tableau[id as int] == pile);
            assert forall|i: int| 0 <= i < 8 implies (#[trigger] after.tableau[i]).kind == (
            PileType::Tableau { id: i as u8 }) by {
                if i != id {
                    assert(after.tableau[i] == board.tableau[i]);
                }
            }
            if board.piles_wf() && pile.wf() {
                assert forall|i: int| 0 <= i < 8 implies (#[trigger] after.tableau[i]).wf() by {
                    if i != id {
                        assert(after.tableau[i] == board.tableau[i]);
                    }
                }
            }
        },
        PileType::Stock { player } => {
            let k = player.spec_index();
            assert(after.stock[k] == pile);
            assert(after.stock[1 - k] == board.stock[1 - k]);
        },
        PileType::Waste { player } => {
            let k = player.spec_index();
            assert(after.waste[k] == pile);
            assert(after.waste[1 - k] == board.waste[1 - k]);
        },
        PileType::Crape { player } => {
            let k = player.spec_index();
            assert(after.crape[k] == pile);
            assert(after.crape[1 - k] == board.crape[1 - k]);
        },
    }
}

/// A move that the rules allow keeps the invariant of the board, and the
/// number of cards on it.
pub proof fn lemma_move_keeps_wf(
    board: BoardView,
    origin: PileType,
    destination: PileType,
    player: Player,
)
    requires
        board.wf(),
        board.can_move(origin, destination, player),
    ensures
        board.move_card(origin, destination).wf(),
        board.move_card(origin, destination).nb_cards() == board.nb_cards(),
        !origin.spec_is_same(destination),
{
    let from = board.pile(origin);
    let to = board.pile(destination);
    let card = from.cards.last();
    let taken = board.set_pile(origin, from.drop_top());
    lemma_pile_of_wf(board, origin);
    lemma_pile_of_wf(board, destination);
    assert(card.wf());
    assert(from.drop_top().wf());
    assert(!origin.spec_is_same(destination));
    lemma_set_pile(board, origin, from.drop_top());
    assert(taken.pile(destination) == to);
    assert(to.push(card).wf());
    lemma_set_pile(taken, destination, to.push(card));
}

/// On a board that meets its invariant, each pile meets its own.
pub proof fn lemma_pile_of_wf(board: BoardView, kind: PileType)
    requires
        board.shape(),
        board.piles_wf(),
        board.has_pile(kind),
    ensures
        board.pile(kind).wf(),
        board.pile(kind).kind.spec_is_same(kind),
        board.pile(kind).kind.same_variant(kind),
{
    match kind {
        PileType::Foundation { id, .. } => {
            assert(board.foundation[id as int].wf());
        },
        PileType::Tableau { id } => {
            assert(board.tableau[id as int].wf());
        },
        PileType::Stock { player } => {
            assert(board.stock[player.spec_index()].wf());
        },
        PileType::Waste { player } => {
            assert(board.waste[player.spec_index()].wf());
        },
        PileType::Crape { player } => {
            assert(board.crape[player.spec_index()].wf());
        },
    }
}

/// The views of the piles of a row.
pub open spec fn row_view(row: Seq<Pile>) -> Seq<PileView> {
    row.map_values(|p: Pile| p@)
}

/// The board of a game.
#[derive(Debug)]
pub struct Board {
    pub stock: [Pile; 2],
    pub waste: [Pile; 2],
    pub crape: [Pile; 2],
    pub foundation: [Pile; 8],
    pub tableau: [Pile; 8],
}

impl View for Board {
    type V = BoardView;

    open spec fn view(&self) -> BoardView {
        BoardView {
            stock: row_view(self.stock@),
            waste: row_view(self.waste@),
            crape: row_view(self.crape@),
            foundation: row_view(self.foundation@),
            tableau: row_view(self.tableau@),
        }
    }
}

impl Clone for Board {
    fn clone(&self) -> (r: Self)
        ensures
            r@ == self@,
    {
        let r = Board {
            stock: [self.stock[0].clone(), self.stock[1].clone()],
            waste: [self.waste[0].clone(), self.waste[1].clone()],
            crape: [self.crape[0].clone(), self.crape[1].clone()],
            foundation: [
                self.foundation[0].clone(),
                self.foundation[1].clone(),
                self.foundation[2].clone(),
                self.foundation[3].clone(),
                self.foundation[4].clone(),
                self.foundation[5].clone(),
                self.foundation[6].clone(),
                self.foundation[7].clone(),
            ],
            tableau: [
                self.tableau[0].clone(),
                self.tableau[1].clone(),
                self.tableau[2].clone(),
                self.tableau[3].clone(),
                self.tableau[4].clone(),
                self.tableau[5].clone(),
                self.tableau[6].clone(),
                self.tableau[7].clone(),
            ],
        };
        assert(r@.stock =~= self@.stock);
        assert(r@.waste =~= self@.waste);
        assert(r@.crape =~= self@.crape);
        assert(r@.foundation =~= self@.foundation);
        assert(r@.tableau =~= self@.tableau);
        r
    }
}

impl Board {
    /// The empty board.
    pub open spec fn spec_new() -> BoardView {
        BoardView {
            stock: Seq::new(
                2,
                |i: int|
                    PileView {
                        cards: Seq::<Card>::empty(),
                        kind: PileType::Stock { player: player_of(i) },
                    },
            ),
            waste: Seq::new(
                2,
                |i: int|
                    PileView {
                        cards: Seq::<Card>::empty(),
                        kind: PileType::Waste { player: player_of(i) },
                    },
            ),
            crape: Seq::new(
                2,
                |i: int|
                    PileView {
                        cards: Seq::<Card>::empty(),
                        kind: PileType::Crape { player: player_of(i) },
                    },
            ),
            foundation: Seq::new(
                8,
                |i: int|
                    PileView {
                        cards: Seq::<Card>::empty(),
                        kind: PileType::Foundation { id: i as u8, suit: foundation_suit(i) },
                    },
            ),
            tableau: Seq::new(
                8,
                |i: int|
                    PileView {
                        cards: Seq::<Card>::empty(),
                        kind: PileType::Tableau { id: i as u8 },
                    },
            ),
        }
    }

    /// Creates an empty board.
    pub fn new() -> (r: Self)
        ensures
            r@ == Self::spec_new(),
            r@.wf(),
            r@.nb_cards() == 0,
    {
        let r = Board {
            waste: [Pile::new_waste(Player::Player0), Pile::new_waste(Player::Player1)],
            crape: [Pile::new_crape(Player::Player0), Pile::new_crape(Player::Player1)],
            stock: [Pile::new_stock(Player::Player0), Pile::new_stock(Player::Player1)],
            foundation: [
                Pile::new_foundation(0, Suit::Diamond),
                Pile::new_foundation(1, Suit::Club),
                Pile::new_foundation(2, Suit::Heart),
                Pile::new_foundation(3, Suit::Spade),
                Pile::new_foundation(4, Suit::Spade),
                Pile::new_foundation(5, Suit::Heart),
                Pile::new_foundation(6, Suit::Club),
                Pile::new_foundation(7, Suit::Diamond),
            ],
            tableau: [
                Pile::new_tableau(0),
                Pile::new_tableau(1),
                Pile::new_tableau(2),
                Pile::new_tableau(3),
                Pile::new_tableau(4),
                Pile::new_tableau(5),
                Pile::new_tableau(6),
                Pile::new_tableau(7),
            ],
        };
        proof {
            let target = Self::spec_new();
            assert(r@.stock =~= target.stock);
            assert(r@.waste =~= target.waste);
            assert(r@.crape =~= target.crape);
            assert(r@.foundation =~= target.foundation);
            assert(r@.tableau =~= target.tableau);
        }
        r
    }

    /// Whether this board is `before` with `pile` in the place of the pile of
    /// kind `kind`, and every other pile as it was.
    pub open spec fn replaces(self, before: Board, kind: PileType, pile: Pile) -> bool {
        match kind {
            PileType::Foundation { id, .. } => {
                &&& self.foundation@ == before.foundation@.update(id as int, pile)
                &&& self.tableau == before.tableau
                &&& self.stock == before.stock
                &&& self.waste == before.waste
                &&& self.crape == before.crape
            },
            PileType::Tableau { id } => {
                &&& self.foundation == before.foundation
                &&& self.tableau@ == before.tableau@.update(id as int, pile)
                &&& self.stock == before.stock
                &&& self.waste == before.waste
                &&& self.crape == before.crape
            },
            PileType::Stock { player } => {
                &&& self.foundation == before.foundation
                &&& self.tableau == before.tableau
                &&& self.stock@ == before.stock@.update(player.spec_index(), pile)
                &&& self.waste == before.waste
                &&& self.crape == before.crape
            },
            PileType::Waste { player } => {
                &&& self.foundation == before.foundation
                &&& self.tableau == before.tableau
                &&& self.stock == before.stock
                &&& self.waste@ == before.waste@.update(player.spec_index(), pile)
                &&& self.crape == before.crape
            },
            PileType::Crape { player } => {
                &&& self.foundation == before.foundation
                &&& self.tableau == before.tableau
                &&& self.stock == before.stock
                &&& self.waste == before.waste
                &&& self.crape@ == before.crape@.update(player.spec_index(), pile)
            },
        }
    }

    /// A board that replaces one pile of another has the view of the other
    /// with the view of that pile replaced.
    pub proof fn lemma_replaces_view(self, before: Board, kind: PileType, pile: Pile)
        requires
            before@.has_pile(kind),
            self.replaces(before, kind, pile),
        ensures
            self@ == before@.set_pile(kind, pile@),
    {
        let target = before@.set_pile(kind, pile@);
        assert(self@.stock =~= target.stock);
        assert(self@.waste =~= target.waste);
        assert(self@.crape =~= target.crape);
        assert(self@.foundation =~= target.foundation);
        assert(self@.tableau =~= target.tableau);
    }

    /// Returns the pile of kind `pile_type`.
    pub fn pile_from_type(&self, pile_type: &PileType) -> (r: &Pile)
        requires
            self@.has_pile(*pile_type),
        ensures
            r@ == self@.pile(*pile_type),
    {
        match pile_type {
            PileType::Foundation { id, .. } => &self.foundation[*id as usize],
            PileType::Tableau { id } => &self.tableau[*id as usize],
            PileType::Stock { player } => &self.stock[player.index()],
            PileType::Waste { player } => &self.waste[player.index()],
            PileType::Crape { player } => &self.crape[player.index()],
        }
    }

    /// Returns the pile of kind `pile_type` for the caller to change.
    pub fn pile_from_type_mut(&mut self, pile_type: &PileType) -> (r: &mut Pile)
        requires
            old(self)@.has_pile(*pile_type),
        ensures
            r@ == old(self)@.pile(*pile_type),
            final(self).replaces(*old(self), *pile_type, *final(r)),
    {
        match pile_type {
            PileType::Foundation { id, .. } => &mut self.foundation[*id as usize],
            PileType::Tableau { id } => &mut self.tableau[*id as usize],
            PileType::Stock { player } => &mut self.stock[player.index()],
            PileType::Waste { player } => &mut self.waste[player.index()],
            PileType::Crape { player } => &mut self.crape[player.index()],
        }
    }

    /// The pile of kind `kind`, as it is stored.
    pub open spec fn spec_pile(self, kind: PileType) -> Pile {
        match kind {
            PileType::Foundation { id, .. } => self.foundation@[id as int],
            PileType::Tableau { id } => self.tableau@[id as int],
            PileType::Stock { player } => self.stock@[player.spec_index()],
            PileType::Waste { player } => self.waste@[player.spec_index()],
            PileType::Crape { player } => self.crape@[player.spec_index()],
        }
    }

    /// Moves the top card of the pile `origin_type` onto the pile
    /// `destination_type`. Nothing is checked of the rules of the game.
    pub fn move_card(&mut self, origin_type: &PileType, destination_type: &PileType)
        requires
            old(self)@.has_pile(*origin_type),
            old(self)@.has_pile(*destination_type),
            old(self)@.pile(*origin_type).cards.len() > 0,
        ensures
            final(self)@ == old(self)@.move_card(*origin_type, *destination_type),
    {
        let ghost before = *self;
        let card = self.pile_from_type_mut(origin_type).pop().unwrap();
        let ghost taken = *self;
        proof {
            taken.lemma_replaces_view(before, *origin_type, taken.spec_pile(*origin_type));
        }
        self.pile_from_type_mut(destination_type).add(card);
        proof {
            self.lemma_replaces_view(taken, *destination_type, self.spec_pile(*destination_type));
        }
    }

    /// Turns the top card of the pile `pile_type` face up if `player` may
    /// turn it; changes nothing otherwise.
    pub fn flip_card_up(&mut self, pile_type: &PileType, player: &Player)
        requires
            old(self)@.has_pile(*pile_type),
        ensures
            final(self)@ == old(self)@.flip_card_up(*pile_type, *player),
    {
        let ghost before = *self;
        let pile = self.pile_from_type_mut(pile_type);
        if pile.can_flip_card_up(player) {
            pile.flip_top_up();
        }
        proof {
            self.lemma_replaces_view(before, *pile_type, self.spec_pile(*pile_type));
            if !before@.pile(*pile_type).can_flip_card_up(*player) {
                assert(self@.stock =~= before@.stock);
                assert(self@.waste =~= before@.waste);
                assert(self@.crape =~= before@.crape);
                assert(self@.foundation =~= before@.foundation);
                assert(self@.tableau =~= before@.tableau);
            }
        }
    }

    /// Turns the waste of `player` over onto their stock, card by card from
    /// the top, each card face down.
    pub fn flip_waste_to_stock(&mut self, player: &Player)
        ensures
            final(self)@ == old(self)@.flip_waste_to_stock(*player),
    {
        let i: usize = player.index();
        let ghost before = *self;
        let ghost waste = self.waste@[i as int].cards@;
        let ghost stock = self.stock@[i as int].cards@;
        while !self.waste[i].is_empty()
            invariant
                i == player.spec_index(),
                self.foundation == before.foundation,
                self.tableau == before.tableau,
                self.crape == before.crape,
                forall|j: int| 0 <= j < 2 && j != i ==> self.waste@[j] == before.waste@[j],
                forall|j: int| 0 <= j < 2 && j != i ==> self.stock@[j] == before.stock@[j],
                self.waste@[i as int].kind == before.waste@[i as int].kind,
                self.stock@[i as int].kind == before.stock@[i as int].kind,
                waste == before.waste@[i as int].cards@,
                stock == before.stock@[i as int].cards@,
                self.waste@[i as int].cards@.len() <= waste.len(),
                self.waste@[i as int].cards@ == waste.take(
                    self.waste@[i as int].cards@.len() as int,
                ),
                self.stock@[i as int].cards@.len() == stock.len() + waste.len()
                    - self.waste@[i as int].cards@.len(),
                forall|j: int|
                    0 <= j < stock.len() ==> self.stock@[i as int].cards@[j] == stock[j],
                forall|k: int|
                    stock.len() <= k < self.stock@[i as int].cards@.len() ==> (
                    #[trigger] self.stock@[i as int].cards@[k]) == waste[waste.len() - 1 - (k
                        - stock.len())].facing(false),
            decreases self.waste@[i as int].cards@.len(),
        {
            let mut card = self.waste[i].pop().unwrap();
            card.set_face_down();
            self.stock[i].add(card);
        }
        proof {
            let target = before@.flip_waste_to_stock(*player);
            assert(self@.stock[i as int].cards =~= target.stock[i as int].cards);
            assert(self@.waste[i as int].cards =~= target.waste[i as int].cards);
            assert(self@.stock =~= target.stock);
            assert(self@.waste =~= target.waste);
            assert(self@.crape =~= target.crape);
            assert(self@.foundation =~= target.foundation);
            assert(self@.tableau =~= target.tableau);
        }
    }

    /// Checks if the player has won the game, that is, their piles are empty.
    pub fn check_win(&self, player: Player) -> (r: bool)
        ensures
            r == self@.check_win(player),
    {
        let i: usize = player.index();
        self.stock[i].is_empty() && self.waste[i].is_empty() && self.crape[i].is_empty()
    }

    /// Turns the top card of the pile `pile_type` face up, whoever owns the
    /// pile. An empty pile is left as it is.
    pub fn flip_top(&mut self, pile_type: &PileType)
        requires
            old(self)@.has_pile(*pile_type),
        ensures
            final(self)@ == old(self)@.flip_top(*pile_type),
    {
        let ghost before = *self;
        self.pile_from_type_mut(pile_type).flip_top_up();
        proof {
            self.lemma_replaces_view(before, *pile_type, self.spec_pile(*pile_type));
        }
    }

    /// Plays `action` in the turn of `active_player`: a move takes the top
    /// card of its origin onto its destination, a flip turns the top card of
    /// its pile face up, and turning the waste over turns the waste of
    /// `active_player` over onto their stock. Nothing is checked of the rules
    /// of the game.
    pub fn apply_action(&mut self, action: &CardAction, active_player: Player)
        requires
            old(self)@.can_apply(*action),
        ensures
            final(self)@ == old(self)@.apply(*action, active_player),
    {
        match action {
            CardAction::Move { origin, destination, .. } => self.move_card(origin, destination),
            CardAction::Flip { pile } => self.flip_top(pile),
            CardAction::FlipWaste => self.flip_waste_to_stock(&active_player),
        }
    }

    /// Returns the board that `action`, played in the turn of
    /// `active_player`, makes of this one.
    pub fn copy_with_action(&self, action: &CardAction, active_player: Player) -> (r: Self)
        requires
            self@.can_apply(*action),
        ensures
            r@ == self@.apply(*action, active_player),
    {
        let mut new_board = self.clone();
        new_board.apply_action(action, active_player);
        new_board
    }

    /// Moves the top card of the pile `origin_type` onto the pile
    /// `destination_type` for `player`, if the rules allow it and the card
    /// faces up. Otherwise the board is left as it is and the error says why.
    pub fn move_card_checked(
        &mut self,
        origin_type: &PileType,
        destination_type: &PileType,
        player: Player,
    ) -> (r: Result<CardAction, &'static str>)
        requires
            old(self)@.has_pile(*origin_type),
            old(self)@.has_pile(*destination_type),
        ensures
            r is Ok <==> move_refusal(old(self)@, *origin_type, *destination_type, player) is None,
            r matches Ok(action) ==> {
                &&& action == (CardAction::Move {
                    card: old(self)@.pile(*origin_type).cards.last(),
                    origin: *origin_type,
                    destination: *destination_type,
                })
                &&& old(self)@.legal(action, player)
                &&& final(self)@ == old(self)@.move_card(*origin_type, *destination_type)
            },
            r matches Err(message) ==> {
                &&& Some(message@) == move_refusal(
                    old(self)@,
                    *origin_type,
                    *destination_type,
                    player,
                )
                &&& final(self)@ == old(self)@
            },
    {
        let origin = self.pile_from_type(origin_type);
        let destination = self.pile_from_type(destination_type);
        let card = match origin.top_card() {
            Some(card) => *card,
            None => {
                return Err("Unable to take a card from empty pile");
            },
        };
        if !card.face_up {
            return Err("Unable to move a card which faces down");
        }
        if !origin.can_pop_card(&player) {
            return Err("Unable to take card from origin");
        }
        if !destination.can_add_card(&card, origin_type, &player) {
            return Err("Unable to move card from origin to destination");
        }
        self.move_card(origin_type, destination_type);
        Ok(CardAction::Move { card, origin: *origin_type, destination: *destination_type })
    }
}

/// Why `player` may not move the top card of `origin` onto `destination`, or
/// `None` if the move is allowed and the card faces up. The first reason that
/// holds is given: the origin is empty, its top card faces down, the player
/// may not take from it, the destination does not accept the card.
pub open spec fn move_refusal(
    board: BoardView,
    origin: PileType,
    destination: PileType,
    player: Player,
) -> Option<Seq<char>> {
    if board.pile(origin).cards.len() == 0 {
        Some("Unable to take a card from empty pile"@)
    } else if !board.pile(origin).cards.last().face_up {
        Some("Unable to move a card which faces down"@)
    } else if !board.pile(origin).can_pop_card(player) {
        Some("Unable to take card from origin"@)
    } else if !board.pile(destination).can_add_card(
        board.pile(origin).cards.last(),
        origin,
        player,
    ) {
        Some("Unable to move card from origin to destination"@)
    } else {
        None
    }
}

} // verus!
