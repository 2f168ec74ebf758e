//! The piles that a move of the search may start from, and those that it may
//! go to.
//!
//! Piles that would give the same board are offered once: of several tableau
//! piles that hold the same cards only the first counts, and of the two
//! foundation piles of a suit the second counts only when it differs from
//! the first.

use vstd::prelude::*;

use super::board_node::BoardNode;
use crate::game::board::foundation_suit;
use crate::game::board::row_view;
use crate::game::board::BoardView;
use crate::game::piles::Pile;
use crate::game::piles::PileType;
use crate::game::piles::PileView;
use crate::game::players::Player;

verus! {

/// Whether no pile of the row stands before slot `i` with the same cards as
/// the pile of slot `i`.
pub open spec fn first_of_its_content(row: Seq<PileView>, i: int) -> bool {
    forall|j: int| 0 <= j < i ==> (#[trigger] row[j]).key() != row[i].key()
}

/// The tableau pile of slot `slot`, as a kind.
pub open spec fn tableau_kind(slot: int) -> PileType {
    PileType::Tableau { id: slot as u8 }
}

/// The foundation pile of slot `slot`, as a kind.
pub open spec fn foundation_kind(slot: int) -> PileType {
    PileType::Foundation { id: slot as u8, suit: foundation_suit(slot) }
}

/// The piles that `player` may take a card from, in the order in which the
/// search looks at them: the tableau piles, then the crape and the stock of
/// the player.
pub open spec fn origin_candidates(player: Player) -> Seq<PileType> {
    seq![
        tableau_kind(0),
        tableau_kind(1),
        tableau_kind(2),
        tableau_kind(3),
        tableau_kind(4),
        tableau_kind(5),
        tableau_kind(6),
        tableau_kind(7),
        PileType::Crape { player },
        PileType::Stock { player },
    ]
}

/// The piles that `player` may put a card on, in the order in which the
/// search looks at them: the tableau piles, the first foundation pile of
/// each suit, the second foundation pile of each suit, then the crape and
/// the waste of the opponent.
pub open spec fn destination_candidates(player: Player) -> Seq<PileType> {
    seq![
        tableau_kind(0),
        tableau_kind(1),
        tableau_kind(2),
        tableau_kind(3),
        tableau_kind(4),
        tableau_kind(5),
        tableau_kind(6),
        tableau_kind(7),
        foundation_kind(0),
        foundation_kind(1),
        foundation_kind(2),
        foundation_kind(3),
        foundation_kind(7),
        foundation_kind(6),
        foundation_kind(5),
        foundation_kind(4),
        PileType::Crape { player: player.spec_other() },
        PileType::Waste { player: player.spec_other() },
    ]
}

/// Whether the search takes cards from the pile `kind` of `board` for
/// `player`: a tableau pile that is not empty and is the first with its
/// cards, or the crape or stock of the player if its top card faces up.
pub open spec fn is_origin(board: BoardView, player: Player, kind: PileType) -> bool {
    match kind {
        PileType::Tableau { id } => {
            &&& id < 8
            &&& board.tableau[id as int].cards.len() > 0
            &&& first_of_its_content(board.tableau, id as int)
        },
        PileType::Crape { player: owner } => {
            &&& owner == player
            &&& board.crape[player.spec_index()].cards.len() > 0
            &&& board.crape[player.spec_index()].cards.last().face_up
        },
        PileType::Stock { player: owner } => {
            &&& owner == player
            &&& board.stock[player.spec_index()].cards.len() > 0
            &&& board.stock[player.spec_index()].cards.last().face_up
        },
        _ => false,
    }
}

/// Whether the search puts cards on the pile `kind` of `board` for `player`:
/// a tableau pile that is the first with its cards, a foundation pile of the
/// first four that is not full, one of the last four that is not full and
/// differs in size from the other pile of its suit, or the crape or waste of
/// the opponent if it is not empty.
pub open spec fn is_destination(board: BoardView, player: Player, kind: PileType) -> bool {
    match kind {
        PileType::Tableau { id } => id < 8 && first_of_its_content(board.tableau, id as int),
        PileType::Foundation { id, .. } => {
            &&& id < 8
            &&& !board.foundation[id as int].is_full()
            &&& id >= 4 ==> board.foundation[id as int].cards.len() != board.foundation[7
                - id].cards.len()
        },
        PileType::Crape { player: owner } => {
            &&& owner == player.spec_other()
            &&& board.crape[owner.spec_index()].cards.len() > 0
        },
        PileType::Waste { player: owner } => {
            &&& owner == player.spec_other()
            &&& board.waste[owner.spec_index()].cards.len() > 0
        },
        PileType::Stock { .. } => false,
    }
}

/// The first `n` of the piles `candidates` that `keep` keeps, in their order.
pub open spec fn kept(candidates: Seq<PileType>, keep: spec_fn(PileType) -> bool, n: int) -> Seq<
    PileType,
>
    decreases n,
{
    if n <= 0 {
        Seq::empty()
    } else if keep(candidates[n - 1]) {
        kept(candidates, keep, n - 1).push(candidates[n - 1])
    } else {
        kept(candidates, keep, n - 1)
    }
}

/// The piles of `board` that the search takes cards from for `player`, in
/// the order in which it looks at them.
pub open spec fn origins(board: BoardView, player: Player) -> Seq<PileType> {
    kept(origin_candidates(player), |k: PileType| is_origin(board, player, k), 10)
}

/// The piles of `board` that the search puts cards on for `player`, in the
/// order in which it looks at them.
pub open spec fn destinations(board: BoardView, player: Player) -> Seq<PileType> {
    kept(destination_candidates(player), |k: PileType| is_destination(board, player, k), 18)
}

/// Every pile that is kept is one of the candidates and meets `keep`.
pub proof fn lemma_kept_members(
    candidates: Seq<PileType>,
    keep: spec_fn(PileType) -> bool,
    n: int,
)
    requires
        0 <= n <= candidates.len(),
    ensures
        kept(candidates, keep, n).len() <= n,
        forall|k: int|
            0 <= k < kept(candidates, keep, n).len() ==> {
                &&& keep(#[trigger] kept(candidates, keep, n)[k])
                &&& candidates.contains(kept(candidates, keep, n)[k])
            },
    decreases n,
{
    if n > 0 {
        lemma_kept_members(candidates, keep, n - 1);
        assert(candidates.contains(candidates[n - 1]));
    }
}

/// Checks whether no pile of the row stands before slot `i` with the same
/// cards as the pile of slot `i`.
fn is_first_of_its_content(row: &[Pile; 8], i: usize) -> (r: bool)
    requires
        i < 8,
        forall|x: int, y: int|
            0 <= x < 8 && 0 <= y < 8 ==> (#[trigger] row@[x]).kind.same_variant(
                (#[trigger] row@[y]).kind,
            ),
    ensures
        r == first_of_its_content(row_view(row@), i as int),
{
    let mut j: usize = 0;
    while j < i
        invariant
            j <= i,
            i < 8,
            forall|x: int, y: int|
                0 <= x < 8 && 0 <= y < 8 ==> (#[trigger] row@[x]).kind.same_variant(
                    (#[trigger] row@[y]).kind,
                ),
            forall|k: int| 0 <= k < j ==> (#[trigger] row_view(row@)[k]).key() != row_view(
                row@,
            )[i as int].key(),
        decreases i - j,
    {
        if row[j].eq(&row[i]) {
            assert(row_view(row@)[j as int].key() == row_view(row@)[i as int].key());
            return false;
        }
        j += 1;
    }
    true
}

/// The tableau piles of a board are of one variant of kind, as they are stored.
proof fn lemma_tableau_stored(node: BoardNode)
    requires
        node@.board.shape(),
    ensures
        forall|x: int, y: int|
            0 <= x < 8 && 0 <= y < 8 ==> (#[trigger] node.board.tableau@[x]).kind.same_variant(
                (#[trigger] node.board.tableau@[y]).kind,
            ),
        forall|x: int|
            0 <= x < 8 ==> (#[trigger] node.board.tableau@[x]).kind == tableau_kind(x),
        forall|x: int|
            0 <= x < 8 ==> (#[trigger] node.board.foundation@[x]).kind == foundation_kind(x),
{
    assert forall|x: int| 0 <= x < 8 implies (#[trigger] node.board.tableau@[x]).kind
        == tableau_kind(x) by {
        assert(node@.board.tableau[x].kind == node.board.tableau@[x].kind);
    }
    assert forall|x: int| 0 <= x < 8 implies (#[trigger] node.board.foundation@[x]).kind
        == foundation_kind(x) by {
        assert(node@.board.foundation[x].kind == node.board.foundation@[x].kind);
    }
}

impl BoardNode {
    /// Returns the piles that the search takes cards from, in the order in
    /// which it looks at them.
    pub fn get_piles_orig(&self) -> (r: Vec<PileType>)
        requires
            self@.board.shape(),
        ensures
            r@ == origins(self@.board, self@.active_player),
    {
        let ghost board = self@.board;
        let ghost player = self.active_player;
        let ghost candidates = origin_candidates(player);
        let ghost keep = |k: PileType| is_origin(board, player, k);
        let mut piles: Vec<PileType> = Vec::new();
        let mut i: usize = 0;
        proof {
            lemma_tableau_stored(*self);
            assert(row_view(self.board.tableau@) == board.tableau);
        }
        while i < 8
            invariant
                i <= 8,
                board == self@.board,
                board.shape(),
                player == self.active_player,
                candidates == origin_candidates(player),
                keep == (|k: PileType| is_origin(board, player, k)),
                row_view(self.board.tableau@) == board.tableau,
                forall|x: int, y: int|
                    0 <= x < 8 && 0 <= y < 8 ==> (
                    #[trigger] self.board.tableau@[x]).kind.same_variant(
                        (#[trigger] self.board.tableau@[y]).kind,
                    ),
                forall|x: int|
                    0 <= x < 8 ==> (#[trigger] self.board.tableau@[x]).kind == tableau_kind(x),
                piles@ == kept(candidates, keep, i as int),
            decreases 8 - i,
        {
            let pile = &self.board.tableau[i];
            proof {
                assert(candidates[i as int] == tableau_kind(i as int));
                assert(pile@ == board.tableau[i as int]);
            }
            if !pile.is_empty() && is_first_of_its_content(&self.board.tableau, i) {
                piles.push(pile.kind);
            }
            i += 1;
        }
        let p: usize = self.active_player.index();
        let crape = &self.board.crape[p];
        let stock = &self.board.stock[p];
        proof {
            assert(crape@ == board.crape[p as int]);
            assert(stock@ == board.stock[p as int]);
            assert(candidates[8] == (PileType::Crape { player }));
            assert(candidates[9] == (PileType::Stock { player }));
            assert(kept(candidates, keep, 10) == if keep(candidates[9]) {
                kept(candidates, keep, 9).push(candidates[9])
            } else {
                kept(candidates, keep, 9)
            });
            assert(kept(candidates, keep, 9) == if keep(candidates[8]) {
                kept(candidates, keep, 8).push(candidates[8])
            } else {
                kept(candidates, keep, 8)
            });
        }
        match crape.top_card() {
            Some(card) => {
                if card.face_up {
                    piles.push(crape.kind);
                }
            },
            None => {},
        }
        match stock.top_card() {
            Some(card) => {
                if card.face_up {
                    piles.push(stock.kind);
                }
            },
            None => {},
        }
        piles
    }

    /// Returns the piles that the search puts cards on, in the order in which
    /// it looks at them.
    pub fn get_piles_dest(&self) -> (r: Vec<PileType>)
        requires
            self@.board.shape(),
        ensures
            r@ == destinations(self@.board, self@.active_player),
    {
        let ghost board = self@.board;
        let ghost player = self.active_player;
        let ghost candidates = destination_candidates(player);
        let ghost keep = |k: PileType| is_destination(board, player, k);
        let mut piles: Vec<PileType> = Vec::new();
        let mut i: usize = 0;
        proof {
            lemma_tableau_stored(*self);
            assert(row_view(self.board.tableau@) == board.tableau);
        }
        while i < 8
            invariant
                i <= 8,
                board == self@.board,
                board.shape(),
                player == self.active_player,
                candidates == destination_candidates(player),
                keep == (|k: PileType| is_destination(board, player, k)),
                row_view(self.board.tableau@) == board.tableau,
                forall|x: int, y: int|
                    0 <= x < 8 && 0 <= y < 8 ==> (
                    #[trigger] self.board.tableau@[x]).kind.same_variant(
                        (#[trigger] self.board.tableau@[y]).kind,
                    ),
                forall|x: int|
                    0 <= x < 8 ==> (#[trigger] self.board.tableau@[x]).kind == tableau_kind(x),
                forall|x: int|
                    0 <= x < 8 ==> (#[trigger] self.board.foundation@[x]).kind == foundation_kind(
                        x,
                    ),
                piles@ == kept(candidates, keep, i as int),
            decreases 8 - i,
        {
            proof {
                assert(candidates[i as int] == tableau_kind(i as int));
            }
            if is_first_of_its_content(&self.board.tableau, i) {
                piles.push(self.board.tableau[i].kind);
            }
            i += 1;
        }
        let mut i: usize = 0;
        while i < 4
            invariant
                i <= 4,
                board == self@.board,
                board.shape(),
                player == self.active_player,
                candidates == destination_candidates(player),
                keep == (|k: PileType| is_destination(board, player, k)),
                forall|x: int|
                    0 <= x < 8 ==> (#[trigger] self.board.foundation@[x]).kind == foundation_kind(
                        x,
                    ),
                piles@ == kept(candidates, keep, 8 + i),
            decreases 4 - i,
        {
            let pile = &self.board.foundation[i];
            proof {
                assert(candidates[8 + i] == foundation_kind(i as int));
                assert(pile@ == board.foundation[i as int]);
            }
            if !pile.is_full() {
                piles.push(pile.kind);
            }
            i += 1;
        }
        let mut i: usize = 0;
        while i < 4
            invariant
                i <= 4,
                board == self@.board,
                board.shape(),
                player == self.active_player,
                candidates == destination_candidates(player),
                keep == (|k: PileType| is_destination(board, player, k)),
                forall|x: int|
                    0 <= x < 8 ==> (#[trigger] self.board.foundation@[x]).kind == foundation_kind(
                        x,
                    ),
                piles@ == kept(candidates, keep, 12 + i),
            decreases 4 - i,
        {
            let pile1 = &self.board.foundation[i];
            let pile2 = &self.board.foundation[7 - i];
            proof {
                assert(candidates[12 + i] == foundation_kind(7 - i));
                assert(pile1@ == board.foundation[i as int]);
                assert(pile2@ == board.foundation[7 - i]);
            }
            if pile2.nb_cards() != pile1.nb_cards() && !pile2.is_full() {
                piles.push(pile2.kind);
            }
            i += 1;
        }
        let opponent = self.active_player.other();
        let o: usize = opponent.index();
        let crape = &self.board.crape[o];
        let waste = &self.board.waste[o];
        proof {
            assert(crape@ == board.crape[o as int]);
            assert(waste@ == board.waste[o as int]);
            assert(candidates[16] == (PileType::Crape { player: opponent }));
            assert(candidates[17] == (PileType::Waste { player: opponent }));
            assert(kept(candidates, keep, 18) == if keep(candidates[17]) {
                kept(candidates, keep, 17).push(candidates[17])
            } else {
                kept(candidates, keep, 17)
            });
            assert(kept(candidates, keep, 17) == if keep(candidates[16]) {
                kept(candidates, keep, 16).push(candidates[16])
            } else {
                kept(candidates, keep, 16)
            });
        }
        if !crape.is_empty() {
            piles.push(crape.kind);
        }
        if !waste.is_empty() {
            piles.push(waste.kind);
        }
        piles
    }
}

} // verus!
