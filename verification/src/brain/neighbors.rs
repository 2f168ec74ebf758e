//! The neighbours of a node: the boards that one more move leads to.
//!
//! Moves that lead nowhere new are left out: a move onto the pile that it
//! comes from, a lone tableau card onto an empty tableau pile, and a move
//! that takes back the move before it. After a move from the crape or the
//! stock the player has no move left in this turn.

use vstd::prelude::*;

use super::board_node::from_player_pile;
use super::board_node::undoes;
use super::board_node::BoardNode;
use super::board_node::NodeView;
use super::candidates::destination_candidates;
use super::candidates::destinations;
use super::candidates::is_destination;
use super::candidates::is_origin;
use super::candidates::lemma_kept_members;
use super::candidates::origin_candidates;
use super::candidates::origins;
use super::closure_laws::lemma_covers_all_reflexive;
use super::closure_laws::lemma_covers_all_transitive;
use super::table_laws::lemma_register_covers;
use super::table_laws::lemma_register_distinct;
use super::tables::covers;
use super::tables::covers_all;
use super::tables::find_position;
use super::tables::known_wf;
use super::tables::nodes_wf;
use super::tables::nodes_view;
use super::tables::Tables;
use crate::game::board::lemma_move_keeps_wf;
use crate::game::board::BoardView;
use crate::game::moves::CardAction;
use crate::game::piles::PileType;
use crate::game::players::Player;

verus! {

/// The last move of a plan, if it has one.
pub open spec fn last_move(moves: Seq<CardAction>) -> Option<CardAction> {
    if moves.len() > 0 {
        Some(moves.last())
    } else {
        None
    }
}

/// The move of the top card of `origin` onto `destination`.
pub open spec fn move_of(board: BoardView, origin: PileType, destination: PileType) -> CardAction {
    CardAction::Move { card: board.pile(origin).cards.last(), origin, destination }
}

/// Whether the search keeps the move from `origin` to `destination`, both
/// taken among its candidates:
/// - the two are not the same pile;
/// - the destination accepts the top card of the origin;
/// - it is not the move of a lone tableau card onto an empty tableau pile;
/// - it does not take back the move `last`.
pub open spec fn survives(
    board: BoardView,
    last: Option<CardAction>,
    player: Player,
    origin: PileType,
    destination: PileType,
) -> bool {
    &&& !destination.spec_is_same(origin)
    &&& board.pile(destination).can_add_card(board.pile(origin).cards.last(), origin, player)
    &&& !(origin is Tableau && board.pile(origin).cards.len() == 1 && destination is Tableau
        && board.pile(destination).cards.len() == 0)
    &&& !(last matches Some(previous) && undoes(previous, move_of(board, origin, destination)))
}

/// The moves that the search keeps from `origin` to the first `n` of the
/// piles `to`, in their order.
pub open spec fn moves_from(
    board: BoardView,
    last: Option<CardAction>,
    player: Player,
    origin: PileType,
    to: Seq<PileType>,
    n: int,
) -> Seq<CardAction>
    decreases n,
{
    if n <= 0 {
        Seq::empty()
    } else if survives(board, last, player, origin, to[n - 1]) {
        moves_from(board, last, player, origin, to, n - 1).push(move_of(board, origin, to[n - 1]))
    } else {
        moves_from(board, last, player, origin, to, n - 1)
    }
}

/// The moves that the search keeps from the first `n` of the piles `from`
/// to the piles `to`: origin by origin, and for each origin destination by
/// destination.
pub open spec fn moves_upto(
    board: BoardView,
    last: Option<CardAction>,
    player: Player,
    from: Seq<PileType>,
    to: Seq<PileType>,
    n: int,
) -> Seq<CardAction>
    decreases n,
{
    if n <= 0 {
        Seq::empty()
    } else {
        moves_upto(board, last, player, from, to, n - 1) + moves_from(
            board,
            last,
            player,
            from[n - 1],
            to,
            to.len() as int,
        )
    }
}

/// The moves that lead from `node` to its neighbours, in the order in which
/// the search makes them. There is none after a move from the crape or the
/// stock.
pub open spec fn neighbor_moves(node: NodeView) -> Seq<CardAction> {
    if node.moves.len() > 0 && from_player_pile(node.moves.last()) {
        Seq::empty()
    } else {
        moves_upto(
            node.board,
            last_move(node.moves),
            node.active_player,
            origins(node.board, node.active_player),
            destinations(node.board, node.active_player),
            origins(node.board, node.active_player).len() as int,
        )
    }
}

/// What holds of each pile that the search takes cards from: it is on the
/// board under its own kind, it is not empty, and the player may take its
/// top card.
pub proof fn lemma_origin(board: BoardView, player: Player, k: int)
    requires
        board.shape(),
        0 <= k < origins(board, player).len(),
    ensures
        is_origin(board, player, origins(board, player)[k]),
        board.has_pile(origins(board, player)[k]),
        board.pile(origins(board, player)[k]).kind == origins(board, player)[k],
        board.pile(origins(board, player)[k]).cards.len() > 0,
        board.pile(origins(board, player)[k]).can_pop_card(player),
        !(origins(board, player)[k] is Waste),
        !(origins(board, player)[k] is Foundation),
{
    let keep = |x: PileType| is_origin(board, player, x);
    lemma_kept_members(origin_candidates(player), keep, 10);
    let kind = origins(board, player)[k];
    assert(keep(kind));
    assert(origin_candidates(player).contains(kind));
    match kind {
        PileType::Tableau { id } => {
            assert(board.tableau[id as int].kind == kind);
        },
        PileType::Crape { player: owner } => {
            assert(board.crape[owner.spec_index()].kind == kind);
        },
        PileType::Stock { player: owner } => {
            assert(board.stock[owner.spec_index()].kind == kind);
        },
        _ => {},
    }
}

/// What holds of each pile that the search puts cards on: it is on the
/// board under its own kind, and it is not a stock.
pub proof fn lemma_destination(board: BoardView, player: Player, k: int)
    requires
        board.shape(),
        0 <= k < destinations(board, player).len(),
    ensures
        is_destination(board, player, destinations(board, player)[k]),
        board.has_pile(destinations(board, player)[k]),
        board.pile(destinations(board, player)[k]).kind == destinations(board, player)[k],
        !(destinations(board, player)[k] is Stock),
{
    let keep = |x: PileType| is_destination(board, player, x);
    lemma_kept_members(destination_candidates(player), keep, 18);
    let kind = destinations(board, player)[k];
    assert(keep(kind));
    let candidates = destination_candidates(player);
    assert(candidates.contains(kind));
    let c = choose|c: int| 0 <= c < candidates.len() && candidates[c] == kind;
    match kind {
        PileType::Tableau { id } => {
            assert(board.tableau[id as int].kind == kind);
        },
        PileType::Foundation { id, suit } => {
            assert(board.foundation[id as int].kind == kind);
        },
        PileType::Crape { player: owner } => {
            assert(board.crape[owner.spec_index()].kind == kind);
        },
        PileType::Waste { player: owner } => {
            assert(board.waste[owner.spec_index()].kind == kind);
        },
        _ => {},
    }
}

/// Offering the children by some moves and then the child by one more move
/// is offering the children by all of them.
pub proof fn lemma_register_all_push(
    tables: Tables,
    node: NodeView,
    moves: Seq<CardAction>,
    action: CardAction,
)
    ensures
        tables.register_all(node, moves.push(action)) == tables.register_all(
            node,
            moves,
        ).register(node.child(action)),
{
    assert(moves.push(action).drop_last() =~= moves);
}

impl BoardNode {
    /// Offers to the tables the node of the board that `action` makes of the
    /// board of this node.
    pub fn register_next_board(
        &self,
        action: CardAction,
        known_nodes: &mut Vec<BoardNode>,
        known_unvisited_nodes: &mut Vec<BoardNode>,
    )
        requires
            self.wf(),
            action is Move,
            self@.board.legal(action, self@.active_player),
            known_wf(old(known_nodes)@),
            nodes_wf(old(known_unvisited_nodes)@),
        ensures
            (Tables {
                known: nodes_view(final(known_nodes)@),
                unvisited: nodes_view(final(known_unvisited_nodes)@),
            }) == (Tables {
                known: nodes_view(old(known_nodes)@),
                unvisited: nodes_view(old(known_unvisited_nodes)@),
            }).register(self@.child(action)),
            known_wf(final(known_nodes)@),
            nodes_wf(final(known_unvisited_nodes)@),
            covers(
                nodes_view(final(known_nodes)@),
                self@.child(action).board,
                self@.child(action).cost,
            ),
            covers_all(nodes_view(final(known_nodes)@), nodes_view(old(known_nodes)@)),
    {
        let ghost before = Tables {
            known: nodes_view(known_nodes@),
            unvisited: nodes_view(known_unvisited_nodes@),
        };
        let ghost child = self@.child(action);
        proof {
            match action {
                CardAction::Move { origin, destination, .. } => {
                    lemma_move_keeps_wf(self@.board, origin, destination, self@.active_player);
                },
                _ => {},
            }
        }
        let next_board = self.board.copy_with_action(&action, self.active_player);
        let cost = self.compute_move_cost(&action);
        let i: usize = find_position(known_nodes, &next_board);
        if i < known_nodes.len() {
            if !cost.is_lower(&known_nodes[i].cost) {
                proof {
                    lemma_register_distinct(before, child);
                    lemma_register_covers(before, child);
                }
                return ;
            }
            let j: usize = find_position(known_unvisited_nodes, &next_board);
            if j < known_unvisited_nodes.len() {
                known_unvisited_nodes.remove(j);
            }
            known_nodes.remove(i);
        }
        let mut node = BoardNode::new(next_board, self.active_player, &self.moves);
        node.moves.push(action);
        node.cost = cost;
        proof {
            super::cost::lemma_cost_of_push(self@.moves, action);
            assert(node@ == child);
        }
        let copy = node.clone();
        known_nodes.push(copy);
        known_unvisited_nodes.push(node);
        proof {
            let after = before.register(child);
            assert(nodes_view(known_nodes@) =~= after.known);
            assert(nodes_view(known_unvisited_nodes@) =~= after.unvisited);
        }
        proof {
            lemma_register_distinct(before, child);
            lemma_register_covers(before, child);
        }
    }

    /// Offers to the tables the neighbours of this node: the boards that one
    /// more move leads to, in the order in which the moves are made.
    pub fn search_neighbors(
        &self,
        known_nodes: &mut Vec<BoardNode>,
        known_unvisited_nodes: &mut Vec<BoardNode>,
    )
        requires
            self.wf(),
            known_wf(old(known_nodes)@),
            nodes_wf(old(known_unvisited_nodes)@),
        ensures
            (Tables {
                known: nodes_view(final(known_nodes)@),
                unvisited: nodes_view(final(known_unvisited_nodes)@),
            }) == (Tables {
                known: nodes_view(old(known_nodes)@),
                unvisited: nodes_view(old(known_unvisited_nodes)@),
            }).register_all(self@, neighbor_moves(self@)),
            known_wf(final(known_nodes)@),
            nodes_wf(final(known_unvisited_nodes)@),
            covers_all(nodes_view(final(known_nodes)@), nodes_view(old(known_nodes)@)),
    {
        let ghost before = Tables {
            known: nodes_view(known_nodes@),
            unvisited: nodes_view(known_unvisited_nodes@),
        };
        let ghost board = self@.board;
        let ghost player = self.active_player;
        let ghost last = last_move(self@.moves);
        proof {
            lemma_covers_all_reflexive(before.known);
        }
        // If the last move was from a player pile, stop here
        match self.moves.last() {
            Some(CardAction::Move { origin, .. }) => {
                match origin {
                    PileType::Crape { .. } => {
                        return ;
                    },
                    PileType::Stock { .. } => {
                        return ;
                    },
                    _ => {},
                }
            },
            _ => {},
        }
        let piles_orig = self.get_piles_orig();
        let piles_dest = self.get_piles_dest();
        let ghost from = piles_orig@;
        let ghost to = piles_dest@;
        let mut i: usize = 0;
        while i < piles_orig.len()
            invariant
                i <= from.len(),
                from == piles_orig@,
                to == piles_dest@,
                from == origins(board, player),
                to == destinations(board, player),
                board == self@.board,
                player == self.active_player,
                last == last_move(self@.moves),
                self.wf(),
                known_wf(known_nodes@),
                nodes_wf(known_unvisited_nodes@),
                covers_all(nodes_view(known_nodes@), before.known),
                (Tables {
                    known: nodes_view(known_nodes@),
                    unvisited: nodes_view(known_unvisited_nodes@),
                }) == before.register_all(
                    self@,
                    moves_upto(board, last, player, from, to, i as int),
                ),
            decreases from.len() - i,
        {
            let orig_kind = piles_orig[i];
            proof {
                lemma_origin(board, player, i as int);
            }
            let pile_orig = self.board.pile_from_type(&orig_kind);
            let card = match pile_orig.top_card() {
                Some(card) => *card,
                None => {
                    return ;
                },
            };
            let is_pile_orig_one_card_tableau = pile_orig.nb_cards() == 1 && match orig_kind {
                PileType::Tableau { .. } => true,
                _ => false,
            };
            let ghost done = moves_upto(board, last, player, from, to, i as int);
            let mut j: usize = 0;
            while j < piles_dest.len()
                invariant
                    j <= to.len(),
                    i < from.len(),
                    from == piles_orig@,
                    to == piles_dest@,
                    from == origins(board, player),
                    to == destinations(board, player),
                    board == self@.board,
                    player == self.active_player,
                    last == last_move(self@.moves),
                    self.wf(),
                    orig_kind == from[i as int],
                    pile_orig@ == board.pile(orig_kind),
                    pile_orig.kind == orig_kind,
                    board.has_pile(orig_kind),
                    pile_orig@.cards.len() > 0,
                    pile_orig@.can_pop_card(player),
                    card == pile_orig@.cards.last(),
                    is_pile_orig_one_card_tableau == (orig_kind is Tableau
                        && pile_orig@.cards.len() == 1),
                    done == moves_upto(board, last, player, from, to, i as int),
                    known_wf(known_nodes@),
                    nodes_wf(known_unvisited_nodes@),
                    covers_all(nodes_view(known_nodes@), before.known),
                    (Tables {
                        known: nodes_view(known_nodes@),
                        unvisited: nodes_view(known_unvisited_nodes@),
                    }) == before.register_all(
                        self@,
                        done + moves_from(board, last, player, orig_kind, to, j as int),
                    ),
                decreases to.len() - j,
            {
                let dest_kind = piles_dest[j];
                proof {
                    lemma_destination(board, player, j as int);
                }
                let pile_dest = self.board.pile_from_type(&dest_kind);
                let action = CardAction::Move { card, origin: orig_kind, destination: dest_kind };
                let undo = match self.moves.last() {
                    Some(CardAction::Move { origin, destination, .. }) => destination.is_same(
                        &orig_kind,
                    ) && origin.is_same(&dest_kind),
                    _ => false,
                };
                let keep = !pile_dest.is_same(pile_orig) && pile_dest.can_add_card(
                    &card,
                    &orig_kind,
                    &self.active_player,
                ) && !(is_pile_orig_one_card_tableau && pile_dest.is_empty() && match dest_kind {
                    PileType::Tableau { .. } => true,
                    _ => false,
                }) && !undo;
                proof {
                    let sofar = moves_from(board, last, player, orig_kind, to, j as int);
                    assert(action == move_of(board, orig_kind, dest_kind));
                    assert(keep == survives(board, last, player, orig_kind, dest_kind));
                    if keep {
                        assert(done + sofar.push(action) =~= (done + sofar).push(action));
                        lemma_register_all_push(before, self@, done + sofar, action);
                    }
                }
                if keep {
                    let ghost earlier = nodes_view(known_nodes@);
                    self.register_next_board(action, known_nodes, known_unvisited_nodes);
                    proof {
                        lemma_covers_all_transitive(
                            nodes_view(known_nodes@),
                            earlier,
                            before.known,
                        );
                    }
                }
                j += 1;
            }
            i += 1;
        }
    }
}

} // verus!
