//! The turn that the search finds is the best there is.
//!
//! If the search runs out of nodes to visit, and the cards of the tableau
//! of one rank and suit face alike at the start of the turn, as they do
//! when they all face up, then no plan that the player may follow in the
//! turn leads to a board with a higher score than the board of the best
//! node.

use vstd::prelude::*;

use super::board_node::play_all;
use super::board_node::NodeView;
use super::board_score::lemma_position_score;
use super::board_score::score_le;
use super::board_score::score_of;
use super::cost::cost_le;
use super::cost::cost_of;
use super::cost::move_cost;
use super::neighbors::move_of;
use super::tables::covers;
use super::closure_laws::settled;
use super::completeness_laws::lemma_initial_complete;
use super::completeness_laws::lemma_move_from_known;
use super::completeness_laws::lemma_run_complete;
use super::djikstra::SearchView;
use super::transfer_laws::lemma_transfer;
use super::turn_laws::in_turn;
use super::turn_laws::leaves_open;
use super::turn_laws::lemma_search_path_is_turn_plan;
use super::turn_laws::lemma_turn_plan_keeps;
use super::turn_laws::lemma_turn_plan_prefix;
use super::turn_laws::tableau_faces_alike;
use super::turn_laws::turn_plan;
use crate::game::board::BoardView;
use crate::game::moves::CardAction;
use crate::game::players::Player;
use crate::game::position_laws::lemma_position_rows;
use crate::game::sorting::row_keys;

verus! {

/// A node of the search whose board is the same position as a board in the
/// middle of the turn has a board in the middle of the turn too: its plan
/// leaves the turn open.
pub proof fn lemma_known_board_in_turn(
    origin: BoardView,
    board: BoardView,
    node: NodeView,
    player: Player,
)
    requires
        origin.wf(),
        tableau_faces_alike(origin, origin),
        in_turn(origin, board, player),
        node.wf_from(origin),
        node.active_player == player,
        node.board.same_position(board),
    ensures
        in_turn(origin, node.board, player),
        leaves_open(node.moves),
{
    reveal(NodeView::wf_from);
    lemma_search_path_is_turn_plan(origin, node.moves, player);
    lemma_turn_plan_keeps(origin, node.moves, player);
    if !leaves_open(node.moves) {
        lemma_position_rows(node.board, board);
        let p = player.spec_index();
        assert(row_keys(node.board.crape)[p].len() == row_keys(board.crape)[p].len());
        assert(row_keys(node.board.stock)[p].len() == row_keys(board.stock)[p].len());
        assert(node.board.crape[p].cards.len() == board.crape[p].cards.len());
        assert(node.board.stock[p].cards.len() == board.stock[p].cards.len());
        assert(node.board.crape[p].cards.len() + node.board.stock[p].cards.len()
            == board.crape[p].cards.len() + board.stock[p].cards.len());
    }
}

/// A search that runs out of nodes to visit has missed no position, and
/// no cheaper plan: if the frontier is empty at the end of the search of a
/// turn, and the cards of one rank and suit on the tableau faced alike at
/// its start, then the position of the board that any plan of the turn
/// leads to is known, at a cost that is no higher than the cost of the plan.
pub proof fn lemma_plan_is_known(origin: BoardView, player: Player, moves: Seq<CardAction>)
    requires
        origin.wf(),
        tableau_faces_alike(origin, origin),
        SearchView::initial(origin, player).run().tables.unvisited.len() == 0,
        turn_plan(origin, moves, player),
    ensures
        covers(
            SearchView::initial(origin, player).run().tables.known,
            play_all(origin, moves, player),
            cost_of(moves),
        ),
    decreases moves.len(),
{
    let start = SearchView::initial(origin, player);
    let end = start.run();
    let known = end.tables.known;
    lemma_initial_complete(origin, player);
    lemma_run_complete(start, origin, player);
    if moves.len() == 0 {
        super::closure_laws::lemma_run_closing(start);
        assert(start.tables.known[0].board == origin);
        assert(start.tables.known[0].cost =~= cost_of(moves));
        assert(covers(known, start.tables.known[0].board, start.tables.known[0].cost));
    } else {
        let shorter = moves.drop_last();
        lemma_turn_plan_prefix(origin, moves, player);
        lemma_plan_is_known(origin, player, shorter);
        let board = play_all(origin, shorter, player);
        lemma_turn_plan_keeps(origin, shorter, player);
        let j = choose|j: int|
            0 <= j < known.len() && (#[trigger] known[j]).board.same_position(board) && cost_le(
                known[j].cost,
                cost_of(shorter),
            );
        let node = known[j];
        assert(node.wf_from(origin) && node.active_player == player);
        lemma_known_board_in_turn(origin, board, node, player);
        match moves.last() {
            CardAction::Move { card, origin: from, destination: to } => {
                let like = lemma_transfer(origin, board, node.board, player, from, to);
                assert(settled(end.tables, end.max_score, node));
                lemma_move_from_known(known, node, origin, like.0, like.1);
                let reached = node.board.move_card(like.0, like.1);
                let like_move = move_of(node.board, like.0, like.1);
                let entry = move_cost(moves.last());
                super::cost::lemma_move_cost_by_rows(like_move, moves.last());
                let bound = node.cost.push(entry);
                let k = choose|k: int|
                    0 <= k < known.len() && (#[trigger] known[k]).board.same_position(reached)
                        && cost_le(known[k].cost, bound);
                assert(known[k].board.same_position(board.move_card(from, to)));
                super::cost::lemma_cost_push(node.cost, cost_of(shorter), entry);
                assert(moves =~= shorter.push(moves.last()));
                super::cost::lemma_cost_of_push(shorter, moves.last());
                super::table_laws::lemma_cost_le_transitive(known[k].cost, bound, cost_of(moves));
            },
            _ => {},
        }
    }
}

/// The turn that the search finds is the best there is: if the frontier is
/// empty at the end of the search of a turn, and the cards of the tableau
/// of one rank and suit faced alike at its start, then the board that any plan of the turn leads
/// to has a score that is at most the score of the board of the best node.
pub proof fn lemma_best_is_optimal(origin: BoardView, player: Player, moves: Seq<CardAction>)
    requires
        origin.wf(),
        tableau_faces_alike(origin, origin),
        SearchView::initial(origin, player).run().tables.unvisited.len() == 0,
        turn_plan(origin, moves, player),
    ensures
        score_le(
            score_of(play_all(origin, moves, player), player),
            score_of(SearchView::initial(origin, player).run().best_node.board, player),
        ),
{
    let start = SearchView::initial(origin, player);
    let end = start.run();
    let known = end.tables.known;
    let board = play_all(origin, moves, player);
    lemma_initial_complete(origin, player);
    lemma_run_complete(start, origin, player);
    super::closure_laws::lemma_exhaustive_search(origin, player);
    lemma_plan_is_known(origin, player, moves);
    lemma_turn_plan_keeps(origin, moves, player);
    let k = choose|k: int|
        0 <= k < known.len() && (#[trigger] known[k]).board.same_position(board) && cost_le(
            known[k].cost,
            cost_of(moves),
        );
    let node = known[k];
    assert(node.wf_from(origin) && node.active_player == player);
    assert(settled(end.tables, end.max_score, node));
    super::laws::lemma_node_score(node, origin);
    super::laws::lemma_node_score(end.best_node, origin);
    assert(node.board.wf()) by {
        reveal(NodeView::wf_from);
    }
    lemma_position_score(node.board, board, player);
}

} // verus!
