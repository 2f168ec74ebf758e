//! A search that runs out of nodes to visit has missed no position.
//!
//! When the frontier is empty, every move that the player may make in the
//! middle of the turn from the board of a known node leads to a position
//! that is known too, unless the node ends the turn.

use vstd::prelude::*;

use super::board_node::from_player_pile;
use super::board_node::play_all;
use super::board_node::step_ok;
use super::board_node::NodeView;
use super::cost::cost_of;
use super::cost::move_cost;
use super::table_laws::lemma_covers_transitive;
use super::closure_laws::is_known;
use super::closure_laws::lemma_same_node_fields;
use super::closure_laws::neighbors;
use super::closure_laws::same_node;
use super::closure_laws::visit;
use super::djikstra::mark_visited;
use super::djikstra::SearchView;
use super::laws::lemma_min_position;
use super::laws::lemma_position_in_range;
use super::laws::lemma_register_members;
use super::neighbors::last_move;
use super::neighbors::move_of;
use super::neighbors::neighbor_moves;
use super::neighbors::survives;
use super::pruning_laws::kept_destination;
use super::pruning_laws::kept_origin;
use super::pruning_laws::lemma_kept_move;
use super::pruning_laws::lemma_moves_upto_contains;
use super::turn_rules::playable;
use super::tables::covers;
use super::tables::covers_all;
use super::table_laws::lemma_register_all_is_offer_all;
use super::table_laws::lemma_register_covers;
use super::table_laws::lemma_stored_cost_is_minimum;
use super::table_laws::offer_all;
use super::tables::min_position;
use super::tables::Tables;
use crate::game::board::lemma_move_keeps_wf;
use crate::game::board::BoardView;
use crate::game::moves::CardAction;
use crate::game::piles::PileType;
use crate::game::players::Player;
use crate::game::symmetry_laws::lemma_lone_card_to_empty;
use crate::game::symmetry_laws::lemma_move_back;
use crate::game::symmetry_laws::movable;

verus! {

/// The board before the last move of the plan of `node`, in the search
/// that started from `origin`.
pub open spec fn before_last(origin: BoardView, node: NodeView) -> BoardView {
    play_all(origin, node.moves.drop_last(), node.active_player)
}

/// Whether the table holds a node for the position before the last move of
/// the plan of `node`, that costs no more than the plan without that move.
pub open spec fn ancestor_known(known: Seq<NodeView>, origin: BoardView, node: NodeView) -> bool {
    covers(known, before_last(origin, node), cost_of(node.moves.drop_last()))
}

/// Whether the table holds, for each of its nodes that has a plan, a node
/// for the position before the last move of that plan, that costs no more
/// than the plan without that move.
pub open spec fn ancestors_known(known: Seq<NodeView>, origin: BoardView) -> bool {
    forall|i: int|
        0 <= i < known.len() && (#[trigger] known[i]).moves.len() > 0 ==> ancestor_known(
            known,
            origin,
            known[i],
        )
}

/// Offering a node whose position before its last move is known keeps the
/// positions before the last moves known.
pub proof fn lemma_register_ancestors(tables: Tables, node: NodeView, origin: BoardView)
    requires
        ancestors_known(tables.known, origin),
        node.moves.len() > 0 ==> ancestor_known(tables.known, origin, node),
    ensures
        ancestors_known(tables.register(node).known, origin),
{
    let after = tables.register(node).known;
    lemma_register_members(tables, node);
    lemma_register_covers(tables, node);
    assert forall|i: int| 0 <= i < after.len() && (#[trigger] after[i]).moves.len()
        > 0 implies ancestor_known(after, origin, after[i]) by {
        if after[i] != node {
            assert(tables.known.contains(after[i]));
            let x = choose|x: int| 0 <= x < tables.known.len() && tables.known[x] == after[i];
            assert(ancestor_known(tables.known, origin, tables.known[x]));
        }
        lemma_covers_transitive(
            after,
            tables.known,
            before_last(origin, after[i]),
            cost_of(after[i].moves.drop_last()),
        );
    }
}

/// Offering nodes whose positions before their last moves are known keeps
/// the positions before the last moves known.
pub proof fn lemma_offer_all_ancestors(tables: Tables, offers: Seq<NodeView>, origin: BoardView)
    requires
        ancestors_known(tables.known, origin),
        forall|k: int|
            0 <= k < offers.len() && (#[trigger] offers[k]).moves.len() > 0 ==> ancestor_known(
                tables.known,
                origin,
                offers[k],
            ),
    ensures
        ancestors_known(offer_all(tables, offers).known, origin),
    decreases offers.len(),
{
    if offers.len() > 0 {
        let shorter = offers.drop_last();
        let node = offers.last();
        assert forall|k: int| 0 <= k < shorter.len() && (#[trigger] shorter[k]).moves.len()
            > 0 implies ancestor_known(tables.known, origin, shorter[k]) by {
            assert(shorter[k] == offers[k]);
        }
        lemma_offer_all_ancestors(tables, shorter, origin);
        let middle = offer_all(tables, shorter);
        lemma_stored_cost_is_minimum(tables, shorter);
        assert(offers[offers.len() - 1] == node);
        if node.moves.len() > 0 {
            lemma_covers_transitive(
                middle.known,
                tables.known,
                before_last(origin, node),
                cost_of(node.moves.drop_last()),
            );
        }
        lemma_register_ancestors(middle, node, origin);
    }
}

/// The position before the last move of the plan of a neighbour of a node
/// of the search is the position of the node.
pub proof fn lemma_neighbor_comes_from(node: NodeView, origin: BoardView, k: int)
    requires
        node.wf_from(origin),
        0 <= k < neighbors(node).len(),
    ensures
        neighbors(node)[k].moves.len() > 0,
        before_last(origin, neighbors(node)[k]) == node.board,
        cost_of(neighbors(node)[k].moves.drop_last()) == node.cost,
{
    reveal(NodeView::wf_from);
    let action = neighbor_moves(node)[k];
    let child = neighbors(node)[k];
    assert(child == node.child(action));
    assert(child.moves.drop_last() =~= node.moves);
}

/// The visit of a node of the search keeps the positions before the last
/// moves known.
pub proof fn lemma_visit_ancestors(tables: Tables, m: int, visited: nat, origin: BoardView)
    requires
        ancestors_known(tables.known, origin),
        0 <= m < tables.unvisited.len(),
        tables.unvisited[m].wf_from(origin),
        is_known(tables.known, tables.unvisited[m]),
    ensures
        ancestors_known(visit(tables, m, visited).known, origin),
{
    let known = tables.known;
    let node = tables.unvisited[m];
    let popped = Tables { known, unvisited: tables.unvisited.remove(m) };
    let x0 = choose|x: int| 0 <= x < known.len() && same_node(#[trigger] known[x], node);
    lemma_same_node_fields(known[x0], node);
    assert(known[x0].board.same_position(node.board));
    assert(covers(known, node.board, node.cost));
    let offers = neighbors(node);
    lemma_register_all_is_offer_all(popped, node, neighbor_moves(node));
    assert forall|k: int| 0 <= k < offers.len() && (#[trigger] offers[k]).moves.len()
        > 0 implies ancestor_known(popped.known, origin, offers[k]) by {
        lemma_neighbor_comes_from(node, origin, k);
    }
    lemma_offer_all_ancestors(popped, offers, origin);
    let expanded = offer_all(popped, offers).known;
    let marked = mark_visited(expanded, node.board, visited);
    lemma_position_in_range(expanded, node.board, 0);
    assert forall|i: int| 0 <= i < marked.len() implies same_node(
        #[trigger] marked[i],
        expanded[i],
    ) by {}
    assert(covers_all(marked, expanded)) by {
        assert forall|i: int| 0 <= i < expanded.len() implies covers(
            marked,
            (#[trigger] expanded[i]).board,
            expanded[i].cost,
        ) by {
            assert(same_node(marked[i], expanded[i]));
            assert(marked[i].board.same_position(expanded[i].board));
        }
    }
    assert forall|i: int| 0 <= i < marked.len() && (#[trigger] marked[i]).moves.len()
        > 0 implies ancestor_known(marked, origin, marked[i]) by {
        assert(same_node(marked[i], expanded[i]));
        lemma_same_node_fields(marked[i], expanded[i]);
        assert(ancestor_known(expanded, origin, expanded[i]));
        lemma_covers_transitive(
            marked,
            expanded,
            before_last(origin, expanded[i]),
            cost_of(expanded[i].moves.drop_last()),
        );
    }
}

impl SearchView {
    /// What holds all along the search of the turn of `player` that started
    /// from `origin`: its invariant, what holds of its tables, and that the
    /// position before the last move of each known plan is known.
    pub open spec fn complete(self, origin: BoardView, player: Player) -> bool {
        &&& self.inv(origin, player)
        &&& self.closing()
        &&& ancestors_known(self.tables.known, origin)
    }
}

/// One visit keeps what holds all along a search.
pub proof fn lemma_step_complete(search: SearchView, origin: BoardView, player: Player)
    requires
        origin.wf(),
        search.complete(origin, player),
        search.can_step(),
    ensures
        search.step().complete(origin, player),
{
    super::laws::lemma_step_keeps_inv(search, origin, player);
    super::closure_laws::lemma_step_closing(search);
    let m = min_position(search.tables.unvisited);
    lemma_min_position(search.tables.unvisited, 0, 1);
    assert(search.tables.unvisited[m].wf_from(origin));
    lemma_visit_ancestors(search.tables, m, search.nb_nodes_visited + 1, origin);
}

/// A search that runs to its end keeps what holds all along it.
pub proof fn lemma_run_complete(search: SearchView, origin: BoardView, player: Player)
    requires
        origin.wf(),
        search.complete(origin, player),
    ensures
        search.run().complete(origin, player),
    decreases usize::MAX - search.nb_nodes_visited,
{
    if search.can_step() {
        lemma_step_complete(search, origin, player);
        lemma_run_complete(search.step(), origin, player);
    }
}

/// The search of a turn starts in a state in which all holds that holds
/// all along it.
pub proof fn lemma_initial_complete(origin: BoardView, player: Player)
    requires
        origin.wf(),
    ensures
        SearchView::initial(origin, player).complete(origin, player),
{
    let start = SearchView::initial(origin, player);
    let first = start.best_node;
    super::laws::lemma_initial_inv(origin, player);
    assert(start.tables.known[0] == first);
    assert(start.tables.unvisited[0] == first);
    assert(same_node(start.tables.known[0], start.tables.unvisited[0]));
    assert(start.tables.unvisited[0].board.same_position(first.board));
    assert(start.closing());
}

/// A search that runs out of nodes to visit has missed no position that
/// one move leads to. At the end of the search of a turn, if the frontier is
/// empty, every move that the player may make in the middle of the turn
/// from the board of a known node, whose plan does not end with a move from
/// the crape or the stock, leads to a position that is known, at a cost
/// that is no higher than the cost of the node followed by the move.
pub proof fn lemma_no_position_lost(
    origin: BoardView,
    player: Player,
    i: int,
    from: PileType,
    to: PileType,
)
    requires
        origin.wf(),
        SearchView::initial(origin, player).run().tables.unvisited.len() == 0,
        0 <= i < SearchView::initial(origin, player).run().tables.known.len(),
        ({
            let node = SearchView::initial(origin, player).run().tables.known[i];
            &&& !(node.moves.len() > 0 && from_player_pile(node.moves.last()))
            &&& playable(node.board, player, from, to)
        }),
    ensures
        covers(
            SearchView::initial(origin, player).run().tables.known,
            SearchView::initial(origin, player).run().tables.known[i].board.move_card(from, to),
            SearchView::initial(origin, player).run().tables.known[i].cost.push(
                move_cost(
                    move_of(
                        SearchView::initial(origin, player).run().tables.known[i].board,
                        from,
                        to,
                    ),
                ),
            ),
        ),
{
    let start = SearchView::initial(origin, player);
    lemma_initial_complete(origin, player);
    lemma_run_complete(start, origin, player);
    let end = start.run();
    let known = end.tables.known;
    let node = known[i];
    assert(node.wf_from(origin) && node.active_player == player);
    assert(super::closure_laws::settled(end.tables, end.max_score, node));
    lemma_move_from_known(known, node, origin, from, to);
}

/// A move that the player may make in the middle of the turn from the
/// board of a known node leads to a known position, at a cost that is no
/// higher than the cost of the node followed by the move, if the positions
/// of the neighbours of the node and the position before its last move are
/// known at the costs of their plans.
pub proof fn lemma_move_from_known(
    known: Seq<NodeView>,
    node: NodeView,
    origin: BoardView,
    from: PileType,
    to: PileType,
)
    requires
        node.wf_from(origin),
        known.contains(node),
        covers_all(known, neighbors(node)),
        node.moves.len() > 0 ==> ancestor_known(known, origin, node),
        !(node.moves.len() > 0 && from_player_pile(node.moves.last())),
        playable(node.board, node.active_player, from, to),
    ensures
        covers(
            known,
            node.board.move_card(from, to),
            node.cost.push(move_cost(move_of(node.board, from, to))),
        ),
{
    reveal(NodeView::wf_from);
    let board = node.board;
    let player = node.active_player;
    let last = last_move(node.moves);
    lemma_kept_move(board, player, from, to);
    let kept_from = kept_origin(board, from);
    let kept_to = kept_destination(board, to);
    let reached = board.move_card(kept_from, kept_to);
    let x = choose|x: int| 0 <= x < known.len() && known[x] == node;
    let all_from = super::candidates::origins(board, player);
    let all_to = super::candidates::destinations(board, player);
    let a = choose|a: int| 0 <= a < all_from.len() && all_from[a] == kept_from;
    let b = choose|b: int| 0 <= b < all_to.len() && all_to[b] == kept_to;
    let target = board.move_card(from, to);
    let bound = node.cost.push(move_cost(move_of(board, from, to)));
    super::cost::lemma_move_cost_by_rows(
        move_of(board, kept_from, kept_to),
        move_of(board, from, to),
    );
    if survives(board, last, player, kept_from, kept_to) {
        lemma_moves_upto_contains(
            board,
            last,
            player,
            all_from,
            all_to,
            all_from.len() as int,
            a,
            b,
        );
        let moves = neighbor_moves(node);
        let action = move_of(board, kept_from, kept_to);
        assert(moves.contains(action));
        let k = choose|k: int| 0 <= k < moves.len() && moves[k] == action;
        let child = neighbors(node)[k];
        assert(child == node.child(action));
        assert(child.board == reached);
        assert(child.cost == bound);
        assert(covers(known, child.board, child.cost));
        let j = choose|j: int|
            0 <= j < known.len() && (#[trigger] known[j]).board.same_position(child.board)
                && super::cost::cost_le(known[j].cost, child.cost);
        assert(known[j].board.same_position(target));
    } else if kept_from is Tableau && board.pile(kept_from).cards.len() == 1 && kept_to is Tableau
        && board.pile(kept_to).cards.len() == 0 {
        lemma_lone_card_to_empty(board, kept_from, kept_to);
        assert(known[x].board.same_position(target));
        assert(super::cost::cost_le(known[x].cost, bound));
    } else {
        // the move takes the last move back
        let n = node.moves.len() - 1;
        let previous = node.moves[n];
        assert(step_ok(origin, node.moves, n, player));
        assert(node.moves.take(n) =~= node.moves.drop_last());
        let before = before_last(origin, node);
        match previous {
            CardAction::Move { origin: a_kind, destination: b_kind, .. } => {
                super::turn_rules::lemma_playable_legal(before, previous, player);
                lemma_move_keeps_wf(before, a_kind, b_kind, player);
                assert(board == before.move_card(a_kind, b_kind));
                assert(movable(before, a_kind, b_kind));
                lemma_move_back(before, a_kind, b_kind, kept_from, kept_to);
                assert(reached == before);
                let shorter = cost_of(node.moves.drop_last());
                assert(ancestor_known(known, origin, node));
                let j = choose|j: int|
                    0 <= j < known.len() && (#[trigger] known[j]).board.same_position(before)
                        && super::cost::cost_le(known[j].cost, shorter);
                assert(known[j].board.same_position(target));
                assert(shorter.len() < bound.len());
                super::table_laws::lemma_cost_le_transitive(known[j].cost, shorter, bound);
            },
            _ => {},
        }
    }
}

} // verus!
