//! What holds of every search.
//!
//! The nodes that a search holds are all reached from the board that it
//! started from by plans that the rules allow; the node that it ends with is
//! worth at least as much as that board; and a table never trades a plan for
//! one that costs more.

use vstd::prelude::*;

use super::board_node::from_player_pile;
use super::board_node::lemma_play_all_push;
use super::board_node::lemma_search_path_push;
use super::board_node::node_lt;
use super::board_node::play_all;
use super::board_node::search_path;
use super::board_node::step_ok;
use super::board_node::undoes;
use super::board_node::NodeView;
use super::board_score::score_le;
use super::board_score::score_lt;
use super::board_score::score_lt_from;
use super::board_score::score_of;
use super::candidates::destinations;
use super::candidates::origins;
use super::cost::cost_lt;
use super::cost::lemma_cost_of_push;
use super::djikstra::closing_actions;
use super::djikstra::lemma_closing_legal;
use super::djikstra::mark_visited;
use super::djikstra::worse_score_values;
use super::djikstra::SearchView;
use super::neighbors::last_move;
use super::neighbors::lemma_destination;
use super::neighbors::lemma_origin;
use super::neighbors::move_of;
use super::neighbors::moves_from;
use super::neighbors::moves_upto;
use super::neighbors::neighbor_moves;
use super::neighbors::survives;
use super::tables::min_position_from;
use super::tables::position_from;
use super::tables::position_of;
use super::turn_rules::lemma_playable_legal;
use super::turn_rules::playable;
use super::turn_rules::playable_action;
use super::tables::Tables;
use crate::game::board::lemma_move_keeps_wf;
use crate::game::board::BoardView;
use crate::game::moves::CardAction;
use crate::game::players::Player;

verus! {

/// Whether each action of `actions` is legal for `player` on the board that
/// the actions before it have made of `board`.
pub open spec fn legal_sequence(
    board: BoardView,
    actions: Seq<CardAction>,
    player: Player,
) -> bool {
    forall|i: int|
        0 <= i < actions.len() ==> play_all(board, actions.take(i), player).legal(
            #[trigger] actions[i],
            player,
        )
}

/// Whether `action` is a move that the search may make for `player` on
/// `board` after the move `last`: a move that the player may make in the
/// middle of the turn and that does not take `last` back.
pub open spec fn good_move(
    board: BoardView,
    last: Option<CardAction>,
    player: Player,
    action: CardAction,
) -> bool {
    &&& playable_action(board, action, player)
    &&& !(last matches Some(previous) && undoes(previous, action))
}

/// Whether each node of `nodes` is a node of `player` that meets the
/// invariant of the search that started from `origin`.
pub open spec fn all_wf_from(nodes: Seq<NodeView>, origin: BoardView, player: Player) -> bool {
    forall|i: int|
        0 <= i < nodes.len() ==> (#[trigger] nodes[i]).wf_from(origin) && nodes[i].active_player
            == player
}

impl SearchView {
    /// The invariant of the search of the turn of `player` that started
    /// from `origin`:
    /// - each node that it holds is reached from `origin` by a plan of the
    ///   search;
    /// - before the first visit the frontier holds the node of `origin`
    ///   alone and no score has been seen;
    /// - from the first visit on the best node has the highest score seen,
    ///   which is at least the score of `origin`.
    pub open spec fn inv(self, origin: BoardView, player: Player) -> bool {
        &&& all_wf_from(self.tables.known, origin, player)
        &&& all_wf_from(self.tables.unvisited, origin, player)
        &&& self.best_node.wf_from(origin)
        &&& self.best_node.active_player == player
        &&& self.max_score.len() == 12
        &&& self.nb_nodes_visited == 0 ==> {
            &&& self.tables.unvisited == SearchView::initial(origin, player).tables.unvisited
            &&& self.max_score == worse_score_values()
        }
        &&& self.nb_nodes_visited > 0 ==> {
            &&& score_le(score_of(origin, player), self.max_score)
            &&& self.best_node.score == self.max_score
        }
    }
}

/// In a plan of the search only the last move may come from the crape or the
/// stock: there is at most one such move, and no move follows it.
pub proof fn lemma_terminal_origin(board: BoardView, moves: Seq<CardAction>, player: Player)
    requires
        search_path(board, moves, player),
    ensures
        forall|i: int| 0 <= i < moves.len() - 1 ==> !from_player_pile(#[trigger] moves[i]),
{
    assert forall|i: int| 0 <= i < moves.len() - 1 implies !from_player_pile(
        #[trigger] moves[i],
    ) by {
        assert(step_ok(board, moves, i, player));
    }
}

/// In a plan of the search no move takes back the move before it.
pub proof fn lemma_no_undo(board: BoardView, moves: Seq<CardAction>, player: Player)
    requires
        search_path(board, moves, player),
    ensures
        forall|i: int| 0 <= i < moves.len() - 1 ==> !undoes(#[trigger] moves[i], moves[i + 1]),
{
    assert forall|i: int| 0 <= i < moves.len() - 1 implies !undoes(
        #[trigger] moves[i],
        moves[i + 1],
    ) by {
        assert(step_ok(board, moves, i, player));
    }
}

/// Each move of a plan of the search is legal on the board that the moves
/// before it have made, and that board meets its invariant.
pub proof fn lemma_search_path_legal(board: BoardView, moves: Seq<CardAction>, player: Player)
    requires
        search_path(board, moves, player),
    ensures
        legal_sequence(board, moves, player),
        forall|i: int| 0 <= i < moves.len() ==> (#[trigger] moves[i]) is Move,
{
    assert forall|i: int| 0 <= i < moves.len() implies play_all(
        board,
        moves.take(i),
        player,
    ).legal(#[trigger] moves[i], player) && moves[i] is Move by {
        assert(step_ok(board, moves, i, player));
        lemma_playable_legal(play_all(board, moves.take(i), player), moves[i], player);
    }
}

/// A plan of the search followed by the action that closes the turn on the
/// board that it leads to is a sequence of legal actions.
pub proof fn lemma_turn_legal(board: BoardView, moves: Seq<CardAction>, player: Player)
    requires
        search_path(board, moves, player),
        play_all(board, moves, player).shape(),
    ensures
        legal_sequence(
            board,
            moves + closing_actions(play_all(board, moves, player), player),
            player,
        ),
{
    let end = play_all(board, moves, player);
    let closing = closing_actions(end, player);
    let turn = moves + closing;
    lemma_closing_legal(end, player);
    lemma_search_path_legal(board, moves, player);
    assert forall|i: int| 0 <= i < turn.len() implies play_all(board, turn.take(i), player).legal(
        #[trigger] turn[i],
        player,
    ) by {
        if i < moves.len() {
            assert(turn.take(i) =~= moves.take(i));
            assert(turn[i] == moves[i]);
        } else {
            assert(turn.take(i) =~= moves);
            assert(turn[i] == closing[0]);
        }
    }
}

/// Each move that the search keeps from one of its origins is a legal move
/// that does not take back the last move.
pub proof fn lemma_moves_from_good(
    board: BoardView,
    last: Option<CardAction>,
    player: Player,
    i: int,
    n: int,
)
    requires
        board.shape(),
        0 <= i < origins(board, player).len(),
        0 <= n <= destinations(board, player).len(),
    ensures
        forall|x: int|
            0 <= x < moves_from(
                board,
                last,
                player,
                origins(board, player)[i],
                destinations(board, player),
                n,
            ).len() ==> good_move(
                board,
                last,
                player,
                #[trigger] moves_from(
                    board,
                    last,
                    player,
                    origins(board, player)[i],
                    destinations(board, player),
                    n,
                )[x],
            ),
    decreases n,
{
    if n > 0 {
        lemma_moves_from_good(board, last, player, i, n - 1);
        lemma_origin(board, player, i);
        lemma_destination(board, player, n - 1);
        let from = origins(board, player)[i];
        let to = destinations(board, player);
        let shorter = moves_from(board, last, player, from, to, n - 1);
        let longer = moves_from(board, last, player, from, to, n);
        assert forall|x: int| 0 <= x < longer.len() implies good_move(
            board,
            last,
            player,
            #[trigger] longer[x],
        ) by {
            if x < shorter.len() {
                assert(longer[x] == shorter[x]);
            } else {
                assert(survives(board, last, player, from, to[n - 1]));
                assert(longer[x] == move_of(board, from, to[n - 1]));
                assert(playable(board, player, from, to[n - 1]));
            }
        }
    }
}

/// Each move that the search keeps from its first `n` origins is a legal
/// move that does not take back the last move.
pub proof fn lemma_moves_upto_good(
    board: BoardView,
    last: Option<CardAction>,
    player: Player,
    n: int,
)
    requires
        board.shape(),
        0 <= n <= origins(board, player).len(),
    ensures
        forall|x: int|
            0 <= x < moves_upto(
                board,
                last,
                player,
                origins(board, player),
                destinations(board, player),
                n,
            ).len() ==> good_move(
                board,
                last,
                player,
                #[trigger] moves_upto(
                    board,
                    last,
                    player,
                    origins(board, player),
                    destinations(board, player),
                    n,
                )[x],
            ),
    decreases n,
{
    if n > 0 {
        lemma_moves_upto_good(board, last, player, n - 1);
        lemma_moves_from_good(
            board,
            last,
            player,
            n - 1,
            destinations(board, player).len() as int,
        );
        let from = origins(board, player);
        let to = destinations(board, player);
        let before = moves_upto(board, last, player, from, to, n - 1);
        let added = moves_from(board, last, player, from[n - 1], to, to.len() as int);
        let all = moves_upto(board, last, player, from, to, n);
        assert(all == before + added);
        assert forall|x: int| 0 <= x < all.len() implies good_move(
            board,
            last,
            player,
            #[trigger] all[x],
        ) by {
            if x < before.len() {
                assert(all[x] == before[x]);
            } else {
                assert(all[x] == added[x - before.len()]);
            }
        }
    }
}

/// The child of a node of a search by a move that the search may make is a
/// node of that search.
pub proof fn lemma_child_wf_from(node: NodeView, origin: BoardView, action: CardAction)
    requires
        node.wf_from(origin),
        good_move(node.board, last_move(node.moves), node.active_player, action),
        node.moves.len() > 0 ==> !from_player_pile(node.moves.last()),
    ensures
        node.child(action).wf_from(origin),
{
    reveal(NodeView::wf_from);
    let player = node.active_player;
    lemma_playable_legal(node.board, action, player);
    lemma_play_all_push(origin, node.moves, action, player);
    lemma_search_path_push(origin, node.moves, action, player);
    lemma_cost_of_push(node.moves, action);
    match action {
        CardAction::Move { origin: from, destination, .. } => {
            lemma_move_keeps_wf(node.board, from, destination, player);
        },
        _ => {},
    }
}

/// Each neighbour of a node of a search is a node of that search.
pub proof fn lemma_neighbors_wf_from(node: NodeView, origin: BoardView)
    requires
        node.wf_from(origin),
    ensures
        forall|k: int|
            0 <= k < neighbor_moves(node).len() ==> node.child(
                #[trigger] neighbor_moves(node)[k],
            ).wf_from(origin),
{
    let moves = neighbor_moves(node);
    if moves.len() > 0 {
        lemma_moves_upto_good(
            node.board,
            last_move(node.moves),
            node.active_player,
            origins(node.board, node.active_player).len() as int,
        );
        assert forall|k: int| 0 <= k < moves.len() implies node.child(
            #[trigger] moves[k],
        ).wf_from(origin) by {
            lemma_child_wf_from(node, origin, moves[k]);
        }
    }
}

/// Whether each node of `after` is `node` or a node of `before`.
pub open spec fn drawn_from(after: Seq<NodeView>, before: Seq<NodeView>, node: NodeView) -> bool {
    forall|k: int|
        0 <= k < after.len() ==> (#[trigger] after[k]) == node || before.contains(after[k])
}

/// The tables that a node has been offered to hold that node and nodes that
/// they held before, and no other.
pub proof fn lemma_register_members(tables: Tables, node: NodeView)
    ensures
        drawn_from(tables.register(node).known, tables.known, node),
        drawn_from(tables.register(node).unvisited, tables.unvisited, node),
{
    let after = tables.register(node);
    let i = position_of(tables.known, node.board);
    let j = position_of(tables.unvisited, node.board);
    lemma_position_in_range(tables.known, node.board, 0);
    lemma_position_in_range(tables.unvisited, node.board, 0);
    assert forall|k: int| 0 <= k < after.known.len() implies (#[trigger] after.known[k]) == node
        || tables.known.contains(after.known[k]) by {
        if i >= tables.known.len() {
            if k < tables.known.len() {
                assert(after.known[k] == tables.known[k]);
            }
        } else if cost_lt(node.cost, tables.known[i].cost) {
            if k < after.known.len() - 1 {
                if k < i {
                    assert(after.known[k] == tables.known[k]);
                } else {
                    assert(after.known[k] == tables.known[k + 1]);
                }
            }
        } else {
            assert(after.known[k] == tables.known[k]);
        }
    }
    assert forall|k: int| 0 <= k < after.unvisited.len() implies (#[trigger] after.unvisited[k])
        == node || tables.unvisited.contains(after.unvisited[k]) by {
        if i >= tables.known.len() {
            if k < tables.unvisited.len() {
                assert(after.unvisited[k] == tables.unvisited[k]);
            }
        } else if cost_lt(node.cost, tables.known[i].cost) {
            if j < tables.unvisited.len() {
                if k < after.unvisited.len() - 1 {
                    if k < j {
                        assert(after.unvisited[k] == tables.unvisited[k]);
                    } else {
                        assert(after.unvisited[k] == tables.unvisited[k + 1]);
                    }
                }
            } else {
                if k < tables.unvisited.len() {
                    assert(after.unvisited[k] == tables.unvisited[k]);
                }
            }
        } else {
            assert(after.unvisited[k] == tables.unvisited[k]);
        }
    }
}

/// A table whose nodes are drawn from nodes of a search holds nodes of that
/// search.
pub proof fn lemma_drawn_wf_from(
    after: Seq<NodeView>,
    before: Seq<NodeView>,
    node: NodeView,
    origin: BoardView,
    player: Player,
)
    requires
        drawn_from(after, before, node),
        all_wf_from(before, origin, player),
        node.wf_from(origin),
        node.active_player == player,
    ensures
        all_wf_from(after, origin, player),
{
    assert forall|k: int| 0 <= k < after.len() implies (#[trigger] after[k]).wf_from(origin)
        && after[k].active_player == player by {
        if after[k] != node {
            assert(before.contains(after[k]));
            let x = choose|x: int| 0 <= x < before.len() && before[x] == after[k];
            assert(before[x].wf_from(origin));
        }
    }
}

/// Offering a node of a search to tables of nodes of that search leaves
/// tables of nodes of that search.
pub proof fn lemma_register_wf_from(
    tables: Tables,
    node: NodeView,
    origin: BoardView,
    player: Player,
)
    requires
        all_wf_from(tables.known, origin, player),
        all_wf_from(tables.unvisited, origin, player),
        node.wf_from(origin),
        node.active_player == player,
    ensures
        all_wf_from(tables.register(node).known, origin, player),
        all_wf_from(tables.register(node).unvisited, origin, player),
{
    lemma_register_members(tables, node);
    lemma_drawn_wf_from(tables.register(node).known, tables.known, node, origin, player);
    lemma_drawn_wf_from(tables.register(node).unvisited, tables.unvisited, node, origin, player);
}

/// The position at which a table holds a node for a position lies within the
/// table or just behind it, and no node before it is for that position.
pub proof fn lemma_position_in_range(nodes: Seq<NodeView>, board: BoardView, k: int)
    requires
        0 <= k <= nodes.len(),
    ensures
        k <= position_from(nodes, board, k) <= nodes.len(),
        position_from(nodes, board, k) < nodes.len() ==> nodes[position_from(
            nodes,
            board,
            k,
        )].board.same_position(board),
        forall|x: int|
            k <= x < position_from(nodes, board, k) ==> !(#[trigger] nodes[x]).board.same_position(
                board,
            ),
    decreases nodes.len() - k,
{
    if k < nodes.len() && !nodes[k].board.same_position(board) {
        lemma_position_in_range(nodes, board, k + 1);
    }
}

/// Offering the children of a node of a search by moves that the search may
/// make leaves tables of nodes of that search.
pub proof fn lemma_register_all_wf_from(
    tables: Tables,
    node: NodeView,
    moves: Seq<CardAction>,
    origin: BoardView,
    player: Player,
)
    requires
        all_wf_from(tables.known, origin, player),
        all_wf_from(tables.unvisited, origin, player),
        node.active_player == player,
        forall|k: int| 0 <= k < moves.len() ==> node.child(#[trigger] moves[k]).wf_from(origin),
    ensures
        all_wf_from(tables.register_all(node, moves).known, origin, player),
        all_wf_from(tables.register_all(node, moves).unvisited, origin, player),
    decreases moves.len(),
{
    if moves.len() > 0 {
        let shorter = moves.drop_last();
        assert forall|k: int| 0 <= k < shorter.len() implies node.child(
            #[trigger] shorter[k],
        ).wf_from(origin) by {
            assert(shorter[k] == moves[k]);
        }
        lemma_register_all_wf_from(tables, node, shorter, origin, player);
        assert(node.child(moves[moves.len() - 1]).wf_from(origin));
        lemma_register_wf_from(
            tables.register_all(node, shorter),
            node.child(moves.last()),
            origin,
            player,
        );
    }
}

/// The position of the node that comes first in a frontier lies within the
/// frontier, and no node of the frontier comes before that node.
pub proof fn lemma_min_position(nodes: Seq<NodeView>, best: int, k: int)
    requires
        0 <= best < k <= nodes.len(),
    ensures
        0 <= min_position_from(nodes, best, k) < nodes.len(),
    decreases nodes.len() - k,
{
    if k < nodes.len() {
        if node_lt(nodes[k], nodes[best]) {
            lemma_min_position(nodes, k, k + 1);
        } else {
            lemma_min_position(nodes, best, k + 1);
        }
    }
}

/// The order of scores is transitive.
pub proof fn lemma_score_lt_transitive(a: Seq<int>, b: Seq<int>, c: Seq<int>, k: int)
    requires
        a.len() == b.len(),
        b.len() == c.len(),
        0 <= k,
        score_lt_from(a, b, k),
        score_lt_from(b, c, k),
    ensures
        score_lt_from(a, c, k),
    decreases a.len() - k,
{
    if k < a.len() {
        if a[k] == b[k] && b[k] == c[k] {
            lemma_score_lt_transitive(a, b, c, k + 1);
        }
    }
}

/// One visit leaves tables of nodes of the search.
pub proof fn lemma_step_tables(search: SearchView, origin: BoardView, player: Player)
    requires
        all_wf_from(search.tables.known, origin, player),
        all_wf_from(search.tables.unvisited, origin, player),
        search.tables.unvisited.len() > 0,
    ensures
        all_wf_from(search.step().tables.known, origin, player),
        all_wf_from(search.step().tables.unvisited, origin, player),
        0 <= super::tables::min_position(search.tables.unvisited) < search.tables.unvisited.len(),
{
    let unvisited = search.tables.unvisited;
    let m = super::tables::min_position(unvisited);
    lemma_min_position(unvisited, 0, 1);
    let node = unvisited[m];
    assert(node.wf_from(origin) && node.active_player == player);
    let popped = Tables { known: search.tables.known, unvisited: unvisited.remove(m) };
    assert(drawn_from(popped.unvisited, unvisited, node)) by {
        assert forall|k: int| 0 <= k < popped.unvisited.len() implies (
        #[trigger] popped.unvisited[k]) == node || unvisited.contains(popped.unvisited[k]) by {
            if k < m {
                assert(popped.unvisited[k] == unvisited[k]);
            } else {
                assert(popped.unvisited[k] == unvisited[k + 1]);
            }
        }
    }
    lemma_drawn_wf_from(popped.unvisited, unvisited, node, origin, player);
    lemma_neighbors_wf_from(node, origin);
    lemma_register_all_wf_from(popped, node, neighbor_moves(node), origin, player);
    let expanded = popped.register_all(node, neighbor_moves(node));
    let visited = search.nb_nodes_visited + 1;
    lemma_mark_wf_from(expanded.known, node.board, visited, origin, player);
}

/// Giving a node its visit index leaves a table of nodes of the search.
pub proof fn lemma_mark_wf_from(
    known: Seq<NodeView>,
    board: BoardView,
    index: nat,
    origin: BoardView,
    player: Player,
)
    requires
        all_wf_from(known, origin, player),
    ensures
        all_wf_from(mark_visited(known, board, index), origin, player),
{
    reveal(NodeView::wf_from);
    let marked = mark_visited(known, board, index);
    lemma_position_in_range(known, board, 0);
    assert forall|k: int| 0 <= k < marked.len() implies (#[trigger] marked[k]).wf_from(origin)
        && marked[k].active_player == player by {
        assert(known[k].wf_from(origin));
    }
}

/// One visit keeps the invariant of a search, and the highest score seen
/// does not go down.
pub proof fn lemma_step_keeps_inv(search: SearchView, origin: BoardView, player: Player)
    requires
        origin.wf(),
        search.inv(origin, player),
        search.can_step(),
    ensures
        search.step().inv(origin, player),
        score_le(search.max_score, search.step().max_score),
        search.step().nb_nodes_visited == search.nb_nodes_visited + 1,
{
    lemma_step_tables(search, origin, player);
    let unvisited = search.tables.unvisited;
    let m = super::tables::min_position(unvisited);
    let node = unvisited[m];
    assert(node.wf_from(origin) && node.active_player == player);
    lemma_node_score(node, origin);
    let seed = score_of(origin, player);
    if search.nb_nodes_visited == 0 {
        assert(m == 0);
        assert(node.score == seed);
        assert(search.max_score[0] < node.score[0]);
        assert(score_lt(search.max_score, node.score));
    } else if score_lt(search.max_score, node.score) {
        if seed != search.max_score {
            lemma_score_lt_transitive(seed, search.max_score, node.score, 0);
        }
    }
}

/// The score of a node of a search is the score of its board; it has twelve
/// values, and the first is not below zero.
pub proof fn lemma_node_score(node: NodeView, origin: BoardView)
    requires
        node.wf_from(origin),
    ensures
        node.score == score_of(node.board, node.active_player),
        node.score.len() == 12,
        node.score[0] >= 0,
{
    reveal(NodeView::wf_from);
}

/// A search that runs to its end keeps its invariant, never lowers the
/// highest score seen, and stops only when no visit is left to make.
pub proof fn lemma_run_keeps_inv(search: SearchView, origin: BoardView, player: Player)
    requires
        origin.wf(),
        search.inv(origin, player),
    ensures
        search.run().inv(origin, player),
        !search.run().can_step(),
        search.run().nb_nodes_visited >= search.nb_nodes_visited,
        search.can_step() ==> search.run().nb_nodes_visited > search.nb_nodes_visited,
    decreases usize::MAX - search.nb_nodes_visited,
{
    if search.can_step() {
        lemma_step_keeps_inv(search, origin, player);
        lemma_run_keeps_inv(search.step(), origin, player);
    }
}

/// The search of a turn starts in a state that meets its invariant.
pub proof fn lemma_initial_inv(origin: BoardView, player: Player)
    requires
        origin.wf(),
    ensures
        SearchView::initial(origin, player).inv(origin, player),
        SearchView::initial(origin, player).can_step(),
{
    reveal(NodeView::wf_from);
    let start = SearchView::initial(origin, player);
    let first = start.best_node;
    assert(super::cost::cost_of(first.moves) =~= first.cost);
    assert(first.wf_from(origin));
    assert(start.tables.known[0] == first);
    assert(start.tables.unvisited[0] == first);
}

/// What holds of the end of the search of a turn: the best node is reached
/// by a plan of the search, which with the action that closes the turn is a
/// sequence of legal actions; its board is worth at least as much as the
/// board that the search started from; and at least one node was visited.
pub proof fn lemma_search_result(origin: BoardView, player: Player)
    requires
        origin.wf(),
    ensures
        ({
            let end = SearchView::initial(origin, player).run();
            let best = end.best_node;
            &&& best.board == play_all(origin, best.moves, player)
            &&& best.board.wf()
            &&& search_path(origin, best.moves, player)
            &&& legal_sequence(
                origin,
                best.moves + closing_actions(best.board, player),
                player,
            )
            &&& score_le(score_of(origin, player), score_of(best.board, player))
            &&& end.nb_nodes_visited >= 1
        }),
{
    reveal(NodeView::wf_from);
    lemma_initial_inv(origin, player);
    lemma_run_keeps_inv(SearchView::initial(origin, player), origin, player);
    let end = SearchView::initial(origin, player).run();
    lemma_turn_legal(origin, end.best_node.moves, player);
}

} // verus!
