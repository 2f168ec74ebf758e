//! What holds of the table of known nodes.
//!
//! The table holds one node for each position, and the node that it holds
//! for a position is the cheapest that was ever offered for it.

use vstd::prelude::*;

use super::board_node::NodeView;
use super::cost::cost_le;
use super::cost::cost_lt;
use super::cost::CostView;
use super::djikstra::mark_visited;
use super::djikstra::SearchView;
use super::laws::lemma_min_position;
use super::laws::lemma_position_in_range;
use super::laws::lemma_register_members;
use super::neighbors::neighbor_moves;
use super::tables::covers;
use super::tables::covers_all;
use super::tables::distinct_positions;
use super::tables::position_of;
use super::tables::Tables;
use crate::game::board::BoardView;
use crate::game::keys::lemma_lex_total;
use crate::game::keys::lemma_lex_transitive;
use crate::game::moves::CardAction;

verus! {

/// The tables after the nodes `offers` have been offered to them, one after
/// the other.
pub open spec fn offer_all(tables: Tables, offers: Seq<NodeView>) -> Tables
    decreases offers.len(),
{
    if offers.len() == 0 {
        tables
    } else {
        offer_all(tables, offers.drop_last()).register(offers.last())
    }
}

/// Of two costs one is at most the other.
pub proof fn lemma_cost_total(a: CostView, b: CostView)
    ensures
        cost_le(a, b) || cost_lt(b, a),
{
    if a != b && a.len() == b.len() {
        lemma_lex_total(a, b);
    }
}

/// The order of costs is transitive.
pub proof fn lemma_cost_le_transitive(a: CostView, b: CostView, c: CostView)
    requires
        cost_le(a, b),
        cost_le(b, c),
    ensures
        cost_le(a, c),
{
    if a != b && b != c && a.len() == b.len() && b.len() == c.len() {
        lemma_lex_transitive(a, b, c);
    }
}

/// After a node has been offered the table of known nodes holds a node for
/// its position that costs no more, and for each position that it held a
/// node for, a node that costs no more than that one: the cost kept for a
/// position never goes up.
pub proof fn lemma_register_covers(tables: Tables, node: NodeView)
    ensures
        covers(tables.register(node).known, node.board, node.cost),
        covers_all(tables.register(node).known, tables.known),
{
    let known = tables.known;
    let after = tables.register(node).known;
    let i = position_of(known, node.board);
    lemma_position_in_range(known, node.board, 0);
    if i >= known.len() {
        assert(after[known.len() as int] == node);
        assert forall|x: int| 0 <= x < known.len() implies covers(
            after,
            (#[trigger] known[x]).board,
            known[x].cost,
        ) by {
            assert(after[x] == known[x]);
        }
    } else if !cost_lt(node.cost, known[i].cost) {
        lemma_cost_total(known[i].cost, node.cost);
        assert(after[i] == known[i]);
        assert forall|x: int| 0 <= x < known.len() implies covers(
            after,
            (#[trigger] known[x]).board,
            known[x].cost,
        ) by {
            assert(after[x] == known[x]);
        }
    } else {
        let last = after.len() - 1;
        assert(after[last] == node);
        assert forall|x: int| 0 <= x < known.len() implies covers(
            after,
            (#[trigger] known[x]).board,
            known[x].cost,
        ) by {
            if x < i {
                assert(after[x] == known[x]);
            } else if x > i {
                assert(after[x - 1] == known[x]);
            } else {
                assert(after[last].board.same_position(known[x].board));
            }
        }
    }
}

/// Offering a node keeps the table of known nodes at one node for each
/// position.
pub proof fn lemma_register_distinct(tables: Tables, node: NodeView)
    requires
        distinct_positions(tables.known),
    ensures
        distinct_positions(tables.register(node).known),
{
    let known = tables.known;
    let after = tables.register(node).known;
    let i = position_of(known, node.board);
    lemma_position_in_range(known, node.board, 0);
    assert forall|x: int, y: int| 0 <= x < y < after.len() implies !(
    #[trigger] after[x]).board.same_position((#[trigger] after[y]).board) by {
        if i >= known.len() {
            if y < known.len() {
                assert(after[x] == known[x]);
                assert(after[y] == known[y]);
            } else {
                assert(after[x] == known[x]);
                assert(!known[x].board.same_position(node.board));
            }
        } else if cost_lt(node.cost, known[i].cost) {
            let from_x = if x < i {
                x
            } else {
                x + 1
            };
            assert(after[x] == known[from_x]);
            if y < after.len() - 1 {
                let from_y = if y < i {
                    y
                } else {
                    y + 1
                };
                assert(after[y] == known[from_y]);
            } else {
                assert(after[y] == node);
                if from_x < i {
                    assert(!known[from_x].board.same_position(known[i].board));
                } else {
                    assert(!known[i].board.same_position(known[from_x].board));
                }
            }
        } else {
            assert(after[x] == known[x]);
            assert(after[y] == known[y]);
        }
    }
}

/// A table that covers a table that covers a third covers the third.
pub proof fn lemma_covers_transitive(
    last: Seq<NodeView>,
    middle: Seq<NodeView>,
    board: BoardView,
    cost: CostView,
)
    requires
        covers(middle, board, cost),
        covers_all(last, middle),
    ensures
        covers(last, board, cost),
{
    let j = choose|j: int|
        0 <= j < middle.len() && (#[trigger] middle[j]).board.same_position(board) && cost_le(
            middle[j].cost,
            cost,
        );
    assert(covers(last, middle[j].board, middle[j].cost));
    let k = choose|k: int|
        0 <= k < last.len() && (#[trigger] last[k]).board.same_position(middle[j].board)
            && cost_le(last[k].cost, middle[j].cost);
    lemma_cost_le_transitive(last[k].cost, middle[j].cost, cost);
    assert(last[k].board.same_position(board));
}

/// The node that the table of known nodes holds for a position is the
/// cheapest that was ever seen for it. After any nodes have been offered:
/// - the table holds one node for each position, if it did before;
/// - for each node that it held before, and for each node that was offered,
///   it holds a node for the same position that costs no more;
/// - each node that it holds is one that it held before or one that was
///   offered.
pub proof fn lemma_stored_cost_is_minimum(tables: Tables, offers: Seq<NodeView>)
    ensures
        distinct_positions(tables.known) ==> distinct_positions(offer_all(tables, offers).known),
        covers_all(offer_all(tables, offers).known, tables.known),
        covers_all(offer_all(tables, offers).known, offers),
        forall|j: int|
            0 <= j < offer_all(tables, offers).known.len() ==> tables.known.contains(
                #[trigger] offer_all(tables, offers).known[j],
            ) || offers.contains(offer_all(tables, offers).known[j]),
    decreases offers.len(),
{
    let end = offer_all(tables, offers).known;
    if offers.len() == 0 {
        assert forall|i: int| 0 <= i < tables.known.len() implies covers(
            end,
            (#[trigger] tables.known[i]).board,
            tables.known[i].cost,
        ) by {
            assert(end[i] == tables.known[i]);
        }
        assert forall|j: int| 0 <= j < end.len() implies tables.known.contains(
            #[trigger] end[j],
        ) by {
            assert(tables.known[j] == end[j]);
        }
    } else {
        let shorter = offers.drop_last();
        let node = offers.last();
        let middle = offer_all(tables, shorter);
        lemma_stored_cost_is_minimum(tables, shorter);
        lemma_register_covers(middle, node);
        lemma_register_members(middle, node);
        if distinct_positions(tables.known) {
            lemma_register_distinct(middle, node);
        }
        assert forall|i: int| 0 <= i < tables.known.len() implies covers(
            end,
            (#[trigger] tables.known[i]).board,
            tables.known[i].cost,
        ) by {
            lemma_covers_transitive(end, middle.known, tables.known[i].board, tables.known[i].cost);
        }
        assert forall|i: int| 0 <= i < offers.len() implies covers(
            end,
            (#[trigger] offers[i]).board,
            offers[i].cost,
        ) by {
            if i < shorter.len() {
                assert(offers[i] == shorter[i]);
                lemma_covers_transitive(end, middle.known, shorter[i].board, shorter[i].cost);
            }
        }
        assert forall|j: int| 0 <= j < end.len() implies tables.known.contains(#[trigger] end[j])
            || offers.contains(end[j]) by {
            if end[j] == node {
                assert(offers[offers.len() - 1] == node);
            } else {
                assert(middle.known.contains(end[j]));
                if !tables.known.contains(end[j]) {
                    assert(shorter.contains(end[j]));
                    let k = choose|k: int| 0 <= k < shorter.len() && shorter[k] == end[j];
                    assert(offers[k] == end[j]);
                }
            }
        }
    }
}

/// Offering the children of a node by some moves is offering the nodes that
/// those moves lead to.
pub proof fn lemma_register_all_is_offer_all(tables: Tables, node: NodeView, moves: Seq<CardAction>)
    ensures
        tables.register_all(node, moves) == offer_all(
            tables,
            moves.map_values(|action: CardAction| node.child(action)),
        ),
    decreases moves.len(),
{
    let children = moves.map_values(|action: CardAction| node.child(action));
    if moves.len() > 0 {
        lemma_register_all_is_offer_all(tables, node, moves.drop_last());
        assert(children.drop_last() =~= moves.drop_last().map_values(
            |action: CardAction| node.child(action),
        ));
    }
}

/// One visit keeps the table of known nodes at one node for each position,
/// and for each node that it held, it still holds a node for the same
/// position that costs no more.
pub proof fn lemma_step_keeps_distinct(search: SearchView)
    requires
        search.tables.unvisited.len() > 0,
    ensures
        distinct_positions(search.tables.known) ==> distinct_positions(search.step().tables.known),
        covers_all(search.step().tables.known, search.tables.known),
{
    let unvisited = search.tables.unvisited;
    let m = super::tables::min_position(unvisited);
    lemma_min_position(unvisited, 0, 1);
    let node = unvisited[m];
    let popped = Tables { known: search.tables.known, unvisited: unvisited.remove(m) };
    let moves = neighbor_moves(node);
    lemma_register_all_is_offer_all(popped, node, moves);
    let children = moves.map_values(|action: CardAction| node.child(action));
    lemma_stored_cost_is_minimum(popped, children);
    let expanded = popped.register_all(node, moves).known;
    let marked = mark_visited(expanded, node.board, search.nb_nodes_visited + 1);
    lemma_position_in_range(expanded, node.board, 0);
    assert(marked == search.step().tables.known);
    assert forall|i: int| 0 <= i < marked.len() implies (#[trigger] marked[i]).board
        == expanded[i].board && marked[i].cost == expanded[i].cost by {}
    if distinct_positions(search.tables.known) {
        assert forall|x: int, y: int| 0 <= x < y < marked.len() implies !(
        #[trigger] marked[x]).board.same_position((#[trigger] marked[y]).board) by {
            assert(!expanded[x].board.same_position(expanded[y].board));
        }
    }
    assert forall|i: int| 0 <= i < search.tables.known.len() implies covers(
        marked,
        (#[trigger] search.tables.known[i]).board,
        search.tables.known[i].cost,
    ) by {
        let before = search.tables.known[i];
        assert(covers(expanded, before.board, before.cost));
        let j = choose|j: int|
            0 <= j < expanded.len() && (#[trigger] expanded[j]).board.same_position(before.board)
                && cost_le(expanded[j].cost, before.cost);
        assert(marked[j].board == expanded[j].board);
    }
}

} // verus!
