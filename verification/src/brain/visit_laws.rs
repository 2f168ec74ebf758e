//! The order in which the search visits the nodes.
//!
//! The search visits the nodes in the order of the frontier: a node that it
//! has visited comes before every node that it has still to visit, and is
//! never traded for a cheaper one. So the best node is, of the nodes with
//! the highest score that it has visited, the one that comes first.

use vstd::prelude::*;

use super::board_node::node_lt;
use super::board_node::NodeView;
use super::board_score::score_le;
use super::board_score::score_lt;
use super::closure_laws::has_position;
use super::closure_laws::is_known;
use super::closure_laws::lemma_register_tidy;
use super::closure_laws::lemma_same_node_fields;
use super::closure_laws::neighbors;
use super::closure_laws::same_node;
use super::closure_laws::tidy;
use super::closure_laws::visit;
use super::cost::cost_le;
use super::cost::cost_lt;
use super::djikstra::mark_visited;
use super::djikstra::SearchView;
use super::laws::lemma_min_position;
use super::laws::lemma_position_in_range;
use super::laws::lemma_register_members;
use super::neighbors::neighbor_moves;
use super::order_laws::comparable;
use super::order_laws::lemma_min_is_least;
use super::order_laws::lemma_node_lt_transitive;
use super::order_laws::lemma_node_order_total;
use super::order_laws::node_tie;
use super::table_laws::lemma_register_all_is_offer_all;
use super::table_laws::offer_all;
use super::tables::min_position;
use super::tables::position_of;
use super::tables::Tables;
use crate::game::order_laws::lemma_pile_lt_asymmetric;
use crate::game::order_laws::lemma_pile_lt_total;

verus! {

/// Whether the search has visited the known node `node`: no node of the
/// frontier is for its position.
pub open spec fn visited(tables: Tables, node: NodeView) -> bool {
    !has_position(tables.unvisited, node.board)
}

/// Whether the node `bar` comes after every known node that the search has
/// visited, or ties with it, and before every node of the frontier, or ties
/// with it.
pub open spec fn between(tables: Tables, bar: NodeView) -> bool {
    &&& forall|i: int|
        0 <= i < tables.known.len() && visited(tables, #[trigger] tables.known[i]) ==> !node_lt(
            bar,
            tables.known[i],
        )
    &&& forall|k: int|
        0 <= k < tables.unvisited.len() ==> !node_lt(#[trigger] tables.unvisited[k], bar)
}

/// Whether every known node that the search has visited comes before every
/// node of the frontier.
pub open spec fn in_order(tables: Tables) -> bool {
    forall|i: int, k: int|
        0 <= i < tables.known.len() && 0 <= k < tables.unvisited.len() && visited(
            tables,
            #[trigger] tables.known[i],
        ) ==> !node_lt(#[trigger] tables.unvisited[k], tables.known[i])
}

/// Whether `best` is, of the known nodes with the score `max_score` that
/// the search has visited, one that comes first, and no node that it has
/// visited has a higher score.
pub open spec fn first_of_the_best(tables: Tables, max_score: Seq<int>, best: NodeView) -> bool {
    &&& is_known(tables.known, best)
    &&& visited(tables, best)
    &&& best.score == max_score
    &&& forall|i: int|
        0 <= i < tables.known.len() && visited(tables, #[trigger] tables.known[i]) ==> {
            &&& score_le(tables.known[i].score, max_score)
            &&& tables.known[i].score == max_score ==> !node_lt(tables.known[i], best)
        }
}

impl SearchView {
    /// What holds of the order of the visits all along a search: the nodes
    /// that it has visited come before the nodes of the frontier, and from
    /// the first visit on the best node is, of the visited nodes with the
    /// highest score, one that comes first.
    pub open spec fn visiting(self) -> bool {
        &&& self.closing()
        &&& in_order(self.tables)
        &&& self.nb_nodes_visited > 0 ==> first_of_the_best(
            self.tables,
            self.max_score,
            self.best_node,
        )
        &&& self.nb_nodes_visited == 0 ==> forall|i: int|
            0 <= i < self.tables.known.len() ==> !visited(
                self.tables,
                #[trigger] self.tables.known[i],
            )
    }
}

/// A node that ties with another compares with every node as the other.
pub proof fn lemma_tie_compares_alike(a: NodeView, b: NodeView, c: NodeView)
    requires
        node_tie(a, b),
    ensures
        node_lt(a, c) == node_lt(b, c),
        node_lt(c, a) == node_lt(c, b),
{
}

/// A node that does not come after a second, which does not come after a
/// third, does not come after the third.
pub proof fn lemma_not_after(a: NodeView, b: NodeView, c: NodeView)
    requires
        a.board.shape(),
        b.board.shape(),
        c.board.shape(),
        a.score.len() == 12,
        b.score.len() == 12,
        c.score.len() == 12,
        !node_lt(b, a),
        !node_lt(c, b),
    ensures
        !node_lt(c, a),
{
    lemma_node_order_total(a, b);
    lemma_node_order_total(b, c);
    if node_lt(c, a) {
        if node_tie(a, b) {
            lemma_tie_compares_alike(a, b, c);
        } else if node_tie(b, c) {
            lemma_tie_compares_alike(b, c, a);
        } else {
            lemma_node_lt_transitive(c, a, b);
        }
    }
}

/// A node comes before each node that costs more.
pub proof fn lemma_cheaper_comes_first(a: NodeView, b: NodeView)
    requires
        cost_lt(a.cost, b.cost),
    ensures
        node_lt(a, b),
        !node_lt(b, a),
{
    lemma_pile_lt_asymmetric(a.cost, b.cost);
}

/// A node does not cost more than a node that does not come before it.
pub proof fn lemma_not_before_costs_no_less(a: NodeView, b: NodeView)
    requires
        !node_lt(b, a),
    ensures
        cost_le(a.cost, b.cost),
{
    if a.cost != b.cost {
        lemma_pile_lt_total(a.cost, b.cost);
    }
}

/// Offering a node that costs more than `bar` leaves `bar` between the
/// visited nodes and the frontier, keeps each visited node, and visits no
/// node.
pub proof fn lemma_register_between(tables: Tables, node: NodeView, bar: NodeView)
    requires
        tidy(tables),
        between(tables, bar),
        cost_lt(bar.cost, node.cost),
        node.score.len() == 12,
    ensures
        between(tables.register(node), bar),
        forall|i: int|
            0 <= i < tables.known.len() && visited(tables, #[trigger] tables.known[i])
                ==> tables.register(node).known.contains(tables.known[i]) && visited(
                tables.register(node),
                tables.known[i],
            ),
        forall|i: int|
            0 <= i < tables.register(node).known.len() && visited(
                tables.register(node),
                #[trigger] tables.register(node).known[i],
            ) ==> tables.known.contains(tables.register(node).known[i]) && visited(
                tables,
                tables.register(node).known[i],
            ),
{
    let known = tables.known;
    let unvisited = tables.unvisited;
    let after = tables.register(node);
    let i = position_of(known, node.board);
    let j = position_of(unvisited, node.board);
    lemma_position_in_range(known, node.board, 0);
    lemma_position_in_range(unvisited, node.board, 0);
    lemma_register_members(tables, node);
    lemma_cheaper_comes_first(bar, node);
    let changed = !(i < known.len() && !cost_lt(node.cost, known[i].cost));
    // the nodes of the frontier are those that it held, and the offered node
    assert forall|k: int| 0 <= k < after.unvisited.len() implies !node_lt(
        #[trigger] after.unvisited[k],
        bar,
    ) by {
        if after.unvisited[k] != node {
            let w = choose|w: int| 0 <= w < unvisited.len() && unvisited[w] == after.unvisited[k];
            assert(!node_lt(unvisited[w], bar));
        }
    }
    // a visited node is not traded, and stays visited
    assert forall|x: int|
        0 <= x < known.len() && visited(tables, #[trigger] known[x]) implies after.known.contains(
        known[x],
    ) && visited(after, known[x]) by {
        let old = known[x];
        assert(!node_lt(bar, old));
        lemma_not_before_costs_no_less(old, bar);
        if changed {
            if i < known.len() {
                // the node that leaves costs more than the offered node: it is not this one
                super::table_laws::lemma_cost_le_transitive(old.cost, bar.cost, node.cost);
                if old.cost == node.cost {
                    crate::game::keys::lemma_lex_irreflexive(old.cost);
                } else {
                    lemma_pile_lt_asymmetric(old.cost, node.cost);
                }
                assert(!cost_lt(node.cost, old.cost));
                assert(x != i);
                if x < i {
                    assert(after.known[x] == old);
                } else {
                    assert(after.known[x - 1] == old);
                }
                if x < i {
                    assert(!known[x].board.same_position(known[i].board));
                } else {
                    assert(!known[i].board.same_position(known[x].board));
                }
            } else {
                assert(after.known[x] == old);
            }
            assert(!old.board.same_position(node.board));
            if has_position(after.unvisited, old.board) {
                let k = choose|k: int|
                    0 <= k < after.unvisited.len() && (
                    #[trigger] after.unvisited[k]).board.same_position(old.board);
                assert(after.unvisited[k] != node);
                let w = choose|w: int|
                    0 <= w < unvisited.len() && unvisited[w] == after.unvisited[k];
                assert(unvisited[w].board.same_position(old.board));
            }
        } else {
            assert(after.known[x] == old);
        }
    }
    // a node that is visited afterwards was visited before
    assert forall|x: int| 0 <= x < after.known.len() && visited(
        after,
        #[trigger] after.known[x],
    ) implies known.contains(after.known[x]) && visited(tables, after.known[x]) by {
        let new = after.known[x];
        if changed {
            let last = after.unvisited.len() - 1;
            assert(after.unvisited[last] == node);
            if new == node {
                assert(after.unvisited[last].board.same_position(new.board));
            }
            assert(known.contains(new));
            if has_position(unvisited, new.board) {
                let w = choose|w: int|
                    0 <= w < unvisited.len() && (#[trigger] unvisited[w]).board.same_position(
                        new.board,
                    );
                if new.board.same_position(node.board) {
                    assert(after.unvisited[last].board.same_position(new.board));
                } else {
                    super::closure_laws::lemma_register_keeps_frontier(tables, node, new.board);
                }
            }
        } else {
            assert(after.known[x] == known[x]);
        }
    }
    assert forall|x: int| 0 <= x < after.known.len() && visited(
        after,
        #[trigger] after.known[x],
    ) implies !node_lt(bar, after.known[x]) by {
        let w = choose|w: int| 0 <= w < known.len() && known[w] == after.known[x];
        assert(visited(tables, known[w]));
    }
}

/// Whether each known node that the search had visited is still known and
/// visited.
pub open spec fn keeps_visited(before: Tables, after: Tables) -> bool {
    forall|i: int|
        0 <= i < before.known.len() && visited(before, #[trigger] before.known[i])
            ==> after.known.contains(before.known[i]) && visited(after, before.known[i])
}

/// Whether each known node that the search has visited was known and
/// visited before.
pub open spec fn no_new_visits(before: Tables, after: Tables) -> bool {
    forall|i: int|
        0 <= i < after.known.len() && visited(after, #[trigger] after.known[i])
            ==> before.known.contains(after.known[i]) && visited(before, after.known[i])
}

/// Offering nodes that cost more than `bar` leaves `bar` between the
/// visited nodes and the frontier, keeps each visited node, and visits no
/// node.
pub proof fn lemma_offer_all_between(tables: Tables, offers: Seq<NodeView>, bar: NodeView)
    requires
        tidy(tables),
        between(tables, bar),
        forall|k: int|
            0 <= k < offers.len() ==> (#[trigger] offers[k]).score.len() == 12 && cost_lt(
                bar.cost,
                offers[k].cost,
            ),
    ensures
        tidy(offer_all(tables, offers)),
        between(offer_all(tables, offers), bar),
        keeps_visited(tables, offer_all(tables, offers)),
        no_new_visits(tables, offer_all(tables, offers)),
    decreases offers.len(),
{
    if offers.len() > 0 {
        let shorter = offers.drop_last();
        let node = offers.last();
        assert forall|k: int| 0 <= k < shorter.len() implies (#[trigger] shorter[k]).score.len()
            == 12 && cost_lt(bar.cost, shorter[k].cost) by {
            assert(shorter[k] == offers[k]);
        }
        lemma_offer_all_between(tables, shorter, bar);
        let middle = offer_all(tables, shorter);
        let after = offer_all(tables, offers);
        assert(offers[offers.len() - 1] == node);
        lemma_register_tidy(middle, node);
        lemma_register_between(middle, node, bar);
        assert forall|i: int|
            0 <= i < tables.known.len() && visited(
                tables,
                #[trigger] tables.known[i],
            ) implies after.known.contains(tables.known[i]) && visited(after, tables.known[i]) by {
            let x = choose|x: int|
                0 <= x < middle.known.len() && middle.known[x] == tables.known[i];
            assert(visited(middle, middle.known[x]));
        }
        assert forall|i: int|
            0 <= i < after.known.len() && visited(
                after,
                #[trigger] after.known[i],
            ) implies tables.known.contains(after.known[i]) && visited(tables, after.known[i]) by {
            let x = choose|x: int| 0 <= x < middle.known.len() && middle.known[x] == after.known[i];
            assert(visited(middle, middle.known[x]));
        }
    }
}

/// Taking out of the frontier the node that comes first leaves that node
/// between the visited nodes and the frontier.
pub proof fn lemma_pop_between(tables: Tables)
    requires
        tidy(tables),
        comparable(tables.known),
        comparable(tables.unvisited),
        in_order(tables),
        tables.unvisited.len() > 0,
    ensures
        ({
            let m = min_position(tables.unvisited);
            let popped = Tables { known: tables.known, unvisited: tables.unvisited.remove(m) };
            &&& 0 <= m < tables.unvisited.len()
            &&& between(popped, tables.unvisited[m])
            &&& keeps_visited(tables, popped)
            &&& forall|i: int|
                0 <= i < popped.known.len() && visited(popped, #[trigger] popped.known[i])
                    ==> visited(tables, popped.known[i]) || same_node(
                    popped.known[i],
                    tables.unvisited[m],
                )
        }),
{
    let unvisited = tables.unvisited;
    let known = tables.known;
    let m = min_position(unvisited);
    lemma_min_is_least(unvisited);
    let node = unvisited[m];
    let rest = unvisited.remove(m);
    let popped = Tables { known, unvisited: rest };
    assert forall|k: int| 0 <= k < rest.len() implies !node_lt(#[trigger] rest[k], node) by {
        if k < m {
            assert(rest[k] == unvisited[k]);
        } else {
            assert(rest[k] == unvisited[k + 1]);
        }
    }
    assert forall|i: int|
        0 <= i < known.len() && visited(tables, #[trigger] known[i]) implies visited(
        popped,
        known[i],
    ) by {
        if has_position(rest, known[i].board) {
            let k = choose|k: int|
                0 <= k < rest.len() && (#[trigger] rest[k]).board.same_position(known[i].board);
            if k < m {
                assert(rest[k] == unvisited[k]);
            } else {
                assert(rest[k] == unvisited[k + 1]);
            }
        }
    }
    assert forall|i: int| 0 <= i < known.len() && visited(popped, #[trigger] known[i]) implies (
    visited(tables, known[i]) || same_node(known[i], node)) && !node_lt(node, known[i]) by {
        let x = known[i];
        if has_position(unvisited, x.board) {
            let k = choose|k: int|
                0 <= k < unvisited.len() && (#[trigger] unvisited[k]).board.same_position(x.board);
            if k != m {
                if k < m {
                    assert(rest[k] == unvisited[k]);
                } else {
                    assert(rest[k - 1] == unvisited[k]);
                }
                assert(rest[if k < m {
                    k
                } else {
                    k - 1
                }].board.same_position(x.board));
            }
            assert(k == m);
            // the node is the known node of its position
            assert(is_known(known, node));
            let w = choose|w: int| 0 <= w < known.len() && same_node(#[trigger] known[w], node);
            lemma_same_node_fields(known[w], node);
            if w < i {
                assert(!known[w].board.same_position(known[i].board));
            } else if i < w {
                assert(!known[i].board.same_position(known[w].board));
            }
            assert(w == i);
            lemma_node_order_total(node, x);
        } else {
            assert(!node_lt(unvisited[m], x));
        }
    }
}

/// Giving a node its visit index changes nothing to which nodes are known
/// and visited, but for the index.
pub proof fn lemma_mark_same_nodes(
    known: Seq<NodeView>,
    board: crate::game::board::BoardView,
    index: nat,
)
    ensures
        mark_visited(known, board, index).len() == known.len(),
        forall|i: int|
            0 <= i < known.len() ==> same_node(
                #[trigger] mark_visited(known, board, index)[i],
                known[i],
            ),
{
    lemma_position_in_range(known, board, 0);
    assert forall|i: int| 0 <= i < known.len() implies same_node(
        #[trigger] mark_visited(known, board, index)[i],
        known[i],
    ) by {}
}

/// The nodes of a search can be compared.
pub proof fn lemma_inv_comparable(
    search: SearchView,
    origin: crate::game::board::BoardView,
    player: crate::game::players::Player,
)
    requires
        search.inv(origin, player),
    ensures
        comparable(search.tables.known),
        comparable(search.tables.unvisited),
        search.best_node.board.shape(),
        search.best_node.score.len() == 12,
{
    assert forall|i: int| 0 <= i < search.tables.known.len() implies (
    #[trigger] search.tables.known[i]).board.shape() && search.tables.known[i].score.len()
        == 12 by {
        lemma_node_comparable(search.tables.known[i], origin);
    }
    assert forall|i: int| 0 <= i < search.tables.unvisited.len() implies (
    #[trigger] search.tables.unvisited[i]).board.shape() && search.tables.unvisited[i].score.len()
        == 12 by {
        lemma_node_comparable(search.tables.unvisited[i], origin);
    }
    lemma_node_comparable(search.best_node, origin);
}

/// A node of a search has a board of the shape of a board and a score of
/// twelve values.
pub proof fn lemma_node_comparable(node: NodeView, origin: crate::game::board::BoardView)
    requires
        node.wf_from(origin),
    ensures
        node.board.shape(),
        node.score.len() == 12,
{
    reveal(NodeView::wf_from);
}

/// Each neighbour of a node costs more than the node.
pub proof fn lemma_neighbors_cost_strictly_more(node: NodeView)
    ensures
        forall|k: int|
            0 <= k < neighbors(node).len() ==> (#[trigger] neighbors(node)[k]).score.len() == 12
                && cost_lt(node.cost, neighbors(node)[k].cost),
{
    let offers = neighbors(node);
    assert forall|k: int| 0 <= k < offers.len() implies (#[trigger] offers[k]).score.len() == 12
        && cost_lt(node.cost, offers[k].cost) by {}
}

/// What the visit of the node that comes first in the frontier makes of the
/// nodes that the search has visited: that node joins them, and they are
/// otherwise the same; every visited node comes before every node of the
/// frontier, as before.
pub proof fn lemma_visit_in_order(tables: Tables, index: nat)
    requires
        tidy(tables),
        comparable(tables.known),
        comparable(tables.unvisited),
        in_order(tables),
        tables.unvisited.len() > 0,
        comparable(visit(tables, min_position(tables.unvisited), index).known),
        comparable(visit(tables, min_position(tables.unvisited), index).unvisited),
    ensures
        ({
            let m = min_position(tables.unvisited);
            let node = tables.unvisited[m];
            let after = visit(tables, m, index);
            &&& 0 <= m < tables.unvisited.len()
            &&& in_order(after)
            &&& is_known(after.known, node)
            &&& visited(after, node)
            &&& forall|i: int|
                0 <= i < tables.known.len() && visited(tables, #[trigger] tables.known[i])
                    ==> is_known(after.known, tables.known[i]) && visited(after, tables.known[i])
            &&& forall|i: int|
                0 <= i < after.known.len() && visited(after, #[trigger] after.known[i])
                    ==> same_node(after.known[i], node) || exists|x: int|
                    0 <= x < tables.known.len() && visited(tables, #[trigger] tables.known[x])
                        && same_node(after.known[i], tables.known[x])
            &&& forall|k: int|
                0 <= k < after.unvisited.len() ==> !node_lt(#[trigger] after.unvisited[k], node)
        }),
{
    let known = tables.known;
    let m = min_position(tables.unvisited);
    lemma_min_position(tables.unvisited, 0, 1);
    let node = tables.unvisited[m];
    let popped = Tables { known, unvisited: tables.unvisited.remove(m) };
    lemma_pop_between(tables);
    lemma_pop_tidy(tables, m);
    let offers = neighbors(node);
    lemma_neighbors_cost_strictly_more(node);
    lemma_register_all_is_offer_all(popped, node, neighbor_moves(node));
    lemma_offer_all_between(popped, offers, node);
    let expanded = offer_all(popped, offers);
    let after = visit(tables, m, index);
    lemma_mark_same_nodes(expanded.known, node.board, index);
    assert(after.unvisited == expanded.unvisited);
    // the visited node is known, and visited
    assert(is_known(known, node));
    let w = choose|w: int| 0 <= w < known.len() && same_node(#[trigger] known[w], node);
    let stored = known[w];
    lemma_same_node_fields(stored, node);
    assert(visited(popped, stored)) by {
        if has_position(popped.unvisited, stored.board) {
            let k = choose|k: int|
                0 <= k < popped.unvisited.len() && (
                #[trigger] popped.unvisited[k]).board.same_position(stored.board);
            let from_k = if k < m {
                k
            } else {
                k + 1
            };
            assert(popped.unvisited[k] == tables.unvisited[from_k]);
            if from_k < m {
                assert(!tables.unvisited[from_k].board.same_position(tables.unvisited[m].board));
            } else {
                assert(!tables.unvisited[m].board.same_position(tables.unvisited[from_k].board));
            }
        }
    }
    assert(expanded.known.contains(stored) && visited(expanded, stored));
    let at = choose|at: int| 0 <= at < expanded.known.len() && expanded.known[at] == stored;
    assert(same_node(after.known[at], expanded.known[at]));
    lemma_same_node_fields(after.known[at], expanded.known[at]);
    assert(same_node(after.known[at], node));
    assert forall|i: int|
        0 <= i < known.len() && visited(tables, #[trigger] known[i]) implies is_known(
        after.known,
        known[i],
    ) && visited(after, known[i]) by {
        assert(visited(popped, known[i]));
        assert(expanded.known.contains(known[i]) && visited(expanded, known[i]));
        let y = choose|y: int| 0 <= y < expanded.known.len() && expanded.known[y] == known[i];
        assert(same_node(after.known[y], expanded.known[y]));
    }
    assert forall|i: int| 0 <= i < after.known.len() && visited(
        after,
        #[trigger] after.known[i],
    ) implies (same_node(after.known[i], node) || exists|x: int|
        0 <= x < known.len() && visited(tables, #[trigger] known[x]) && same_node(
            after.known[i],
            known[x],
        )) && !node_lt(node, after.known[i]) by {
        let old = expanded.known[i];
        assert(same_node(after.known[i], old));
        lemma_same_node_fields(after.known[i], old);
        assert(visited(expanded, old));
        assert(popped.known.contains(old) && visited(popped, old));
        let x = choose|x: int| 0 <= x < known.len() && known[x] == old;
        assert(visited(popped, known[x]));
        assert(!node_lt(node, old));
        if !visited(tables, known[x]) {
            assert(same_node(known[x], node));
            lemma_same_node_fields(known[x], node);
        }
    }
    assert forall|i: int, k: int|
        0 <= i < after.known.len() && 0 <= k < after.unvisited.len() && visited(
            after,
            #[trigger] after.known[i],
        ) implies !node_lt(#[trigger] after.unvisited[k], after.known[i]) by {
        assert(!node_lt(after.unvisited[k], node));
        assert(!node_lt(node, after.known[i]));
        lemma_node_comparable_fields(tables, m);
        lemma_not_after(after.known[i], node, after.unvisited[k]);
    }
}

/// The node that comes first in a frontier of nodes that can be compared
/// can be compared.
proof fn lemma_node_comparable_fields(tables: Tables, m: int)
    requires
        comparable(tables.unvisited),
        0 <= m < tables.unvisited.len(),
    ensures
        tables.unvisited[m].board.shape(),
        tables.unvisited[m].score.len() == 12,
{
}

/// Taking a node out of the frontier keeps the tables tidy.
pub proof fn lemma_pop_tidy(tables: Tables, m: int)
    requires
        tidy(tables),
        0 <= m < tables.unvisited.len(),
    ensures
        tidy(Tables { known: tables.known, unvisited: tables.unvisited.remove(m) }),
{
    let unvisited = tables.unvisited;
    let rest = unvisited.remove(m);
    assert forall|x: int, y: int| 0 <= x < y < rest.len() implies !(
    #[trigger] rest[x]).board.same_position((#[trigger] rest[y]).board) by {
        let from_x = if x < m {
            x
        } else {
            x + 1
        };
        let from_y = if y < m {
            y
        } else {
            y + 1
        };
        assert(rest[x] == unvisited[from_x]);
        assert(rest[y] == unvisited[from_y]);
    }
    assert forall|k: int| 0 <= k < rest.len() implies is_known(
        tables.known,
        #[trigger] rest[k],
    ) by {
        let from_k = if k < m {
            k
        } else {
            k + 1
        };
        assert(rest[k] == unvisited[from_k]);
    }
}

/// No score is both at most another and strictly higher than it.
pub proof fn lemma_score_le_not_lt(a: Seq<int>, b: Seq<int>)
    requires
        a.len() == b.len(),
        score_le(a, b),
    ensures
        !score_lt(b, a),
{
    if a == b {
        if score_lt(a, a) {
            super::order_laws::lemma_score_lt_asymmetric(a, a, 0);
        }
    } else {
        super::order_laws::lemma_score_lt_asymmetric(a, b, 0);
    }
}

/// One visit keeps what holds of the order of the visits.
pub proof fn lemma_step_visiting(
    search: SearchView,
    origin: crate::game::board::BoardView,
    player: crate::game::players::Player,
)
    requires
        origin.wf(),
        search.inv(origin, player),
        search.visiting(),
        search.can_step(),
    ensures
        search.step().visiting(),
        search.step().inv(origin, player),
{
    let tables = search.tables;
    let known = tables.known;
    let m = min_position(tables.unvisited);
    lemma_min_position(tables.unvisited, 0, 1);
    let node = tables.unvisited[m];
    let after = search.step();
    super::laws::lemma_step_keeps_inv(search, origin, player);
    super::closure_laws::lemma_step_closing(search);
    lemma_inv_comparable(search, origin, player);
    lemma_inv_comparable(after, origin, player);
    lemma_visit_in_order(tables, search.nb_nodes_visited + 1);
    assert(node.wf_from(origin));
    super::laws::lemma_node_score(node, origin);
    let better = score_lt(search.max_score, node.score);
    if search.nb_nodes_visited == 0 {
        assert(search.max_score[0] < node.score[0]);
        assert(better);
    }
    super::closure_laws::lemma_score_le_total(node.score, search.max_score);
    assert forall|i: int|
        0 <= i < after.tables.known.len() && visited(
            after.tables,
            #[trigger] after.tables.known[i],
        ) implies {
        &&& score_le(after.tables.known[i].score, after.max_score)
        &&& after.tables.known[i].score == after.max_score ==> !node_lt(
            after.tables.known[i],
            after.best_node,
        )
    } by {
        let x = after.tables.known[i];
        if same_node(x, node) {
            lemma_same_node_fields(x, node);
            if better {
                lemma_node_order_total(x, node);
            } else if node.score == search.max_score {
                // the best node was visited before this one
                let w = choose|w: int|
                    0 <= w < known.len() && same_node(#[trigger] known[w], search.best_node);
                lemma_same_node_fields(known[w], search.best_node);
                assert(visited(tables, known[w]));
                assert(!node_lt(tables.unvisited[m], known[w]));
            }
        } else {
            let y = choose|y: int|
                0 <= y < known.len() && visited(tables, #[trigger] known[y]) && same_node(
                    x,
                    known[y],
                );
            lemma_same_node_fields(x, known[y]);
            assert(search.nb_nodes_visited > 0);
            assert(score_le(known[y].score, search.max_score));
            if better {
                super::closure_laws::lemma_score_le_transitive(
                    known[y].score,
                    search.max_score,
                    node.score,
                );
                lemma_score_le_not_lt(known[y].score, search.max_score);
            }
        }
    }
    if !better {
        let w = choose|w: int|
            0 <= w < known.len() && same_node(#[trigger] known[w], search.best_node);
        lemma_same_node_fields(known[w], search.best_node);
        assert(visited(tables, known[w]));
        assert(is_known(after.tables.known, known[w]));
        let z = choose|z: int|
            0 <= z < after.tables.known.len() && same_node(
                #[trigger] after.tables.known[z],
                known[w],
            );
        assert(same_node(after.tables.known[z], search.best_node));
        assert(visited(after.tables, known[w]));
    }
}

/// A search that runs to its end keeps what holds of the order of the
/// visits.
pub proof fn lemma_run_visiting(
    search: SearchView,
    origin: crate::game::board::BoardView,
    player: crate::game::players::Player,
)
    requires
        origin.wf(),
        search.inv(origin, player),
        search.visiting(),
    ensures
        search.run().visiting(),
        search.run().inv(origin, player),
    decreases usize::MAX - search.nb_nodes_visited,
{
    if search.can_step() {
        lemma_step_visiting(search, origin, player);
        lemma_run_visiting(search.step(), origin, player);
    }
}

/// The best node comes first of the best. At the end of the search of a
/// turn, if the frontier is empty, the best node is a known node with the
/// highest score of all known nodes, and no known node with that score
/// comes before it in the order of the frontier.
pub proof fn lemma_best_comes_first(
    origin: crate::game::board::BoardView,
    player: crate::game::players::Player,
)
    requires
        origin.wf(),
        SearchView::initial(origin, player).run().tables.unvisited.len() == 0,
    ensures
        ({
            let end = SearchView::initial(origin, player).run();
            &&& is_known(end.tables.known, end.best_node)
            &&& forall|i: int|
                0 <= i < end.tables.known.len() ==> {
                    &&& score_le((#[trigger] end.tables.known[i]).score, end.best_node.score)
                    &&& end.tables.known[i].score == end.best_node.score ==> !node_lt(
                        end.tables.known[i],
                        end.best_node,
                    )
                }
        }),
{
    let start = SearchView::initial(origin, player);
    super::completeness_laws::lemma_initial_complete(origin, player);
    let first = start.best_node;
    assert(start.tables.known[0] == first);
    assert(start.tables.unvisited[0] == first);
    assert(start.tables.unvisited[0].board.same_position(first.board));
    assert forall|i: int| 0 <= i < start.tables.known.len() implies !visited(
        start.tables,
        #[trigger] start.tables.known[i],
    ) by {
        assert(start.tables.unvisited[0].board.same_position(start.tables.known[i].board));
    }
    assert(start.visiting());
    lemma_run_visiting(start, origin, player);
    super::laws::lemma_run_keeps_inv(start, origin, player);
    let end = start.run();
    assert(end.nb_nodes_visited > 0);
    assert forall|i: int| 0 <= i < end.tables.known.len() implies {
        &&& score_le((#[trigger] end.tables.known[i]).score, end.best_node.score)
        &&& end.tables.known[i].score == end.best_node.score ==> !node_lt(
            end.tables.known[i],
            end.best_node,
        )
    } by {
        assert(visited(end.tables, end.tables.known[i]));
    }
}

} // verus!
