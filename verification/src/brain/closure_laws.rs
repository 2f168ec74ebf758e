//! What a search that runs out of nodes to visit has found.
//!
//! When the frontier is empty the table of known nodes is closed: it holds
//! a node for the position that the search started from and, for each node
//! that it holds, a node for the position of each of its neighbours. No
//! node that it holds has a higher score than the best node.

use vstd::prelude::*;

use super::board_node::NodeView;
use super::board_score::score_le;
use super::board_score::score_lt;
use super::cost::cost_le;
use super::cost::cost_lt;
use super::djikstra::mark_visited;
use super::djikstra::SearchView;
use super::laws::lemma_min_position;
use super::laws::lemma_position_in_range;
use super::laws::lemma_score_lt_transitive;
use super::neighbors::neighbor_moves;
use super::order_laws::lemma_score_lt_total;
use super::tables::covers;
use super::tables::covers_all;
use super::tables::distinct_positions;
use super::table_laws::lemma_covers_transitive;
use super::table_laws::lemma_register_all_is_offer_all;
use super::table_laws::lemma_register_covers;
use super::table_laws::lemma_register_distinct;
use super::table_laws::lemma_stored_cost_is_minimum;
use super::table_laws::offer_all;
use super::tables::min_position;
use super::tables::position_of;
use super::tables::Tables;
use crate::game::board::BoardView;
use crate::game::moves::CardAction;
use crate::game::order_laws::lemma_pile_lt_asymmetric;

verus! {

/// Whether `nodes` holds a node for the position of `board`.
pub open spec fn has_position(nodes: Seq<NodeView>, board: BoardView) -> bool {
    exists|j: int| 0 <= j < nodes.len() && (#[trigger] nodes[j]).board.same_position(board)
}

/// Whether the two nodes are the same but for their visit index.
pub open spec fn same_node(a: NodeView, b: NodeView) -> bool {
    a.with_index(0) == b.with_index(0)
}

/// Whether `known` holds the node `node`, but for its visit index.
pub open spec fn is_known(known: Seq<NodeView>, node: NodeView) -> bool {
    exists|x: int| 0 <= x < known.len() && same_node(#[trigger] known[x], node)
}

/// Whether each node of the frontier is a known node.
pub open spec fn within(unvisited: Seq<NodeView>, known: Seq<NodeView>) -> bool {
    forall|k: int| 0 <= k < unvisited.len() ==> is_known(known, #[trigger] unvisited[k])
}

/// The neighbours of a node: the nodes that its moves lead to, in the order
/// in which the search makes the moves.
pub open spec fn neighbors(node: NodeView) -> Seq<NodeView> {
    neighbor_moves(node).map_values(|action: CardAction| node.child(action))
}

/// Whether the search is done with the known node `node`: it is still to
/// visit, or its score is no higher than the highest score seen and the
/// table holds a node for the position of each of its neighbours.
pub open spec fn settled(tables: Tables, max_score: Seq<int>, node: NodeView) -> bool {
    ||| has_position(tables.unvisited, node.board)
    ||| (score_le(node.score, max_score) && covers_all(tables.known, neighbors(node)))
}

/// Whether the search is done with each known node, but for the node of
/// the position of `except`.
pub open spec fn all_settled_but(tables: Tables, max_score: Seq<int>, except: BoardView) -> bool {
    forall|i: int|
        0 <= i < tables.known.len() ==> (#[trigger] tables.known[i]).board.same_position(except)
            || settled(tables, max_score, tables.known[i])
}

/// Whether the search is done with each known node.
pub open spec fn all_settled(tables: Tables, max_score: Seq<int>) -> bool {
    forall|i: int|
        0 <= i < tables.known.len() ==> settled(tables, max_score, #[trigger] tables.known[i])
}

/// Whether the tables hold one node for each position, in the table of
/// known nodes as in the frontier, the nodes of the frontier among the
/// known nodes, and scores of twelve values.
pub open spec fn tidy(tables: Tables) -> bool {
    &&& distinct_positions(tables.known)
    &&& distinct_positions(tables.unvisited)
    &&& within(tables.unvisited, tables.known)
    &&& forall|i: int|
        0 <= i < tables.known.len() ==> (#[trigger] tables.known[i]).score.len() == 12
}

impl SearchView {
    /// What holds of the tables all along a search: they are tidy, and the
    /// search is done with each known node that it has visited.
    pub open spec fn closing(self) -> bool {
        &&& tidy(self.tables)
        &&& all_settled(self.tables, self.max_score)
        &&& self.max_score.len() == 12
    }
}

/// Offering a node keeps the tables tidy.
pub proof fn lemma_register_tidy(tables: Tables, node: NodeView)
    requires
        tidy(tables),
        node.score.len() == 12,
    ensures
        tidy(tables.register(node)),
{
    let known = tables.known;
    let unvisited = tables.unvisited;
    let after = tables.register(node);
    let i = position_of(known, node.board);
    let j = position_of(unvisited, node.board);
    lemma_position_in_range(known, node.board, 0);
    lemma_position_in_range(unvisited, node.board, 0);
    lemma_register_distinct(tables, node);
    if i < known.len() && !cost_lt(node.cost, known[i].cost) {
    } else {
        // no node of the frontier but the one at `j` is for the position of `node`
        assert forall|k: int| 0 <= k < unvisited.len() && k != j implies !(
        #[trigger] unvisited[k]).board.same_position(node.board) by {
            if unvisited[k].board.same_position(node.board) {
                if j < unvisited.len() {
                    if k < j {
                        assert(!unvisited[k].board.same_position(unvisited[j].board));
                    } else {
                        assert(!unvisited[j].board.same_position(unvisited[k].board));
                    }
                }
            }
        }
        let last = after.unvisited.len() - 1;
        assert(after.unvisited[last] == node);
        assert forall|x: int, y: int| 0 <= x < y < after.unvisited.len() implies !(
        #[trigger] after.unvisited[x]).board.same_position(
            (#[trigger] after.unvisited[y]).board,
        ) by {
            let from_x = if i < known.len() && j < unvisited.len() && x >= j {
                x + 1
            } else {
                x
            };
            assert(after.unvisited[x] == unvisited[from_x]);
            if y < last {
                let from_y = if i < known.len() && j < unvisited.len() && y >= j {
                    y + 1
                } else {
                    y
                };
                assert(after.unvisited[y] == unvisited[from_y]);
            } else {
                if i >= known.len() {
                    // a node of the frontier for this position would be known
                    if unvisited[from_x].board.same_position(node.board) {
                        assert(is_known(known, unvisited[from_x]));
                        let w = choose|w: int|
                            0 <= w < known.len() && same_node(
                                #[trigger] known[w],
                                unvisited[from_x],
                            );
                        assert(known[w].board == unvisited[from_x].board);
                        assert(known[w].board.same_position(node.board));
                    }
                }
            }
        }
        let end = after.known.len() - 1;
        assert(after.known[end] == node);
        assert forall|k: int| 0 <= k < after.unvisited.len() implies is_known(
            after.known,
            #[trigger] after.unvisited[k],
        ) by {
            if k == last {
                assert(same_node(after.known[end], node));
            } else {
                let from_k = if i < known.len() && j < unvisited.len() && k >= j {
                    k + 1
                } else {
                    k
                };
                assert(after.unvisited[k] == unvisited[from_k]);
                assert(is_known(known, unvisited[from_k]));
                let w = choose|w: int|
                    0 <= w < known.len() && same_node(#[trigger] known[w], unvisited[from_k]);
                assert(known[w].board == unvisited[from_k].board);
                if i < known.len() {
                    assert(w != i);
                    if w < i {
                        assert(after.known[w] == known[w]);
                    } else {
                        assert(after.known[w - 1] == known[w]);
                    }
                } else {
                    assert(after.known[w] == known[w]);
                }
            }
        }
        assert forall|x: int| 0 <= x < after.known.len() implies (
        #[trigger] after.known[x]).score.len() == 12 by {
            if x < end {
                if i < known.len() && x >= i {
                    assert(after.known[x] == known[x + 1]);
                } else {
                    assert(after.known[x] == known[x]);
                }
            }
        }
    }
}

/// Offering a node leaves in the frontier a node for each position that it
/// held a node for, but for the position of a known node that the offered
/// node is cheaper than.
pub proof fn lemma_register_keeps_frontier(tables: Tables, node: NodeView, board: BoardView)
    requires
        has_position(tables.unvisited, board),
        !board.same_position(node.board),
    ensures
        has_position(tables.register(node).unvisited, board),
{
    let known = tables.known;
    let unvisited = tables.unvisited;
    let after = tables.register(node);
    let i = position_of(known, node.board);
    let j = position_of(unvisited, node.board);
    lemma_position_in_range(known, node.board, 0);
    lemma_position_in_range(unvisited, node.board, 0);
    let k = choose|k: int|
        0 <= k < unvisited.len() && (#[trigger] unvisited[k]).board.same_position(board);
    if i < known.len() && !cost_lt(node.cost, known[i].cost) {
    } else if i < known.len() && j < unvisited.len() {
        assert(k != j);
        if k < j {
            assert(after.unvisited[k] == unvisited[k]);
        } else {
            assert(after.unvisited[k - 1] == unvisited[k]);
        }
    } else {
        assert(after.unvisited[k] == unvisited[k]);
    }
}

/// Offering a node leaves the table of known nodes covering what it covered.
pub proof fn lemma_register_keeps_covers(tables: Tables, node: NodeView, nodes: Seq<NodeView>)
    requires
        covers_all(tables.known, nodes),
    ensures
        covers_all(tables.register(node).known, nodes),
{
    lemma_register_covers(tables, node);
    let after = tables.register(node).known;
    assert forall|n: int| 0 <= n < nodes.len() implies covers(
        after,
        (#[trigger] nodes[n]).board,
        nodes[n].cost,
    ) by {
        assert(covers(tables.known, nodes[n].board, nodes[n].cost));
        lemma_covers_transitive(after, tables.known, nodes[n].board, nodes[n].cost);
    }
}

/// Offering a node keeps done what the search is done with.
pub proof fn lemma_register_settled(
    tables: Tables,
    node: NodeView,
    max_score: Seq<int>,
    except: BoardView,
)
    requires
        tidy(tables),
        node.score.len() == 12,
        all_settled_but(tables, max_score, except),
    ensures
        all_settled_but(tables.register(node), max_score, except),
{
    let known = tables.known;
    let unvisited = tables.unvisited;
    let after = tables.register(node);
    let i = position_of(known, node.board);
    lemma_position_in_range(known, node.board, 0);
    if i < known.len() && !cost_lt(node.cost, known[i].cost) {
    } else {
        let end = after.known.len() - 1;
        let last = after.unvisited.len() - 1;
        assert(after.unvisited[last] == node);
        assert forall|x: int| 0 <= x < after.known.len() implies (
        #[trigger] after.known[x]).board.same_position(except) || settled(
            after,
            max_score,
            after.known[x],
        ) by {
            if x == end {
                assert(after.known[x] == node);
                assert(after.unvisited[last].board.same_position(node.board));
            } else {
                let from_x = if i < known.len() && x >= i {
                    x + 1
                } else {
                    x
                };
                let old = known[from_x];
                assert(after.known[x] == old);
                if !old.board.same_position(except) {
                    assert(settled(tables, max_score, old));
                    if has_position(unvisited, old.board) {
                        if old.board.same_position(node.board) {
                            assert(after.unvisited[last].board.same_position(old.board));
                        } else {
                            lemma_register_keeps_frontier(tables, node, old.board);
                        }
                    } else {
                        lemma_register_keeps_covers(tables, node, neighbors(old));
                    }
                }
            }
        }
    }
}

/// Offering nodes, one after the other, keeps the tables tidy and keeps
/// done what the search is done with.
pub proof fn lemma_offer_all_closing(
    tables: Tables,
    offers: Seq<NodeView>,
    max_score: Seq<int>,
    except: BoardView,
)
    requires
        tidy(tables),
        all_settled_but(tables, max_score, except),
        forall|k: int| 0 <= k < offers.len() ==> (#[trigger] offers[k]).score.len() == 12,
    ensures
        tidy(offer_all(tables, offers)),
        all_settled_but(offer_all(tables, offers), max_score, except),
    decreases offers.len(),
{
    if offers.len() > 0 {
        let shorter = offers.drop_last();
        assert forall|k: int| 0 <= k < shorter.len() implies (#[trigger] shorter[k]).score.len()
            == 12 by {
            assert(shorter[k] == offers[k]);
        }
        lemma_offer_all_closing(tables, shorter, max_score, except);
        let middle = offer_all(tables, shorter);
        assert(offers[offers.len() - 1].score.len() == 12);
        lemma_register_tidy(middle, offers.last());
        lemma_register_settled(middle, offers.last(), max_score, except);
    }
}

/// A known node stays known while nodes are offered of which none is
/// cheaper than it.
pub proof fn lemma_offer_all_keeps_node(tables: Tables, offers: Seq<NodeView>, node: NodeView)
    requires
        tables.known.contains(node),
        forall|k: int| 0 <= k < offers.len() ==> !cost_lt((#[trigger] offers[k]).cost, node.cost),
    ensures
        offer_all(tables, offers).known.contains(node),
    decreases offers.len(),
{
    if offers.len() > 0 {
        let shorter = offers.drop_last();
        assert forall|k: int| 0 <= k < shorter.len() implies !cost_lt(
            (#[trigger] shorter[k]).cost,
            node.cost,
        ) by {
            assert(shorter[k] == offers[k]);
        }
        lemma_offer_all_keeps_node(tables, shorter, node);
        let middle = offer_all(tables, shorter);
        let offered = offers.last();
        assert(offers[offers.len() - 1] == offered);
        let after = middle.register(offered);
        let x = choose|x: int| 0 <= x < middle.known.len() && middle.known[x] == node;
        let i = position_of(middle.known, offered.board);
        lemma_position_in_range(middle.known, offered.board, 0);
        if i >= middle.known.len() {
            assert(after.known[x] == node);
        } else if !cost_lt(offered.cost, middle.known[i].cost) {
            assert(after.known[x] == node);
        } else {
            assert(x != i);
            if x < i {
                assert(after.known[x] == node);
            } else {
                assert(after.known[x - 1] == node);
            }
        }
    }
}

/// Of two scores of twelve values one is at most the other.
pub proof fn lemma_score_le_total(a: Seq<int>, b: Seq<int>)
    requires
        a.len() == b.len(),
    ensures
        score_le(a, b) || score_lt(b, a),
{
    if a != b {
        assert(a.skip(0) =~= a);
        assert(b.skip(0) =~= b);
        lemma_score_lt_total(a, b, 0);
    }
}

/// The order of scores of one length is transitive.
pub proof fn lemma_score_le_transitive(a: Seq<int>, b: Seq<int>, c: Seq<int>)
    requires
        a.len() == b.len(),
        b.len() == c.len(),
        score_le(a, b),
        score_le(b, c),
    ensures
        score_le(a, c),
{
    if a != b && b != c {
        lemma_score_lt_transitive(a, b, c, 0);
    }
}

/// The tables after the node at place `m` of the frontier has been visited
/// with the visit index `visited`.
pub open spec fn visit(tables: Tables, m: int, visited: nat) -> Tables {
    let node = tables.unvisited[m];
    let popped = Tables { known: tables.known, unvisited: tables.unvisited.remove(m) };
    let expanded = popped.register_all(node, neighbor_moves(node));
    Tables {
        known: mark_visited(expanded.known, node.board, visited),
        unvisited: expanded.unvisited,
    }
}

/// The visit of a node keeps the tables tidy and leaves the search done
/// with each known node that it has visited, for a highest score that is at
/// least the one before and the score of the node.
pub proof fn lemma_visit_closing(
    tables: Tables,
    m: int,
    visited: nat,
    max_score: Seq<int>,
    after_score: Seq<int>,
)
    requires
        tidy(tables),
        all_settled(tables, max_score),
        0 <= m < tables.unvisited.len(),
        max_score.len() == 12,
        after_score.len() == 12,
        score_le(max_score, after_score),
        score_le(tables.unvisited[m].score, after_score),
    ensures
        tidy(visit(tables, m, visited)),
        all_settled(visit(tables, m, visited), after_score),
{
    let known = tables.known;
    let node = tables.unvisited[m];
    let popped = Tables { known, unvisited: tables.unvisited.remove(m) };
    // the node that is visited is a known node
    assert(is_known(known, node));
    let x0 = choose|x: int| 0 <= x < known.len() && same_node(#[trigger] known[x], node);
    let stored = known[x0];
    lemma_same_node_fields(stored, node);
    assert(known[x0].score.len() == 12);
    lemma_pop_closing(tables, m, max_score);
    // its neighbours are offered
    let offers = neighbors(node);
    lemma_register_all_is_offer_all(popped, node, neighbor_moves(node));
    let expanded = offer_all(popped, offers);
    lemma_neighbors_cost_more(node);
    lemma_offer_all_closing(popped, offers, max_score, node.board);
    lemma_stored_cost_is_minimum(popped, offers);
    assert(known.contains(stored));
    lemma_offer_all_keeps_node(popped, offers, stored);
    // and it is given its visit index
    lemma_mark_closing(expanded, node, stored, visited, max_score, after_score);
}

/// Two nodes that are the same but for their visit index have the same
/// board, cost, score and moves.
pub proof fn lemma_same_node_fields(a: NodeView, b: NodeView)
    requires
        same_node(a, b),
    ensures
        a.board == b.board,
        a.cost == b.cost,
        a.score == b.score,
        a.moves == b.moves,
        a.active_player == b.active_player,
{
    assert(a.with_index(0).board == b.with_index(0).board);
    assert(a.with_index(0).cost == b.with_index(0).cost);
    assert(a.with_index(0).score == b.with_index(0).score);
    assert(a.with_index(0).moves == b.with_index(0).moves);
    assert(a.with_index(0).active_player == b.with_index(0).active_player);
}

/// One visit keeps the tables tidy and leaves the search done with each
/// known node that it has visited.
pub proof fn lemma_step_closing(search: SearchView)
    requires
        search.closing(),
        search.tables.unvisited.len() > 0,
    ensures
        search.step().closing(),
        search.step().tables == visit(
            search.tables,
            min_position(search.tables.unvisited),
            search.nb_nodes_visited + 1,
        ),
{
    let unvisited = search.tables.unvisited;
    let m = min_position(unvisited);
    lemma_min_position(unvisited, 0, 1);
    let node = unvisited[m];
    assert(is_known(search.tables.known, node));
    let x0 = choose|x: int|
        0 <= x < search.tables.known.len() && same_node(#[trigger] search.tables.known[x], node);
    lemma_same_node_fields(search.tables.known[x0], node);
    assert(node.score.len() == 12);
    let after_score = search.step().max_score;
    lemma_score_le_total(node.score, search.max_score);
    lemma_visit_closing(
        search.tables,
        m,
        search.nb_nodes_visited + 1,
        search.max_score,
        after_score,
    );
}

/// Each neighbour of a node has a score of twelve values and costs more
/// than the node.
pub proof fn lemma_neighbors_cost_more(node: NodeView)
    ensures
        forall|k: int|
            0 <= k < neighbors(node).len() ==> (#[trigger] neighbors(node)[k]).score.len() == 12
                && !cost_lt(neighbors(node)[k].cost, node.cost),
{
    let offers = neighbors(node);
    assert forall|k: int| 0 <= k < offers.len() implies (#[trigger] offers[k]).score.len() == 12
        && !cost_lt(offers[k].cost, node.cost) by {
        lemma_pile_lt_asymmetric(node.cost, offers[k].cost);
    }
}

/// Taking a node out of the frontier keeps the tables tidy, and leaves the
/// search done with each known node but the one that was taken out.
pub proof fn lemma_pop_closing(tables: Tables, m: int, max_score: Seq<int>)
    requires
        tidy(tables),
        all_settled(tables, max_score),
        0 <= m < tables.unvisited.len(),
    ensures
        tidy(Tables { known: tables.known, unvisited: tables.unvisited.remove(m) }),
        all_settled_but(
            Tables { known: tables.known, unvisited: tables.unvisited.remove(m) },
            max_score,
            tables.unvisited[m].board,
        ),
{
    let unvisited = tables.unvisited;
    let rest = unvisited.remove(m);
    let popped = Tables { known: tables.known, unvisited: rest };
    let node = unvisited[m];
    assert forall|x: int, y: int| 0 <= x < y < rest.len() implies !(
    #[trigger] rest[x]).board.same_position((#[trigger] rest[y]).board) by {
        let from_x = if x < m {
            x
        } else {
            x + 1
        };
        let from_y = if y < m {
            y
        } else {
            y + 1
        };
        assert(rest[x] == unvisited[from_x]);
        assert(rest[y] == unvisited[from_y]);
    }
    assert forall|k: int| 0 <= k < rest.len() implies is_known(
        tables.known,
        #[trigger] rest[k],
    ) by {
        let from_k = if k < m {
            k
        } else {
            k + 1
        };
        assert(rest[k] == unvisited[from_k]);
    }
    assert forall|i: int| 0 <= i < popped.known.len() implies (
    #[trigger] popped.known[i]).board.same_position(node.board) || settled(
        popped,
        max_score,
        popped.known[i],
    ) by {
        let old = tables.known[i];
        assert(settled(tables, max_score, old));
        if !old.board.same_position(node.board) && has_position(unvisited, old.board) {
            let k = choose|k: int|
                0 <= k < unvisited.len() && (#[trigger] unvisited[k]).board.same_position(
                    old.board,
                );
            assert(k != m);
            if k < m {
                assert(rest[k] == unvisited[k]);
            } else {
                assert(rest[k - 1] == unvisited[k]);
            }
        }
    }
}

/// Giving the visited node its visit index, once its neighbours have been
/// offered, leaves the search done with each known node that it has
/// visited, for a highest score that is at least the score of that node.
pub proof fn lemma_mark_closing(
    expanded: Tables,
    node: NodeView,
    stored: NodeView,
    visited: nat,
    max_score: Seq<int>,
    after_score: Seq<int>,
)
    requires
        tidy(expanded),
        all_settled_but(expanded, max_score, node.board),
        same_node(stored, node),
        expanded.known.contains(stored),
        covers_all(expanded.known, neighbors(node)),
        max_score.len() == 12,
        after_score.len() == 12,
        node.score.len() == 12,
        score_le(max_score, after_score),
        score_le(node.score, after_score),
    ensures
        tidy(
            Tables {
                known: mark_visited(expanded.known, node.board, visited),
                unvisited: expanded.unvisited,
            },
        ),
        all_settled(
            Tables {
                known: mark_visited(expanded.known, node.board, visited),
                unvisited: expanded.unvisited,
            },
            after_score,
        ),
{
    let known = expanded.known;
    let marked = mark_visited(known, node.board, visited);
    let after = Tables { known: marked, unvisited: expanded.unvisited };
    let i = position_of(known, node.board);
    lemma_position_in_range(known, node.board, 0);
    let x0 = choose|x: int| 0 <= x < known.len() && known[x] == stored;
    assert(stored.board == node.board);
    assert(known[x0].board.same_position(node.board));
    assert(i < known.len());
    if i < x0 {
        assert(!known[i].board.same_position(known[x0].board));
    } else if x0 < i {
        assert(!known[x0].board.same_position(known[i].board));
    }
    assert(i == x0);
    assert forall|x: int| 0 <= x < marked.len() implies same_node(
        #[trigger] marked[x],
        known[x],
    ) by {}
    assert forall|x: int, y: int| 0 <= x < y < marked.len() implies !(
    #[trigger] marked[x]).board.same_position((#[trigger] marked[y]).board) by {
        assert(same_node(marked[x], known[x]));
        assert(same_node(marked[y], known[y]));
        assert(!known[x].board.same_position(known[y].board));
    }
    assert forall|k: int| 0 <= k < after.unvisited.len() implies is_known(
        marked,
        #[trigger] after.unvisited[k],
    ) by {
        assert(is_known(known, expanded.unvisited[k]));
        let w = choose|w: int|
            0 <= w < known.len() && same_node(#[trigger] known[w], expanded.unvisited[k]);
        assert(same_node(marked[w], known[w]));
    }
    assert forall|x: int| 0 <= x < marked.len() implies (#[trigger] marked[x]).score.len()
        == 12 by {
        assert(same_node(marked[x], known[x]));
        assert(known[x].score.len() == 12);
    }
    assert(covers_all(marked, known)) by {
        assert forall|x: int| 0 <= x < known.len() implies covers(
            marked,
            (#[trigger] known[x]).board,
            known[x].cost,
        ) by {
            assert(same_node(marked[x], known[x]));
            assert(marked[x].board.same_position(known[x].board));
        }
    }
    assert forall|x: int| 0 <= x < marked.len() implies settled(
        after,
        after_score,
        #[trigger] marked[x],
    ) by {
        let old = known[x];
        assert(same_node(marked[x], old));
        assert(neighbors(marked[x]) =~= neighbors(old)) by {
            lemma_same_node_neighbors(marked[x], old);
        }
        let nodes = neighbors(old);
        if x == i {
            lemma_same_node_neighbors(old, node);
            assert forall|n: int| 0 <= n < nodes.len() implies covers(
                marked,
                (#[trigger] nodes[n]).board,
                nodes[n].cost,
            ) by {
                assert(covers(known, nodes[n].board, nodes[n].cost));
                lemma_covers_transitive(marked, known, nodes[n].board, nodes[n].cost);
            }
        } else {
            if x < i {
                assert(!known[x].board.same_position(known[i].board));
            } else {
                assert(!known[i].board.same_position(known[x].board));
            }
            assert(settled(expanded, max_score, old));
            if !has_position(expanded.unvisited, old.board) {
                lemma_score_le_transitive(old.score, max_score, after_score);
                assert forall|n: int| 0 <= n < nodes.len() implies covers(
                    marked,
                    (#[trigger] nodes[n]).board,
                    nodes[n].cost,
                ) by {
                    assert(covers(known, nodes[n].board, nodes[n].cost));
                    lemma_covers_transitive(marked, known, nodes[n].board, nodes[n].cost);
                }
            }
        }
    }
}

/// Two nodes that are the same but for their visit index have the same
/// neighbours.
pub proof fn lemma_same_node_neighbors(a: NodeView, b: NodeView)
    requires
        same_node(a, b),
    ensures
        neighbors(a) == neighbors(b),
{
    assert(a.board == b.board);
    assert(a.moves == b.moves);
    assert(a.cost == b.cost);
    assert(a.active_player == b.active_player);
    assert(neighbor_moves(a) == neighbor_moves(b));
    assert(neighbors(a) =~= neighbors(b));
}

/// A table that covers a table that covers a third covers the third.
pub proof fn lemma_covers_all_transitive(
    last: Seq<NodeView>,
    middle: Seq<NodeView>,
    first: Seq<NodeView>,
)
    requires
        covers_all(middle, first),
        covers_all(last, middle),
    ensures
        covers_all(last, first),
{
    assert forall|i: int| 0 <= i < first.len() implies covers(
        last,
        (#[trigger] first[i]).board,
        first[i].cost,
    ) by {
        assert(covers(middle, first[i].board, first[i].cost));
        lemma_covers_transitive(last, middle, first[i].board, first[i].cost);
    }
}

/// A table covers itself.
pub proof fn lemma_covers_all_reflexive(known: Seq<NodeView>)
    ensures
        covers_all(known, known),
{
    assert forall|i: int| 0 <= i < known.len() implies covers(
        known,
        (#[trigger] known[i]).board,
        known[i].cost,
    ) by {
        assert(known[i].board.same_position(known[i].board));
    }
}

/// A search that runs to its end keeps its tables tidy, stays done with
/// each known node that it has visited, and still knows, at a cost that is
/// no higher, each position that it knew.
pub proof fn lemma_run_closing(search: SearchView)
    requires
        search.closing(),
    ensures
        search.run().closing(),
        covers_all(search.run().tables.known, search.tables.known),
    decreases usize::MAX - search.nb_nodes_visited,
{
    if search.can_step() {
        lemma_step_closing(search);
        super::table_laws::lemma_step_keeps_distinct(search);
        lemma_run_closing(search.step());
        lemma_covers_all_transitive(
            search.run().tables.known,
            search.step().tables.known,
            search.tables.known,
        );
    } else {
        lemma_covers_all_reflexive(search.tables.known);
    }
}

/// What a search that runs out of nodes to visit has found. At the end of
/// the search of a turn the table of known nodes holds one node for each
/// position, and a node for the position that the search started from. If
/// the frontier is empty, which it is unless the search has visited as
/// many nodes as the machine can count, then for each known node
/// - the table holds a node for the position of each of its neighbours,
///   at a cost that is no higher, and
/// - its score is no higher than the highest score seen, which is the
///   score of the best node.
pub proof fn lemma_exhaustive_search(origin: BoardView, player: crate::game::players::Player)
    requires
        origin.wf(),
    ensures
        ({
            let end = SearchView::initial(origin, player).run();
            &&& distinct_positions(end.tables.known)
            &&& has_position(end.tables.known, origin)
            &&& end.best_node.score == end.max_score
            &&& end.tables.unvisited.len() == 0 || end.nb_nodes_visited >= usize::MAX
            &&& end.tables.unvisited.len() == 0 ==> forall|i: int|
                0 <= i < end.tables.known.len() ==> {
                    &&& covers_all(end.tables.known, neighbors(#[trigger] end.tables.known[i]))
                    &&& score_le(end.tables.known[i].score, end.max_score)
                }
        }),
{
    let start = SearchView::initial(origin, player);
    let first = start.best_node;
    assert(start.tables.known[0] == first);
    assert(start.tables.unvisited[0] == first);
    assert(same_node(start.tables.known[0], start.tables.unvisited[0]));
    assert(start.tables.unvisited[0].board.same_position(first.board));
    assert(start.closing());
    lemma_run_closing(start);
    let end = start.run();
    super::laws::lemma_initial_inv(origin, player);
    super::laws::lemma_run_keeps_inv(start, origin, player);
    assert(covers(end.tables.known, start.tables.known[0].board, start.tables.known[0].cost));
    assert(start.tables.known[0].board == origin);
    let j = choose|j: int|
        0 <= j < end.tables.known.len() && (#[trigger] end.tables.known[j]).board.same_position(
            origin,
        ) && cost_le(end.tables.known[j].cost, start.tables.known[0].cost);
    assert(end.tables.known[j].board.same_position(origin));
    if end.tables.unvisited.len() == 0 {
        assert forall|i: int| 0 <= i < end.tables.known.len() implies {
            &&& covers_all(end.tables.known, neighbors(#[trigger] end.tables.known[i]))
            &&& score_le(end.tables.known[i].score, end.max_score)
        } by {
            assert(settled(end.tables, end.max_score, end.tables.known[i]));
        }
    }
}

} // verus!
