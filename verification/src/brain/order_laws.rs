//! The order of the frontier is a total order on nodes.
//!
//! Two nodes are told apart by their costs, then by their scores, then by
//! their positions: only nodes with the same cost, the same score and the
//! same position tie. So the node that leaves the frontier first is one
//! that no other node of the frontier comes before.

use std::cmp::Ordering;
use vstd::prelude::*;

use super::board_node::node_lt;
use super::board_node::node_order_of;
use super::board_node::NodeView;
use super::board_score::score_lt;
use super::board_score::score_lt_from;
use super::cost::cost_lt;
use super::laws::lemma_min_position;
use super::laws::lemma_score_lt_transitive;
use super::tables::min_position;
use super::tables::min_position_from;
use crate::game::order_laws::lemma_board_lt_total;
use crate::game::order_laws::lemma_board_lt_transitive;
use crate::game::order_laws::lemma_canonical_lengths;
use crate::game::order_laws::lemma_pile_lt_asymmetric;
use crate::game::order_laws::lemma_pile_lt_total;
use crate::game::order_laws::lemma_pile_lt_transitive;

verus! {

/// Whether the nodes `a` and `b` tie in the frontier: they have the same
/// cost, the same score and the same position.
pub open spec fn node_tie(a: NodeView, b: NodeView) -> bool {
    &&& a.cost == b.cost
    &&& a.score == b.score
    &&& a.board.same_position(b.board)
}

/// Whether each node of `nodes` has a board of the shape of a board and a
/// score of twelve values.
pub open spec fn comparable(nodes: Seq<NodeView>) -> bool {
    forall|i: int|
        0 <= i < nodes.len() ==> (#[trigger] nodes[i]).board.shape() && nodes[i].score.len()
            == 12
}

/// Of two scores of one length at most one is strictly lower than the other.
pub proof fn lemma_score_lt_asymmetric(a: Seq<int>, b: Seq<int>, k: int)
    requires
        a.len() == b.len(),
        0 <= k,
        score_lt_from(a, b, k),
    ensures
        !score_lt_from(b, a, k),
    decreases a.len() - k,
{
    if k < a.len() && a[k] == b[k] {
        lemma_score_lt_asymmetric(a, b, k + 1);
    }
}

/// Of two scores of one length that differ from some place on, one is
/// strictly lower than the other.
pub proof fn lemma_score_lt_total(a: Seq<int>, b: Seq<int>, k: int)
    requires
        a.len() == b.len(),
        0 <= k <= a.len(),
        a.skip(k) != b.skip(k),
    ensures
        score_lt_from(a, b, k) || score_lt_from(b, a, k),
    decreases a.len() - k,
{
    if k == a.len() {
        assert(a.skip(k) =~= b.skip(k));
    } else if a[k] == b[k] {
        if a.skip(k + 1) == b.skip(k + 1) {
            assert(a.skip(k) =~= seq![a[k]] + a.skip(k + 1));
            assert(b.skip(k) =~= seq![b[k]] + b.skip(k + 1));
        }
        lemma_score_lt_total(a, b, k + 1);
    }
}

/// How two nodes compare: they tie exactly when the order says `Equal`, and
/// else one comes strictly before the other, and not both.
pub proof fn lemma_node_order_total(a: NodeView, b: NodeView)
    requires
        a.board.shape(),
        b.board.shape(),
        a.score.len() == b.score.len(),
    ensures
        node_order_of(a, b) == Ordering::Equal <==> node_tie(a, b),
        node_order_of(a, b) == Ordering::Greater <==> node_lt(b, a),
        !(node_lt(a, b) && node_lt(b, a)),
        node_tie(a, b) || node_lt(a, b) || node_lt(b, a),
        node_tie(a, b) ==> !node_lt(a, b) && !node_lt(b, a),
{
    if a.cost != b.cost {
        lemma_pile_lt_total(a.cost, b.cost);
        if cost_lt(a.cost, b.cost) {
            lemma_pile_lt_asymmetric(a.cost, b.cost);
        }
    } else if a.score != b.score {
        assert(a.score.skip(0) =~= a.score);
        assert(b.score.skip(0) =~= b.score);
        lemma_score_lt_total(a.score, b.score, 0);
        if score_lt(a.score, b.score) {
            lemma_score_lt_asymmetric(a.score, b.score, 0);
        }
    } else {
        lemma_canonical_lengths(a.board, b.board);
        lemma_board_lt_total(a.board.canonical(), b.board.canonical());
        lemma_board_lt_total(b.board.canonical(), a.board.canonical());
    }
}

/// The strict order of the frontier is transitive.
pub proof fn lemma_node_lt_transitive(a: NodeView, b: NodeView, c: NodeView)
    requires
        a.board.shape(),
        b.board.shape(),
        c.board.shape(),
        a.score.len() == b.score.len(),
        b.score.len() == c.score.len(),
        node_lt(a, b),
        node_lt(b, c),
    ensures
        node_lt(a, c),
{
    if a.cost != b.cost && b.cost != c.cost {
        lemma_pile_lt_transitive(a.cost, b.cost, c.cost);
        lemma_pile_lt_asymmetric(a.cost, c.cost);
    } else if a.cost != b.cost || b.cost != c.cost {
        if a.cost != b.cost {
            lemma_pile_lt_asymmetric(a.cost, b.cost);
        } else {
            lemma_pile_lt_asymmetric(b.cost, c.cost);
        }
    } else if a.score != b.score && b.score != c.score {
        lemma_score_lt_transitive(a.score, b.score, c.score, 0);
        lemma_score_lt_asymmetric(a.score, c.score, 0);
        if a.score == c.score {
            lemma_score_lt_asymmetric(a.score, b.score, 0);
        }
    } else if a.score != b.score || b.score != c.score {
        if a.score != b.score {
            lemma_score_lt_asymmetric(a.score, b.score, 0);
        } else {
            lemma_score_lt_asymmetric(b.score, c.score, 0);
        }
    } else {
        lemma_canonical_lengths(a.board, b.board);
        lemma_canonical_lengths(b.board, c.board);
        lemma_board_lt_transitive(a.board.canonical(), b.board.canonical(), c.board.canonical());
    }
}

/// No node of the first `k` nodes comes before the node that the scan of
/// the frontier ends with, if none of them came before the node that it
/// started with.
proof fn lemma_min_from_is_least(nodes: Seq<NodeView>, best: int, k: int)
    requires
        comparable(nodes),
        0 <= best < k <= nodes.len(),
        forall|j: int| 0 <= j < k ==> !node_lt(#[trigger] nodes[j], nodes[best]),
    ensures
        forall|j: int|
            0 <= j < nodes.len() ==> !node_lt(
                #[trigger] nodes[j],
                nodes[min_position_from(nodes, best, k)],
            ),
    decreases nodes.len() - k,
{
    if k < nodes.len() {
        if node_lt(nodes[k], nodes[best]) {
            assert forall|j: int| 0 <= j < k + 1 implies !node_lt(
                #[trigger] nodes[j],
                nodes[k],
            ) by {
                if j < k {
                    if node_lt(nodes[j], nodes[k]) {
                        lemma_node_lt_transitive(nodes[j], nodes[k], nodes[best]);
                    }
                } else {
                    lemma_node_order_total(nodes[k], nodes[k]);
                }
            }
            lemma_min_from_is_least(nodes, k, k + 1);
        } else {
            lemma_min_from_is_least(nodes, best, k + 1);
        }
    }
}

/// The node that leaves the frontier first is one that no node of the
/// frontier comes before.
pub proof fn lemma_min_is_least(nodes: Seq<NodeView>)
    requires
        comparable(nodes),
        nodes.len() > 0,
    ensures
        0 <= min_position(nodes) < nodes.len(),
        forall|j: int|
            0 <= j < nodes.len() ==> !node_lt(#[trigger] nodes[j], nodes[min_position(nodes)]),
{
    lemma_min_position(nodes, 0, 1);
    lemma_node_order_total(nodes[0], nodes[0]);
    lemma_min_from_is_least(nodes, 0, 1);
}

} // verus!
