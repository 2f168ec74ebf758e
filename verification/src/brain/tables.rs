//! The two tables of the search: the nodes that are known, one for each
//! position, and among them the frontier, the nodes that are still to visit.

use vstd::prelude::*;

use super::board_node::node_lt;
use super::board_node::BoardNode;
use super::board_node::NodeView;
use super::board_score::score_of;
use super::cost::cost_le;
use super::cost::cost_lt;
use super::cost::cost_of;
use super::cost::CostView;
use super::cost::move_cost;
use crate::game::board::Board;
use crate::game::board::BoardView;
use crate::game::moves::CardAction;

verus! {

/// The views of the nodes of a table.
pub open spec fn nodes_view(nodes: Seq<BoardNode>) -> Seq<NodeView> {
    nodes.map_values(|n: BoardNode| n@)
}

impl NodeView {
    /// The node of the board that `action` makes of the board of this node.
    pub open spec fn child(self, action: CardAction) -> NodeView {
        NodeView {
            board: self.board.apply(action, self.active_player),
            active_player: self.active_player,
            cost: self.cost.push(move_cost(action)),
            score: score_of(self.board.apply(action, self.active_player), self.active_player),
            moves: self.moves.push(action),
            index: 0,
        }
    }
}

/// Whether each node of a table meets the invariant of a node.
pub open spec fn nodes_wf(nodes: Seq<BoardNode>) -> bool {
    forall|i: int| 0 <= i < nodes.len() ==> (#[trigger] nodes[i]).wf()
}

/// The invariant of the table of known nodes: each node meets the invariant
/// of a node, and the table holds at most one node for each position.
pub open spec fn known_wf(nodes: Seq<BoardNode>) -> bool {
    &&& nodes_wf(nodes)
    &&& distinct_positions(nodes_view(nodes))
}

/// The first position from `k` on at which `nodes` holds a node for the
/// position of `board`, or the length of `nodes` if there is none.
pub open spec fn position_from(nodes: Seq<NodeView>, board: BoardView, k: int) -> int
    decreases nodes.len() - k,
{
    if k < 0 || k >= nodes.len() {
        nodes.len() as int
    } else if nodes[k].board.same_position(board) {
        k
    } else {
        position_from(nodes, board, k + 1)
    }
}

/// The first position at which `nodes` holds a node for the position of
/// `board`, or the length of `nodes` if there is none.
pub open spec fn position_of(nodes: Seq<NodeView>, board: BoardView) -> int {
    position_from(nodes, board, 0)
}

/// The first position from `k` on of a node of `nodes` that no node from
/// `k` on comes before in the frontier, given that `best` is such a position
/// for the nodes before `k`.
pub open spec fn min_position_from(nodes: Seq<NodeView>, best: int, k: int) -> int
    decreases nodes.len() - k,
{
    if k < 0 || k >= nodes.len() {
        best
    } else if node_lt(nodes[k], nodes[best]) {
        min_position_from(nodes, k, k + 1)
    } else {
        min_position_from(nodes, best, k + 1)
    }
}

/// The position of the node of `nodes` that comes first in the frontier;
/// of several that no node comes before, the first.
pub open spec fn min_position(nodes: Seq<NodeView>) -> int {
    min_position_from(nodes, 0, 1)
}

/// Whether `known` holds at most one node for each position.
pub open spec fn distinct_positions(known: Seq<NodeView>) -> bool {
    forall|i: int, j: int|
        0 <= i < j < known.len() ==> !(#[trigger] known[i]).board.same_position(
            (#[trigger] known[j]).board,
        )
}

/// Whether `known` holds a node for the position of `board` that costs no
/// more than `cost`.
pub open spec fn covers(known: Seq<NodeView>, board: BoardView, cost: CostView) -> bool {
    exists|j: int|
        0 <= j < known.len() && (#[trigger] known[j]).board.same_position(board) && cost_le(
            known[j].cost,
            cost,
        )
}

/// Whether `after` holds, for each node of `before`, a node for the same
/// position that costs no more.
pub open spec fn covers_all(after: Seq<NodeView>, before: Seq<NodeView>) -> bool {
    forall|i: int|
        0 <= i < before.len() ==> covers(after, (#[trigger] before[i]).board, before[i].cost)
}

/// The two tables of the search, as the rules see them.
pub struct Tables {
    pub known: Seq<NodeView>,
    pub unvisited: Seq<NodeView>,
}

impl Tables {
    /// The tables after `node` has been offered to them.
    /// - If no node is known for its position, `node` joins both tables.
    /// - If one is known that costs no more, nothing changes.
    /// - If one is known that costs more, it leaves both tables and `node`
    ///   joins them in its place.
    pub open spec fn register(self, node: NodeView) -> Tables {
        let i = position_of(self.known, node.board);
        let j = position_of(self.unvisited, node.board);
        if i >= self.known.len() {
            Tables { known: self.known.push(node), unvisited: self.unvisited.push(node) }
        } else if !cost_lt(node.cost, self.known[i].cost) {
            self
        } else if j < self.unvisited.len() {
            Tables {
                known: self.known.remove(i).push(node),
                unvisited: self.unvisited.remove(j).push(node),
            }
        } else {
            Tables { known: self.known.remove(i).push(node), unvisited: self.unvisited.push(node) }
        }
    }

    /// The tables after the children of `node` by the moves `moves` have
    /// been offered to them, one after the other.
    pub open spec fn register_all(self, node: NodeView, moves: Seq<CardAction>) -> Tables
        decreases moves.len(),
    {
        if moves.len() == 0 {
            self
        } else {
            self.register_all(node, moves.drop_last()).register(node.child(moves.last()))
        }
    }
}

/// Returns the first position at which `nodes` holds a node for the
/// position of `board`, or the length of `nodes` if there is none.
pub fn find_position(nodes: &Vec<BoardNode>, board: &Board) -> (r: usize)
    requires
        nodes_wf(nodes@),
        board@.shape(),
    ensures
        r == position_of(nodes_view(nodes@), board@),
        r <= nodes@.len(),
{
    let ghost views = nodes_view(nodes@);
    let mut k: usize = 0;
    while k < nodes.len()
        invariant
            k <= nodes@.len(),
            views == nodes_view(nodes@),
            nodes_wf(nodes@),
            board@.shape(),
            position_of(views, board@) == position_from(views, board@, k as int),
        decreases nodes@.len() - k,
    {
        assert(nodes@[k as int].wf());
        if nodes[k].board.eq(board) {
            return k;
        }
        k += 1;
    }
    k
}

/// Takes out of the frontier the node that comes first in it, if the
/// frontier is not empty.
pub fn pop_first(nodes: &mut Vec<BoardNode>) -> (r: Option<BoardNode>)
    requires
        nodes_wf(old(nodes)@),
    ensures
        r is Some <==> old(nodes)@.len() > 0,
        r matches Some(node) ==> {
            let m = min_position(nodes_view(old(nodes)@));
            &&& 0 <= m < old(nodes)@.len()
            &&& node == old(nodes)@[m]
            &&& final(nodes)@ == old(nodes)@.remove(m)
        },
        r is None ==> final(nodes)@ == old(nodes)@,
        nodes_wf(final(nodes)@),
{
    if nodes.len() == 0 {
        return None;
    }
    let ghost views = nodes_view(nodes@);
    let mut best: usize = 0;
    let mut k: usize = 1;
    while k < nodes.len()
        invariant
            1 <= k,
            best < k,
            best < nodes@.len(),
            views == nodes_view(nodes@),
            nodes_wf(nodes@),
            min_position(views) == min_position_from(views, best as int, k as int),
        decreases nodes@.len() - k,
    {
        assert(nodes@[k as int].wf());
        assert(nodes@[best as int].wf());
        if nodes[k].is_before(&nodes[best]) {
            best = k;
        }
        k += 1;
    }
    let node = nodes.remove(best);
    Some(node)
}

} // verus!
