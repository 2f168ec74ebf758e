//! The nodes of the search: a board that the player can reach in this turn,
//! with the moves that lead to it, what they cost and what the board is worth.

use std::cmp::Ordering;
use vstd::prelude::*;

use super::board_score::board_score;
use super::board_score::score_eq;
use super::board_score::score_gt;
use super::board_score::score_lt;
use super::board_score::score_of;
use super::board_score::score_values;
use super::board_score::BoardScore;
use super::cost::cost_lt;
use super::cost::cost_of;
use super::cost::has_cost;
use super::cost::move_cost;
use super::cost::Cost;
use super::cost::CostView;
use super::turn_rules::playable_action;
use crate::game::board::Board;
use crate::game::board::BoardView;
use crate::game::canonical::board_order_of;
use crate::game::moves::CardAction;
use crate::game::moves::CardActions;
use crate::game::piles::PileType;
use crate::game::players::Player;

verus! {

/// The board that the moves `moves`, played in order by `player`, make of
/// `board`.
pub open spec fn play_all(board: BoardView, moves: Seq<CardAction>, player: Player) -> BoardView
    decreases moves.len(),
{
    if moves.len() == 0 {
        board
    } else {
        play_all(board, moves.drop_last(), player).apply(moves.last(), player)
    }
}

/// Whether `action` moves a card from a crape or a stock.
pub open spec fn from_player_pile(action: CardAction) -> bool {
    action matches CardAction::Move { origin, .. } && (origin is Crape || origin is Stock)
}

/// Whether the move `next` takes back the move `previous`: it goes from the
/// pile that `previous` went to, to the pile that `previous` came from.
pub open spec fn undoes(previous: CardAction, next: CardAction) -> bool {
    match (previous, next) {
        (
            CardAction::Move { origin: a, destination: b, .. },
            CardAction::Move { origin: from, destination: to, .. },
        ) => b.spec_is_same(from) && a.spec_is_same(to),
        _ => false,
    }
}

/// Whether `moves` is a plan that the search may build for `player` from
/// `board`:
/// - each move is one that the player may make in the middle of the turn
///   on the board that the moves before it have made, which meets its
///   invariant;
/// - only the last move may come from the crape or the stock;
/// - no move takes back the move before it.
pub open spec fn search_path(board: BoardView, moves: Seq<CardAction>, player: Player) -> bool {
    forall|i: int| 0 <= i < moves.len() ==> #[trigger] step_ok(board, moves, i, player)
}

/// Whether the move at position `i` of the plan `moves` is one that the
/// search may make there: a move that the player may make in the middle of
/// the turn, on a board that meets its invariant, which is the last of the
/// plan if it comes from the crape or the stock, and which the next move
/// does not take back.
pub open spec fn step_ok(board: BoardView, moves: Seq<CardAction>, i: int, player: Player) -> bool {
    &&& play_all(board, moves.take(i), player).wf()
    &&& playable_action(play_all(board, moves.take(i), player), moves[i], player)
    &&& i < moves.len() - 1 ==> !from_player_pile(moves[i])
    &&& i < moves.len() - 1 ==> !undoes(moves[i], moves[i + 1])
}

/// What a node is to the search.
pub struct NodeView {
    pub board: BoardView,
    pub active_player: Player,
    pub cost: CostView,
    pub score: Seq<int>,
    pub moves: Seq<CardAction>,
    pub index: nat,
}

impl NodeView {
    /// The invariant of a node of the search that started from `origin`: its
    /// moves are a plan that leads from `origin` to its board, its cost is
    /// the cost of that plan, and its score is the score of its board.
    pub open spec fn wf_from(self, origin: BoardView) -> bool {
        &&& self.board.wf()
        &&& self.board == play_all(origin, self.moves, self.active_player)
        &&& search_path(origin, self.moves, self.active_player)
        &&& self.cost == cost_of(self.moves)
        &&& self.score == score_of(self.board, self.active_player)
    }

    /// The same node with the visit index `index`.
    pub open spec fn with_index(self, index: nat) -> NodeView {
        NodeView { index, ..self }
    }
}

/// How two nodes compare in the frontier: by cost, then by score, then by
/// the canonical form of the board.
pub open spec fn node_order_of(a: NodeView, b: NodeView) -> Ordering {
    if a.cost != b.cost {
        if cost_lt(a.cost, b.cost) {
            Ordering::Less
        } else {
            Ordering::Greater
        }
    } else if a.score != b.score {
        if score_lt(a.score, b.score) {
            Ordering::Less
        } else {
            Ordering::Greater
        }
    } else {
        board_order_of(a.board.canonical(), b.board.canonical())
    }
}

/// Whether the node `a` comes strictly before `b` in the frontier.
pub open spec fn node_lt(a: NodeView, b: NodeView) -> bool {
    node_order_of(a, b) == Ordering::Less
}

/// A node of the search.
#[derive(Debug)]
pub struct BoardNode {
    pub board: Board,
    pub active_player: Player,
    pub cost: Cost,
    pub score: BoardScore,
    pub moves: CardActions,
    pub index: usize,
}

impl View for BoardNode {
    type V = NodeView;

    open spec fn view(&self) -> NodeView {
        NodeView {
            board: self.board@,
            active_player: self.active_player,
            cost: self.cost@,
            score: score_values(self.score),
            moves: self.moves@,
            index: self.index as nat,
        }
    }
}

impl Clone for BoardNode {
    fn clone(&self) -> (r: Self)
        ensures
            r@ == self@,
            r.cost.wf() == self.cost.wf(),
    {
        BoardNode {
            board: self.board.clone(),
            active_player: self.active_player,
            cost: self.cost.clone(),
            score: self.score,
            moves: self.moves.clone(),
            index: self.index,
        }
    }
}

impl BoardNode {
    /// The invariant of a node: its board meets its invariant, and its cost
    /// counts one entry for each move that it holds.
    pub open spec fn wf(self) -> bool {
        &&& self@.board.wf()
        &&& self.cost.wf()
    }

    /// The invariant of a node of the search that started from `origin`.
    pub open spec fn wf_from(self, origin: BoardView) -> bool {
        &&& self@.wf_from(origin)
        &&& self.cost.wf()
    }

    /// Creates the node of a board that the moves `moves` have led to, with
    /// the score of the board and, so far, the cost of the empty plan.
    pub fn new(board: Board, active_player: Player, moves: &CardActions) -> (r: Self)
        requires
            board@.shape(),
            board@.nb_cards() <= i32::MAX,
        ensures
            r@ == (NodeView {
                board: board@,
                active_player,
                cost: Seq::<(int, int)>::empty(),
                score: score_of(board@, active_player),
                moves: moves@,
                index: 0,
            }),
            r.cost.wf(),
            r.cost.nb_moves == 0,
    {
        let score = board_score(&board, active_player);
        BoardNode {
            board,
            active_player,
            cost: Cost::new(),
            score,
            moves: moves.clone(),
            index: 0,
        }
    }

    /// Returns the cost of the plan of this node followed by `action`.
    pub fn compute_move_cost(&self, action: &CardAction) -> (r: Cost)
        requires
            has_cost(*action),
            self.cost.wf(),
        ensures
            r@ == self.cost@.push(move_cost(*action)),
            r.wf(),
    {
        match action {
            CardAction::Move { destination, origin, .. } => {
                let dest_cost: usize = match destination {
                    PileType::Foundation { .. } => 0,
                    PileType::Crape { .. } => 1,
                    PileType::Waste { .. } => 2,
                    _ => 3,
                };
                let orig_cost: usize = match origin {
                    PileType::Tableau { .. } => 0,
                    PileType::Crape { .. } => 1,
                    _ => 2,
                };
                self.cost.extended(dest_cost, orig_cost)
            },
            _ => self.cost.clone(),
        }
    }

    /// Checks whether the two nodes hold the same position.
    pub fn eq(&self, other: &BoardNode) -> (r: bool)
        requires
            self@.board.shape(),
            other@.board.shape(),
        ensures
            r == self@.board.same_position(other@.board),
    {
        self.board.eq(&other.board)
    }

    /// Compares the two nodes as the frontier orders them: by cost, then by
    /// score, then by the canonical form of the board.
    pub fn cmp(&self, other: &BoardNode) -> (r: Ordering)
        requires
            self@.board.shape(),
            other@.board.shape(),
            self.cost.wf(),
            other.cost.wf(),
        ensures
            r == node_order_of(self@, other@),
    {
        if !self.cost.is_same(&other.cost) {
            if self.cost.is_lower(&other.cost) {
                Ordering::Less
            } else {
                Ordering::Greater
            }
        } else if !score_eq(&self.score, &other.score) {
            if score_gt(&other.score, &self.score) {
                Ordering::Less
            } else {
                Ordering::Greater
            }
        } else {
            self.board.cmp(&other.board)
        }
    }

    /// Compares the two nodes.
    pub fn partial_cmp(&self, other: &BoardNode) -> (r: Option<Ordering>)
        requires
            self@.board.shape(),
            other@.board.shape(),
            self.cost.wf(),
            other.cost.wf(),
        ensures
            r == Some(node_order_of(self@, other@)),
    {
        Some(self.cmp(other))
    }

    /// Checks whether this node comes strictly before `other` in the frontier.
    pub fn is_before(&self, other: &BoardNode) -> (r: bool)
        requires
            self@.board.shape(),
            other@.board.shape(),
            self.cost.wf(),
            other.cost.wf(),
        ensures
            r == node_lt(self@, other@),
    {
        match self.cmp(other) {
            Ordering::Less => true,
            _ => false,
        }
    }
}

/// Playing a plan and then one more move is playing the plan with the move
/// at its end.
pub proof fn lemma_play_all_push(
    board: BoardView,
    moves: Seq<CardAction>,
    action: CardAction,
    player: Player,
)
    ensures
        play_all(board, moves.push(action), player) == play_all(board, moves, player).apply(
            action,
            player,
        ),
{
    assert(moves.push(action).drop_last() =~= moves);
}

/// A plan of the search followed by one more move is a plan of the search
/// if the player may make the move on the board that the plan has made,
/// the plan does not end with a move from the crape or the stock, and the
/// move does not take back the last move of the plan.
pub proof fn lemma_search_path_push(
    board: BoardView,
    moves: Seq<CardAction>,
    action: CardAction,
    player: Player,
)
    requires
        search_path(board, moves, player),
        play_all(board, moves, player).wf(),
        playable_action(play_all(board, moves, player), action, player),
        moves.len() > 0 ==> !from_player_pile(moves.last()),
        moves.len() > 0 ==> !undoes(moves.last(), action),
    ensures
        search_path(board, moves.push(action), player),
{
    let longer = moves.push(action);
    assert forall|i: int| 0 <= i < longer.len() implies #[trigger] step_ok(
        board,
        longer,
        i,
        player,
    ) by {
        if i < moves.len() {
            assert(step_ok(board, moves, i, player));
            assert(longer.take(i) =~= moves.take(i));
            assert(longer[i] == moves[i]);
            if i < moves.len() - 1 {
                assert(longer[i + 1] == moves[i + 1]);
            } else {
                assert(longer[i] == moves.last());
                assert(longer[i + 1] == action);
            }
        } else {
            assert(longer.take(i) =~= moves);
            assert(longer[i] == action);
        }
    }
}

} // verus!
