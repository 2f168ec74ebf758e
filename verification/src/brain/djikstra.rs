//! The search for the best turn.
//!
//! From the board of the player the search visits, cheapest plan first, every
//! board that the moves of one turn lead to, and remembers the first board
//! with the highest score. The plan to that board, closed by the action
//! that ends the turn, is the turn to play.

use vstd::prelude::*;

use super::board_node::play_all;
use super::board_node::search_path;
use super::board_node::BoardNode;
use super::board_node::NodeView;
use super::board_score::score_gt;
use super::board_score::score_le;
use super::board_score::score_lt;
use super::board_score::score_of;
use super::board_score::score_values;
use super::board_score::worse_score;
use super::board_score::BoardScore;
use super::laws::legal_sequence;
use super::laws::lemma_search_result;
use super::neighbors::neighbor_moves;
use super::tables::find_position;
use super::tables::known_wf;
use super::tables::min_position;
use super::tables::nodes_wf;
use super::tables::nodes_view;
use super::tables::pop_first;
use super::tables::position_of;
use super::tables::Tables;
use crate::game::board::Board;
use crate::game::board::BoardView;
use crate::game::moves::CardAction;
use crate::game::moves::CardActions;
use crate::game::piles::PileType;
use crate::game::players::Player;

verus! {

/// Settings of the search.
pub struct RustBrainConfig {
    pub shortcut: bool,
    pub filter_piles_orig: bool,
    pub filter_piles_orig_aggressive: bool,
    pub mono: bool,
    pub print_progress: bool,
    pub reproducible: bool,
}

/// The lowest score there is, as the rules see it.
pub open spec fn worse_score_values() -> Seq<int> {
    Seq::new(12, |k: int| i32::MIN as int)
}

/// The nodes `known` with the visit index `index` given to the node of the
/// position of `board`, if there is one.
pub open spec fn mark_visited(known: Seq<NodeView>, board: BoardView, index: nat) -> Seq<
    NodeView,
> {
    let i = position_of(known, board);
    if i < known.len() {
        known.update(i, known[i].with_index(index))
    } else {
        known
    }
}

/// The action that closes the turn of `player` on `board`, if there is one:
/// - the top card of the crape is turned up if it faces down;
/// - else the top card of the stock is turned up if it faces down, and
///   goes to the waste if it faces up;
/// - else, with an empty stock, the waste is turned over if it is not empty;
/// - else there is nothing to do.
pub open spec fn closing_actions(board: BoardView, player: Player) -> Seq<CardAction> {
    let crape = board.crape[player.spec_index()];
    let stock = board.stock[player.spec_index()];
    let waste = board.waste[player.spec_index()];
    if crape.cards.len() > 0 && !crape.cards.last().face_up {
        seq![CardAction::Flip { pile: PileType::Crape { player } }]
    } else if stock.cards.len() > 0 {
        if !stock.cards.last().face_up {
            seq![CardAction::Flip { pile: PileType::Stock { player } }]
        } else {
            seq![
                CardAction::Move {
                    card: stock.cards.last(),
                    origin: PileType::Stock { player },
                    destination: PileType::Waste { player },
                },
            ]
        }
    } else if waste.cards.len() > 0 {
        seq![CardAction::FlipWaste]
    } else {
        Seq::empty()
    }
}

/// The state of a search, as the rules see it.
pub struct SearchView {
    pub tables: Tables,
    pub max_score: Seq<int>,
    pub best_node: NodeView,
    pub nb_nodes_visited: nat,
}

impl SearchView {
    /// The state of the search of the turn of `player` on `board`, before
    /// any node is visited: the node of `board` is known and is the
    /// frontier.
    pub open spec fn initial(board: BoardView, player: Player) -> SearchView {
        let first = NodeView {
            board,
            active_player: player,
            cost: Seq::empty(),
            score: score_of(board, player),
            moves: Seq::empty(),
            index: 0,
        };
        SearchView {
            tables: Tables { known: seq![first], unvisited: seq![first] },
            max_score: worse_score_values(),
            best_node: first,
            nb_nodes_visited: 0,
        }
    }

    /// Whether the search has a node left to visit, and has not visited as
    /// many nodes as the machine can count.
    pub open spec fn can_step(self) -> bool {
        self.tables.unvisited.len() > 0 && self.nb_nodes_visited < usize::MAX
    }

    /// The state after one more node has been visited: the node that comes
    /// first in the frontier leaves it, its neighbours are offered to the
    /// tables, it is given its visit index, and it becomes the best node if
    /// its score is higher than every score before.
    pub open spec fn step(self) -> SearchView {
        let m = min_position(self.tables.unvisited);
        let node = self.tables.unvisited[m];
        let popped = Tables {
            known: self.tables.known,
            unvisited: self.tables.unvisited.remove(m),
        };
        let expanded = popped.register_all(node, neighbor_moves(node));
        let visited = self.nb_nodes_visited + 1;
        let better = score_lt(self.max_score, node.score);
        SearchView {
            tables: Tables {
                known: mark_visited(expanded.known, node.board, visited),
                unvisited: expanded.unvisited,
            },
            max_score: if better {
                node.score
            } else {
                self.max_score
            },
            best_node: if better {
                node
            } else {
                self.best_node
            },
            nb_nodes_visited: visited,
        }
    }

    /// The state in which the search ends.
    pub open spec fn run(self) -> SearchView
        decreases usize::MAX - self.nb_nodes_visited,
    {
        if self.can_step() {
            self.step().run()
        } else {
            self
        }
    }
}

/// Gives the visit index `index` to the node of the position of `board`, if
/// one is known.
fn mark_node(known_nodes: &mut Vec<BoardNode>, board: &Board, index: usize)
    requires
        known_wf(old(known_nodes)@),
        board@.shape(),
    ensures
        nodes_view(final(known_nodes)@) == mark_visited(
            nodes_view(old(known_nodes)@),
            board@,
            index as nat,
        ),
        known_wf(final(known_nodes)@),
{
    let i: usize = find_position(known_nodes, board);
    if i < known_nodes.len() {
        let mut node = known_nodes.remove(i);
        node.index = index;
        known_nodes.insert(i, node);
    }
    proof {
        let before = nodes_view(old(known_nodes)@);
        let after = nodes_view(known_nodes@);
        assert(after =~= mark_visited(before, board@, index as nat));
        assert forall|x: int, y: int| 0 <= x < y < after.len() implies !(
        #[trigger] after[x]).board.same_position((#[trigger] after[y]).board) by {
            assert(after[x].board == before[x].board);
            assert(after[y].board == before[y].board);
            assert(!before[x].board.same_position(before[y].board));
        }
    }
}

/// The state of a search.
pub struct Search {
    pub known_nodes: Vec<BoardNode>,
    pub known_unvisited_nodes: Vec<BoardNode>,
    pub max_score: BoardScore,
    pub best_node: BoardNode,
    pub nb_nodes_visited: usize,
}

impl View for Search {
    type V = SearchView;

    open spec fn view(&self) -> SearchView {
        SearchView {
            tables: Tables {
                known: nodes_view(self.known_nodes@),
                unvisited: nodes_view(self.known_unvisited_nodes@),
            },
            max_score: score_values(self.max_score),
            best_node: self.best_node@,
            nb_nodes_visited: self.nb_nodes_visited as nat,
        }
    }
}

impl Search {
    /// The invariant of a search: each of its nodes meets the invariant of
    /// a node, and it knows at most one node for each position.
    pub open spec fn wf(self) -> bool {
        &&& known_wf(self.known_nodes@)
        &&& nodes_wf(self.known_unvisited_nodes@)
        &&& self.best_node.wf()
    }

    /// Starts the search of the turn of `active_player` on `board`.
    pub fn new(board: &Board, active_player: Player) -> (r: Self)
        requires
            board@.wf(),
        ensures
            r@ == SearchView::initial(board@, active_player),
            r.wf(),
    {
        let first_node = BoardNode::new(board.clone(), active_player, &CardActions::new());
        let mut known_nodes: Vec<BoardNode> = Vec::new();
        let mut known_unvisited_nodes: Vec<BoardNode> = Vec::new();
        known_nodes.push(first_node.clone());
        known_unvisited_nodes.push(first_node.clone());
        let max_score = worse_score();
        let r = Search {
            known_nodes,
            known_unvisited_nodes,
            max_score,
            best_node: first_node,
            nb_nodes_visited: 0,
        };
        proof {
            let target = SearchView::initial(board@, active_player);
            assert(r@.tables.known =~= target.tables.known);
            assert(r@.tables.unvisited =~= target.tables.unvisited);
            assert(r@.max_score =~= target.max_score);
            assert(r@.best_node.cost =~= target.best_node.cost);
            assert(r@.best_node.moves =~= target.best_node.moves);
            assert(super::cost::cost_of(Seq::<CardAction>::empty()) =~= Seq::<(int, int)>::empty());
        }
        r
    }

    /// Visits the node that comes first in the frontier, if there is one
    /// and the count of visited nodes can still grow. Returns whether a node
    /// was visited. The highest score seen never goes down.
    pub fn step(&mut self) -> (visited: bool)
        requires
            old(self).wf(),
        ensures
            final(self).wf(),
            visited == old(self)@.can_step(),
            visited ==> final(self)@ == old(self)@.step(),
            !visited ==> final(self)@ == old(self)@,
            score_le(old(self)@.max_score, final(self)@.max_score),
    {
        if self.nb_nodes_visited == usize::MAX {
            return false;
        }
        let ghost before = self@;
        match pop_first(&mut self.known_unvisited_nodes) {
            None => false,
            Some(next_node) => {
                let ghost m = min_position(before.tables.unvisited);
                proof {
                    assert(next_node@ == before.tables.unvisited[m]);
                    assert(nodes_view(self.known_unvisited_nodes@)
                        =~= before.tables.unvisited.remove(m));
                }
                self.nb_nodes_visited += 1;
                next_node.search_neighbors(&mut self.known_nodes, &mut self.known_unvisited_nodes);
                mark_node(&mut self.known_nodes, &next_node.board, self.nb_nodes_visited);
                if score_gt(&next_node.score, &self.max_score) {
                    self.max_score = next_node.score;
                    self.best_node = next_node;
                }
                true
            },
        }
    }
}

/// Searches the best turn of `active_player` on `board`. Returns the actions
/// of the turn and the number of boards that the search has visited.
///
/// The turn is the plan of the node that the search ends with, followed by
/// the action that closes the turn on the board of that node. The plan is
/// a plan of the search: each of its moves is legal where it is played,
/// only the last may come from the crape or the stock, and none takes back
/// the move before it. The board that it leads to is worth at least as much
/// as `board`. The search has run out of nodes to visit unless it has
/// visited as many nodes as the machine can count; when it has run out, and
/// the cards of one rank and suit on the tableau face alike, no plan of the
/// turn leads to a board with a higher score (`lemma_best_is_optimal`).
pub fn brain_djikstra(board: &Board, active_player: Player) -> (r: (CardActions, usize))
    requires
        board@.wf(),
    ensures
        ({
            let end = SearchView::initial(board@, active_player).run();
            let best = end.best_node;
            &&& r.0@ == best.moves + closing_actions(best.board, active_player)
            &&& r.1 == end.nb_nodes_visited
            &&& r.1 >= 1
            &&& r.1 < usize::MAX ==> end.tables.unvisited.len() == 0
            &&& best.board == play_all(board@, best.moves, active_player)
            &&& search_path(board@, best.moves, active_player)
            &&& legal_sequence(board@, r.0@, active_player)
            &&& score_le(
                score_of(board@, active_player),
                score_of(best.board, active_player),
            )
        }),
{
    let mut search = Search::new(board, active_player);
    let ghost start = search@;
    loop
        invariant
            search.wf(),
            search@.run() == start.run(),
        ensures
            search.wf(),
            search@ == start.run(),
            !search@.can_step(),
        decreases usize::MAX - search.nb_nodes_visited,
    {
        let visited = search.step();
        if !visited {
            break ;
        }
    }
    proof {
        lemma_search_result(board@, active_player);
    }
    let Search { best_node, nb_nodes_visited, .. } = search;
    let BoardNode { board: best_board, moves: best_moves, .. } = best_node;
    let moves = finalize_moves(best_moves, &best_board, active_player);
    (moves, nb_nodes_visited)
}

/// Why no turn was computed.
#[derive(Debug, Clone, Copy, PartialEq, Eq, Structural)]
pub enum SearchError {
    /// The board does not meet its invariant.
    InputViolation,
}

/// The best turn of `player` on `board`: the plan of the node that the
/// search ends with, followed by the action that closes the turn.
pub open spec fn best_turn(board: BoardView, player: Player) -> Seq<CardAction> {
    let best = SearchView::initial(board, player).run().best_node;
    best.moves + closing_actions(best.board, player)
}

/// Computes the turn that `active_player` should play on `board`. A board
/// that does not meet its invariant is refused, and no search is made.
pub fn compute_turn(board: &Board, active_player: Player) -> (r: Result<CardActions, SearchError>)
    ensures
        r is Ok <==> board@.wf(),
        r matches Ok(moves) ==> {
            &&& moves@ == best_turn(board@, active_player)
            &&& legal_sequence(board@, moves@, active_player)
        },
        r matches Err(e) ==> e == SearchError::InputViolation,
{
    if !board.is_valid() {
        return Err(SearchError::InputViolation);
    }
    let (moves, _nb_nodes_visited) = brain_djikstra(board, active_player);
    Ok(moves)
}

/// Appends to `moves` the action that closes the turn of `active_player` on
/// `board`, if there is one.
pub fn finalize_moves(moves: CardActions, board: &Board, active_player: Player) -> (r:
    CardActions)
    requires
        board@.shape(),
    ensures
        r@ == moves@ + closing_actions(board@, active_player),
{
    let mut moves = moves;
    let p: usize = active_player.index();
    let crape = &board.crape[p];
    let stock = &board.stock[p];
    let waste = &board.waste[p];
    proof {
        assert(crape@ == board@.crape[p as int]);
        assert(stock@ == board@.stock[p as int]);
        assert(waste@ == board@.waste[p as int]);
    }
    let ghost start = moves@;
    match crape.top_card() {
        Some(card) => {
            if !card.face_up {
                moves.push(CardAction::Flip { pile: crape.kind });
                assert(moves@ =~= start + closing_actions(board@, active_player));
                return moves;
            }
        },
        None => {},
    }
    match stock.top_card() {
        Some(card) => {
            if !card.face_up {
                moves.push(CardAction::Flip { pile: stock.kind });
            } else {
                moves.push(
                    CardAction::Move { card: *card, origin: stock.kind, destination: waste.kind },
                );
            }
        },
        None => {
            if !waste.is_empty() {
                moves.push(CardAction::FlipWaste);
            }
        },
    }
    assert(moves@ =~= start + closing_actions(board@, active_player));
    moves
}

/// The action that closes a turn is legal on the board that it closes the
/// turn on, and there is at most one.
pub proof fn lemma_closing_legal(board: BoardView, player: Player)
    requires
        board.shape(),
    ensures
        closing_actions(board, player).len() <= 1,
        forall|k: int|
            0 <= k < closing_actions(board, player).len() ==> board.legal(
                #[trigger] closing_actions(board, player)[k],
                player,
            ),
{
    let i = player.spec_index();
    assert(board.crape[i].kind == (PileType::Crape { player }));
    assert(board.stock[i].kind == (PileType::Stock { player }));
    assert(board.waste[i].kind == (PileType::Waste { player }));
}

} // verus!
