//! The same position gets the same turn.
//!
//! Of two boards that differ only by the arrangement of the piles within
//! the tableau row and within the foundation row, and on whose tableaus the
//! cards of one rank and suit face alike, the searches of a turn, if they
//! run out of nodes to visit, end on the same position, and so do the turns
//! that they find.

use vstd::prelude::*;

use super::board_node::from_player_pile;
use super::board_node::node_lt;
use super::board_node::play_all;
use super::board_node::NodeView;
use super::board_score::lemma_position_score;
use super::board_score::score_le;
use super::closure_laws::lemma_same_node_fields;
use super::closure_laws::same_node;
use super::cost::cost_le;
use super::cost::cost_of;
use super::djikstra::best_turn;
use super::djikstra::closing_actions;
use super::djikstra::SearchView;
use super::neighbors::move_of;
use super::optimality_laws::lemma_plan_is_known;
use super::order_laws::lemma_node_order_total;
use super::order_laws::node_tie;
use super::transfer_laws::alike;
use super::transfer_laws::lemma_like_moves;
use super::transfer_laws::lemma_find_pile;
use super::transfer_laws::lemma_transfer;
use super::turn_laws::faces_like;
use super::turn_laws::in_tableau;
use super::turn_laws::in_turn;
use super::turn_laws::leaves_open;
use super::turn_laws::lemma_search_path_is_turn_plan;
use super::turn_laws::lemma_turn_plan_keeps;
use super::turn_laws::lemma_turn_plan_prefix;
use super::turn_laws::tableau_face;
use super::turn_laws::tableau_faces_alike;
use super::turn_laws::turn_plan;
use super::turn_rules::playable_action;
use super::visit_laws::lemma_best_comes_first;
use super::visit_laws::lemma_score_le_not_lt;
use super::visit_laws::lemma_tie_compares_alike;
use crate::game::board::BoardView;
use crate::game::cards::Card;
use crate::game::moves::CardAction;
use crate::game::piles::PileType;
use crate::game::players::Player;
use crate::game::position_laws::lemma_position_rows;
use crate::game::sorting::row_keys;
use crate::game::symmetry_laws::movable;

verus! {

/// Whether the two boards differ only by the arrangement of the piles
/// within the tableau row and within the foundation row: they are the same
/// position, with the same stocks, wastes and crapes.
pub open spec fn rearranged(a: BoardView, b: BoardView) -> bool {
    &&& a.same_position(b)
    &&& a.stock == b.stock
    &&& a.waste == b.waste
    &&& a.crape == b.crape
}

/// Whether the cards of one rank and suit on the tableaus of the two boards
/// face alike, on each board and from the one to the other.
pub open spec fn faces_agree(a: BoardView, b: BoardView) -> bool {
    &&& tableau_faces_alike(a, a)
    &&& tableau_faces_alike(b, b)
    &&& tableau_faces_alike(a, b)
    &&& tableau_faces_alike(b, a)
}

/// Of two boards that are the same position, each card of the tableau of
/// the one has a card of its rank and suit on the tableau of the other.
pub proof fn lemma_like_card(a: BoardView, b: BoardView, x: Card) -> (y: Card)
    requires
        a.shape(),
        b.shape(),
        a.same_position(b),
        in_tableau(a, x),
    ensures
        in_tableau(b, y),
        y.key() == x.key(),
{
    let (i, j) = choose|i: int, j: int|
        0 <= i < 8 && 0 <= j < a.tableau[i].cards.len() && #[trigger] a.tableau[i].cards[j] == x;
    let key = a.tableau[i].key();
    lemma_position_rows(a, b);
    let keys = row_keys(a.tableau);
    assert(keys[i] == key);
    vstd::seq_lib::to_multiset_contains(keys, key);
    assert(keys.contains(key));
    let slot = lemma_find_pile(b.tableau, key);
    let pile = b.tableau[slot];
    assert(pile.cards.len() == pile.key().len());
    assert(a.tableau[i].cards.len() == key.len());
    let y = pile.cards[j];
    assert(pile.key()[j] == y.key());
    assert(key[j] == x.key());
    assert(b.tableau[slot].cards[j] == y);
    y
}

/// Of two boards that differ only by the arrangement of their rows, if the
/// cards of one rank and suit of the one face as those of the other, they
/// face alike on each board too.
pub proof fn lemma_faces_agree(a: BoardView, b: BoardView)
    requires
        a.shape(),
        b.shape(),
        a.same_position(b),
        tableau_faces_alike(a, b),
    ensures
        faces_agree(a, b),
        faces_agree(b, a),
{
    assert forall|x: Card, y: Card|
        #[trigger] in_tableau(b, x) && #[trigger] in_tableau(a, y) && x.key()
            == y.key() implies x.face_up == y.face_up by {
        assert(in_tableau(a, y) && in_tableau(b, x));
    }
    assert forall|x: Card, y: Card|
        #[trigger] in_tableau(a, x) && #[trigger] in_tableau(a, y) && x.key()
            == y.key() implies x.face_up == y.face_up by {
        let z = lemma_like_card(a, b, y);
        assert(in_tableau(a, x) && in_tableau(b, z));
        assert(in_tableau(a, y) && in_tableau(b, z));
    }
    assert forall|x: Card, y: Card|
        #[trigger] in_tableau(b, x) && #[trigger] in_tableau(b, y) && x.key()
            == y.key() implies x.face_up == y.face_up by {
        let z = lemma_like_card(b, a, y);
        assert(in_tableau(a, z) && in_tableau(b, x));
        assert(in_tableau(a, z) && in_tableau(b, y));
    }
}

/// On two boards that differ only by the arrangement of their rows, and
/// whose cards of one rank and suit face alike, the cards of a rank and suit
/// face the same way.
pub proof fn lemma_same_faces(a: BoardView, b: BoardView, key: (int, int))
    requires
        a.shape(),
        b.shape(),
        a.same_position(b),
        faces_agree(a, b),
    ensures
        tableau_face(a, key) == tableau_face(b, key),
{
    if tableau_face(a, key) {
        let x = choose|c: Card|
            #[trigger] in_tableau(a, c) && c.key() == key && c.face_up;
        let y = lemma_like_card(a, b, x);
        assert(in_tableau(a, x) && in_tableau(b, y));
        assert(in_tableau(b, y) && y.key() == key && y.face_up);
    }
    if tableau_face(b, key) {
        let x = choose|c: Card|
            #[trigger] in_tableau(b, c) && c.key() == key && c.face_up;
        let y = lemma_like_card(b, a, x);
        assert(in_tableau(a, y) && in_tableau(b, x));
        assert(in_tableau(a, y) && y.key() == key && y.face_up);
    }
}

/// A board in the middle of a turn that started from one of two boards
/// that differ only by the arrangement of their rows is in the middle of the
/// turn that started from the other.
pub proof fn lemma_in_turn_across(
    first: BoardView,
    second: BoardView,
    board: BoardView,
    player: Player,
)
    requires
        first.shape(),
        second.shape(),
        rearranged(first, second),
        faces_agree(first, second),
        in_turn(second, board, player),
    ensures
        in_turn(first, board, player),
{
    let q = 1 - player.spec_index();
    assert forall|i: int, j: int|
        0 <= i < 8 && 0 <= j < board.tableau[i].cards.len() implies faces_like(
        first,
        #[trigger] board.tableau[i].cards[j],
    ) by {
        let card = board.tableau[i].cards[j];
        assert(faces_like(second, card));
        lemma_same_faces(first, second, card.key());
    }
    assert forall|j: int|
        first.crape[q].cards.len() <= j < board.crape[q].cards.len() implies faces_like(
        first,
        #[trigger] board.crape[q].cards[j],
    ) by {
        let card = board.crape[q].cards[j];
        assert(faces_like(second, card));
        lemma_same_faces(first, second, card.key());
    }
}

/// Whether the search of the turn of `player` on `board` runs out of nodes
/// to visit.
pub open spec fn runs_out(board: BoardView, player: Player) -> bool {
    SearchView::initial(board, player).run().tables.unvisited.len() == 0
}

/// A plan of a turn that leaves the turn open, followed by a move that the
/// player may make, is a plan of a turn.
pub proof fn lemma_turn_plan_push(
    board: BoardView,
    moves: Seq<CardAction>,
    action: CardAction,
    player: Player,
)
    requires
        turn_plan(board, moves, player),
        leaves_open(moves),
        playable_action(play_all(board, moves, player), action, player),
    ensures
        turn_plan(board, moves.push(action), player),
        play_all(board, moves.push(action), player) == play_all(board, moves, player).apply(
            action,
            player,
        ),
{
    let longer = moves.push(action);
    assert(longer.drop_last() =~= moves);
    assert forall|i: int| 0 <= i < longer.len() implies {
        &&& playable_action(play_all(board, longer.take(i), player), #[trigger] longer[i], player)
        &&& i < longer.len() - 1 ==> !from_player_pile(longer[i])
    } by {
        if i < moves.len() {
            assert(longer.take(i) =~= moves.take(i));
            assert(longer[i] == moves[i]);
            if i == moves.len() - 1 {
                assert(moves[i] == moves.last());
            }
        } else {
            assert(longer.take(i) =~= moves);
        }
    }
}

/// A plan of a turn on a board has its like on a board that differs only by
/// the arrangement of its rows: a plan that leads to the same position, at
/// the same cost.
pub proof fn lemma_plan_across(
    first: BoardView,
    second: BoardView,
    player: Player,
    moves: Seq<CardAction>,
) -> (like: Seq<CardAction>)
    requires
        first.wf(),
        second.wf(),
        faces_agree(first, second),
        rearranged(first, second),
        turn_plan(first, moves, player),
    ensures
        turn_plan(second, like, player),
        play_all(first, moves, player).same_position(play_all(second, like, player)),
        cost_of(like) == cost_of(moves),
        leaves_open(like) == leaves_open(moves),
    decreases moves.len(),
{
    if moves.len() == 0 {
        assert(cost_of(moves) =~= cost_of(Seq::<CardAction>::empty()));
        Seq::empty()
    } else {
        let shorter = moves.drop_last();
        lemma_turn_plan_prefix(first, moves, player);
        let shorter_like = lemma_plan_across(first, second, player, shorter);
        let a = play_all(first, shorter, player);
        let b = play_all(second, shorter_like, player);
        lemma_turn_plan_keeps(first, shorter, player);
        lemma_turn_plan_keeps(second, shorter_like, player);
        lemma_in_turn_across(first, second, b, player);
        match moves.last() {
            CardAction::Move { card, origin: from, destination: to } => {
                let pair = lemma_transfer(first, a, b, player, from, to);
                let action = move_of(b, pair.0, pair.1);
                lemma_turn_plan_push(second, shorter_like, action, player);
                super::cost::lemma_move_cost_by_rows(action, moves.last());
                super::cost::lemma_cost_of_push(shorter_like, action);
                super::cost::lemma_cost_of_push(shorter, moves.last());
                assert(moves =~= shorter.push(moves.last()));
                let like = shorter_like.push(action);
                assert(like.last() == action);
                like
            },
            _ => Seq::empty(),
        }
    }
}

/// Of two costs of which each is at most the other, the one is the other.
pub proof fn lemma_cost_le_antisymmetric(a: Seq<(int, int)>, b: Seq<(int, int)>)
    requires
        cost_le(a, b),
        cost_le(b, a),
    ensures
        a == b,
{
    if a != b {
        crate::game::order_laws::lemma_pile_lt_asymmetric(a, b);
    }
}

/// What two searches that run out of nodes to visit know of two boards that
/// differ only by the arrangement of their rows: each node that the one
/// knows has its like among the nodes that the other knows, a node for the
/// same position, with the same cost and the same score.
pub proof fn lemma_known_across(first: BoardView, second: BoardView, player: Player, i: int) -> (j:
    int)
    requires
        first.wf(),
        second.wf(),
        faces_agree(first, second),
        rearranged(first, second),
        runs_out(first, player),
        runs_out(second, player),
        0 <= i < SearchView::initial(first, player).run().tables.known.len(),
    ensures
        0 <= j < SearchView::initial(second, player).run().tables.known.len(),
        node_tie(
            SearchView::initial(first, player).run().tables.known[i],
            SearchView::initial(second, player).run().tables.known[j],
        ),
{
    let end1 = SearchView::initial(first, player).run();
    let end2 = SearchView::initial(second, player).run();
    let known1 = end1.tables.known;
    let known2 = end2.tables.known;
    super::completeness_laws::lemma_initial_complete(first, player);
    super::completeness_laws::lemma_run_complete(SearchView::initial(first, player), first, player);
    super::completeness_laws::lemma_initial_complete(second, player);
    super::completeness_laws::lemma_run_complete(
        SearchView::initial(second, player),
        second,
        player,
    );
    let node = known1[i];
    assert(node.wf_from(first) && node.active_player == player);
    lemma_node_plan(node, first);
    // the like of its plan leads to a position that the other search knows
    let like = lemma_plan_across(first, second, player, node.moves);
    lemma_plan_is_known(second, player, like);
    let reached = play_all(second, like, player);
    let j = choose|j: int|
        0 <= j < known2.len() && (#[trigger] known2[j]).board.same_position(reached) && cost_le(
            known2[j].cost,
            cost_of(like),
        );
    let other = known2[j];
    assert(other.wf_from(second) && other.active_player == player);
    lemma_node_plan(other, second);
    // and the like of the plan of that node leads back
    let back = lemma_plan_across(second, first, player, other.moves);
    lemma_plan_is_known(first, player, back);
    let k = choose|k: int|
        0 <= k < known1.len() && (#[trigger] known1[k]).board.same_position(
            play_all(first, back, player),
        ) && cost_le(known1[k].cost, cost_of(back));
    assert(known1[k].board.same_position(node.board));
    if k < i {
        assert(!known1[k].board.same_position(known1[i].board));
    } else if i < k {
        assert(!known1[i].board.same_position(known1[k].board));
    }
    assert(k == i);
    lemma_cost_le_antisymmetric(node.cost, other.cost);
    lemma_position_score(node.board, other.board, player);
    j
}

/// The plan of a node of a search is a plan of a turn that leads to its
/// board, at its cost; its board meets its invariant and its score is the
/// score of its board.
pub proof fn lemma_node_plan(node: NodeView, origin: BoardView)
    requires
        node.wf_from(origin),
    ensures
        turn_plan(origin, node.moves, node.active_player),
        node.board == play_all(origin, node.moves, node.active_player),
        node.cost == cost_of(node.moves),
        node.board.wf(),
        node.score == super::board_score::score_of(node.board, node.active_player),
        node.score.len() == 12,
{
    reveal(NodeView::wf_from);
    lemma_search_path_is_turn_plan(origin, node.moves, node.active_player);
}

/// Playing a plan and then another is playing the one followed by the other.
pub proof fn lemma_play_all_concat(
    board: BoardView,
    first: Seq<CardAction>,
    second: Seq<CardAction>,
    player: Player,
)
    ensures
        play_all(board, first + second, player) == play_all(
            play_all(board, first, player),
            second,
            player,
        ),
    decreases second.len(),
{
    if second.len() == 0 {
        assert(first + second =~= first);
    } else {
        lemma_play_all_concat(board, first, second.drop_last(), player);
        assert((first + second).drop_last() =~= first + second.drop_last());
        assert((first + second).last() == second.last());
    }
}

/// Two boards that are the same position, with the same stock, waste and
/// crape of the player, are closed by the same action, which leaves the
/// same position.
pub proof fn lemma_closing_across(a: BoardView, b: BoardView, player: Player)
    requires
        a.wf(),
        b.wf(),
        a.same_position(b),
        a.crape[player.spec_index()] == b.crape[player.spec_index()],
        a.stock[player.spec_index()] == b.stock[player.spec_index()],
        a.waste[player.spec_index()] == b.waste[player.spec_index()],
    ensures
        closing_actions(a, player) == closing_actions(b, player),
        play_all(a, closing_actions(a, player), player).same_position(
            play_all(b, closing_actions(b, player), player),
        ),
{
    let p = player.spec_index();
    let closing = closing_actions(a, player);
    lemma_position_rows(a, b);
    if closing.len() == 0 {
    } else {
        let action = closing[0];
        super::djikstra::lemma_closing_legal(a, player);
        let none = Seq::<CardAction>::empty();
        assert(closing.drop_last() =~= none);
        assert(closing.last() == action);
        assert(play_all(a, none, player) == a);
        assert(play_all(b, none, player) == b);
        assert(play_all(a, closing, player) == a.apply(action, player));
        assert(play_all(b, closing, player) == b.apply(action, player));
        let stock = PileType::Stock { player };
        let waste = PileType::Waste { player };
        let crape = PileType::Crape { player };
        assert(a.crape[p].kind == crape && a.stock[p].kind == stock && a.waste[p].kind == waste);
        match action {
            CardAction::Move { origin: from, destination: to, .. } => {
                assert(movable(a, from, to));
                assert(movable(b, from, to));
                assert(alike(a, from, b, from));
                assert(alike(a, to, b, to));
                lemma_like_moves(a, from, to, b, from, to);
            },
            CardAction::Flip { pile } => {
                lemma_flip_keeps_position(a, pile);
                lemma_flip_keeps_position(b, pile);
            },
            CardAction::FlipWaste => {
                let after_a = a.flip_waste_to_stock(player);
                let after_b = b.flip_waste_to_stock(player);
                assert(row_keys(after_a.stock) =~= row_keys(after_b.stock)) by {
                    assert(row_keys(a.stock)[1 - p] == row_keys(b.stock)[1 - p]);
                }
                assert(row_keys(after_a.waste) =~= row_keys(after_b.waste)) by {
                    assert(row_keys(a.waste)[1 - p] == row_keys(b.waste)[1 - p]);
                }
            },
        }
    }
}

/// Turning the top card of a pile of a player face up leaves the same
/// position.
pub proof fn lemma_flip_keeps_position(board: BoardView, pile: PileType)
    requires
        board.shape(),
        pile is Crape || pile is Stock,
    ensures
        board.flip_top(pile).same_position(board),
{
    let after = board.flip_top(pile);
    let before = board.pile(pile);
    let flipped = before.flip_top();
    assert(flipped.key() =~= before.key());
    assert(row_keys(after.crape) =~= row_keys(board.crape));
    assert(row_keys(after.stock) =~= row_keys(board.stock));
}

/// The same position gets the same best node: the searches of a turn on two
/// boards that differ only by the arrangement of their rows, and on whose
/// tableaus the cards of one rank and suit face alike, if they run out of
/// nodes to visit, end with best nodes for the same position, with the same
/// cost and the same score.
pub proof fn lemma_best_across(first: BoardView, second: BoardView, player: Player)
    requires
        first.wf(),
        second.wf(),
        tableau_faces_alike(first, second),
        rearranged(first, second),
        runs_out(first, player),
        runs_out(second, player),
    ensures
        node_tie(
            SearchView::initial(first, player).run().best_node,
            SearchView::initial(second, player).run().best_node,
        ),
{
    let end1 = SearchView::initial(first, player).run();
    let end2 = SearchView::initial(second, player).run();
    let known1 = end1.tables.known;
    let known2 = end2.tables.known;
    let best1 = end1.best_node;
    let best2 = end2.best_node;
    lemma_best_comes_first(first, player);
    lemma_best_comes_first(second, player);
    super::laws::lemma_initial_inv(first, player);
    super::laws::lemma_run_keeps_inv(SearchView::initial(first, player), first, player);
    super::laws::lemma_initial_inv(second, player);
    super::laws::lemma_run_keeps_inv(SearchView::initial(second, player), second, player);
    lemma_node_plan(best1, first);
    lemma_node_plan(best2, second);
    // the known nodes of the best nodes, and their likes in the other search
    let i1 = choose|i: int| 0 <= i < known1.len() && same_node(#[trigger] known1[i], best1);
    let i2 = choose|i: int| 0 <= i < known2.len() && same_node(#[trigger] known2[i], best2);
    lemma_same_node_fields(known1[i1], best1);
    lemma_same_node_fields(known2[i2], best2);
    lemma_faces_agree(first, second);
    let j2 = lemma_known_across(first, second, player, i1);
    assert(rearranged(second, first));
    let j1 = lemma_known_across(second, first, player, i2);
    let like1 = known2[j2];
    let like2 = known1[j1];
    assert(node_tie(best1, like1));
    assert(node_tie(best2, like2));
    // the two best scores are the same
    assert(score_le(like1.score, best2.score));
    assert(score_le(like2.score, best1.score));
    lemma_score_le_not_lt(best1.score, best2.score);
    lemma_score_le_not_lt(best2.score, best1.score);
    assert(best1.score == best2.score);
    // and neither best node comes before the other
    assert(!node_lt(like1, best2));
    assert(!node_lt(like2, best1));
    lemma_tie_compares_alike(best1, like1, best2);
    lemma_tie_compares_alike(best2, like2, best1);
    lemma_node_order_total(best1, best2);
}

/// The same position gets the same turn: of two boards that differ only by
/// the arrangement of the piles within the tableau row and within the
/// foundation row, and on whose tableaus the cards of one rank and suit face
/// alike, the best turns of a player, if the searches run out of nodes to
/// visit, lead to the same position.
pub proof fn lemma_rearranged_turns(first: BoardView, second: BoardView, player: Player)
    requires
        first.wf(),
        second.wf(),
        tableau_faces_alike(first, second),
        rearranged(first, second),
        runs_out(first, player),
        runs_out(second, player),
    ensures
        play_all(first, best_turn(first, player), player).same_position(
            play_all(second, best_turn(second, player), player),
        ),
{
    let best1 = SearchView::initial(first, player).run().best_node;
    let best2 = SearchView::initial(second, player).run().best_node;
    let p = player.spec_index();
    lemma_faces_agree(first, second);
    lemma_best_across(first, second, player);
    super::laws::lemma_initial_inv(first, player);
    super::laws::lemma_run_keeps_inv(SearchView::initial(first, player), first, player);
    super::laws::lemma_initial_inv(second, player);
    super::laws::lemma_run_keeps_inv(SearchView::initial(second, player), second, player);
    lemma_node_plan(best1, first);
    lemma_node_plan(best2, second);
    lemma_turn_plan_keeps(first, best1.moves, player);
    lemma_turn_plan_keeps(second, best2.moves, player);
    lemma_position_rows(best1.board, best2.board);
    // the piles of the player are the same on both boards
    assert(row_keys(best1.board.crape)[p].len() == row_keys(best2.board.crape)[p].len());
    assert(row_keys(best1.board.stock)[p].len() == row_keys(best2.board.stock)[p].len());
    assert(best1.board.crape[p].cards.len() == best2.board.crape[p].cards.len());
    assert(best1.board.stock[p].cards.len() == best2.board.stock[p].cards.len());
    assert(first.crape[p] == second.crape[p]);
    assert(first.stock[p] == second.stock[p]);
    assert(first.waste[p] == second.waste[p]);
    assert(best1.board.crape[p] == best2.board.crape[p]);
    assert(best1.board.stock[p] == best2.board.stock[p]);
    assert(best1.board.waste[p] == best2.board.waste[p]);
    lemma_closing_across(best1.board, best2.board, player);
    lemma_play_all_concat(first, best1.moves, closing_actions(best1.board, player), player);
    lemma_play_all_concat(second, best2.moves, closing_actions(best2.board, player), player);
}

} // verus!
