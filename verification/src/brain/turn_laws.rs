//! What the moves of a turn leave untouched.
//!
//! As long as the player has not taken a card from their crape or stock,
//! these two piles are as they were at the start of the turn. The crape of
//! the opponent only grows, by cards of the tableau; and if the cards of the
//! tableau of one rank and suit faced alike at the start of the turn, each
//! card of the tableau still faces as the cards of its rank and suit did.

use vstd::prelude::*;

use super::board_node::from_player_pile;
use super::board_node::play_all;
use super::board_node::search_path;
use super::board_node::step_ok;
use super::turn_rules::lemma_playable_legal;
use super::turn_rules::playable_action;
use crate::game::board::lemma_move_keeps_wf;
use crate::game::board::BoardView;
use crate::game::cards::Card;
use crate::game::moves::CardAction;
use crate::game::piles::PileType;
use crate::game::piles::PileView;
use crate::game::players::Player;
use crate::game::symmetry_laws::lemma_move_rows;
use crate::game::symmetry_laws::movable;

verus! {

/// Whether `card` lies on the tableau of `board`.
pub open spec fn in_tableau(board: BoardView, card: Card) -> bool {
    exists|i: int, j: int|
        0 <= i < 8 && 0 <= j < board.tableau[i].cards.len() && #[trigger] board.tableau[i].cards[j]
            == card
}

/// Whether the cards of one rank and suit on the tableaus of the two boards
/// face alike: no card of the one faces up while a card of the same rank and
/// suit of the other faces down. This holds of a board and itself when all
/// its tableau cards face up.
pub open spec fn tableau_faces_alike(a: BoardView, b: BoardView) -> bool {
    forall|x: Card, y: Card|
        #[trigger] in_tableau(a, x) && #[trigger] in_tableau(b, y) && x.key() == y.key()
            ==> x.face_up == y.face_up
}

/// Whether a card of the rank and suit `key` faces up on the tableau of
/// `origin`.
pub open spec fn tableau_face(origin: BoardView, key: (int, int)) -> bool {
    exists|c: Card| #[trigger] in_tableau(origin, c) && c.key() == key && c.face_up
}

/// Whether `card` faces as the cards of its rank and suit do on the tableau
/// of `origin`.
pub open spec fn faces_like(origin: BoardView, card: Card) -> bool {
    card.face_up == tableau_face(origin, card.key())
}

/// Whether each card of the tableau of `board` faces as the cards of its
/// rank and suit do on the tableau of `origin`.
pub open spec fn tableau_faces(origin: BoardView, board: BoardView) -> bool {
    forall|i: int, j: int|
        0 <= i < 8 && 0 <= j < board.tableau[i].cards.len() ==> faces_like(
            origin,
            #[trigger] board.tableau[i].cards[j],
        )
}

/// Whether the pile `later` is the pile `earlier` with cards put on it that
/// face as the cards of their rank and suit do on the tableau of `origin`.
pub open spec fn grown(origin: BoardView, earlier: PileView, later: PileView) -> bool {
    &&& earlier.cards.len() <= later.cards.len()
    &&& forall|j: int| 0 <= j < earlier.cards.len() ==> later.cards[j] == earlier.cards[j]
    &&& forall|j: int|
        earlier.cards.len() <= j < later.cards.len() ==> faces_like(
            origin,
            #[trigger] later.cards[j],
        )
}

/// What holds of a board in the middle of the turn of `player` that started
/// from `origin`: its tableau cards face as the cards of their rank and suit
/// did, the crape of the opponent has only grown, by such cards, and the
/// crape, the stock and the waste of the player are as they were.
pub open spec fn in_turn(origin: BoardView, board: BoardView, player: Player) -> bool {
    let p = player.spec_index();
    &&& board.wf()
    &&& tableau_faces(origin, board)
    &&& grown(origin, origin.crape[1 - p], board.crape[1 - p])
    &&& board.crape[p] == origin.crape[p]
    &&& board.stock[p] == origin.stock[p]
    &&& board.waste[p] == origin.waste[p]
}

/// On a board whose tableau cards of one rank and suit face alike, each
/// card of the tableau faces as the cards of its rank and suit do.
pub proof fn lemma_tableau_faces_itself(origin: BoardView)
    requires
        tableau_faces_alike(origin, origin),
    ensures
        tableau_faces(origin, origin),
{
    assert forall|i: int, j: int|
        0 <= i < 8 && 0 <= j < origin.tableau[i].cards.len() implies faces_like(
        origin,
        #[trigger] origin.tableau[i].cards[j],
    ) by {
        let card = origin.tableau[i].cards[j];
        assert(in_tableau(origin, card));
        if tableau_face(origin, card.key()) {
            let other = choose|c: Card|
                #[trigger] in_tableau(origin, c) && c.key() == card.key() && c.face_up;
            assert(in_tableau(origin, other));
        }
    }
}

/// What holds of a board at the end of the moves of the turn of `player`
/// that started from `origin`, after a move from their crape or stock: one
/// of the two piles has lost its top card, and the other and the waste of
/// the player are as they were.
pub open spec fn turn_closed(origin: BoardView, board: BoardView, player: Player) -> bool {
    let p = player.spec_index();
    &&& board.wf()
    &&& board.waste[p] == origin.waste[p]
    &&& {
        ||| {
            &&& origin.crape[p].cards.len() > 0
            &&& board.crape[p] == origin.crape[p].drop_top()
            &&& board.stock[p] == origin.stock[p]
        }
        ||| {
            &&& origin.stock[p].cards.len() > 0
            &&& board.crape[p] == origin.crape[p]
            &&& board.stock[p] == origin.stock[p].drop_top()
        }
    }
}

/// Whether `moves` is a plan that `player` may follow from `board` in one
/// turn: each move is one that the player may make in the middle of the
/// turn on the board that the moves before it have made, and only the last
/// may come from the crape or the stock.
pub open spec fn turn_plan(board: BoardView, moves: Seq<CardAction>, player: Player) -> bool {
    forall|i: int|
        0 <= i < moves.len() ==> {
            &&& playable_action(play_all(board, moves.take(i), player), #[trigger] moves[i], player)
            &&& i < moves.len() - 1 ==> !from_player_pile(moves[i])
        }
}

/// Whether the plan `moves` leaves the turn open: it has no move from the
/// crape or the stock.
pub open spec fn leaves_open(moves: Seq<CardAction>) -> bool {
    !(moves.len() > 0 && from_player_pile(moves.last()))
}

/// A plan of the search is a plan of a turn.
pub proof fn lemma_search_path_is_turn_plan(
    board: BoardView,
    moves: Seq<CardAction>,
    player: Player,
)
    requires
        search_path(board, moves, player),
    ensures
        turn_plan(board, moves, player),
{
    assert forall|i: int| 0 <= i < moves.len() implies {
        &&& playable_action(play_all(board, moves.take(i), player), #[trigger] moves[i], player)
        &&& i < moves.len() - 1 ==> !from_player_pile(moves[i])
    } by {
        assert(step_ok(board, moves, i, player));
    }
}

/// A plan of a turn without its last move is a plan of a turn that leaves
/// the turn open.
pub proof fn lemma_turn_plan_prefix(board: BoardView, moves: Seq<CardAction>, player: Player)
    requires
        turn_plan(board, moves, player),
        moves.len() > 0,
    ensures
        turn_plan(board, moves.drop_last(), player),
        leaves_open(moves.drop_last()),
        playable_action(play_all(board, moves.drop_last(), player), moves.last(), player),
        play_all(board, moves, player) == play_all(board, moves.drop_last(), player).apply(
            moves.last(),
            player,
        ),
{
    let shorter = moves.drop_last();
    assert forall|i: int| 0 <= i < shorter.len() implies {
        &&& playable_action(play_all(board, shorter.take(i), player), #[trigger] shorter[i], player)
        &&& i < shorter.len() - 1 ==> !from_player_pile(shorter[i])
    } by {
        assert(shorter.take(i) =~= moves.take(i));
        assert(shorter[i] == moves[i]);
    }
    if shorter.len() > 0 {
        assert(shorter.last() == moves[moves.len() - 2]);
    }
    assert(moves.take(moves.len() - 1) =~= shorter);
    assert(moves[moves.len() - 1] == moves.last());
}

/// One move of the middle of a turn keeps what holds of a board in the
/// middle of the turn, if it does not come from the crape or the stock, and
/// leaves the two piles with one card less if it does.
pub proof fn lemma_move_in_turn(
    origin: BoardView,
    board: BoardView,
    action: CardAction,
    player: Player,
)
    requires
        in_turn(origin, board, player),
        playable_action(board, action, player),
    ensures
        !from_player_pile(action) ==> in_turn(origin, board.apply(action, player), player),
        from_player_pile(action) ==> turn_closed(origin, board.apply(action, player), player),
        board.apply(action, player).wf(),
{
    lemma_playable_legal(board, action, player);
    match action {
        CardAction::Move { card, origin: from, destination: to } => {
            lemma_move_keeps_wf(board, from, to, player);
            let after = board.move_card(from, to);
            let p = player.spec_index();
            assert(movable(board, from, to));
            lemma_move_rows(board, from, to, 0);
            lemma_move_rows(board, from, to, 1);
            lemma_move_rows(board, from, to, 2);
            lemma_move_rows(board, from, to, 4);
            assert(card == board.pile(from).cards.last());
            crate::game::players::lemma_other_involution(player);
            assert(after.waste[p] == board.waste[p]);
            if !from_player_pile(action) {
                // the card that moves comes from the tableau
                assert(faces_like(origin, card)) by {
                    match from {
                        PileType::Tableau { id } => {
                            let n = board.tableau[id as int].cards.len() - 1;
                            assert(faces_like(origin, board.tableau[id as int].cards[n]));
                        },
                        _ => {},
                    }
                }
                assert(after.crape[p] == board.crape[p]);
                assert(after.stock[p] == board.stock[p]);
                assert forall|i: int, j: int|
                    0 <= i < 8 && 0 <= j < after.tableau[i].cards.len() implies faces_like(
                    origin,
                    #[trigger] after.tableau[i].cards[j],
                ) by {
                    if j < board.tableau[i].cards.len() {
                        assert(faces_like(origin, board.tableau[i].cards[j]));
                    }
                }
                assert(grown(origin, origin.crape[1 - p], after.crape[1 - p])) by {
                    let before = board.crape[1 - p];
                    let later = after.crape[1 - p];
                    assert forall|j: int|
                        origin.crape[1 - p].cards.len() <= j < later.cards.len() implies faces_like(
                        origin,
                        #[trigger] later.cards[j],
                    ) by {
                        if j < before.cards.len() {
                            assert(faces_like(origin, before.cards[j]));
                        }
                    }
                }
            }
        },
        _ => {},
    }
}

/// What a plan of a turn leaves of the board: what holds in the middle of
/// the turn if the plan leaves the turn open, and the crape and the stock
/// of the player with one card less if it does not.
pub proof fn lemma_turn_plan_keeps(origin: BoardView, moves: Seq<CardAction>, player: Player)
    requires
        origin.wf(),
        tableau_faces_alike(origin, origin),
        turn_plan(origin, moves, player),
    ensures
        play_all(origin, moves, player).wf(),
        leaves_open(moves) ==> in_turn(origin, play_all(origin, moves, player), player),
        !leaves_open(moves) ==> turn_closed(origin, play_all(origin, moves, player), player),
    decreases moves.len(),
{
    if moves.len() == 0 {
        lemma_tableau_faces_itself(origin);
    } else {
        lemma_turn_plan_prefix(origin, moves, player);
        lemma_turn_plan_keeps(origin, moves.drop_last(), player);
        lemma_move_in_turn(
            origin,
            play_all(origin, moves.drop_last(), player),
            moves.last(),
            player,
        );
    }
}

} // verus!
