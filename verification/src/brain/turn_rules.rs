//! What a player may do in the middle of a turn.
//!
//! The player moves one card at a time: from a tableau pile, or from their
//! crape or stock if its top card faces up, onto a tableau or foundation
//! pile or onto the crape or waste of the opponent, if that pile accepts the
//! card. The move onto their own waste is not among these: it ends the turn.

use vstd::prelude::*;

use crate::game::board::BoardView;
use crate::game::moves::CardAction;
use crate::game::piles::PileType;
use crate::game::players::Player;

verus! {

/// Whether `player` may take a card from the pile `origin` in the middle of
/// a turn: a tableau pile that is not empty, or their crape or stock if its
/// top card faces up.
pub open spec fn search_origin(board: BoardView, player: Player, origin: PileType) -> bool {
    match origin {
        PileType::Tableau { id } => id < 8 && board.tableau[id as int].cards.len() > 0,
        PileType::Crape { player: owner } => {
            &&& owner == player
            &&& board.crape[player.spec_index()].cards.len() > 0
            &&& board.crape[player.spec_index()].cards.last().face_up
        },
        PileType::Stock { player: owner } => {
            &&& owner == player
            &&& board.stock[player.spec_index()].cards.len() > 0
            &&& board.stock[player.spec_index()].cards.last().face_up
        },
        _ => false,
    }
}

/// Whether `player` may put a card on the pile `destination` in the middle
/// of a turn: a tableau or foundation pile, or the crape or waste of the
/// opponent.
pub open spec fn search_destination(player: Player, destination: PileType) -> bool {
    match destination {
        PileType::Tableau { id } => id < 8,
        PileType::Foundation { id, .. } => id < 8,
        PileType::Crape { player: owner } => owner == player.spec_other(),
        PileType::Waste { player: owner } => owner == player.spec_other(),
        PileType::Stock { .. } => false,
    }
}

/// Whether `player` may move the top card of `origin` onto `destination`
/// in the middle of a turn.
pub open spec fn playable(
    board: BoardView,
    player: Player,
    origin: PileType,
    destination: PileType,
) -> bool {
    &&& search_origin(board, player, origin)
    &&& search_destination(player, destination)
    &&& !origin.spec_is_same(destination)
    &&& board.pile(destination).can_add_card(board.pile(origin).cards.last(), origin, player)
}

/// Whether `action` is a move that `player` may make in the middle of a
/// turn, and names the card that it moves.
pub open spec fn playable_action(board: BoardView, action: CardAction, player: Player) -> bool {
    match action {
        CardAction::Move { card, origin, destination } => {
            &&& playable(board, player, origin, destination)
            &&& board.pile(origin).top() == Some(card)
        },
        _ => false,
    }
}

/// A move that the player may make in the middle of a turn is legal.
pub proof fn lemma_playable_legal(board: BoardView, action: CardAction, player: Player)
    requires
        board.shape(),
        playable_action(board, action, player),
    ensures
        board.legal(action, player),
        action is Move,
        super::cost::has_cost(action),
{
    match action {
        CardAction::Move { card, origin, destination } => {
            match origin {
                PileType::Tableau { id } => {
                    assert(board.tableau[id as int].kind == origin);
                },
                PileType::Crape { player: owner } => {
                    assert(board.crape[owner.spec_index()].kind == origin);
                },
                PileType::Stock { player: owner } => {
                    assert(board.stock[owner.spec_index()].kind == origin);
                },
                _ => {},
            }
        },
        _ => {},
    }
}

} // verus!
