//! Moves that lead to the same position.
//!
//! The search leaves out moves that would lead nowhere new. Each rule by
//! which it does so rests on one of the laws below:
//! - a move followed by the move back leaves the board as it was;
//! - a lone tableau card moved onto an empty tableau pile leaves the same
//!   position;
//! - of two tableau piles that hold the same cards, either gives the same
//!   position as origin of a move;
//! - of two piles of the tableau, or of the foundation, that hold the same
//!   cards, either gives the same position as destination of a move.

use vstd::prelude::*;

use super::board::lemma_set_pile;
use super::board::BoardView;
use super::cards::Card;
use super::keys::keys_of;
use super::keys::lemma_sorted_keys_of_permutation;
use super::keys::PileKey;
use super::piles::PileType;
use super::piles::PileView;
use super::players::Player;
use super::sorting::row_keys;

verus! {

/// The rows of a board, by number: the stocks, the wastes, the crapes, the
/// foundation and the tableau.
pub open spec fn row_of(board: BoardView, row: int) -> Seq<PileView> {
    if row == 0 {
        board.stock
    } else if row == 1 {
        board.waste
    } else if row == 2 {
        board.crape
    } else if row == 3 {
        board.foundation
    } else {
        board.tableau
    }
}

/// The number of the row of the pile `kind`.
pub open spec fn row_number(kind: PileType) -> int {
    match kind {
        PileType::Stock { .. } => 0,
        PileType::Waste { .. } => 1,
        PileType::Crape { .. } => 2,
        PileType::Foundation { .. } => 3,
        PileType::Tableau { .. } => 4,
    }
}

/// The slot of the pile `kind` in its row.
pub open spec fn slot_of(kind: PileType) -> int {
    match kind {
        PileType::Stock { player } => player.spec_index(),
        PileType::Waste { player } => player.spec_index(),
        PileType::Crape { player } => player.spec_index(),
        PileType::Foundation { id, .. } => id as int,
        PileType::Tableau { id } => id as int,
    }
}

/// The keys of a row after the top card of the pile `from`, if the move
/// starts in this row, has left it, and a card of key `key` has come onto
/// the pile `to`, if the move ends in this row.
pub open spec fn moved_keys(
    keys: Seq<PileKey>,
    from: Option<int>,
    to: Option<int>,
    key: (int, int),
) -> Seq<PileKey> {
    let taken = match from {
        Some(i) => keys.update(i, keys[i].drop_last()),
        None => keys,
    };
    match to {
        Some(j) => taken.update(j, taken[j].push(key)),
        None => taken,
    }
}

/// The slot of the pile `kind` if it stands in the row `row`.
pub open spec fn slot_in(kind: PileType, row: int) -> Option<int> {
    if row_number(kind) == row {
        Some(slot_of(kind))
    } else {
        None
    }
}

/// Whether a move from `origin` to `destination` can be followed on the
/// board: both piles are on the board, they are not the same pile, and the
/// origin holds a card.
pub open spec fn movable(board: BoardView, origin: PileType, destination: PileType) -> bool {
    &&& board.shape()
    &&& board.has_pile(origin)
    &&& board.has_pile(destination)
    &&& !origin.spec_is_same(destination)
    &&& board.pile(origin).cards.len() > 0
}

/// What a move makes of the keys of each row of the board.
pub proof fn lemma_move_keys(board: BoardView, origin: PileType, destination: PileType, row: int)
    requires
        movable(board, origin, destination),
        0 <= row <= 4,
    ensures
        row_keys(row_of(board.move_card(origin, destination), row)) == moved_keys(
            row_keys(row_of(board, row)),
            slot_in(origin, row),
            slot_in(destination, row),
            board.pile(origin).cards.last().key(),
        ),
        board.move_card(origin, destination).shape(),
{
    let from = board.pile(origin);
    let card = from.cards.last();
    let taken = board.set_pile(origin, from.drop_top());
    lemma_set_pile(board, origin, from.drop_top());
    let to = taken.pile(destination);
    assert(to == board.pile(destination));
    lemma_set_pile(taken, destination, to.push(card));
    let after = board.move_card(origin, destination);
    let before_keys = row_keys(row_of(board, row));
    let taken_keys = row_keys(row_of(taken, row));
    let after_keys = row_keys(row_of(after, row));
    assert(keys_of(from.drop_top().cards) =~= keys_of(from.cards).drop_last());
    assert(keys_of(to.push(card).cards) =~= keys_of(to.cards).push(card.key()));
    if row_number(origin) == row {
        assert(taken_keys =~= before_keys.update(slot_of(origin), before_keys[slot_of(
            origin,
        )].drop_last()));
    } else {
        assert(taken_keys =~= before_keys);
    }
    if row_number(destination) == row {
        assert(after_keys =~= taken_keys.update(
            slot_of(destination),
            taken_keys[slot_of(destination)].push(card.key()),
        ));
    } else {
        assert(after_keys =~= taken_keys);
    }
}

/// Two boards whose rows of stocks, wastes and crapes have the same keys,
/// and whose foundation and tableau rows hold the same piles, in whatever
/// arrangement, are the same position.
pub proof fn lemma_same_position_by_rows(a: BoardView, b: BoardView)
    requires
        forall|row: int| 0 <= row <= 2 ==> row_keys(row_of(a, row)) == row_keys(row_of(b, row)),
        forall|row: int|
            3 <= row <= 4 ==> row_keys(row_of(a, row)).to_multiset() == row_keys(
                row_of(b, row),
            ).to_multiset(),
    ensures
        a.same_position(b),
{
    assert(row_keys(row_of(a, 0)) == row_keys(row_of(b, 0)));
    assert(row_keys(row_of(a, 1)) == row_keys(row_of(b, 1)));
    assert(row_keys(row_of(a, 2)) == row_keys(row_of(b, 2)));
    assert(row_keys(row_of(a, 3)).to_multiset() == row_keys(row_of(b, 3)).to_multiset());
    assert(row_keys(row_of(a, 4)).to_multiset() == row_keys(row_of(b, 4)).to_multiset());
    lemma_sorted_keys_of_permutation(row_keys(a.tableau), row_keys(b.tableau));
    lemma_sorted_keys_of_permutation(row_keys(a.foundation), row_keys(b.foundation));
}

/// What a move makes of the piles that a row holds: the pile that the card
/// has left and the pile that it has come onto take the places of the piles
/// that they were.
pub proof fn lemma_moved_multiset(
    keys: Seq<PileKey>,
    from: Option<int>,
    to: Option<int>,
    key: (int, int),
)
    requires
        from matches Some(i) ==> 0 <= i < keys.len(),
        to matches Some(j) ==> 0 <= j < keys.len(),
        from matches Some(i) ==> to != Some(i),
    ensures
        moved_keys(keys, from, to, key).to_multiset() == ({
            let taken = match from {
                Some(i) => keys.to_multiset().insert(keys[i].drop_last()).remove(keys[i]),
                None => keys.to_multiset(),
            };
            match to {
                Some(j) => taken.insert(keys[j].push(key)).remove(keys[j]),
                None => taken,
            }
        }),
{
    let taken = match from {
        Some(i) => keys.update(i, keys[i].drop_last()),
        None => keys,
    };
    match from {
        Some(i) => {
            vstd::seq_lib::to_multiset_update(keys, i, keys[i].drop_last());
        },
        None => {},
    }
    match to {
        Some(j) => {
            vstd::seq_lib::to_multiset_update(taken, j, taken[j].push(key));
        },
        None => {},
    }
}

/// A row after the top card of the pile `from`, if the move starts in this
/// row, has left it, and the card `card` has come onto the pile `to`, if
/// the move ends in this row.
pub open spec fn moved_row(
    row: Seq<PileView>,
    from: Option<int>,
    to: Option<int>,
    card: Card,
) -> Seq<PileView> {
    let taken = match from {
        Some(i) => row.update(i, row[i].drop_top()),
        None => row,
    };
    match to {
        Some(j) => taken.update(j, taken[j].push(card)),
        None => taken,
    }
}

/// What a move makes of each row of the board.
pub proof fn lemma_move_rows(board: BoardView, origin: PileType, destination: PileType, row: int)
    requires
        movable(board, origin, destination),
        0 <= row <= 4,
    ensures
        row_of(board.move_card(origin, destination), row) == moved_row(
            row_of(board, row),
            slot_in(origin, row),
            slot_in(destination, row),
            board.pile(origin).cards.last(),
        ),
        board.move_card(origin, destination).shape(),
        0 <= slot_of(origin) < row_of(board, row_number(origin)).len(),
        0 <= slot_of(destination) < row_of(board, row_number(destination)).len(),
        row_number(origin) == row_number(destination) ==> slot_of(origin) != slot_of(destination),
        board.pile(origin) == row_of(board, row_number(origin))[slot_of(origin)],
        board.pile(destination) == row_of(board, row_number(destination))[slot_of(destination)],
{
    let from = board.pile(origin);
    let card = from.cards.last();
    let taken = board.set_pile(origin, from.drop_top());
    lemma_set_pile(board, origin, from.drop_top());
    let to = taken.pile(destination);
    assert(to == board.pile(destination));
    lemma_set_pile(taken, destination, to.push(card));
    let after = board.move_card(origin, destination);
    if row_number(origin) == row {
        assert(row_of(taken, row) =~= row_of(board, row).update(slot_of(origin), from.drop_top()));
    } else {
        assert(row_of(taken, row) =~= row_of(board, row));
    }
    if row_number(destination) == row {
        assert(row_of(after, row) =~= row_of(taken, row).update(
            slot_of(destination),
            to.push(card),
        ));
    } else {
        assert(row_of(after, row) =~= row_of(taken, row));
    }
}

/// Two kinds that name the same pile name it on every board.
pub proof fn lemma_same_kind(a: PileType, b: PileType)
    requires
        a.spec_is_same(b),
    ensures
        row_number(a) == row_number(b),
        slot_of(a) == slot_of(b),
        forall|board: BoardView| #[trigger] board.has_pile(a) == board.has_pile(b),
        forall|board: BoardView| #[trigger] board.pile(a) == board.pile(b),
{
}

/// A board is told by its five rows.
pub proof fn lemma_board_by_rows(a: BoardView, b: BoardView)
    requires
        forall|row: int| 0 <= row <= 4 ==> row_of(a, row) == row_of(b, row),
    ensures
        a == b,
{
    assert(row_of(a, 0) == row_of(b, 0));
    assert(row_of(a, 1) == row_of(b, 1));
    assert(row_of(a, 2) == row_of(b, 2));
    assert(row_of(a, 3) == row_of(b, 3));
    assert(row_of(a, 4) == row_of(b, 4));
}

/// A move followed by the move back leaves the board as it was.
pub proof fn lemma_move_back(
    board: BoardView,
    origin: PileType,
    destination: PileType,
    from: PileType,
    to: PileType,
)
    requires
        movable(board, origin, destination),
        destination.spec_is_same(from),
        origin.spec_is_same(to),
    ensures
        board.move_card(origin, destination).move_card(from, to) == board,
{
    let card = board.pile(origin).cards.last();
    let moved = board.move_card(origin, destination);
    lemma_same_kind(destination, from);
    lemma_same_kind(origin, to);
    lemma_move_rows(board, origin, destination, row_number(destination));
    lemma_move_rows(board, origin, destination, row_number(origin));
    assert(moved.pile(from).cards.last() == card) by {
        let row = row_of(board, row_number(destination));
        assert(row_of(moved, row_number(destination))[slot_of(destination)] == row[slot_of(
            destination,
        )].push(card));
    }
    assert(movable(moved, from, to));
    let end = moved.move_card(from, to);
    assert forall|row: int| 0 <= row <= 4 implies row_of(end, row) == row_of(board, row) by {
        lemma_move_rows(board, origin, destination, row);
        lemma_move_rows(moved, from, to, row);
        let before = row_of(board, row);
        let i = slot_of(origin);
        let j = slot_of(destination);
        if row_number(origin) == row {
            assert(before[i].drop_top().push(card) == before[i]) by {
                assert(before[i].drop_top().push(card).cards =~= before[i].cards);
            }
        }
        if row_number(destination) == row {
            assert(before[j].push(card).drop_top() == before[j]) by {
                assert(before[j].push(card).drop_top().cards =~= before[j].cards);
            }
        }
        assert(row_of(end, row) =~= before);
    }
    lemma_board_by_rows(end, board);
}

/// A lone tableau card moved onto an empty tableau pile leaves the same
/// position.
pub proof fn lemma_lone_card_to_empty(board: BoardView, origin: PileType, destination: PileType)
    requires
        movable(board, origin, destination),
        origin is Tableau,
        destination is Tableau,
        board.pile(origin).cards.len() == 1,
        board.pile(destination).cards.len() == 0,
    ensures
        board.move_card(origin, destination).same_position(board),
{
    broadcast use vstd::multiset::group_multiset_axioms;

    let after = board.move_card(origin, destination);
    let key = board.pile(origin).cards.last().key();
    assert forall|row: int| 0 <= row <= 4 implies row_keys(row_of(after, row)).to_multiset()
        == row_keys(row_of(board, row)).to_multiset() && (row <= 2 ==> row_keys(
        row_of(after, row),
    ) == row_keys(row_of(board, row))) by {
        lemma_move_keys(board, origin, destination, row);
        if row == 4 {
            let keys = row_keys(board.tableau);
            let i = slot_of(origin);
            let j = slot_of(destination);
            lemma_moved_multiset(keys, Some(i), Some(j), key);
            assert(keys[i] =~= seq![key]);
            assert(keys[j] =~= Seq::<(int, int)>::empty());
            assert(keys[i].drop_last() =~= keys[j]);
            assert(keys[j].push(key) =~= keys[i]);
            vstd::seq_lib::to_multiset_contains(keys, keys[i]);
            vstd::seq_lib::to_multiset_contains(keys, keys[j]);
            assert(keys.contains(keys[i]));
            assert(keys.contains(keys[j]));
            assert(keys.to_multiset().insert(keys[j]).remove(keys[i]).insert(keys[i]).remove(
                keys[j],
            ) =~= keys.to_multiset());
        }
    }
    lemma_same_position_by_rows(after, board);
}

/// Of two tableau piles that hold the same cards, either gives the same
/// position as origin of a move.
pub proof fn lemma_same_origin(
    board: BoardView,
    first: PileType,
    second: PileType,
    destination: PileType,
)
    requires
        movable(board, first, destination),
        movable(board, second, destination),
        first is Tableau,
        second is Tableau,
        board.pile(first).key() == board.pile(second).key(),
    ensures
        board.move_card(first, destination).same_position(
            board.move_card(second, destination),
        ),
{
    let a = board.move_card(first, destination);
    let b = board.move_card(second, destination);
    let key = board.pile(first).cards.last().key();
    assert(board.pile(first).key().last() == key);
    assert(board.pile(second).key().last() == board.pile(second).cards.last().key());
    assert forall|row: int| 0 <= row <= 4 implies row_keys(row_of(a, row)).to_multiset()
        == row_keys(row_of(b, row)).to_multiset() && (row <= 2 ==> row_keys(row_of(a, row))
        == row_keys(row_of(b, row))) by {
        lemma_move_keys(board, first, destination, row);
        lemma_move_keys(board, second, destination, row);
        if row == 4 {
            let keys = row_keys(board.tableau);
            lemma_moved_multiset(keys, Some(slot_of(first)), slot_in(destination, 4), key);
            lemma_moved_multiset(keys, Some(slot_of(second)), slot_in(destination, 4), key);
        }
    }
    lemma_same_position_by_rows(a, b);
}

/// Of two piles of the tableau, or of the foundation, that hold the same
/// cards, either gives the same position as destination of a move.
pub proof fn lemma_same_destination(
    board: BoardView,
    origin: PileType,
    first: PileType,
    second: PileType,
)
    requires
        movable(board, origin, first),
        movable(board, origin, second),
        (first is Tableau && second is Tableau) || (first is Foundation && second is Foundation),
        board.pile(first).key() == board.pile(second).key(),
    ensures
        board.move_card(origin, first).same_position(board.move_card(origin, second)),
{
    let a = board.move_card(origin, first);
    let b = board.move_card(origin, second);
    let key = board.pile(origin).cards.last().key();
    let shared = row_number(first);
    assert forall|row: int| 0 <= row <= 4 implies row_keys(row_of(a, row)).to_multiset()
        == row_keys(row_of(b, row)).to_multiset() && (row <= 2 ==> row_keys(row_of(a, row))
        == row_keys(row_of(b, row))) by {
        lemma_move_keys(board, origin, first, row);
        lemma_move_keys(board, origin, second, row);
        if row == shared {
            let keys = row_keys(row_of(board, row));
            lemma_moved_multiset(keys, slot_in(origin, row), Some(slot_of(first)), key);
            lemma_moved_multiset(keys, slot_in(origin, row), Some(slot_of(second)), key);
        }
    }
    lemma_same_position_by_rows(a, b);
}

/// Two piles of one kind that hold the same cards, and that are of one suit
/// if they are foundation piles, accept the same cards.
pub proof fn lemma_same_cards_accept_alike(
    first: PileView,
    second: PileView,
    card: Card,
    origin: PileType,
    player: Player,
)
    requires
        first.key() == second.key(),
        (first.kind is Tableau && second.kind is Tableau) || (first.kind is Foundation
            && second.kind is Foundation && first.kind->suit == second.kind->suit),
    ensures
        first.can_add_card(card, origin, player) == second.can_add_card(card, origin, player),
{
    assert(first.cards.len() == first.key().len());
    assert(second.cards.len() == second.key().len());
    if first.cards.len() > 0 {
        let n = first.cards.len() - 1;
        assert(first.key()[n] == first.cards[n].key());
        assert(second.key()[n] == second.cards[n].key());
        super::suits::lemma_suit_order_injective(first.cards[n].suit, second.cards[n].suit);
    }
}

} // verus!
