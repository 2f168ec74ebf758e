//! What the search leaves out leads nowhere new.
//!
//! Every move that the rules allow from the board of a node that the search
//! may expand leads to the position of one of its neighbours, to the
//! position of the node itself, or to the position that its last move came
//! from.

use vstd::prelude::*;

use super::candidates::destination_candidates;
use super::candidates::destinations;
use super::candidates::first_of_its_content;
use super::candidates::foundation_kind;
use super::candidates::is_destination;
use super::candidates::is_origin;
use super::candidates::kept;
use super::candidates::origin_candidates;
use super::candidates::origins;
use super::candidates::tableau_kind;
use super::neighbors::move_of;
use super::neighbors::moves_from;
use super::neighbors::moves_upto;
use super::neighbors::survives;
use super::turn_rules::playable;
use super::turn_rules::search_destination;
use super::turn_rules::search_origin;
use crate::game::board::BoardView;
use crate::game::cards::Card;
use crate::game::moves::CardAction;
use crate::game::piles::PileType;
use crate::game::piles::PileView;
use crate::game::players::Player;
use crate::game::symmetry_laws::lemma_same_cards_accept_alike;
use crate::game::symmetry_laws::lemma_same_destination;
use crate::game::symmetry_laws::lemma_same_origin;
use crate::game::symmetry_laws::movable;

verus! {

/// The first slot from `k` on, and at most `slot`, of a pile of the row that
/// holds the same cards as the pile of slot `slot`.
pub open spec fn first_same_from(row: Seq<PileView>, slot: int, k: int) -> int
    decreases slot - k,
{
    if k >= slot {
        slot
    } else if row[k].key() == row[slot].key() {
        k
    } else {
        first_same_from(row, slot, k + 1)
    }
}

/// The first slot of a pile of the row that holds the same cards as the
/// pile of slot `slot`.
pub open spec fn first_same(row: Seq<PileView>, slot: int) -> int {
    first_same_from(row, slot, 0)
}

/// The pile that the search takes cards from in the place of `origin`: for
/// a tableau pile, the first tableau pile with the same cards.
pub open spec fn kept_origin(board: BoardView, origin: PileType) -> PileType {
    match origin {
        PileType::Tableau { id } => tableau_kind(first_same(board.tableau, id as int)),
        _ => origin,
    }
}

/// The pile that the search puts cards on in the place of `destination`:
/// for a tableau pile, the first tableau pile with the same cards; for a
/// foundation pile of the last four that is as large as the other pile of
/// its suit, that other pile.
pub open spec fn kept_destination(board: BoardView, destination: PileType) -> PileType {
    match destination {
        PileType::Tableau { id } => tableau_kind(first_same(board.tableau, id as int)),
        PileType::Foundation { id, .. } => if id >= 4 && board.foundation[id as int].cards.len()
            == board.foundation[7 - id].cards.len() {
            foundation_kind(7 - id)
        } else {
            foundation_kind(id as int)
        },
        _ => destination,
    }
}

/// The first pile with the same cards as a pile holds the same cards, and
/// no pile before it does.
pub proof fn lemma_first_same(row: Seq<PileView>, slot: int, k: int)
    requires
        0 <= k <= slot < row.len(),
        forall|j: int| 0 <= j < k ==> (#[trigger] row[j]).key() != row[slot].key(),
    ensures
        k <= first_same_from(row, slot, k) <= slot,
        row[first_same_from(row, slot, k)].key() == row[slot].key(),
        first_of_its_content(row, first_same_from(row, slot, k)),
    decreases slot - k,
{
    if k < slot && row[k].key() != row[slot].key() {
        lemma_first_same(row, slot, k + 1);
    }
}

/// A candidate that is kept stands among the kept.
pub proof fn lemma_kept_contains(
    candidates: Seq<PileType>,
    keep: spec_fn(PileType) -> bool,
    n: int,
    c: int,
)
    requires
        0 <= c < n <= candidates.len(),
        keep(candidates[c]),
    ensures
        kept(candidates, keep, n).contains(candidates[c]),
    decreases n,
{
    let all = kept(candidates, keep, n);
    if c == n - 1 {
        assert(all[all.len() - 1] == candidates[c]);
    } else {
        lemma_kept_contains(candidates, keep, n - 1, c);
        let shorter = kept(candidates, keep, n - 1);
        let k = choose|k: int| 0 <= k < shorter.len() && shorter[k] == candidates[c];
        assert(all[k] == candidates[c]);
    }
}

/// A move that the search keeps from an origin stands among the moves that
/// it makes from that origin.
pub proof fn lemma_moves_from_contains(
    board: BoardView,
    last: Option<CardAction>,
    player: Player,
    origin: PileType,
    to: Seq<PileType>,
    n: int,
    j: int,
)
    requires
        0 <= j < n <= to.len(),
        survives(board, last, player, origin, to[j]),
    ensures
        moves_from(board, last, player, origin, to, n).contains(move_of(board, origin, to[j])),
    decreases n,
{
    let all = moves_from(board, last, player, origin, to, n);
    if j == n - 1 {
        assert(all[all.len() - 1] == move_of(board, origin, to[j]));
    } else {
        lemma_moves_from_contains(board, last, player, origin, to, n - 1, j);
        let shorter = moves_from(board, last, player, origin, to, n - 1);
        let k = choose|k: int|
            0 <= k < shorter.len() && shorter[k] == move_of(board, origin, to[j]);
        assert(all[k] == shorter[k]);
    }
}

/// A move that the search keeps stands among the moves that it makes.
pub proof fn lemma_moves_upto_contains(
    board: BoardView,
    last: Option<CardAction>,
    player: Player,
    from: Seq<PileType>,
    to: Seq<PileType>,
    n: int,
    i: int,
    j: int,
)
    requires
        0 <= i < n <= from.len(),
        0 <= j < to.len(),
        survives(board, last, player, from[i], to[j]),
    ensures
        moves_upto(board, last, player, from, to, n).contains(move_of(board, from[i], to[j])),
    decreases n,
{
    let all = moves_upto(board, last, player, from, to, n);
    let before = moves_upto(board, last, player, from, to, n - 1);
    let added = moves_from(board, last, player, from[n - 1], to, to.len() as int);
    let wanted = move_of(board, from[i], to[j]);
    if i == n - 1 {
        lemma_moves_from_contains(board, last, player, from[i], to, to.len() as int, j);
        let k = choose|k: int| 0 <= k < added.len() && added[k] == wanted;
        assert(all[before.len() + k] == wanted);
    } else {
        lemma_moves_upto_contains(board, last, player, from, to, n - 1, i, j);
        let k = choose|k: int| 0 <= k < before.len() && before[k] == wanted;
        assert(all[k] == wanted);
    }
}

/// Two cards of the same rank and suit are accepted alike by a pile that
/// `player` may put cards on in the middle of a turn, whatever pile they
/// come from.
pub proof fn lemma_same_key_accepted_alike(
    pile: PileView,
    first: Card,
    second: Card,
    from: PileType,
    other: PileType,
    player: Player,
)
    requires
        first.key() == second.key(),
        search_destination(player, pile.kind),
    ensures
        pile.can_add_card(first, from, player) == pile.can_add_card(second, other, player),
{
    crate::game::suits::lemma_suit_order_injective(first.suit, second.suit);
    crate::game::players::lemma_other_involution(player);
}

/// The pile that the search takes cards from in the place of an origin is
/// one of its origins, and holds the same cards.
pub proof fn lemma_kept_origin(board: BoardView, player: Player, origin: PileType)
    requires
        board.wf(),
        search_origin(board, player, origin),
    ensures
        search_origin(board, player, kept_origin(board, origin)),
        origins(board, player).contains(kept_origin(board, origin)),
        board.has_pile(origin),
        board.has_pile(kept_origin(board, origin)),
        board.pile(kept_origin(board, origin)).key() == board.pile(origin).key(),
        board.pile(origin).cards.len() > 0,
        board.pile(origin).cards.last().wf(),
        origin is Tableau <==> kept_origin(board, origin) is Tableau,
        !(origin is Tableau) ==> kept_origin(board, origin) == origin,
        kept_origin(board, origin).spec_is_same(origin) ==> board.pile(kept_origin(board, origin))
            == board.pile(origin),
{
    let kept_kind = kept_origin(board, origin);
    let keep = |k: PileType| is_origin(board, player, k);
    let candidates = origin_candidates(player);
    crate::game::board::lemma_pile_of_wf(board, origin);
    match origin {
        PileType::Tableau { id } => {
            lemma_first_same(board.tableau, id as int, 0);
            let r = first_same(board.tableau, id as int);
            assert(board.tableau[r].key().len() == board.tableau[id as int].key().len());
            assert(candidates[r] == tableau_kind(r));
            assert(keep(candidates[r]));
            lemma_kept_contains(candidates, keep, 10, r);
        },
        PileType::Crape { .. } => {
            assert(candidates[8] == origin);
            assert(keep(candidates[8]));
            lemma_kept_contains(candidates, keep, 10, 8);
        },
        PileType::Stock { .. } => {
            assert(candidates[9] == origin);
            assert(keep(candidates[9]));
            lemma_kept_contains(candidates, keep, 10, 9);
        },
        _ => {},
    }
}

/// Two foundation piles of one suit that meet their invariant and hold as
/// many cards hold the same cards.
pub proof fn lemma_foundations_alike(first: PileView, second: PileView)
    requires
        first.wf(),
        second.wf(),
        first.kind is Foundation,
        second.kind is Foundation,
        first.kind->suit == second.kind->suit,
        first.cards.len() == second.cards.len(),
    ensures
        first.key() == second.key(),
{
    assert forall|i: int| 0 <= i < first.cards.len() implies first.key()[i] == second.key()[i] by {
        assert(first.cards[i].rank.0 == i + 1);
        assert(second.cards[i].rank.0 == i + 1);
    }
    assert(first.key() =~= second.key());
}

/// The pile that the search puts cards on in the place of a destination
/// that accepts a card is one of its destinations, is of the same kind,
/// holds the same cards and accepts the same cards.
pub proof fn lemma_kept_destination(
    board: BoardView,
    player: Player,
    destination: PileType,
    card: Card,
    origin: PileType,
)
    requires
        board.wf(),
        card.wf(),
        search_destination(player, destination),
        board.pile(destination).can_add_card(card, origin, player),
    ensures
        search_destination(player, kept_destination(board, destination)),
        destinations(board, player).contains(kept_destination(board, destination)),
        board.has_pile(destination),
        board.has_pile(kept_destination(board, destination)),
        board.pile(kept_destination(board, destination)).key() == board.pile(destination).key(),
        board.pile(kept_destination(board, destination)).can_add_card(card, origin, player),
        destination is Tableau <==> kept_destination(board, destination) is Tableau,
        destination is Foundation <==> kept_destination(board, destination) is Foundation,
        !(destination is Tableau) && !(destination is Foundation) ==> kept_destination(
            board,
            destination,
        ) == destination,
        kept_destination(board, destination).spec_is_same(destination) ==> board.pile(
            kept_destination(board, destination),
        ) == board.pile(destination),
{
    let kept_kind = kept_destination(board, destination);
    let keep = |k: PileType| is_destination(board, player, k);
    let candidates = destination_candidates(player);
    crate::game::board::lemma_pile_of_wf(board, destination);
    crate::game::players::lemma_other_involution(player);
    match destination {
        PileType::Tableau { id } => {
            lemma_first_same(board.tableau, id as int, 0);
            let r = first_same(board.tableau, id as int);
            assert(candidates[r] == tableau_kind(r));
            assert(keep(candidates[r]));
            lemma_kept_contains(candidates, keep, 18, r);
            assert(board.tableau[r].kind == tableau_kind(r));
            lemma_same_cards_accept_alike(
                board.tableau[id as int],
                board.tableau[r],
                card,
                origin,
                player,
            );
        },
        PileType::Foundation { id, .. } => {
            let x: int = if id >= 4 && board.foundation[id as int].cards.len()
                == board.foundation[7 - id].cards.len() {
                7 - id
            } else {
                id as int
            };
            assert(kept_kind == foundation_kind(x));
            assert(board.foundation[x].kind == foundation_kind(x));
            assert(board.foundation[id as int].kind == foundation_kind(id as int));
            assert(board.foundation[x].wf());
            lemma_foundations_alike(board.foundation[x], board.foundation[id as int]);
            lemma_same_cards_accept_alike(
                board.foundation[id as int],
                board.foundation[x],
                card,
                origin,
                player,
            );
            let c: int = if x < 4 {
                8 + x
            } else {
                12 + (7 - x)
            };
            assert(candidates[c] == foundation_kind(x));
            assert(keep(candidates[c]));
            lemma_kept_contains(candidates, keep, 18, c);
        },
        PileType::Crape { .. } => {
            assert(candidates[16] == destination);
            assert(keep(candidates[16]));
            lemma_kept_contains(candidates, keep, 18, 16);
        },
        PileType::Waste { .. } => {
            assert(candidates[17] == destination);
            assert(keep(candidates[17]));
            lemma_kept_contains(candidates, keep, 18, 17);
        },
        _ => {},
    }
}

/// No card goes from a tableau pile onto a tableau pile that holds the same
/// cards.
pub proof fn lemma_no_move_between_alike(first: PileView, second: PileView, player: Player)
    requires
        first.kind is Tableau,
        second.kind is Tableau,
        first.cards.len() > 0,
        first.key() == second.key(),
    ensures
        !second.can_add_card(first.cards.last(), first.kind, player),
{
    let n = first.cards.len() - 1;
    assert(second.cards.len() == second.key().len());
    assert(first.key()[n] == first.cards[n].key());
    assert(second.key()[n] == second.cards[n].key());
}

/// A move that `player` may make in the middle of a turn leads to the same
/// position as the move from the pile that the search takes cards from in
/// the place of its origin to the pile that it puts cards on in the place
/// of its destination, which is a move between two of its candidates that
/// `player` may make too.
pub proof fn lemma_kept_move(
    board: BoardView,
    player: Player,
    origin: PileType,
    destination: PileType,
)
    requires
        board.wf(),
        playable(board, player, origin, destination),
    ensures
        playable(
            board,
            player,
            kept_origin(board, origin),
            kept_destination(board, destination),
        ),
        origins(board, player).contains(kept_origin(board, origin)),
        destinations(board, player).contains(kept_destination(board, destination)),
        movable(board, origin, destination),
        movable(board, kept_origin(board, origin), kept_destination(board, destination)),
        board.move_card(origin, destination).same_position(
            board.move_card(kept_origin(board, origin), kept_destination(board, destination)),
        ),
        kept_origin(board, origin).same_variant(origin),
        kept_destination(board, destination).same_variant(destination),
{
    let from = kept_origin(board, origin);
    let to = kept_destination(board, destination);
    let card = board.pile(origin).cards.last();
    lemma_kept_origin(board, player, origin);
    lemma_kept_destination(board, player, destination, card, origin);
    let kept_card = board.pile(from).cards.last();
    crate::game::board::lemma_pile_of_wf(board, origin);
    crate::game::board::lemma_pile_of_wf(board, from);
    crate::game::board::lemma_pile_of_wf(board, destination);
    crate::game::board::lemma_pile_of_wf(board, to);
    // the card on top of the kept origin is the same card
    assert(kept_card.key() == card.key()) by {
        let n = board.pile(origin).cards.len() - 1;
        assert(board.pile(origin).key()[n] == card.key());
        assert(board.pile(from).cards.len() == board.pile(from).key().len());
        assert(board.pile(from).key()[n] == kept_card.key());
    }
    // and it is accepted where the card was
    lemma_same_key_accepted_alike(board.pile(destination), card, kept_card, origin, from, player);
    lemma_same_key_accepted_alike(board.pile(to), card, kept_card, origin, from, player);
    // so the kept origin is neither the destination nor the kept destination
    if from is Tableau && destination is Tableau {
        if from.spec_is_same(destination) {
            lemma_no_move_between_alike(board.pile(from), board.pile(destination), player);
        }
        if from.spec_is_same(to) {
            lemma_no_move_between_alike(board.pile(from), board.pile(to), player);
        }
    }
    assert(!from.spec_is_same(destination));
    assert(!from.spec_is_same(to));
    assert(!origin.spec_is_same(to)) by {
        if origin is Tableau && to is Tableau && origin.spec_is_same(to) {
            lemma_no_move_between_alike(board.pile(origin), board.pile(to), player);
            lemma_same_key_accepted_alike(board.pile(to), card, card, origin, origin, player);
        }
    }
    // the three moves lead to the same position
    let first = board.move_card(origin, destination);
    let second = board.move_card(from, destination);
    let third = board.move_card(from, to);
    if origin is Tableau {
        lemma_same_origin(board, origin, from, destination);
    } else {
        assert(from == origin);
    }
    assert(first.same_position(second));
    if destination is Tableau || destination is Foundation {
        lemma_same_destination(board, from, destination, to);
    } else {
        assert(to == destination);
    }
    assert(second.same_position(third));
}

} // verus!
