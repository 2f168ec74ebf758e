//! The same position offers the same moves.
//!
//! Of two boards of one turn that are the same position, each move that the
//! player may make on the one has its like on the other: a move between
//! piles that hold the same cards, which leads to the same position.

use vstd::prelude::*;

use super::candidates::foundation_kind;
use super::candidates::tableau_kind;
use super::pruning_laws::lemma_no_move_between_alike;
use super::pruning_laws::lemma_same_key_accepted_alike;
use super::turn_laws::faces_like;
use super::turn_laws::grown;
use super::turn_laws::in_turn;
use super::turn_rules::playable;
use super::turn_rules::search_destination;
use super::turn_rules::search_origin;
use crate::game::board::foundation_suit;
use crate::game::board::lemma_pile_of_wf;
use crate::game::board::BoardView;
use crate::game::keys::PileKey;
use crate::game::piles::PileType;
use crate::game::piles::PileView;
use crate::game::players::Player;
use crate::game::position_laws::lemma_position_rows;
use crate::game::position_laws::lemma_total_of_eight;
use crate::game::position_laws::lemma_total_of_permutation;
use crate::game::sorting::row_keys;
use crate::game::suits::Suit;
use crate::game::symmetry_laws::lemma_move_keys;
use crate::game::symmetry_laws::lemma_moved_multiset;
use crate::game::symmetry_laws::lemma_same_cards_accept_alike;
use crate::game::symmetry_laws::lemma_same_position_by_rows;
use crate::game::symmetry_laws::movable;
use crate::game::symmetry_laws::row_number;
use crate::game::symmetry_laws::row_of;
use crate::game::symmetry_laws::slot_in;
use crate::game::symmetry_laws::slot_of;

verus! {

/// Whether the pile `other` of the board `b` is the like of the pile `kind`
/// of the board `a`: a pile of the same row that holds the same cards, and
/// the same pile if it is a pile of a player.
pub open spec fn alike(a: BoardView, kind: PileType, b: BoardView, other: PileType) -> bool {
    &&& row_number(kind) == row_number(other)
    &&& a.pile(kind).key() == b.pile(other).key()
    &&& row_number(kind) <= 2 ==> other == kind
}

/// A row that holds a pile with some cards, in the sense of what it holds
/// in whatever arrangement, holds it at some slot.
pub proof fn lemma_find_pile(row: Seq<PileView>, key: PileKey) -> (slot: int)
    requires
        row_keys(row).to_multiset().count(key) > 0,
    ensures
        0 <= slot < row.len(),
        row[slot].key() == key,
{
    let keys = row_keys(row);
    vstd::seq_lib::to_multiset_contains(keys, key);
    assert(keys.contains(key));
    let slot = choose|i: int| 0 <= i < keys.len() && keys[i] == key;
    slot
}

/// Two moves between piles that are alike, on two boards that are the same
/// position, lead to the same position.
pub proof fn lemma_like_moves(
    a: BoardView,
    from: PileType,
    to: PileType,
    b: BoardView,
    other_from: PileType,
    other_to: PileType,
)
    requires
        movable(a, from, to),
        movable(b, other_from, other_to),
        a.same_position(b),
        alike(a, from, b, other_from),
        alike(a, to, b, other_to),
    ensures
        a.move_card(from, to).same_position(b.move_card(other_from, other_to)),
{
    lemma_position_rows(a, b);
    let first = a.move_card(from, to);
    let second = b.move_card(other_from, other_to);
    let card = a.pile(from).cards.last();
    let other_card = b.pile(other_from).cards.last();
    let key = card.key();
    assert(other_card.key() == key) by {
        let n = a.pile(from).cards.len() - 1;
        assert(a.pile(from).key()[n] == key);
        assert(b.pile(other_from).cards.len() == b.pile(other_from).key().len());
        assert(b.pile(other_from).key()[n] == other_card.key());
    }
    crate::game::symmetry_laws::lemma_move_rows(a, from, to, 0);
    crate::game::symmetry_laws::lemma_move_rows(b, other_from, other_to, 0);
    assert forall|row: int| 0 <= row <= 4 implies row_keys(row_of(first, row)).to_multiset()
        == row_keys(row_of(second, row)).to_multiset() && (row <= 2 ==> row_keys(
        row_of(first, row),
    ) == row_keys(row_of(second, row))) by {
        lemma_move_keys(a, from, to, row);
        lemma_move_keys(b, other_from, other_to, row);
        let ka = row_keys(row_of(a, row));
        let kb = row_keys(row_of(b, row));
        if row <= 2 {
            assert(ka == kb);
        } else {
            assert(ka.to_multiset() == kb.to_multiset());
            if row_number(from) == row {
                assert(ka[slot_of(from)] == a.pile(from).key());
                assert(kb[slot_of(other_from)] == b.pile(other_from).key());
            }
            if row_number(to) == row {
                assert(ka[slot_of(to)] == a.pile(to).key());
                assert(kb[slot_of(other_to)] == b.pile(other_to).key());
            }
            lemma_moved_multiset(ka, slot_in(from, row), slot_in(to, row), key);
            lemma_moved_multiset(kb, slot_in(other_from, row), slot_in(other_to, row), key);
        }
    }
    lemma_same_position_by_rows(first, second);
}

/// 1 for the cards of a foundation pile of the suit `suit` that is not
/// empty, 0 for any other.
pub open spec fn started(suit: Suit) -> spec_fn(PileKey) -> int {
    |key: PileKey|
        if key.len() > 0 && key[0].1 == suit.spec_order() {
            1int
        } else {
            0int
        }
}

/// Of two boards that are the same position, if the one has an empty
/// foundation pile of some suit, so has the other.
pub proof fn lemma_empty_foundation(a: BoardView, slot: int, b: BoardView) -> (other: int)
    requires
        a.wf(),
        b.wf(),
        a.same_position(b),
        0 <= slot < 8,
        a.foundation[slot].cards.len() == 0,
    ensures
        0 <= other < 8,
        b.foundation[other].cards.len() == 0,
        foundation_suit(other) == foundation_suit(slot),
{
    lemma_position_rows(a, b);
    let suit = foundation_suit(slot);
    let f = started(suit);
    let ka = row_keys(a.foundation);
    let kb = row_keys(b.foundation);
    lemma_total_of_permutation(ka, kb, f);
    lemma_total_of_eight(ka, f);
    lemma_total_of_eight(kb, f);
    assert forall|x: int| 0 <= x < 8 implies f(#[trigger] ka[x]) == (if foundation_suit(x) == suit
        && a.foundation[x].cards.len() > 0 {
        1int
    } else {
        0int
    }) by {
        lemma_foundation_key(a, x, suit);
    }
    assert forall|x: int| 0 <= x < 8 implies f(#[trigger] kb[x]) == (if foundation_suit(x) == suit
        && b.foundation[x].cards.len() > 0 {
        1int
    } else {
        0int
    }) by {
        lemma_foundation_key(b, x, suit);
    }
    let first: int = if slot < 4 {
        slot
    } else {
        7 - slot
    };
    assert(foundation_suit(first) == suit && foundation_suit(7 - first) == suit);
    assert(f(ka[0]) + f(ka[1]) + f(ka[2]) + f(ka[3]) + f(ka[4]) + f(ka[5]) + f(ka[6]) + f(ka[7])
        <= 1) by {
        assert(f(ka[slot]) == 0);
        assert(f(ka[0]) <= 1 && f(ka[1]) <= 1 && f(ka[2]) <= 1 && f(ka[3]) <= 1);
        assert(f(ka[4]) <= 1 && f(ka[5]) <= 1 && f(ka[6]) <= 1 && f(ka[7]) <= 1);
    }
    if b.foundation[first].cards.len() == 0 {
        first
    } else {
        assert(f(kb[first]) == 1);
        assert(f(kb[0]) >= 0 && f(kb[1]) >= 0 && f(kb[2]) >= 0 && f(kb[3]) >= 0);
        assert(f(kb[4]) >= 0 && f(kb[5]) >= 0 && f(kb[6]) >= 0 && f(kb[7]) >= 0);
        assert(f(kb[7 - first]) == 0);
        7 - first
    }
}

/// Whether a foundation pile of a board that meets its invariant counts as
/// a pile of the suit `suit` that is not empty.
pub proof fn lemma_foundation_key(board: BoardView, slot: int, suit: Suit)
    requires
        board.wf(),
        0 <= slot < 8,
    ensures
        started(suit)(row_keys(board.foundation)[slot]) == (if foundation_suit(slot) == suit
            && board.foundation[slot].cards.len() > 0 {
            1int
        } else {
            0int
        }),
{
    let pile = board.foundation[slot];
    assert(pile.wf());
    assert(pile.kind == foundation_kind(slot));
    let key = row_keys(board.foundation)[slot];
    assert(key == pile.key());
    if pile.cards.len() > 0 {
        assert(key[0] == pile.cards[0].key());
        assert(pile.cards[0].suit == foundation_suit(slot));
        if foundation_suit(slot).spec_order() == suit.spec_order() {
            crate::game::suits::lemma_suit_order_injective(foundation_suit(slot), suit);
        }
    }
}

/// The pile of the other board that is the like of an origin of a move.
pub proof fn lemma_like_origin(
    origin: BoardView,
    a: BoardView,
    b: BoardView,
    player: Player,
    from: PileType,
) -> (other: PileType)
    requires
        in_turn(origin, a, player),
        in_turn(origin, b, player),
        a.same_position(b),
        search_origin(a, player, from),
    ensures
        search_origin(b, player, other),
        alike(a, from, b, other),
        a.pile(from).cards.len() > 0,
        b.pile(other).cards.len() > 0,
        b.pile(other).cards.last().key() == a.pile(from).cards.last().key(),
        a.has_pile(from),
        b.has_pile(other),
{
    lemma_position_rows(a, b);
    lemma_pile_of_wf(a, from);
    match from {
        PileType::Tableau { id } => {
            let key = a.tableau[id as int].key();
            let keys = row_keys(a.tableau);
            assert(keys[id as int] == key);
            vstd::seq_lib::to_multiset_contains(keys, key);
            assert(keys.contains(key));
            let slot = lemma_find_pile(b.tableau, key);
            let other = tableau_kind(slot);
            assert(b.tableau[slot].cards.len() == b.tableau[slot].key().len());
            let n = key.len() - 1;
            assert(b.tableau[slot].key()[n] == b.tableau[slot].cards[n].key());
            assert(a.tableau[id as int].key()[n] == a.tableau[id as int].cards[n].key());
            other
        },
        _ => from,
    }
}

/// The pile of the other board that is the like of a destination of a move,
/// and accepts the same card.
pub proof fn lemma_like_destination(
    origin: BoardView,
    a: BoardView,
    b: BoardView,
    player: Player,
    to: PileType,
    card: crate::game::cards::Card,
    from: PileType,
) -> (other: PileType)
    requires
        in_turn(origin, a, player),
        in_turn(origin, b, player),
        a.same_position(b),
        search_destination(player, to),
        a.pile(to).can_add_card(card, from, player),
    ensures
        search_destination(player, other),
        alike(a, to, b, other),
        b.pile(other).can_add_card(card, from, player),
        a.has_pile(to),
        b.has_pile(other),
        b.pile(other).kind.same_variant(a.pile(to).kind),
{
    lemma_position_rows(a, b);
    lemma_pile_of_wf(a, to);
    crate::game::players::lemma_other_involution(player);
    match to {
        PileType::Tableau { id } => {
            let key = a.tableau[id as int].key();
            let keys = row_keys(a.tableau);
            assert(keys[id as int] == key);
            vstd::seq_lib::to_multiset_contains(keys, key);
            assert(keys.contains(key));
            let slot = lemma_find_pile(b.tableau, key);
            let other = tableau_kind(slot);
            assert(b.tableau[slot].kind == other);
            lemma_same_cards_accept_alike(
                a.tableau[id as int],
                b.tableau[slot],
                card,
                from,
                player,
            );
            other
        },
        PileType::Foundation { id, .. } => {
            let pile = a.foundation[id as int];
            let key = pile.key();
            assert(pile.kind == foundation_kind(id as int));
            let slot: int = if pile.cards.len() == 0 {
                lemma_empty_foundation(a, id as int, b)
            } else {
                let keys = row_keys(a.foundation);
                assert(keys[id as int] == key);
                vstd::seq_lib::to_multiset_contains(keys, key);
                assert(keys.contains(key));
                let found = lemma_find_pile(b.foundation, key);
                let there = b.foundation[found];
                assert(there.wf());
                assert(there.cards.len() == there.key().len());
                assert(there.key()[0] == there.cards[0].key());
                assert(pile.key()[0] == pile.cards[0].key());
                assert(there.kind == foundation_kind(found));
                crate::game::suits::lemma_suit_order_injective(
                    foundation_suit(found),
                    foundation_suit(id as int),
                );
                found
            };
            let other = foundation_kind(slot);
            let there = b.foundation[slot];
            assert(there.kind == other);
            assert(there.key() =~= key);
            lemma_same_cards_accept_alike(pile, there, card, from, player);
            other
        },
        PileType::Crape { player: owner } => {
            let q = owner.spec_index();
            let here = a.crape[q];
            let there = b.crape[q];
            assert(row_keys(a.crape)[q] == here.key());
            assert(row_keys(b.crape)[q] == there.key());
            assert(here.cards.len() == here.key().len());
            assert(there.cards.len() == there.key().len());
            let n = here.cards.len() - 1;
            assert(here.key()[n] == here.cards[n].key());
            assert(there.key()[n] == there.cards[n].key());
            // the two top cards face the same way
            assert(grown(origin, origin.crape[q], here));
            assert(grown(origin, origin.crape[q], there));
            if n < origin.crape[q].cards.len() {
                assert(here.cards[n] == origin.crape[q].cards[n]);
                assert(there.cards[n] == origin.crape[q].cards[n]);
            } else {
                assert(faces_like(origin, here.cards[n]));
                assert(faces_like(origin, there.cards[n]));
            }
            crate::game::suits::lemma_suit_order_injective(here.cards[n].suit, there.cards[n].suit);
            assert(here.kind == to);
            assert(there.kind == to);
            to
        },
        PileType::Waste { player: owner } => {
            let q = owner.spec_index();
            let here = a.waste[q];
            let there = b.waste[q];
            assert(row_keys(a.waste)[q] == here.key());
            assert(row_keys(b.waste)[q] == there.key());
            assert(here.cards.len() == here.key().len());
            assert(there.cards.len() == there.key().len());
            let n = here.cards.len() - 1;
            assert(here.key()[n] == here.cards[n].key());
            assert(there.key()[n] == there.cards[n].key());
            crate::game::suits::lemma_suit_order_injective(here.cards[n].suit, there.cards[n].suit);
            assert(here.kind == to);
            assert(there.kind == to);
            to
        },
        _ => to,
    }
}

/// The same position offers the same moves: of two boards in the middle of
/// one turn that are the same position, each move that the player may make
/// on the one has its like on the other, which the player may make too and
/// which leads to the same position.
pub proof fn lemma_transfer(
    origin: BoardView,
    a: BoardView,
    b: BoardView,
    player: Player,
    from: PileType,
    to: PileType,
) -> (like: (PileType, PileType))
    requires
        in_turn(origin, a, player),
        in_turn(origin, b, player),
        a.same_position(b),
        playable(a, player, from, to),
    ensures
        playable(b, player, like.0, like.1),
        a.move_card(from, to).same_position(b.move_card(like.0, like.1)),
        like.0.same_variant(from),
        like.1.same_variant(to),
{
    let card = a.pile(from).cards.last();
    let other_from = lemma_like_origin(origin, a, b, player, from);
    let other_to = lemma_like_destination(origin, a, b, player, to, card, from);
    let other_card = b.pile(other_from).cards.last();
    lemma_pile_of_wf(b, other_from);
    lemma_pile_of_wf(b, other_to);
    lemma_pile_of_wf(a, from);
    lemma_pile_of_wf(a, to);
    assert(search_destination(player, b.pile(other_to).kind));
    lemma_same_key_accepted_alike(b.pile(other_to), card, other_card, from, other_from, player);
    if other_from.spec_is_same(other_to) {
        // both are tableau piles, that hold the same cards: no card goes from one to the other
        lemma_no_move_between_alike(a.pile(from), a.pile(to), player);
    }
    lemma_like_moves(a, from, to, b, other_from, other_to);
    (other_from, other_to)
}

} // verus!
