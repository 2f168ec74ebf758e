//! The order of boards is a total order on positions.
//!
//! Two boards compare as equal exactly when they are the same position, of
//! two different positions one comes first, and the order is transitive. So
//! a set of nodes that is kept in this order holds no two nodes for one
//! position, and has one first node.

use std::cmp::Ordering;
use vstd::prelude::*;

use super::board::BoardView;
use super::canonical::board_order_of;
use super::canonical::first_difference;
use super::canonical::is_first_difference;
use super::canonical::lemma_first_difference_exists;
use super::canonical::lemma_first_difference_unique;
use super::canonical::rows_order_of;
use super::canonical::CanonicalBoard;
use super::keys::lemma_lex_asymmetric;
use super::keys::lemma_lex_irreflexive;
use super::keys::lemma_lex_total;
use super::keys::lemma_lex_transitive;
use super::keys::lemma_pile_order_total;
use super::keys::pile_lt;
use super::keys::pile_order;
use super::keys::PileKey;
use super::sorting::row_keys;

verus! {

/// Whether the row `a` comes strictly before the row `b`.
pub open spec fn rows_lt(a: Seq<PileKey>, b: Seq<PileKey>) -> bool {
    rows_order_of(a, b) == Ordering::Less
}

/// Whether the canonical form `a` comes strictly before `b`.
pub open spec fn board_lt(a: CanonicalBoard, b: CanonicalBoard) -> bool {
    board_order_of(a, b) == Ordering::Less
}

/// Whether the two canonical forms have rows of the same lengths.
pub open spec fn same_lengths(a: CanonicalBoard, b: CanonicalBoard) -> bool {
    &&& a.crape.len() == b.crape.len()
    &&& a.waste.len() == b.waste.len()
    &&& a.stock.len() == b.stock.len()
    &&& a.tableau.len() == b.tableau.len()
    &&& a.foundation.len() == b.foundation.len()
}

/// The order of piles is strict: of two piles at most one comes strictly
/// before the other, and none before itself.
pub proof fn lemma_pile_lt_asymmetric(a: PileKey, b: PileKey)
    requires
        pile_lt(a, b),
    ensures
        !pile_lt(b, a),
        a != b,
{
    if a.len() == b.len() {
        lemma_lex_asymmetric(a, b);
        lemma_lex_irreflexive(a);
    }
}

/// The strict order of piles is transitive.
pub proof fn lemma_pile_lt_transitive(a: PileKey, b: PileKey, c: PileKey)
    requires
        pile_lt(a, b),
        pile_lt(b, c),
    ensures
        pile_lt(a, c),
{
    if a.len() == b.len() && b.len() == c.len() {
        lemma_lex_transitive(a, b, c);
    }
}

/// Of two different piles one comes strictly before the other.
pub proof fn lemma_pile_lt_total(a: PileKey, b: PileKey)
    requires
        a != b,
    ensures
        pile_lt(a, b) || pile_lt(b, a),
{
    if a.len() == b.len() {
        lemma_lex_total(a, b);
    }
}

/// How two different rows of one length compare, told by the first place
/// at which they differ: the row whose pile comes first there comes first.
pub proof fn lemma_rows_order(a: Seq<PileKey>, b: Seq<PileKey>)
    requires
        a.len() == b.len(),
        a != b,
    ensures
        is_first_difference(a, b, first_difference(a, b)),
        rows_lt(a, b) <==> pile_lt(a[first_difference(a, b)], b[first_difference(a, b)]),
        rows_lt(b, a) <==> pile_lt(b[first_difference(a, b)], a[first_difference(a, b)]),
        rows_lt(a, b) || rows_lt(b, a),
        !(rows_lt(a, b) && rows_lt(b, a)),
{
    lemma_first_difference_exists(a, b);
    let k = first_difference(a, b);
    assert(is_first_difference(b, a, k));
    lemma_first_difference_unique(b, a, k);
    lemma_pile_lt_total(a[k], b[k]);
    if pile_lt(a[k], b[k]) {
        lemma_pile_lt_asymmetric(a[k], b[k]);
    }
}

/// The strict order of rows of one length is transitive.
pub proof fn lemma_rows_lt_transitive(a: Seq<PileKey>, b: Seq<PileKey>, c: Seq<PileKey>)
    requires
        a.len() == b.len(),
        b.len() == c.len(),
        rows_lt(a, b),
        rows_lt(b, c),
    ensures
        rows_lt(a, c),
{
    lemma_rows_order(a, b);
    lemma_rows_order(b, c);
    let x = first_difference(a, b);
    let y = first_difference(b, c);
    if x < y {
        assert(b[x] == c[x]);
        assert(is_first_difference(a, c, x));
        lemma_first_difference_unique(a, c, x);
    } else if y < x {
        assert(a[y] == b[y]);
        assert(is_first_difference(a, c, y));
        lemma_first_difference_unique(a, c, y);
    } else {
        lemma_pile_lt_transitive(a[x], b[x], c[x]);
        lemma_pile_lt_asymmetric(a[x], c[x]);
        assert(is_first_difference(a, c, x));
        lemma_first_difference_unique(a, c, x);
    }
    assert(a != c);
}

/// Of two different canonical forms with rows of the same lengths one
/// comes strictly before the other, and not both; a canonical form does not
/// come before itself.
pub proof fn lemma_board_lt_total(a: CanonicalBoard, b: CanonicalBoard)
    requires
        same_lengths(a, b),
    ensures
        a != b ==> board_lt(a, b) || board_lt(b, a),
        !(board_lt(a, b) && board_lt(b, a)),
        a == b ==> !board_lt(a, b),
        board_order_of(a, b) == Ordering::Equal <==> a == b,
        board_order_of(a, b) == Ordering::Greater <==> board_lt(b, a),
{
    if a.crape != b.crape {
        lemma_rows_order(a.crape, b.crape);
    } else if a.waste != b.waste {
        lemma_rows_order(a.waste, b.waste);
    } else if a.stock != b.stock {
        lemma_rows_order(a.stock, b.stock);
    } else if a.tableau != b.tableau {
        lemma_rows_order(a.tableau, b.tableau);
    } else if a.foundation != b.foundation {
        lemma_rows_order(a.foundation, b.foundation);
    }
}

/// The strict order of canonical forms with rows of the same lengths is
/// transitive.
pub proof fn lemma_board_lt_transitive(a: CanonicalBoard, b: CanonicalBoard, c: CanonicalBoard)
    requires
        same_lengths(a, b),
        same_lengths(b, c),
        board_lt(a, b),
        board_lt(b, c),
    ensures
        board_lt(a, c),
{
    lemma_board_lt_total(a, b);
    lemma_board_lt_total(b, c);
    if a.crape != b.crape || b.crape != c.crape {
        lemma_rows_step(a.crape, b.crape, c.crape);
    } else if a.waste != b.waste || b.waste != c.waste {
        lemma_rows_step(a.waste, b.waste, c.waste);
    } else if a.stock != b.stock || b.stock != c.stock {
        lemma_rows_step(a.stock, b.stock, c.stock);
    } else if a.tableau != b.tableau || b.tableau != c.tableau {
        lemma_rows_step(a.tableau, b.tableau, c.tableau);
    } else {
        lemma_rows_step(a.foundation, b.foundation, c.foundation);
    }
}

/// Of three rows of one length of which the first is the second or comes
/// before it, and the second is the third or comes before it, the first is
/// the third or comes before it; it comes before it if the rows are not all
/// the same.
proof fn lemma_rows_step(a: Seq<PileKey>, b: Seq<PileKey>, c: Seq<PileKey>)
    requires
        a.len() == b.len(),
        b.len() == c.len(),
        a == b || rows_lt(a, b),
        b == c || rows_lt(b, c),
    ensures
        a == c || rows_lt(a, c),
        (a != b || b != c) ==> rows_lt(a, c) && a != c,
{
    if a != b && b != c {
        lemma_rows_lt_transitive(a, b, c);
        lemma_rows_order(a, b);
        lemma_rows_order(b, c);
        assert(a != c);
    } else if a != b {
        lemma_rows_order(a, b);
    } else if b != c {
        lemma_rows_order(b, c);
    }
}

/// The canonical forms of two boards have rows of the same lengths.
pub proof fn lemma_canonical_lengths(a: BoardView, b: BoardView)
    requires
        a.shape(),
        b.shape(),
    ensures
        same_lengths(a.canonical(), b.canonical()),
        a.canonical().tableau.len() == 8,
        a.canonical().foundation.len() == 8,
{
    lemma_pile_order_total();
    row_keys(a.tableau).lemma_sort_by_ensures(pile_order());
    row_keys(b.tableau).lemma_sort_by_ensures(pile_order());
    row_keys(a.foundation).lemma_sort_by_ensures(pile_order());
    row_keys(b.foundation).lemma_sort_by_ensures(pile_order());
    vstd::seq_lib::to_multiset_len(row_keys(a.tableau));
    vstd::seq_lib::to_multiset_len(row_keys(b.tableau));
    vstd::seq_lib::to_multiset_len(row_keys(a.foundation));
    vstd::seq_lib::to_multiset_len(row_keys(b.foundation));
    vstd::seq_lib::to_multiset_len(a.canonical().tableau);
    vstd::seq_lib::to_multiset_len(b.canonical().tableau);
    vstd::seq_lib::to_multiset_len(a.canonical().foundation);
    vstd::seq_lib::to_multiset_len(b.canonical().foundation);
}

} // verus!
