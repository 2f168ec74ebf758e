//! What two boards that are the same position have in common.
//!
//! The same position holds the same piles in its tableau row, in whatever
//! arrangement, and so in its foundation row: as many cards on the
//! foundation, and as many empty tableau piles.

use vstd::prelude::*;

use super::board::nb_cards_center;
use super::board::nb_empty;
use super::board::BoardView;
use super::keys::lemma_pile_order_total;
use super::keys::pile_order;
use super::keys::sorted_keys;
use super::keys::PileKey;
use super::piles::PileView;
use super::sorting::row_keys;

verus! {

/// The sum of what `f` gives for each of the first `n` entries of `row`.
pub open spec fn total<A>(row: Seq<A>, f: spec_fn(A) -> int, n: int) -> int
    decreases n,
{
    if n <= 0 {
        0
    } else {
        total(row, f, n - 1) + f(row[n - 1])
    }
}

/// The sum over a row without one of its entries is the sum over the row
/// less what the entry gives.
pub proof fn lemma_total_remove<A>(row: Seq<A>, f: spec_fn(A) -> int, i: int)
    requires
        0 <= i < row.len(),
    ensures
        total(row.remove(i), f, row.len() - 1) == total(row, f, row.len() as int) - f(row[i]),
    decreases row.len(),
{
    let n = row.len() as int;
    let shorter = row.remove(i);
    if i == n - 1 {
        lemma_total_same(shorter, row, f, n - 1);
    } else {
        let front = row.drop_last();
        lemma_total_remove(front, f, i);
        assert(shorter.drop_last() =~= front.remove(i));
        lemma_total_same(shorter, shorter.drop_last(), f, n - 2);
        lemma_total_same(row, front, f, n - 1);
        assert(shorter[n - 2] == row[n - 1]);
    }
}

/// The sum over the first entries of a row is told by those entries.
pub proof fn lemma_total_same<A>(a: Seq<A>, b: Seq<A>, f: spec_fn(A) -> int, n: int)
    requires
        n <= a.len(),
        n <= b.len(),
        forall|k: int| 0 <= k < n ==> a[k] == b[k],
    ensures
        total(a, f, n) == total(b, f, n),
    decreases n,
{
    if n > 0 {
        lemma_total_same(a, b, f, n - 1);
    }
}

/// Two rows that hold the same things, in whatever arrangement, give the
/// same sum.
pub proof fn lemma_total_of_permutation<A>(a: Seq<A>, b: Seq<A>, f: spec_fn(A) -> int)
    requires
        a.to_multiset() == b.to_multiset(),
    ensures
        a.len() == b.len(),
        total(a, f, a.len() as int) == total(b, f, b.len() as int),
    decreases a.len(),
{
    vstd::seq_lib::to_multiset_len(a);
    vstd::seq_lib::to_multiset_len(b);
    if a.len() > 0 {
        let x = a.last();
        vstd::seq_lib::to_multiset_contains(a, x);
        vstd::seq_lib::to_multiset_contains(b, x);
        assert(a.contains(x));
        let i = choose|i: int| 0 <= i < b.len() && b[i] == x;
        let shorter_a = a.drop_last();
        let shorter_b = b.remove(i);
        assert(shorter_a =~= a.remove(a.len() - 1));
        vstd::seq_lib::to_multiset_remove(a, a.len() - 1);
        vstd::seq_lib::to_multiset_remove(b, i);
        lemma_total_of_permutation(shorter_a, shorter_b, f);
        lemma_total_remove(b, f, i);
        lemma_total_same(a, shorter_a, f, a.len() - 1);
    }
}

/// The sum over a row of eight entries, entry by entry.
pub proof fn lemma_total_of_eight<A>(row: Seq<A>, f: spec_fn(A) -> int)
    requires
        row.len() == 8,
    ensures
        total(row, f, 8) == f(row[0]) + f(row[1]) + f(row[2]) + f(row[3]) + f(row[4]) + f(row[5])
            + f(row[6]) + f(row[7]),
{
    reveal_with_fuel(total, 9);
}

/// Two rows of eight piles with the same sorted row hold as many cards, and
/// as many empty piles.
pub proof fn lemma_rows_alike(a: Seq<PileView>, b: Seq<PileView>)
    requires
        a.len() == 8,
        b.len() == 8,
        sorted_keys(row_keys(a)) == sorted_keys(row_keys(b)),
    ensures
        row_keys(a).to_multiset() == row_keys(b).to_multiset(),
        nb_cards_center(a) == nb_cards_center(b),
        nb_empty(a) == nb_empty(b),
{
    let ka = row_keys(a);
    let kb = row_keys(b);
    lemma_pile_order_total();
    ka.lemma_sort_by_ensures(pile_order());
    kb.lemma_sort_by_ensures(pile_order());
    let size = |key: PileKey| key.len() as int;
    let empty = |key: PileKey|
        if key.len() == 0 {
            1int
        } else {
            0int
        };
    lemma_total_of_permutation(ka, kb, size);
    lemma_total_of_permutation(ka, kb, empty);
    lemma_total_of_eight(ka, size);
    lemma_total_of_eight(kb, size);
    lemma_total_of_eight(ka, empty);
    lemma_total_of_eight(kb, empty);
}

/// Two boards that are the same position hold the same piles in their
/// tableau rows, in whatever arrangement, and so in their foundation rows.
pub proof fn lemma_position_rows(a: BoardView, b: BoardView)
    requires
        a.shape(),
        b.shape(),
        a.same_position(b),
    ensures
        row_keys(a.tableau).to_multiset() == row_keys(b.tableau).to_multiset(),
        row_keys(a.foundation).to_multiset() == row_keys(b.foundation).to_multiset(),
        row_keys(a.crape) == row_keys(b.crape),
        row_keys(a.waste) == row_keys(b.waste),
        row_keys(a.stock) == row_keys(b.stock),
{
    lemma_rows_alike(a.tableau, b.tableau);
    lemma_rows_alike(a.foundation, b.foundation);
}

} // verus!
