//! Putting a row of piles in order.
//!
//! The tableau piles are interchangeable, and so are the foundation piles:
//! what counts is which piles a row holds, not where each one stands. The
//! sorted row is the same for every arrangement of the same piles.

use vstd::prelude::*;
use vstd::relations::sorted_by;

use super::board::row_view;
use super::keys::lemma_pile_order_total;
use super::keys::lemma_sorted_is_canonical;
use super::keys::pile_le;
use super::keys::pile_order;
use super::keys::sorted_keys;
use super::keys::PileKey;
use super::piles::Pile;
use super::piles::PileView;

verus! {

/// The keys of the piles of a row, in the order of the row.
pub open spec fn row_keys(row: Seq<PileView>) -> Seq<PileKey> {
    row.map_values(|p: PileView| p.key())
}

/// The keys of the piles of `row` taken in the order `order` of their slots.
pub open spec fn picked_keys(row: Seq<PileView>, order: Seq<usize>) -> Seq<PileKey> {
    Seq::new(order.len(), |k: int| row[order[k] as int].key())
}

/// Whether all the piles of a row are of one variant of kind.
pub open spec fn uniform(row: Seq<PileView>) -> bool {
    forall|i: int, j: int|
        0 <= i < row.len() && 0 <= j < row.len() ==> (#[trigger] row[i]).kind.same_variant(
            (#[trigger] row[j]).kind,
        )
}

/// Whether the piles of the rows `a` and `b` are all of one variant of kind.
pub open spec fn uniform_pair(a: Seq<PileView>, b: Seq<PileView>) -> bool {
    &&& uniform(a)
    &&& uniform(b)
    &&& forall|i: int, j: int|
        0 <= i < a.len() && 0 <= j < b.len() ==> (#[trigger] a[i]).kind.same_variant(
            (#[trigger] b[j]).kind,
        )
}

/// Returns the slots of the piles of `piles` in increasing order of the
/// piles; piles that hold the same keep the order of their slots.
pub fn sorted_order(piles: &[Pile; 8]) -> (order: Vec<usize>)
    requires
        uniform(row_view(piles@)),
    ensures
        order@.len() == 8,
        forall|k: int| 0 <= k < 8 ==> order@[k] < 8,
        picked_keys(row_view(piles@), order@) == sorted_keys(row_keys(row_view(piles@))),
{
    let ghost row = row_view(piles@);
    let ghost keys = row_keys(row);
    let mut order: Vec<usize> = Vec::new();
    let mut i: usize = 0;
    proof {
        assert(picked_keys(row, order@) =~= keys.take(0));
        assert forall|x: int, y: int| 0 <= x < 8 && 0 <= y < 8 implies (
        #[trigger] piles@[x]).kind.same_variant((#[trigger] piles@[y]).kind) by {
            assert(row[x].kind.same_variant(row[y].kind));
        }
    }
    while i < 8
        invariant
            i <= 8,
            forall|x: int, y: int|
                0 <= x < 8 && 0 <= y < 8 ==> (#[trigger] piles@[x]).kind.same_variant(
                    (#[trigger] piles@[y]).kind,
                ),
            row == row_view(piles@),
            keys == row_keys(row),
            uniform(row),
            order@.len() == i,
            forall|k: int| 0 <= k < i ==> order@[k] < 8,
            sorted_by(picked_keys(row, order@), pile_order()),
            picked_keys(row, order@).to_multiset() == keys.take(i as int).to_multiset(),
        decreases 8 - i,
    {
        let mut j: usize = 0;
        while j < order.len() && !piles[order[j]].comes_after(&piles[i])
            invariant
                j <= order@.len(),
                i < 8,
                forall|x: int, y: int|
                    0 <= x < 8 && 0 <= y < 8 ==> (#[trigger] piles@[x]).kind.same_variant(
                        (#[trigger] piles@[y]).kind,
                    ),
                order@.len() == i,
                row == row_view(piles@),
                uniform(row),
                forall|k: int| 0 <= k < i ==> order@[k] < 8,
                forall|k: int|
                    0 <= k < j ==> pile_le(row[order@[k] as int].key(), row[i as int].key()),
            decreases order@.len() - j,
        {
            proof {
                lemma_pile_order_total();
                let a = row[order@[j as int] as int].key();
                let b = row[i as int].key();
                assert(pile_order()(a, b) || pile_order()(b, a));
            }
            j += 1;
        }
        let ghost before = order@;
        let ghost picked = picked_keys(row, before);
        let ghost key = row[i as int].key();
        order.insert(j, i);
        proof {
            lemma_pile_order_total();
            let after = picked_keys(row, order@);
            assert(after =~= picked.insert(j as int, key));
            vstd::seq_lib::to_multiset_insert(picked, j as int, key);
            assert(keys.take(i + 1) =~= keys.take(i as int).push(key));
            vstd::seq_lib::to_multiset_build(keys.take(i as int), key);
            assert forall|x: int, y: int| 0 <= x < y < after.len() implies #[trigger] pile_order()(
                after[x],
                after[y],
            ) by {
                if y < j {
                    assert(pile_order()(picked[x], picked[y]));
                } else if y == j {
                    assert(pile_le(row[before[x] as int].key(), key));
                } else if x < j {
                    assert(pile_order()(picked[x], picked[y - 1]));
                } else if x == j {
                    let first = picked[j as int];
                    assert(pile_order()(key, first));
                    if y - 1 > j {
                        assert(pile_order()(first, picked[y - 1]));
                        assert(pile_order()(key, first) && pile_order()(first, picked[y - 1])
                            ==> pile_order()(key, picked[y - 1]));
                    }
                } else {
                    assert(pile_order()(picked[x - 1], picked[y - 1]));
                }
            }
        }
        i += 1;
    }
    proof {
        assert(keys.take(8) =~= keys);
        lemma_sorted_is_canonical(keys, picked_keys(row, order@));
    }
    order
}

} // verus!
