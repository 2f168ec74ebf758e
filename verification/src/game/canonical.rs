//! The canonical form of a board.
//!
//! Two boards are the same position when the piles of each player agree and
//! the tableau rows hold the same piles, in whatever arrangement, and so do
//! the foundation rows. Equality, ordering and the compact encoding of boards
//! all go through the canonical form, in which both rows are sorted.

use std::cmp::Ordering;
use vstd::prelude::*;

use super::board::row_view;
use super::board::Board;
use super::board::BoardView;
use super::keys::lemma_lex_total;
use super::keys::lemma_sorted_keys_idempotent;
use super::keys::lemma_sorted_keys_of_permutation;
use super::keys::sorted_keys;
use super::keys::PileKey;
use super::piles::pile_order_of;
use super::piles::Pile;
use super::sorting::picked_keys;
use super::sorting::row_keys;
use super::sorting::sorted_order;
use super::sorting::uniform;
use super::sorting::uniform_pair;

verus! {

/// A board up to the arrangement of its tableau and foundation rows: the
/// keys of each pile, with those two rows sorted.
pub struct CanonicalBoard {
    pub crape: Seq<PileKey>,
    pub waste: Seq<PileKey>,
    pub stock: Seq<PileKey>,
    pub tableau: Seq<PileKey>,
    pub foundation: Seq<PileKey>,
}

impl BoardView {
    /// The canonical form of the board.
    pub open spec fn canonical(self) -> CanonicalBoard {
        CanonicalBoard {
            crape: row_keys(self.crape),
            waste: row_keys(self.waste),
            stock: row_keys(self.stock),
            tableau: sorted_keys(row_keys(self.tableau)),
            foundation: sorted_keys(row_keys(self.foundation)),
        }
    }

    /// Whether the two boards are the same position.
    pub open spec fn same_position(self, other: BoardView) -> bool {
        self.canonical() == other.canonical()
    }

    /// Whether every pile of the board is small enough for its size to be
    /// written in one byte.
    pub open spec fn fits_bytes(self) -> bool {
        &&& forall|i: int| 0 <= i < 2 ==> (#[trigger] self.stock[i]).cards.len() <= 255
        &&& forall|i: int| 0 <= i < 2 ==> (#[trigger] self.waste[i]).cards.len() <= 255
        &&& forall|i: int| 0 <= i < 2 ==> (#[trigger] self.crape[i]).cards.len() <= 255
        &&& forall|i: int| 0 <= i < 8 ==> (#[trigger] self.foundation[i]).cards.len() <= 255
        &&& forall|i: int| 0 <= i < 8 ==> (#[trigger] self.tableau[i]).cards.len() <= 255
    }
}

/// Whether `k` is the first position at which the rows `a` and `b` differ.
pub open spec fn is_first_difference(a: Seq<PileKey>, b: Seq<PileKey>, k: int) -> bool {
    &&& 0 <= k < a.len()
    &&& k < b.len()
    &&& a[k] != b[k]
    &&& forall|j: int| 0 <= j < k ==> a[j] == b[j]
}

/// The first position at which the rows `a` and `b` differ.
pub open spec fn first_difference(a: Seq<PileKey>, b: Seq<PileKey>) -> int {
    choose|k: int| is_first_difference(a, b, k)
}

/// How two rows of one length compare: as their piles at the first position
/// at which they differ.
pub open spec fn rows_order_of(a: Seq<PileKey>, b: Seq<PileKey>) -> Ordering {
    if a == b {
        Ordering::Equal
    } else {
        pile_order_of(a[first_difference(a, b)], b[first_difference(a, b)])
    }
}

/// How two canonical forms compare: by the crapes, then the wastes, the
/// stocks, the sorted tableau and the sorted foundation; the first row that
/// differs decides.
pub open spec fn board_order_of(a: CanonicalBoard, b: CanonicalBoard) -> Ordering {
    if a.crape != b.crape {
        rows_order_of(a.crape, b.crape)
    } else if a.waste != b.waste {
        rows_order_of(a.waste, b.waste)
    } else if a.stock != b.stock {
        rows_order_of(a.stock, b.stock)
    } else if a.tableau != b.tableau {
        rows_order_of(a.tableau, b.tableau)
    } else {
        rows_order_of(a.foundation, b.foundation)
    }
}

/// The number of a key in the compact encoding: the rank in the low four
/// bits, the suit in the two bits above.
pub open spec fn id_of_key(key: (int, int)) -> u8 {
    ((key.0 as u8) & 0x0F) | (((key.1 as u8) & 0x03) << 4)
}

/// The bytes of a pile: the number of its cards, then the number of each card
/// from the bottom up.
pub open spec fn encode_pile(key: PileKey) -> Seq<u8> {
    seq![key.len() as u8] + key.map_values(|k: (int, int)| id_of_key(k))
}

/// The bytes of a row: those of its piles, one after the other.
pub open spec fn encode_row(row: Seq<PileKey>) -> Seq<u8>
    decreases row.len(),
{
    if row.len() == 0 {
        Seq::empty()
    } else {
        encode_row(row.drop_last()) + encode_pile(row.last())
    }
}

/// The bytes of a canonical form: the stocks, the wastes, the crapes, the
/// sorted tableau and the sorted foundation.
pub open spec fn encode_canonical(c: CanonicalBoard) -> Seq<u8> {
    encode_row(c.stock) + encode_row(c.waste) + encode_row(c.crape) + encode_row(c.tableau)
        + encode_row(c.foundation)
}

/// Two different rows of one length have a first position at which they differ.
pub proof fn lemma_first_difference_exists(a: Seq<PileKey>, b: Seq<PileKey>)
    requires
        a.len() == b.len(),
        a != b,
    ensures
        is_first_difference(a, b, first_difference(a, b)),
    decreases a.len(),
{
    if a.len() == 0 {
        assert(a =~= b);
    } else {
        let a1 = a.drop_last();
        let b1 = b.drop_last();
        if a1 == b1 {
            if a.last() == b.last() {
                assert(a =~= a1.push(a.last()));
                assert(b =~= b1.push(b.last()));
            }
            assert forall|j: int| 0 <= j < a.len() - 1 implies a[j] == b[j] by {
                assert(a[j] == a1[j]);
                assert(b[j] == b1[j]);
            }
            assert(is_first_difference(a, b, a.len() - 1));
        } else {
            lemma_first_difference_exists(a1, b1);
            let k = first_difference(a1, b1);
            assert(a[k] == a1[k]);
            assert(b[k] == b1[k]);
            assert forall|j: int| 0 <= j < k implies a[j] == b[j] by {
                assert(a[j] == a1[j]);
                assert(b[j] == b1[j]);
            }
            assert(is_first_difference(a, b, k));
        }
    }
}

/// There is only one first position at which two rows differ.
pub proof fn lemma_first_difference_unique(a: Seq<PileKey>, b: Seq<PileKey>, k: int)
    requires
        is_first_difference(a, b, k),
    ensures
        first_difference(a, b) == k,
{
    let c = first_difference(a, b);
    assert(is_first_difference(a, b, c));
    if c < k {
        assert(a[c] == b[c]);
    } else if k < c {
        assert(a[k] == b[k]);
    }
}

/// Two rows of one length compare as equal only if they hold the same piles
/// in the same places, and each row compares as equal to itself.
pub proof fn lemma_rows_equal(a: Seq<PileKey>, b: Seq<PileKey>)
    requires
        a.len() == b.len(),
    ensures
        rows_order_of(a, b) == Ordering::Equal <==> a == b,
{
    if a != b {
        lemma_first_difference_exists(a, b);
        let k = first_difference(a, b);
        if a[k].len() == b[k].len() {
            lemma_lex_total(a[k], b[k]);
        }
    }
}

/// Two canonical forms of boards compare as equal exactly when they are the
/// same: the order of boards breaks every tie between different positions.
pub proof fn lemma_board_order_equal(a: BoardView, b: BoardView)
    requires
        a.shape(),
        b.shape(),
    ensures
        board_order_of(a.canonical(), b.canonical()) == Ordering::Equal <==> a.same_position(b),
{
    let ca = a.canonical();
    let cb = b.canonical();
    super::keys::lemma_pile_order_total();
    row_keys(a.tableau).lemma_sort_by_ensures(super::keys::pile_order());
    row_keys(b.tableau).lemma_sort_by_ensures(super::keys::pile_order());
    row_keys(a.foundation).lemma_sort_by_ensures(super::keys::pile_order());
    row_keys(b.foundation).lemma_sort_by_ensures(super::keys::pile_order());
    vstd::seq_lib::to_multiset_len(row_keys(a.tableau));
    vstd::seq_lib::to_multiset_len(row_keys(b.tableau));
    vstd::seq_lib::to_multiset_len(row_keys(a.foundation));
    vstd::seq_lib::to_multiset_len(row_keys(b.foundation));
    vstd::seq_lib::to_multiset_len(ca.tableau);
    vstd::seq_lib::to_multiset_len(cb.tableau);
    vstd::seq_lib::to_multiset_len(ca.foundation);
    vstd::seq_lib::to_multiset_len(cb.foundation);
    lemma_rows_equal(ca.crape, cb.crape);
    lemma_rows_equal(ca.waste, cb.waste);
    lemma_rows_equal(ca.stock, cb.stock);
    lemma_rows_equal(ca.tableau, cb.tableau);
    lemma_rows_equal(ca.foundation, cb.foundation);
}

/// Two boards that differ only by the arrangement of the piles within the
/// tableau row and within the foundation row are the same position, and so
/// have the same compact encoding.
pub proof fn lemma_rearranged_boards_same(a: BoardView, b: BoardView)
    requires
        row_keys(a.crape) == row_keys(b.crape),
        row_keys(a.waste) == row_keys(b.waste),
        row_keys(a.stock) == row_keys(b.stock),
        row_keys(a.tableau).to_multiset() == row_keys(b.tableau).to_multiset(),
        row_keys(a.foundation).to_multiset() == row_keys(b.foundation).to_multiset(),
    ensures
        a.same_position(b),
        encode_canonical(a.canonical()) == encode_canonical(b.canonical()),
{
    lemma_sorted_keys_of_permutation(row_keys(a.tableau), row_keys(b.tableau));
    lemma_sorted_keys_of_permutation(row_keys(a.foundation), row_keys(b.foundation));
}

/// A board whose tableau and foundation rows are the sorted rows of another
/// board is the same position as that board, with the same compact encoding:
/// sorting the rows of a board whose rows are sorted changes nothing.
pub proof fn lemma_sorted_board_same(a: BoardView, b: BoardView)
    requires
        row_keys(a.crape) == row_keys(b.crape),
        row_keys(a.waste) == row_keys(b.waste),
        row_keys(a.stock) == row_keys(b.stock),
        row_keys(b.tableau) == sorted_keys(row_keys(a.tableau)),
        row_keys(b.foundation) == sorted_keys(row_keys(a.foundation)),
    ensures
        a.same_position(b),
        encode_canonical(a.canonical()) == encode_canonical(b.canonical()),
        sorted_keys(row_keys(b.tableau)) == row_keys(b.tableau),
        sorted_keys(row_keys(b.foundation)) == row_keys(b.foundation),
{
    lemma_sorted_keys_idempotent(row_keys(a.tableau));
    lemma_sorted_keys_idempotent(row_keys(a.foundation));
}

/// The piles of two rows that are of one variant of kind, as they are stored.
proof fn lemma_uniform_pair_stored(a: [Pile; 8], b: [Pile; 8])
    requires
        uniform_pair(row_view(a@), row_view(b@)),
    ensures
        forall|x: int, y: int|
            0 <= x < 8 && 0 <= y < 8 ==> (#[trigger] a@[x]).kind.same_variant(
                (#[trigger] b@[y]).kind,
            ),
{
    assert forall|x: int, y: int| 0 <= x < 8 && 0 <= y < 8 implies (
    #[trigger] a@[x]).kind.same_variant((#[trigger] b@[y]).kind) by {
        assert(row_view(a@)[x].kind.same_variant(row_view(b@)[y].kind));
    }
}

/// Index of the first pile at which the two rows, each taken in its own
/// order, differ; 8 if they hold the same piles in the same places.
fn first_row_difference(a: &[Pile; 8], oa: &Vec<usize>, b: &[Pile; 8], ob: &Vec<usize>) -> (r:
    usize)
    requires
        uniform_pair(row_view(a@), row_view(b@)),
        oa@.len() == 8,
        ob@.len() == 8,
        forall|k: int| 0 <= k < 8 ==> oa@[k] < 8,
        forall|k: int| 0 <= k < 8 ==> ob@[k] < 8,
    ensures
        r <= 8,
        r == 8 <==> picked_keys(row_view(a@), oa@) == picked_keys(row_view(b@), ob@),
        r < 8 ==> is_first_difference(
            picked_keys(row_view(a@), oa@),
            picked_keys(row_view(b@), ob@),
            r as int,
        ),
        r < 8 ==> first_difference(picked_keys(row_view(a@), oa@), picked_keys(row_view(b@), ob@))
            == r,
{
    let ghost pa = picked_keys(row_view(a@), oa@);
    let ghost pb = picked_keys(row_view(b@), ob@);
    let mut k: usize = 0;
    while k < 8
        invariant
            k <= 8,
            uniform_pair(row_view(a@), row_view(b@)),
            oa@.len() == 8,
            ob@.len() == 8,
            forall|j: int| 0 <= j < 8 ==> oa@[j] < 8,
            forall|j: int| 0 <= j < 8 ==> ob@[j] < 8,
            pa == picked_keys(row_view(a@), oa@),
            pb == picked_keys(row_view(b@), ob@),
            forall|j: int| 0 <= j < k ==> pa[j] == pb[j],
        decreases 8 - k,
    {
        let x: usize = oa[k];
        let y: usize = ob[k];
        proof {
            assert(row_view(a@)[x as int].kind.same_variant(row_view(b@)[y as int].kind));
        }
        if !a[x].eq(&b[y]) {
            proof {
                assert(is_first_difference(pa, pb, k as int));
                lemma_first_difference_unique(pa, pb, k as int);
            }
            return k;
        }
        k += 1;
    }
    assert(pa =~= pb);
    k
}

/// Index of the first pile at which the two rows differ; 2 if they hold the
/// same piles in the same places.
fn first_pair_difference(a: &[Pile; 2], b: &[Pile; 2]) -> (r: usize)
    requires
        forall|i: int| 0 <= i < 2 ==> (#[trigger] a@[i]).kind.same_variant(b@[i].kind),
    ensures
        r <= 2,
        r == 2 <==> row_keys(row_view(a@)) == row_keys(row_view(b@)),
        r < 2 ==> is_first_difference(
            row_keys(row_view(a@)),
            row_keys(row_view(b@)),
            r as int,
        ),
        r < 2 ==> first_difference(row_keys(row_view(a@)), row_keys(row_view(b@))) == r,
{
    let ghost pa = row_keys(row_view(a@));
    let ghost pb = row_keys(row_view(b@));
    assert(a@[0].kind.same_variant(b@[0].kind));
    assert(a@[1].kind.same_variant(b@[1].kind));
    if !a[0].eq(&b[0]) {
        proof {
            assert(is_first_difference(pa, pb, 0));
            lemma_first_difference_unique(pa, pb, 0);
        }
        0
    } else if !a[1].eq(&b[1]) {
        proof {
            assert(is_first_difference(pa, pb, 1));
            lemma_first_difference_unique(pa, pb, 1);
        }
        1
    } else {
        assert(pa =~= pb);
        2
    }
}

/// Checks whether the two rows hold the same piles, in whatever arrangement.
pub fn sorted_eq(piles: &[Pile; 8], piles_other: &[Pile; 8]) -> (r: bool)
    requires
        uniform_pair(row_view(piles@), row_view(piles_other@)),
    ensures
        r == (sorted_keys(row_keys(row_view(piles@))) == sorted_keys(
            row_keys(row_view(piles_other@)),
        )),
{
    let order = sorted_order(piles);
    let order_other = sorted_order(piles_other);
    let k: usize = first_row_difference(piles, &order, piles_other, &order_other);
    k == 8
}

/// Compares the two rows as their sorted rows compare.
pub fn sorted_cmp(piles: &[Pile; 8], piles_other: &[Pile; 8]) -> (r: Ordering)
    requires
        uniform_pair(row_view(piles@), row_view(piles_other@)),
    ensures
        r == rows_order_of(
            sorted_keys(row_keys(row_view(piles@))),
            sorted_keys(row_keys(row_view(piles_other@))),
        ),
{
    let order = sorted_order(piles);
    let order_other = sorted_order(piles_other);
    let k: usize = first_row_difference(piles, &order, piles_other, &order_other);
    proof {
        lemma_uniform_pair_stored(*piles, *piles_other);
    }
    if k == 8 {
        Ordering::Equal
    } else {
        piles[order[k]].cmp(&piles_other[order_other[k]])
    }
}

/// Compares the two rows of two piles, pile by pile.
fn pair_cmp(piles: &[Pile; 2], piles_other: &[Pile; 2]) -> (r: Ordering)
    requires
        forall|i: int|
            0 <= i < 2 ==> (#[trigger] piles@[i]).kind.same_variant(piles_other@[i].kind),
    ensures
        r == rows_order_of(row_keys(row_view(piles@)), row_keys(row_view(piles_other@))),
{
    let k: usize = first_pair_difference(piles, piles_other);
    if k == 2 {
        Ordering::Equal
    } else {
        piles[k].cmp(&piles_other[k])
    }
}

/// The piles of each row of two boards are of one kind, slot by slot.
proof fn lemma_shapes_agree(a: Board, b: Board)
    requires
        a@.shape(),
        b@.shape(),
    ensures
        forall|i: int| 0 <= i < 2 ==> (#[trigger] a.crape@[i]).kind.same_variant(b.crape@[i].kind),
        forall|i: int| 0 <= i < 2 ==> (#[trigger] a.waste@[i]).kind.same_variant(b.waste@[i].kind),
        forall|i: int| 0 <= i < 2 ==> (#[trigger] a.stock@[i]).kind.same_variant(b.stock@[i].kind),
        uniform_pair(row_view(a.tableau@), row_view(b.tableau@)),
        uniform_pair(row_view(a.foundation@), row_view(b.foundation@)),
{
    assert forall|i: int| 0 <= i < 2 implies (#[trigger] a.crape@[i]).kind.same_variant(
        b.crape@[i].kind,
    ) by {
        assert(a@.crape[i].kind == a.crape@[i].kind);
        assert(b@.crape[i].kind == b.crape@[i].kind);
    }
    assert forall|i: int| 0 <= i < 2 implies (#[trigger] a.waste@[i]).kind.same_variant(
        b.waste@[i].kind,
    ) by {
        assert(a@.waste[i].kind == a.waste@[i].kind);
        assert(b@.waste[i].kind == b.waste@[i].kind);
    }
    assert forall|i: int| 0 <= i < 2 implies (#[trigger] a.stock@[i]).kind.same_variant(
        b.stock@[i].kind,
    ) by {
        assert(a@.stock[i].kind == a.stock@[i].kind);
        assert(b@.stock[i].kind == b.stock@[i].kind);
    }
    assert(row_view(a.tableau@) == a@.tableau);
    assert(row_view(b.tableau@) == b@.tableau);
    assert(row_view(a.foundation@) == a@.foundation);
    assert(row_view(b.foundation@) == b@.foundation);
}

impl Pile {
    /// Writes the bytes of the pile at the end of `data`: the number of its
    /// cards, then the number of each card from the bottom up.
    pub fn encode(&self, data: &mut Vec<u8>)
        requires
            self@.cards.len() <= 255,
        ensures
            final(data)@ == old(data)@ + encode_pile(self@.key()),
    {
        let n: usize = self.cards.len();
        data.push(n as u8);
        let ghost start = data@;
        let ghost key = self@.key();
        let mut i: usize = 0;
        while i < n
            invariant
                i <= n,
                n == self.cards@.len(),
                key == self@.key(),
                data@ == start + key.take(i as int).map_values(|k: (int, int)| id_of_key(k)),
            decreases n - i,
        {
            let id: u8 = self.cards[i].id();
            data.push(id);
            proof {
                let ids = |k: (int, int)| id_of_key(k);
                assert(id == id_of_key(key[i as int]));
                assert(key.take(i + 1).map_values(ids) =~= key.take(i as int).map_values(
                    ids,
                ).push(id));
            }
            i += 1;
        }
        proof {
            assert(key.take(n as int) =~= key);
            assert(data@ =~= old(data)@ + encode_pile(key));
        }
    }
}

/// The bytes of a row with one more pile are those of the row, then those
/// of the pile.
proof fn lemma_encode_row_step(row: Seq<PileKey>, k: int)
    requires
        0 <= k < row.len(),
    ensures
        encode_row(row.take(k + 1)) == encode_row(row.take(k)) + encode_pile(row[k]),
{
    assert(row.take(k + 1).drop_last() =~= row.take(k));
}

/// Writes the bytes of the two piles of a row at the end of `data`.
fn encode_pair(row: &[Pile; 2], data: &mut Vec<u8>)
    requires
        forall|i: int| 0 <= i < 2 ==> (#[trigger] row@[i])@.cards.len() <= 255,
    ensures
        final(data)@ == old(data)@ + encode_row(row_keys(row_view(row@))),
{
    let ghost keys = row_keys(row_view(row@));
    proof {
        lemma_encode_row_step(keys, 0);
        lemma_encode_row_step(keys, 1);
        assert(keys.take(2) =~= keys);
        assert(encode_row(keys.take(0)) =~= Seq::<u8>::empty());
    }
    assert(row@[0]@.cards.len() <= 255);
    assert(row@[1]@.cards.len() <= 255);
    row[0].encode(data);
    row[1].encode(data);
    assert(data@ =~= old(data)@ + encode_row(keys));
}

/// Writes the bytes of the eight piles of a row, taken in increasing order,
/// at the end of `data`.
fn encode_sorted(row: &[Pile; 8], data: &mut Vec<u8>)
    requires
        uniform(row_view(row@)),
        forall|i: int| 0 <= i < 8 ==> (#[trigger] row@[i])@.cards.len() <= 255,
    ensures
        final(data)@ == old(data)@ + encode_row(sorted_keys(row_keys(row_view(row@)))),
{
    let order = sorted_order(row);
    let ghost keys = sorted_keys(row_keys(row_view(row@)));
    let mut k: usize = 0;
    proof {
        assert(encode_row(keys.take(0)) =~= Seq::<u8>::empty());
        assert(data@ =~= old(data)@ + encode_row(keys.take(0)));
    }
    while k < 8
        invariant
            k <= 8,
            order@.len() == 8,
            forall|j: int| 0 <= j < 8 ==> order@[j] < 8,
            forall|i: int| 0 <= i < 8 ==> (#[trigger] row@[i])@.cards.len() <= 255,
            keys == picked_keys(row_view(row@), order@),
            data@ == old(data)@ + encode_row(keys.take(k as int)),
        decreases 8 - k,
    {
        let slot: usize = order[k];
        assert(row@[slot as int]@.cards.len() <= 255);
        row[slot].encode(data);
        proof {
            lemma_encode_row_step(keys, k as int);
            assert(keys[k as int] == row@[slot as int]@.key());
            assert(data@ =~= old(data)@ + encode_row(keys.take(k + 1)));
        }
        k += 1;
    }
    proof {
        assert(keys.take(8) =~= keys);
    }
}

impl Board {
    /// Checks whether the two boards are the same position: the piles of each
    /// player hold the same cards, and the tableau rows hold the same piles,
    /// in whatever arrangement, and so do the foundation rows.
    pub fn eq(&self, other: &Board) -> (r: bool)
        requires
            self@.shape(),
            other@.shape(),
        ensures
            r == self@.same_position(other@),
    {
        proof {
            lemma_shapes_agree(*self, *other);
        }
        first_pair_difference(&self.crape, &other.crape) == 2 && first_pair_difference(
            &self.waste,
            &other.waste,
        ) == 2 && first_pair_difference(&self.stock, &other.stock) == 2 && sorted_eq(
            &self.tableau,
            &other.tableau,
        ) && sorted_eq(&self.foundation, &other.foundation)
    }

    /// Compares the two boards by their canonical forms: by the crapes, then
    /// the wastes, the stocks, the sorted tableau and the sorted foundation.
    pub fn cmp(&self, other: &Board) -> (r: Ordering)
        requires
            self@.shape(),
            other@.shape(),
        ensures
            r == board_order_of(self@.canonical(), other@.canonical()),
    {
        proof {
            lemma_shapes_agree(*self, *other);
        }
        if first_pair_difference(&self.crape, &other.crape) != 2 {
            return pair_cmp(&self.crape, &other.crape);
        }
        if first_pair_difference(&self.waste, &other.waste) != 2 {
            return pair_cmp(&self.waste, &other.waste);
        }
        if first_pair_difference(&self.stock, &other.stock) != 2 {
            return pair_cmp(&self.stock, &other.stock);
        }
        if !sorted_eq(&self.tableau, &other.tableau) {
            return sorted_cmp(&self.tableau, &other.tableau);
        }
        sorted_cmp(&self.foundation, &other.foundation)
    }

    /// Compares the two boards.
    pub fn partial_cmp(&self, other: &Board) -> (r: Option<Ordering>)
        requires
            self@.shape(),
            other@.shape(),
        ensures
            r == Some(board_order_of(self@.canonical(), other@.canonical())),
    {
        Some(self.cmp(other))
    }

    /// Returns the compact encoding of the position: the bytes of the stocks,
    /// the wastes, the crapes, the sorted tableau and the sorted foundation.
    /// Two boards that are the same position have the same encoding.
    pub fn encode(&self) -> (r: Vec<u8>)
        requires
            self@.shape(),
            self@.fits_bytes(),
        ensures
            r@ == encode_canonical(self@.canonical()),
    {
        let mut data: Vec<u8> = Vec::new();
        proof {
            lemma_shapes_agree(*self, *self);
            lemma_sizes_fit(*self);
        }
        encode_pair(&self.stock, &mut data);
        encode_pair(&self.waste, &mut data);
        encode_pair(&self.crape, &mut data);
        encode_sorted(&self.tableau, &mut data);
        encode_sorted(&self.foundation, &mut data);
        proof {
            assert(data@ =~= encode_canonical(self@.canonical()));
        }
        data
    }
}

/// The piles of a board whose sizes fit in a byte, as they are stored.
proof fn lemma_sizes_fit(a: Board)
    requires
        a@.fits_bytes(),
        a@.shape(),
    ensures
        forall|i: int| 0 <= i < 2 ==> (#[trigger] a.stock@[i])@.cards.len() <= 255,
        forall|i: int| 0 <= i < 2 ==> (#[trigger] a.waste@[i])@.cards.len() <= 255,
        forall|i: int| 0 <= i < 2 ==> (#[trigger] a.crape@[i])@.cards.len() <= 255,
        forall|i: int| 0 <= i < 8 ==> (#[trigger] a.tableau@[i])@.cards.len() <= 255,
        forall|i: int| 0 <= i < 8 ==> (#[trigger] a.foundation@[i])@.cards.len() <= 255,
{
    assert forall|i: int| 0 <= i < 2 implies (#[trigger] a.stock@[i])@.cards.len() <= 255 by {
        assert(a@.stock[i] == a.stock@[i]@);
    }
    assert forall|i: int| 0 <= i < 2 implies (#[trigger] a.waste@[i])@.cards.len() <= 255 by {
        assert(a@.waste[i] == a.waste@[i]@);
    }
    assert forall|i: int| 0 <= i < 2 implies (#[trigger] a.crape@[i])@.cards.len() <= 255 by {
        assert(a@.crape[i] == a.crape@[i]@);
    }
    assert forall|i: int| 0 <= i < 8 implies (#[trigger] a.tableau@[i])@.cards.len() <= 255 by {
        assert(a@.tableau[i] == a.tableau@[i]@);
    }
    assert forall|i: int| 0 <= i < 8 implies (#[trigger] a.foundation@[i])@.cards.len() <= 255 by {
        assert(a@.foundation[i] == a.foundation@[i]@);
    }
}

} // verus!
