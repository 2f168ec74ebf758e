//! The compact encoding tells positions apart.
//!
//! Two boards that meet their invariant have the same encoding exactly when
//! they are the same position: the bytes can be read back pile by pile, each
//! pile by its size and the numbers of its cards.

use vstd::prelude::*;

use super::board::BoardView;
use super::canonical::encode_canonical;
use super::canonical::encode_pile;
use super::canonical::encode_row;
use super::canonical::id_of_key;
use super::canonical::CanonicalBoard;
use super::keys::lemma_pile_order_total;
use super::keys::pile_order;
use super::keys::sorted_keys;
use super::keys::PileKey;
use super::piles::PileView;
use super::sorting::row_keys;

verus! {

/// Whether the key is that of a card with a valid rank.
pub open spec fn valid_key(key: (int, int)) -> bool {
    1 <= key.0 <= 13 && 0 <= key.1 <= 3
}

/// Whether the pile can be read back from its bytes: its size fits in a
/// byte and its cards have valid ranks.
pub open spec fn readable_pile(key: PileKey) -> bool {
    &&& key.len() <= 255
    &&& forall|i: int| 0 <= i < key.len() ==> valid_key(#[trigger] key[i])
}

/// Whether each pile of the row can be read back from its bytes.
pub open spec fn readable_row(row: Seq<PileKey>) -> bool {
    forall|i: int| 0 <= i < row.len() ==> readable_pile(#[trigger] row[i])
}

/// Whether the canonical form can be read back from its bytes: it has the
/// rows of a board, of piles that can be read back.
pub open spec fn readable(c: CanonicalBoard) -> bool {
    &&& c.stock.len() == 2
    &&& c.waste.len() == 2
    &&& c.crape.len() == 2
    &&& c.tableau.len() == 8
    &&& c.foundation.len() == 8
    &&& readable_row(c.stock)
    &&& readable_row(c.waste)
    &&& readable_row(c.crape)
    &&& readable_row(c.tableau)
    &&& readable_row(c.foundation)
}

/// Two valid keys with the same number are the same key.
pub proof fn lemma_id_of_key_injective(a: (int, int), b: (int, int))
    requires
        valid_key(a),
        valid_key(b),
        id_of_key(a) == id_of_key(b),
    ensures
        a == b,
{
    let ra: u8 = a.0 as u8;
    let rb: u8 = b.0 as u8;
    let sa: u8 = a.1 as u8;
    let sb: u8 = b.1 as u8;
    assert(ra <= 13 && rb <= 13 && sa <= 3 && sb <= 3 && ((ra & 0x0F) | ((sa & 0x03) << 4)) == (
    (rb & 0x0F) | ((sb & 0x03) << 4)) ==> ra == rb && sa == sb) by (bit_vector);
}

/// The bytes of a pile followed by other bytes can be read back in one way
/// only: if they are the bytes of another pile followed by other bytes, the
/// piles are the same and so are the bytes that follow.
pub proof fn lemma_encode_pile_unique(a: PileKey, b: PileKey, after_a: Seq<u8>, after_b: Seq<u8>)
    requires
        readable_pile(a),
        readable_pile(b),
        encode_pile(a) + after_a == encode_pile(b) + after_b,
    ensures
        a == b,
        after_a == after_b,
{
    let left = encode_pile(a) + after_a;
    let right = encode_pile(b) + after_b;
    assert(left[0] == a.len() as u8);
    assert(right[0] == b.len() as u8);
    assert(a.len() == b.len());
    assert forall|i: int| 0 <= i < a.len() implies a[i] == b[i] by {
        assert(left[1 + i] == id_of_key(a[i]));
        assert(right[1 + i] == id_of_key(b[i]));
        lemma_id_of_key_injective(a[i], b[i]);
    }
    assert(a =~= b);
    assert(after_a =~= left.skip(1 + a.len() as int));
    assert(after_b =~= right.skip(1 + b.len() as int));
}

/// The bytes of a row are those of its first pile, then those of the rest
/// of the row.
pub proof fn lemma_encode_row_first(row: Seq<PileKey>)
    requires
        row.len() > 0,
    ensures
        encode_row(row) == encode_pile(row[0]) + encode_row(row.drop_first()),
    decreases row.len(),
{
    if row.len() == 1 {
        assert(encode_row(row.drop_last()) =~= Seq::<u8>::empty());
        assert(encode_row(row.drop_first()) =~= Seq::<u8>::empty());
        assert(encode_row(row) =~= encode_pile(row[0]) + encode_row(row.drop_first()));
    } else {
        let shorter = row.drop_last();
        lemma_encode_row_first(shorter);
        assert(shorter.drop_first() =~= row.drop_first().drop_last());
        assert(row.drop_first().last() == row.last());
        assert(encode_row(row) =~= encode_pile(row[0]) + encode_row(row.drop_first()));
    }
}

/// The bytes of a row followed by other bytes can be read back in one way
/// only: if they are the bytes of another row of as many piles followed by
/// other bytes, the rows are the same and so are the bytes that follow.
pub proof fn lemma_encode_row_unique(
    a: Seq<PileKey>,
    b: Seq<PileKey>,
    after_a: Seq<u8>,
    after_b: Seq<u8>,
)
    requires
        a.len() == b.len(),
        readable_row(a),
        readable_row(b),
        encode_row(a) + after_a == encode_row(b) + after_b,
    ensures
        a == b,
        after_a == after_b,
    decreases a.len(),
{
    if a.len() == 0 {
        assert(a =~= b);
        assert(encode_row(a) + after_a =~= after_a);
        assert(encode_row(b) + after_b =~= after_b);
    } else {
        lemma_encode_row_first(a);
        lemma_encode_row_first(b);
        let rest_a = a.drop_first();
        let rest_b = b.drop_first();
        assert(readable_pile(a[0]));
        assert(readable_pile(b[0]));
        assert(encode_pile(a[0]) + (encode_row(rest_a) + after_a) =~= encode_row(a) + after_a);
        assert(encode_pile(b[0]) + (encode_row(rest_b) + after_b) =~= encode_row(b) + after_b);
        lemma_encode_pile_unique(
            a[0],
            b[0],
            encode_row(rest_a) + after_a,
            encode_row(rest_b) + after_b,
        );
        assert forall|i: int| 0 <= i < rest_a.len() implies readable_pile(#[trigger] rest_a[i]) by {
            assert(rest_a[i] == a[i + 1]);
        }
        assert forall|i: int| 0 <= i < rest_b.len() implies readable_pile(#[trigger] rest_b[i]) by {
            assert(rest_b[i] == b[i + 1]);
        }
        lemma_encode_row_unique(rest_a, rest_b, after_a, after_b);
        assert(a =~= seq![a[0]] + rest_a);
        assert(b =~= seq![b[0]] + rest_b);
    }
}

/// Two canonical forms that can be read back and have the same bytes are
/// the same.
pub proof fn lemma_encode_canonical_injective(a: CanonicalBoard, b: CanonicalBoard)
    requires
        readable(a),
        readable(b),
        encode_canonical(a) == encode_canonical(b),
    ensures
        a == b,
{
    let none = Seq::<u8>::empty();
    let a4 = encode_row(a.foundation);
    let b4 = encode_row(b.foundation);
    let a3 = encode_row(a.tableau) + a4;
    let b3 = encode_row(b.tableau) + b4;
    let a2 = encode_row(a.crape) + a3;
    let b2 = encode_row(b.crape) + b3;
    let a1 = encode_row(a.waste) + a2;
    let b1 = encode_row(b.waste) + b2;
    assert(encode_canonical(a) =~= encode_row(a.stock) + a1);
    assert(encode_canonical(b) =~= encode_row(b.stock) + b1);
    lemma_encode_row_unique(a.stock, b.stock, a1, b1);
    lemma_encode_row_unique(a.waste, b.waste, a2, b2);
    lemma_encode_row_unique(a.crape, b.crape, a3, b3);
    lemma_encode_row_unique(a.tableau, b.tableau, a4, b4);
    assert(a4 =~= a4 + none);
    assert(b4 =~= b4 + none);
    lemma_encode_row_unique(a.foundation, b.foundation, none, none);
}

/// The piles of a row of a board that meets its invariant can be read back
/// from their bytes, and so can the piles of the sorted row.
pub proof fn lemma_row_readable(row: Seq<PileView>)
    requires
        forall|i: int| 0 <= i < row.len() ==> (#[trigger] row[i]).wf(),
        forall|i: int| 0 <= i < row.len() ==> (#[trigger] row[i]).cards.len() <= 255,
    ensures
        readable_row(row_keys(row)),
        readable_row(sorted_keys(row_keys(row))),
        sorted_keys(row_keys(row)).len() == row.len(),
{
    let keys = row_keys(row);
    let sorted = sorted_keys(keys);
    assert forall|i: int| 0 <= i < keys.len() implies readable_pile(#[trigger] keys[i]) by {
        let pile = row[i];
        assert(pile.wf());
        assert forall|j: int| 0 <= j < keys[i].len() implies valid_key(#[trigger] keys[i][j]) by {
            assert(pile.cards[j].wf());
        }
    }
    lemma_pile_order_total();
    keys.lemma_sort_by_ensures(pile_order());
    vstd::seq_lib::to_multiset_len(keys);
    vstd::seq_lib::to_multiset_len(sorted);
    assert forall|i: int| 0 <= i < sorted.len() implies readable_pile(#[trigger] sorted[i]) by {
        vstd::seq_lib::to_multiset_contains(sorted, sorted[i]);
        vstd::seq_lib::to_multiset_contains(keys, sorted[i]);
        assert(sorted.contains(sorted[i]));
        let k = choose|k: int| 0 <= k < keys.len() && keys[k] == sorted[i];
        assert(readable_pile(keys[k]));
    }
}

/// Two boards that meet their invariant have the same compact encoding
/// exactly when they are the same position.
pub proof fn lemma_encoding_tells_positions_apart(a: BoardView, b: BoardView)
    requires
        a.wf(),
        b.wf(),
    ensures
        encode_canonical(a.canonical()) == encode_canonical(b.canonical()) <==> a.same_position(b),
        a.fits_bytes(),
{
    lemma_board_readable(a);
    lemma_board_readable(b);
    if encode_canonical(a.canonical()) == encode_canonical(b.canonical()) {
        lemma_encode_canonical_injective(a.canonical(), b.canonical());
    }
}

/// The canonical form of a board that meets its invariant can be read back
/// from its bytes.
pub proof fn lemma_board_readable(board: BoardView)
    requires
        board.wf(),
    ensures
        readable(board.canonical()),
        board.fits_bytes(),
{
    assert(board.fits_bytes());
    lemma_row_readable(board.stock);
    lemma_row_readable(board.waste);
    lemma_row_readable(board.crape);
    lemma_row_readable(board.tableau);
    lemma_row_readable(board.foundation);
}

} // verus!
