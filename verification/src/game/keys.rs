//! The order in which piles are compared.
//!
//! A pile is compared by what it holds, told by the key of each card from the
//! bottom to the top: first by the number of cards, then card by card. This
//! order is total on the sequences of keys, which is what lets a sorted row of
//! piles stand for every arrangement of the same piles.

use vstd::prelude::*;
use vstd::relations::sorted_by;
use vstd::relations::total_ordering;

use super::cards::key_lt;
use super::cards::Card;

verus! {

/// The keys of a pile: the key of each of its cards, from the bottom up.
pub type PileKey = Seq<(int, int)>;

/// The keys of the cards `cards`.
pub open spec fn keys_of(cards: Seq<Card>) -> PileKey {
    cards.map_values(|c: Card| c.key())
}

/// Whether `a` comes strictly before `b` card by card, from the bottom up:
/// the first position at which they differ decides.
pub open spec fn lex_lt(a: PileKey, b: PileKey) -> bool
    decreases a.len(),
{
    if a.len() == 0 || b.len() == 0 {
        false
    } else if a[0] == b[0] {
        lex_lt(a.drop_first(), b.drop_first())
    } else {
        key_lt(a[0], b[0])
    }
}

/// Whether a pile with keys `a` comes strictly before one with keys `b`:
/// a smaller pile comes first, and piles of one size compare card by card.
pub open spec fn pile_lt(a: PileKey, b: PileKey) -> bool {
    a.len() < b.len() || (a.len() == b.len() && lex_lt(a, b))
}

/// Whether a pile with keys `a` comes before one with keys `b`, or holds the same.
pub open spec fn pile_le(a: PileKey, b: PileKey) -> bool {
    a == b || pile_lt(a, b)
}

/// The order `pile_le` as a relation that can be handed to sorting.
pub open spec fn pile_order() -> spec_fn(PileKey, PileKey) -> bool {
    |a: PileKey, b: PileKey| pile_le(a, b)
}

/// The rows of keys `keys` put in increasing order.
pub open spec fn sorted_keys(keys: Seq<PileKey>) -> Seq<PileKey> {
    keys.sort_by(pile_order())
}

/// No sequence of keys comes strictly before itself.
pub proof fn lemma_lex_irreflexive(a: PileKey)
    ensures
        !lex_lt(a, a),
    decreases a.len(),
{
    if a.len() > 0 {
        lemma_lex_irreflexive(a.drop_first());
    }
}

/// Of two sequences of keys of one length, at most one comes strictly before
/// the other.
pub proof fn lemma_lex_asymmetric(a: PileKey, b: PileKey)
    requires
        a.len() == b.len(),
        lex_lt(a, b),
    ensures
        !lex_lt(b, a),
    decreases a.len(),
{
    if a.len() > 0 && a[0] == b[0] {
        lemma_lex_asymmetric(a.drop_first(), b.drop_first());
    }
}

/// Two different sequences of keys of one length are ordered one way or the other.
pub proof fn lemma_lex_total(a: PileKey, b: PileKey)
    requires
        a.len() == b.len(),
        a != b,
    ensures
        lex_lt(a, b) || lex_lt(b, a),
    decreases a.len(),
{
    if a.len() == 0 {
        assert(a =~= b);
    } else if a[0] == b[0] {
        if a.drop_first() == b.drop_first() {
            assert(a =~= seq![a[0]] + a.drop_first());
            assert(b =~= seq![b[0]] + b.drop_first());
        }
        lemma_lex_total(a.drop_first(), b.drop_first());
    }
}

/// The card-by-card order is transitive on sequences of one length.
pub proof fn lemma_lex_transitive(a: PileKey, b: PileKey, c: PileKey)
    requires
        a.len() == b.len(),
        b.len() == c.len(),
        lex_lt(a, b),
        lex_lt(b, c),
    ensures
        lex_lt(a, c),
    decreases a.len(),
{
    if a.len() > 0 && a[0] == b[0] && b[0] == c[0] {
        lemma_lex_transitive(a.drop_first(), b.drop_first(), c.drop_first());
    }
}

/// Two sequences of keys that agree below position `k` and differ at `k`
/// compare as their keys at `k` do.
pub proof fn lemma_lex_first_difference(a: PileKey, b: PileKey, k: int)
    requires
        a.len() == b.len(),
        0 <= k < a.len(),
        forall|j: int| 0 <= j < k ==> a[j] == b[j],
        a[k] != b[k],
    ensures
        lex_lt(a, b) == key_lt(a[k], b[k]),
    decreases k,
{
    if k > 0 {
        let a1 = a.drop_first();
        let b1 = b.drop_first();
        assert forall|j: int| 0 <= j < k - 1 implies a1[j] == b1[j] by {
            assert(a1[j] == a[j + 1]);
            assert(b1[j] == b[j + 1]);
        }
        lemma_lex_first_difference(a1, b1, k - 1);
    }
}

/// The order of piles is a total order on their keys.
pub proof fn lemma_pile_order_total()
    ensures
        total_ordering(pile_order()),
{
    let r = pile_order();
    assert forall|a: PileKey, b: PileKey| #[trigger] r(a, b) && #[trigger] r(b, a) implies a
        == b by {
        if a != b {
            lemma_lex_asymmetric(a, b);
        }
    }
    assert forall|a: PileKey, b: PileKey, c: PileKey| #[trigger]
        r(a, b) && #[trigger] r(b, c) implies r(a, c) by {
        if a != b && b != c && a.len() == b.len() && b.len() == c.len() {
            lemma_lex_transitive(a, b, c);
        }
    }
    assert forall|a: PileKey, b: PileKey| #[trigger] r(a, b) || #[trigger] r(b, a) by {
        if a != b && a.len() == b.len() {
            lemma_lex_total(a, b);
        }
    }
}

/// A row of piles that is in increasing order and holds the same piles as
/// `keys` is the sorted row of `keys`.
pub proof fn lemma_sorted_is_canonical(keys: Seq<PileKey>, sorted: Seq<PileKey>)
    requires
        sorted_by(sorted, pile_order()),
        sorted.to_multiset() == keys.to_multiset(),
    ensures
        sorted == sorted_keys(keys),
{
    lemma_pile_order_total();
    keys.lemma_sort_by_ensures(pile_order());
    vstd::seq_lib::lemma_sorted_unique(sorted, sorted_keys(keys), pile_order());
}

/// Two rows that hold the same piles, in whatever arrangement, have the same
/// sorted row.
pub proof fn lemma_sorted_keys_of_permutation(a: Seq<PileKey>, b: Seq<PileKey>)
    requires
        a.to_multiset() == b.to_multiset(),
    ensures
        sorted_keys(a) == sorted_keys(b),
{
    lemma_pile_order_total();
    a.lemma_sort_by_ensures(pile_order());
    lemma_sorted_is_canonical(b, sorted_keys(a));
}

/// Sorting a sorted row changes nothing.
pub proof fn lemma_sorted_keys_idempotent(a: Seq<PileKey>)
    ensures
        sorted_keys(sorted_keys(a)) == sorted_keys(a),
{
    lemma_pile_order_total();
    a.lemma_sort_by_ensures(pile_order());
    lemma_sorted_keys_of_permutation(sorted_keys(a), a);
}

/// Two rows that hold the same things, in whatever arrangement, still do
/// after one function has been applied to each of their entries.
pub proof fn lemma_map_multiset<A, B>(a: Seq<A>, b: Seq<A>, f: spec_fn(A) -> B)
    requires
        a.to_multiset() == b.to_multiset(),
    ensures
        a.map_values(f).to_multiset() == b.map_values(f).to_multiset(),
    decreases a.len(),
{
    vstd::seq_lib::to_multiset_len(a);
    vstd::seq_lib::to_multiset_len(b);
    if a.len() == 0 {
        assert(a.map_values(f) =~= b.map_values(f));
    } else {
        let x = a.last();
        vstd::seq_lib::to_multiset_contains(a, x);
        vstd::seq_lib::to_multiset_contains(b, x);
        assert(a.contains(x));
        let i = choose|i: int| 0 <= i < b.len() && b[i] == x;
        let shorter_a = a.drop_last();
        let shorter_b = b.remove(i);
        assert(shorter_a =~= a.remove(a.len() - 1));
        vstd::seq_lib::to_multiset_remove(a, a.len() - 1);
        vstd::seq_lib::to_multiset_remove(b, i);
        lemma_map_multiset(shorter_a, shorter_b, f);
        assert(a.map_values(f) =~= shorter_a.map_values(f).push(f(x)));
        assert(b.map_values(f) =~= shorter_b.map_values(f).insert(i, f(x)));
        vstd::seq_lib::to_multiset_build(shorter_a.map_values(f), f(x));
        vstd::seq_lib::to_multiset_insert(shorter_b.map_values(f), i, f(x));
    }
}

} // verus!
