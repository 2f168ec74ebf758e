//! The score of a board: what the search tries to make as high as it can.
//!
//! A score is a row of twelve numbers, compared from the first to the last:
//! the cards on the foundation, the cards left in the crape of the player
//! (counted below zero), the cards left in their stock (below zero too), the
//! empty tableau piles, and the sizes of the tableau piles from the largest to
//! the smallest.

use vstd::prelude::*;

use crate::game::board::nb_cards_center;
use crate::game::board::nb_empty;
use crate::game::board::Board;
use crate::game::board::BoardView;
use crate::game::keys::lemma_pile_order_total;
use crate::game::keys::pile_order;
use crate::game::keys::sorted_keys;
use crate::game::piles::PileView;
use crate::game::players::Player;
use crate::game::sorting::row_keys;
use crate::game::sorting::sorted_order;

verus! {

/// Number of values in a score.
pub const NB_SCORE_VALUES: usize = 12;

/// The score of a board.
pub type BoardScore = [i32; 12];

/// The score of `board` for `player`.
pub open spec fn score_of(board: BoardView, player: Player) -> Seq<int> {
    let sorted = sorted_keys(row_keys(board.tableau));
    seq![
        nb_cards_center(board.foundation) as int,
        -(board.crape[player.spec_index()].cards.len() as int),
        -(board.stock[player.spec_index()].cards.len() as int),
        nb_empty(board.tableau),
        sorted[7].len() as int,
        sorted[6].len() as int,
        sorted[5].len() as int,
        sorted[4].len() as int,
        sorted[3].len() as int,
        sorted[2].len() as int,
        sorted[1].len() as int,
        sorted[0].len() as int,
    ]
}

/// The numbers of a score.
pub open spec fn score_values(score: BoardScore) -> Seq<int> {
    score@.map_values(|v: i32| v as int)
}

/// Whether the score `a` is strictly lower than `b`, looking only from
/// position `k` on: the first position at which they differ decides.
pub open spec fn score_lt_from(a: Seq<int>, b: Seq<int>, k: int) -> bool
    decreases a.len() - k,
{
    if k < 0 || k >= a.len() || k >= b.len() {
        false
    } else if a[k] != b[k] {
        a[k] < b[k]
    } else {
        score_lt_from(a, b, k + 1)
    }
}

/// Whether the score `a` is strictly lower than `b`.
pub open spec fn score_lt(a: Seq<int>, b: Seq<int>) -> bool {
    score_lt_from(a, b, 0)
}

/// Whether the score `a` is at most `b`.
pub open spec fn score_le(a: Seq<int>, b: Seq<int>) -> bool {
    a == b || score_lt(a, b)
}

/// The lowest score there is: every value at the minimum.
pub fn worse_score() -> (r: BoardScore)
    ensures
        forall|k: int| 0 <= k < 12 ==> r@[k] == i32::MIN,
{
    [
        i32::MIN,
        i32::MIN,
        i32::MIN,
        i32::MIN,
        i32::MIN,
        i32::MIN,
        i32::MIN,
        i32::MIN,
        i32::MIN,
        i32::MIN,
        i32::MIN,
        i32::MIN,
    ]
}

/// Checks whether the score `a` is strictly higher than `b`.
pub fn score_gt(a: &BoardScore, b: &BoardScore) -> (r: bool)
    ensures
        r == score_lt(score_values(*b), score_values(*a)),
{
    let ghost va = score_values(*a);
    let ghost vb = score_values(*b);
    let mut k: usize = 0;
    while k < 12
        invariant
            k <= 12,
            va == score_values(*a),
            vb == score_values(*b),
            score_lt(vb, va) == score_lt_from(vb, va, k as int),
        decreases 12 - k,
    {
        if a[k] != b[k] {
            return b[k] < a[k];
        }
        k += 1;
    }
    false
}

/// Checks whether the two scores are the same.
pub fn score_eq(a: &BoardScore, b: &BoardScore) -> (r: bool)
    ensures
        r == (score_values(*a) == score_values(*b)),
{
    let mut k: usize = 0;
    while k < 12
        invariant
            k <= 12,
            forall|j: int| 0 <= j < k ==> a@[j] == b@[j],
        decreases 12 - k,
    {
        if a[k] != b[k] {
            assert(score_values(*a)[k as int] != score_values(*b)[k as int]);
            return false;
        }
        k += 1;
    }
    assert(score_values(*a) =~= score_values(*b));
    true
}

/// Returns 1 if the pile is empty, 0 otherwise.
fn empty_as_one(n: usize) -> (r: i32)
    ensures
        r == if n == 0 {
            1int
        } else {
            0int
        },
{
    if n == 0 {
        1
    } else {
        0
    }
}

/// Returns the number of cards on the foundation.
fn foundation_size(board: &Board) -> (r: usize)
    requires
        board@.shape(),
        board@.nb_cards() <= i32::MAX,
    ensures
        r == nb_cards_center(board@.foundation),
        r <= i32::MAX,
{
    let f = &board.foundation;
    proof {
        assert forall|i: int| 0 <= i < 8 implies (#[trigger] board.foundation@[i])@
            == board@.foundation[i] by {}
        assert(f@[0]@ == board@.foundation[0]);
        assert(f@[1]@ == board@.foundation[1]);
        assert(f@[2]@ == board@.foundation[2]);
        assert(f@[3]@ == board@.foundation[3]);
        assert(f@[4]@ == board@.foundation[4]);
        assert(f@[5]@ == board@.foundation[5]);
        assert(f@[6]@ == board@.foundation[6]);
        assert(f@[7]@ == board@.foundation[7]);
    }
    f[0].nb_cards() + f[1].nb_cards() + f[2].nb_cards() + f[3].nb_cards() + f[4].nb_cards()
        + f[5].nb_cards() + f[6].nb_cards() + f[7].nb_cards()
}

/// Returns the number of empty tableau piles.
fn empty_tableau_piles(board: &Board) -> (r: i32)
    requires
        board@.shape(),
    ensures
        r == nb_empty(board@.tableau),
{
    let t = &board.tableau;
    proof {
        assert(t@[0]@ == board@.tableau[0]);
        assert(t@[1]@ == board@.tableau[1]);
        assert(t@[2]@ == board@.tableau[2]);
        assert(t@[3]@ == board@.tableau[3]);
        assert(t@[4]@ == board@.tableau[4]);
        assert(t@[5]@ == board@.tableau[5]);
        assert(t@[6]@ == board@.tableau[6]);
        assert(t@[7]@ == board@.tableau[7]);
    }
    empty_as_one(t[0].nb_cards()) + empty_as_one(t[1].nb_cards()) + empty_as_one(t[2].nb_cards())
        + empty_as_one(t[3].nb_cards()) + empty_as_one(t[4].nb_cards()) + empty_as_one(
        t[5].nb_cards(),
    ) + empty_as_one(t[6].nb_cards()) + empty_as_one(t[7].nb_cards())
}

/// Returns the sizes of the tableau piles, in increasing order of the piles.
fn sorted_tableau_sizes(board: &Board) -> (r: Vec<i32>)
    requires
        board@.shape(),
        board@.nb_cards() <= i32::MAX,
    ensures
        r@.len() == 8,
        forall|k: int|
            0 <= k < 8 ==> r@[k] == sorted_keys(row_keys(board@.tableau))[k].len(),
{
    proof {
        assert(crate::game::board::row_view(board.tableau@) == board@.tableau);
    }
    let order = sorted_order(&board.tableau);
    let ghost sorted = sorted_keys(row_keys(board@.tableau));
    let mut sizes: Vec<i32> = Vec::new();
    let mut k: usize = 0;
    while k < 8
        invariant
            k <= 8,
            board@.shape(),
            board@.nb_cards() <= i32::MAX,
            order@.len() == 8,
            forall|j: int| 0 <= j < 8 ==> order@[j] < 8,
            sorted == crate::game::sorting::picked_keys(board@.tableau, order@),
            sizes@.len() == k,
            forall|j: int| 0 <= j < k ==> sizes@[j] == sorted[j].len(),
        decreases 8 - k,
    {
        let slot: usize = order[k];
        let n: usize = board.tableau[slot].nb_cards();
        proof {
            assert(board.tableau@[slot as int]@ == board@.tableau[slot as int]);
            assert(sorted[k as int] == board@.tableau[slot as int].key());
            lemma_pile_within_board(board@, slot as int);
        }
        sizes.push(n as i32);
        k += 1;
    }
    sizes
}

/// A tableau pile holds no more cards than the board.
proof fn lemma_pile_within_board(board: BoardView, slot: int)
    requires
        board.shape(),
        0 <= slot < 8,
    ensures
        board.tableau[slot].cards.len() <= board.nb_cards(),
{
}

/// Computes the score of `board` for `active_player`.
pub fn board_score(board: &Board, active_player: Player) -> (r: BoardScore)
    requires
        board@.shape(),
        board@.nb_cards() <= i32::MAX,
    ensures
        score_values(r) == score_of(board@, active_player),
{
    let p: usize = active_player.index();
    proof {
        assert(board.crape@[p as int]@ == board@.crape[p as int]);
        assert(board.stock@[p as int]@ == board@.stock[p as int]);
    }
    let in_foundation: usize = foundation_size(board);
    let empty: i32 = empty_tableau_piles(board);
    let sizes = sorted_tableau_sizes(board);
    let in_crape: usize = board.crape[p].nb_cards();
    let in_stock: usize = board.stock[p].nb_cards();
    let r: BoardScore = [
        in_foundation as i32,
        -(in_crape as i32),
        -(in_stock as i32),
        empty,
        sizes[7],
        sizes[6],
        sizes[5],
        sizes[4],
        sizes[3],
        sizes[2],
        sizes[1],
        sizes[0],
    ];
    proof {
        assert(score_values(r) =~= score_of(board@, active_player));
    }
    r
}

/// The sizes of the tableau piles, in the order of their slots.
pub open spec fn tableau_sizes(board: BoardView) -> Seq<int> {
    board.tableau.map_values(|p: PileView| p.cards.len() as int)
}

/// The eight last values of a score.
pub open spec fn score_sizes(board: BoardView, player: Player) -> Seq<int> {
    Seq::new(8, |k: int| score_of(board, player)[4 + k])
}

/// The eight last values of a score are the sizes of the eight tableau
/// piles, each as many times as there are piles of that size, from the
/// largest to the smallest.
pub proof fn lemma_score_sizes_descending(board: BoardView, player: Player)
    requires
        board.shape(),
    ensures
        forall|i: int, j: int|
            4 <= i <= j < 12 ==> score_of(board, player)[i] >= score_of(board, player)[j],
        score_sizes(board, player).to_multiset() == tableau_sizes(board).to_multiset(),
{
    let keys = row_keys(board.tableau);
    let sorted = sorted_keys(keys);
    lemma_pile_order_total();
    keys.lemma_sort_by_ensures(pile_order());
    vstd::seq_lib::to_multiset_len(keys);
    vstd::seq_lib::to_multiset_len(sorted);
    assert forall|x: int, y: int| 0 <= x <= y < 8 implies sorted[x].len() <= sorted[y].len() by {
        if x < y {
            assert(pile_order()(sorted[x], sorted[y]));
        }
    }
    let s = score_of(board, player);
    assert forall|i: int, j: int| 4 <= i <= j < 12 implies s[i] >= s[j] by {
        assert(s[i] == sorted[11 - i].len());
        assert(s[j] == sorted[11 - j].len());
    }
    let size = |key: crate::game::keys::PileKey| key.len() as int;
    crate::game::keys::lemma_map_multiset(sorted, keys, size);
    let sorted_sizes = sorted.map_values(size);
    sorted_sizes.lemma_reverse_to_multiset();
    assert(score_sizes(board, player) =~= sorted_sizes.reverse());
    assert(keys.map_values(size) =~= tableau_sizes(board));
}

/// Two boards that are the same position have the same score.
pub proof fn lemma_position_score(a: BoardView, b: BoardView, player: Player)
    requires
        a.shape(),
        b.shape(),
        a.same_position(b),
    ensures
        score_of(a, player) == score_of(
            b,
            player,
        ),
{
    crate::game::position_laws::lemma_rows_alike(a.tableau, b.tableau);
    crate::game::position_laws::lemma_rows_alike(a.foundation, b.foundation);
    let p = player.spec_index();
    assert(row_keys(a.crape)[p].len() == row_keys(b.crape)[p].len());
    assert(row_keys(a.stock)[p].len() == row_keys(b.stock)[p].len());
    assert(score_of(a, player) =~= score_of(
        b,
        player,
    ));
}

} // verus!
