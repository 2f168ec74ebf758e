//! The cost of a plan: what the search makes as low as it can.
//!
//! A plan costs one entry for each of its moves, made of what the
//! destination costs and of what the origin costs. A shorter plan is
//! cheaper; of two plans of one length, the cheaper is the one whose first
//! differing move is the cheaper.

use vstd::prelude::*;

use crate::game::cards::key_lt;
use crate::game::keys::lemma_lex_first_difference;
use crate::game::keys::lemma_lex_irreflexive;
use crate::game::keys::lex_lt;
use crate::game::keys::pile_lt;
use crate::game::moves::CardAction;
use crate::game::piles::PileType;

verus! {

/// The cost of a plan as the rules see it: for each move, the cost of its
/// destination and the cost of its origin.
pub type CostView = Seq<(int, int)>;

/// What a move onto a pile of kind `kind` costs: 0 for a foundation, 1 for
/// a crape, 2 for a waste, 3 for a tableau pile.
pub open spec fn destination_cost(kind: PileType) -> int {
    match kind {
        PileType::Foundation { .. } => 0,
        PileType::Crape { .. } => 1,
        PileType::Waste { .. } => 2,
        _ => 3,
    }
}

/// What a move from a pile of kind `kind` costs: 0 for a tableau pile, 1
/// for a crape, 2 for a stock.
pub open spec fn origin_cost(kind: PileType) -> int {
    match kind {
        PileType::Tableau { .. } => 0,
        PileType::Crape { .. } => 1,
        _ => 2,
    }
}

/// Whether the search can weigh `action`: it is a move, not onto a stock,
/// and not from a waste or a foundation.
pub open spec fn has_cost(action: CardAction) -> bool {
    match action {
        CardAction::Move { origin, destination, .. } => {
            &&& !(destination is Stock)
            &&& !(origin is Waste)
            &&& !(origin is Foundation)
        },
        _ => false,
    }
}

/// The cost of the move `action`.
pub open spec fn move_cost(action: CardAction) -> (int, int) {
    match action {
        CardAction::Move { origin, destination, .. } => (
            destination_cost(destination),
            origin_cost(origin),
        ),
        _ => (0, 0),
    }
}

/// The cost of the plan `moves`.
pub open spec fn cost_of(moves: Seq<CardAction>) -> CostView {
    moves.map_values(|a: CardAction| move_cost(a))
}

/// Whether the cost `a` is strictly lower than `b`: a shorter plan is
/// cheaper, and plans of one length compare move by move.
pub open spec fn cost_lt(a: CostView, b: CostView) -> bool {
    pile_lt(a, b)
}

/// Whether the cost `a` is at most `b`.
pub open spec fn cost_le(a: CostView, b: CostView) -> bool {
    a == b || cost_lt(a, b)
}

/// The cost of a plan.
#[derive(Debug)]
pub struct Cost {
    pub nb_moves: usize,
    pub move_costs: Vec<[usize; 2]>,
}

impl View for Cost {
    type V = CostView;

    open spec fn view(&self) -> CostView {
        self.move_costs@.map_values(|c: [usize; 2]| (c@[0] as int, c@[1] as int))
    }
}

impl Clone for Cost {
    fn clone(&self) -> (r: Self)
        ensures
            r@ == self@,
            r.nb_moves == self.nb_moves,
            r.wf() == self.wf(),
    {
        let mut move_costs: Vec<[usize; 2]> = Vec::new();
        let mut i: usize = 0;
        while i < self.move_costs.len()
            invariant
                i <= self.move_costs@.len(),
                move_costs@.len() == i,
                forall|j: int| 0 <= j < i ==> move_costs@[j] == self.move_costs@[j],
            decreases self.move_costs@.len() - i,
        {
            move_costs.push(self.move_costs[i]);
            i += 1;
        }
        let r = Cost { nb_moves: self.nb_moves, move_costs };
        assert(r@ =~= self@);
        r
    }
}

impl Cost {
    /// The invariant of a cost: it counts one entry for each move.
    pub open spec fn wf(self) -> bool {
        self.nb_moves == self.move_costs@.len()
    }

    /// Creates the cost of the empty plan: no move counted, and no entry.
    pub fn new() -> (r: Self)
        ensures
            r.nb_moves == 0,
            r.move_costs@ == Seq::<[usize; 2]>::empty(),
            r@ == Seq::<(int, int)>::empty(),
            r.wf(),
    {
        let r = Cost { nb_moves: 0, move_costs: Vec::new() };
        assert(r@ =~= Seq::<(int, int)>::empty());
        r
    }

    /// Returns the cost of this plan followed by a move that costs
    /// `destination` and `origin`.
    pub fn extended(&self, destination: usize, origin: usize) -> (r: Self)
        requires
            self.wf(),
        ensures
            r@ == self@.push((destination as int, origin as int)),
            r.wf(),
    {
        let mut r = self.clone();
        let entry: [usize; 2] = [destination, origin];
        r.move_costs.push(entry);
        r.nb_moves = r.move_costs.len();
        assert(r@ =~= self@.push((destination as int, origin as int)));
        r
    }

    /// Index of the first move at which two costs of one length differ, or
    /// their length if they are the same.
    fn first_difference(&self, other: &Cost) -> (r: usize)
        requires
            self@.len() == other@.len(),
        ensures
            r <= self@.len(),
            r == self@.len() <==> self@ == other@,
            r < self@.len() ==> {
                &&& self@[r as int] != other@[r as int]
                &&& lex_lt(self@, other@) == key_lt(self@[r as int], other@[r as int])
                &&& lex_lt(other@, self@) == key_lt(other@[r as int], self@[r as int])
                &&& self@[r as int] == (
                    self.move_costs@[r as int]@[0] as int,
                    self.move_costs@[r as int]@[1] as int,
                )
                &&& other@[r as int] == (
                    other.move_costs@[r as int]@[0] as int,
                    other.move_costs@[r as int]@[1] as int,
                )
            },
    {
        let mut i: usize = 0;
        while i < self.move_costs.len()
            invariant
                i <= self@.len(),
                self@.len() == other@.len(),
                forall|j: int| 0 <= j < i ==> self@[j] == other@[j],
            decreases self@.len() - i,
        {
            let a = &self.move_costs[i];
            let b = &other.move_costs[i];
            if a[0] != b[0] || a[1] != b[1] {
                proof {
                    lemma_lex_first_difference(self@, other@, i as int);
                    lemma_lex_first_difference(other@, self@, i as int);
                }
                return i;
            }
            i += 1;
        }
        assert(self@ =~= other@);
        i
    }

    /// Checks whether this cost is strictly lower than `other`.
    pub fn is_lower(&self, other: &Cost) -> (r: bool)
        requires
            self.wf(),
            other.wf(),
        ensures
            r == cost_lt(self@, other@),
    {
        if self.nb_moves != other.nb_moves {
            return self.nb_moves < other.nb_moves;
        }
        let k: usize = self.first_difference(other);
        if k == self.move_costs.len() {
            proof {
                lemma_lex_irreflexive(self@);
            }
            false
        } else {
            let a = &self.move_costs[k];
            let b = &other.move_costs[k];
            a[0] < b[0] || (a[0] == b[0] && a[1] < b[1])
        }
    }

    /// Checks whether the two costs are the same.
    pub fn is_same(&self, other: &Cost) -> (r: bool)
        requires
            self.wf(),
            other.wf(),
        ensures
            r == (self@ == other@),
    {
        if self.nb_moves != other.nb_moves {
            return false;
        }
        let k: usize = self.first_difference(other);
        k == self.move_costs.len()
    }
}

/// The cost of a plan with one more move is the cost of the plan followed by
/// the cost of the move.
pub proof fn lemma_cost_of_push(moves: Seq<CardAction>, action: CardAction)
    ensures
        cost_of(moves.push(action)) == cost_of(moves).push(move_cost(action)),
{
    assert(cost_of(moves.push(action)) =~= cost_of(moves).push(move_cost(action)));
}

/// A plan is cheaper than the same plan with one more move.
pub proof fn lemma_longer_costs_more(cost: CostView, entry: (int, int))
    ensures
        cost_lt(cost, cost.push(entry)),
{
}

/// Of two plans of one length of which the first is cheaper, the first is
/// still cheaper when the same move follows both.
pub proof fn lemma_lex_push(a: CostView, b: CostView, entry: (int, int))
    requires
        a.len() == b.len(),
        lex_lt(a, b),
    ensures
        lex_lt(a.push(entry), b.push(entry)),
    decreases a.len(),
{
    if a.len() > 0 {
        assert(a.push(entry)[0] == a[0]);
        assert(b.push(entry)[0] == b[0]);
        assert(a.push(entry).drop_first() =~= a.drop_first().push(entry));
        assert(b.push(entry).drop_first() =~= b.drop_first().push(entry));
        if a[0] == b[0] {
            lemma_lex_push(a.drop_first(), b.drop_first(), entry);
        }
    }
}

/// A plan that costs no more than another costs no more than it when the
/// same move follows both.
pub proof fn lemma_cost_push(a: CostView, b: CostView, entry: (int, int))
    requires
        cost_le(a, b),
    ensures
        cost_le(a.push(entry), b.push(entry)),
{
    if a != b && a.len() == b.len() {
        lemma_lex_push(a, b, entry);
    }
}

/// What a move costs is told by the rows of the piles that it goes from
/// and to.
pub proof fn lemma_move_cost_by_rows(a: CardAction, b: CardAction)
    requires
        a matches CardAction::Move { origin, destination, .. } && b matches CardAction::Move {
            origin: from,
            destination: to,
            ..
        } && origin.same_variant(from) && destination.same_variant(to),
    ensures
        move_cost(a) == move_cost(b),
{
}

} // verus!
