//! The actions of a turn.

use vstd::prelude::*;

use super::cards::Card;
use super::piles::PileType;

verus! {

/// One action of a player.
#[derive(Debug, Clone, Copy)]
pub enum CardAction {
    /// Moves the top card of `origin`, which is `card`, onto `destination`.
    Move { card: Card, origin: PileType, destination: PileType },
    /// Turns the top card of `pile` face up.
    Flip { pile: PileType },
    /// Turns the waste over to make a new stock.
    FlipWaste,
}

/// A list of actions, in the order in which they are played.
#[derive(Debug)]
pub struct CardActions {
    pub actions: Vec<CardAction>,
}

impl View for CardActions {
    type V = Seq<CardAction>;

    open spec fn view(&self) -> Seq<CardAction> {
        self.actions@
    }
}

impl CardActions {
    /// Creates an empty list of actions.
    pub fn new() -> (r: Self)
        ensures
            r@ == Seq::<CardAction>::empty(),
    {
        CardActions { actions: Vec::new() }
    }

    /// Returns the number of actions.
    pub fn len(&self) -> (r: usize)
        ensures
            r == self@.len(),
    {
        self.actions.len()
    }

    /// Checks whether the list holds no action.
    pub fn is_empty(&self) -> (r: bool)
        ensures
            r == (self@.len() == 0),
    {
        self.actions.len() == 0
    }

    /// Adds `action` at the end of the list.
    pub fn push(&mut self, action: CardAction)
        ensures
            final(self)@ == old(self)@.push(action),
    {
        self.actions.push(action);
    }

    /// Returns the last action, if there is one.
    pub fn last(&self) -> (r: Option<&CardAction>)
        ensures
            r is Some <==> self@.len() > 0,
            r matches Some(a) ==> *a == self@.last(),
    {
        let n: usize = self.actions.len();
        if n > 0 {
            Some(&self.actions[n - 1])
        } else {
            None
        }
    }

    /// Returns the action at position `i`.
    pub fn get(&self, i: usize) -> (r: Option<&CardAction>)
        ensures
            r is Some <==> i < self@.len(),
            r matches Some(a) ==> *a == self@[i as int],
    {
        if i < self.actions.len() {
            Some(&self.actions[i])
        } else {
            None
        }
    }
}

impl Clone for CardActions {
    fn clone(&self) -> (r: Self)
        ensures
            r@ == self@,
    {
        let actions = self.actions.clone();
        assert(actions@ =~= self.actions@);
        CardActions { actions }
    }
}

impl std::ops::Deref for CardActions {
    type Target = Vec<CardAction>;

    fn deref(&self) -> (r: &Vec<CardAction>)
        ensures
            r@ == self@,
    {
        &self.actions
    }
}

} // verus!
