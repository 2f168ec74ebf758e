//! The two players of a game.

use vstd::prelude::*;

verus! {

/// Number of players in a game.
pub const NB_PLAYERS: usize = 2;

/// One of the two players.
#[derive(Debug, Clone, Copy, PartialEq, Eq, Hash, Structural)]
pub enum Player {
    Player0,
    Player1,
}

/// Who plays a side of the board.
#[derive(Debug, Clone, Copy, PartialEq, Eq, Structural)]
pub enum PlayerType {
    Player,
    AI,
}

impl Player {
    /// The slot of this player in the per-player pile arrays.
    pub open spec fn spec_index(self) -> int {
        match self {
            Player::Player0 => 0,
            Player::Player1 => 1,
        }
    }

    /// The opponent of this player.
    pub open spec fn spec_other(self) -> Player {
        match self {
            Player::Player0 => Player::Player1,
            Player::Player1 => Player::Player0,
        }
    }

    /// The player whose slot is `item`.
    pub fn from(item: u8) -> (r: Player)
        requires
            item < 2,
        ensures
            r.spec_index() == item,
    {
        if item == 0 {
            Player::Player0
        } else {
            Player::Player1
        }
    }

    /// Returns the slot of this player in the per-player pile arrays.
    pub fn index(self) -> (r: usize)
        ensures
            r == self.spec_index(),
    {
        match self {
            Player::Player0 => 0,
            Player::Player1 => 1,
        }
    }

    /// Returns the other player.
    pub fn other(&self) -> (r: Self)
        ensures
            r == self.spec_other(),
    {
        match self {
            Player::Player0 => Player::Player1,
            Player::Player1 => Player::Player0,
        }
    }
}

/// Taking the opponent twice gives the player back.
pub proof fn lemma_other_involution(p: Player)
    ensures
        p.spec_other().spec_other() == p,
        p.spec_other() != p,
{
}

} // verus!
