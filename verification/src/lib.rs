//! Crapette: the board model of the game and the search for the best turn.

pub mod brain;
pub mod game;
