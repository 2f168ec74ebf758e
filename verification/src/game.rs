//! The cards, the piles and the board of a game.

pub mod board;
pub mod canonical;
pub mod cards;
pub mod colors;
pub mod custom_test_games;
pub mod deal;
pub mod decks;
pub mod display;
pub mod encoding_laws;
pub mod game_manager;
pub mod keys;
pub mod moves;
pub mod order_laws;
pub mod parsing;
pub mod piles;
pub mod players;
pub mod position_laws;
pub mod ranks;
pub mod sorting;
pub mod suits;
pub mod symmetry_laws;
pub mod text;
pub mod validity;
