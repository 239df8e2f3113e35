//! Rules core of a two-player chess game: move generation, legality
//! filtering, move application and end-of-game detection.

pub mod board;
pub mod castles;
pub mod game_state;
pub mod laws;
pub mod movegen;
pub mod parser;
pub mod pieces;
pub mod text;
