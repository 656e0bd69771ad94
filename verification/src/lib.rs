//! A chess engine: position handling, pseudo-legal move generation, attack
//! detection, evaluation by piece-square tables, and a negamax search with
//! alpha-beta pruning, with the contracts of every function proved.

pub mod consts;
pub mod text;
pub mod types;
pub mod piece_scores;
pub mod piece;
pub mod move_struct;
pub mod openings;
pub mod game;
pub mod utils;
