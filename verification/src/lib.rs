//! A bitboard chess engine: position, move generation, evaluation and
//! alpha-beta search, with machine-checked contracts.

pub mod alpha_beta;
pub mod attacks;
pub mod bits;
pub mod cache;
pub mod chess_type;
pub mod chessview;
pub mod distinct;
pub mod engine;
pub mod evaluation;
pub mod game;
pub mod game_constructor;
pub mod iterative_deepening;
pub mod legality;
pub mod motion_iterator;
pub mod generation;
pub mod moves;
pub mod moves_container;
pub mod negamax;
pub mod precomputation;
pub mod rules;
pub mod sequences;
pub mod trial_generation;
pub mod uci;
pub mod utils;
