//! Core of a chess engine: board lookup tables, move and score encodings,
//! reference searchers and the iterative-deepening alpha-beta search, with
//! machine-checked contracts.

pub mod types;
pub mod piece_locations;
pub mod fen_laws;
pub mod piece_move;
pub mod score;
pub mod consts;
pub mod tables;
pub mod position;
pub mod bots;
pub mod bot_laws;
pub mod parallel;
pub mod game_tree;
pub mod tree_position;
pub mod stable_sort;
pub mod root_moves;
pub mod tt;
pub mod time;
pub mod search_model;
pub mod search;
pub mod deepening_model;
pub mod search_root;
pub mod threadpool;
