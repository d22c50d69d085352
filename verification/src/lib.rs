//! A chess engine core: depth-bounded minimax search with alpha-beta pruning
//! over a lazily expanded, reusable tree of positions. The rules of chess come
//! from the `chess` crate; everything the engine decides is proved against
//! contracts stated over the positions, moves and scores defined here.

pub mod ai;
pub mod board;
pub mod cache;
pub mod eval;
pub mod fen;
pub mod position;
pub mod pruning;
pub mod reuse;
pub mod root;
pub mod search;
pub mod sprite;
pub mod tree;
pub mod twc;
pub mod utils;
