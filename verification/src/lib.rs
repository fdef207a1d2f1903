//! Squadro: a two-player race across a five-by-five crossing of lanes.
//!
//! Each side owns five stones. A stone travels out along its own lane from
//! slot 0 to slot 6, turns around, and travels back; it is finished when it is
//! home again. Lanes of the two sides cross, and a stone that walks over an
//! opposing stone sends that stone back to where its current leg began.
//!
//! The crate holds the rules ([`State::next`]), four evaluation functions, a
//! depth-limited minimax search ([`State::minimax`]) and the textual board
//! diagram ([`State::diagram`], [`parse_board`]).

pub mod board;
pub mod geometry;
pub mod grid;
pub mod heuristics;
pub mod invariants;
pub mod roundtrip;
pub mod rules;
pub mod search;
pub mod state;

pub use crate::board::{parse_board, MalformedBoard};
pub use crate::geometry::{STEP, XULOS, YELLO};
pub use crate::heuristics::{
    bully_heuristic, distance_heuristic, null_heuristic, steps_to_go_heuristic,
};
pub use crate::state::State;
