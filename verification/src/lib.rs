//! A 2048-style tile-merging puzzle core on a fixed 4x4 grid.
//!
//! The crate has two components. The board engine ([`board`], [`slide`])
//! owns the grid of tile exponents and computes the result of sliding all
//! tiles in a direction, including merge resolution and scoring, detects
//! terminal conditions, and places random tiles. The turn orchestrator
//! ([`session`]) is a phase state machine that accepts one move intent at a
//! time, commits a computed slide atomically, and sequences the
//! slide / settle / idle phases; presentation timing lives outside.

pub mod board;
pub mod rng;
pub mod session;
pub mod slide;
