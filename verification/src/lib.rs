//! Forced-result analysis for a two-player track-laying game on a 4x5 grid.
//!
//! The crate is split by concern. [`player`] names the two sides. [`action`]
//! holds the grid geometry and the shape of a placement. [`position`] is the
//! mathematical model of the rules: which cells are occupied, what the region
//! constraint is, and which moves are legal. [`board`] holds the executable
//! board with its region constraint, its history and the legal-move
//! generator, proved against that model. [`search`] decides which side can
//! force a win, and [`alpha_beta`] does the same by an alpha-beta walk.

pub mod action;
pub mod alpha_beta;
pub mod board;
pub mod player;
pub mod position;
pub mod search;
