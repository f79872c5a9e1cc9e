//! Rules engine for hexagonal chess on an 11 by 11 addressable grid.
//!
//! The playing area is the band of cells whose row and column add up to a
//! value between 5 and 15. Move generation is pseudo-legal; the legality
//! filter removes the moves that would leave the mover's own king attacked.
pub mod board;
pub mod config;
pub mod game;
pub mod moves;
pub mod notation;
pub mod pieces;
pub mod validation;
