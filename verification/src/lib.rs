//! Conway's Game of Life on a bounded board: board model, generation
//! update, configuration parsing, statistics and the persistence formats.

pub mod algorithms;
pub mod board;
pub mod config;
pub mod stats;
pub mod text;
pub mod persistence;
pub mod pattern_analysis;
pub mod patterns;
pub mod still_lifes;
pub mod desktop;
pub mod simulation;
pub mod repetition;
pub mod streaming;
