//! Procedural partitioning of a subdivided sphere's surface into tectonic
//! plates: a balanced multi-source flood fill over a cell-adjacency graph,
//! a boundary-detection pass, a land/ocean classification pass, a rigid
//! per-plate velocity field, and the phase state machine that sequences
//! these passes across discrete ticks and user confirmation.

pub mod assignment;
pub mod boundary;
pub mod graph;
pub mod partition;
mod rng;
pub mod states;
pub mod surface;
pub mod vector;
pub mod velocity;
pub mod worldgen;
