//! A falling-sand simulation on a rectangular grid of byte cells.
//!
//! A grid is advanced one generation at a time. Each generation is computed
//! from a frozen copy of the previous one by a set of workers that write
//! into disjoint ribbons of a second buffer, after which the two buffers
//! trade places.

pub mod config;
pub mod rule;
pub mod buffer;
pub mod ribbon;
pub mod phase;
pub mod colour;
pub mod spawner;
pub mod grid;
pub mod laws;
pub mod dump;
