//! World-generation and spatial-state core of a small tile-based dungeon
//! game: a rectangular grid of walkable and blocking cells, a procedural
//! generator that carves non-overlapping rooms connected by corridors, and
//! entities whose movement is collision-checked against the grid.
//!
//! Rendering, input and the field-of-view computation are external
//! collaborators: the grid exposes per-cell walkability and transparency for
//! them, and takes a movement delta per step, nothing more.

pub mod dungeon;
pub mod grid;
pub mod object;
pub mod reach;
pub mod rect;
pub mod rng;
pub mod tile;
