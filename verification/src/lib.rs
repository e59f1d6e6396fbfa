//! A procedural dungeon engine on a dense tile grid: line rasterization,
//! room placement with non-overlap rejection, L-shaped corridor carving,
//! wall pruning, monster/item population, world/grid coordinate transforms,
//! collision and sightline queries, and a textual map codec.

pub mod tile;
pub mod grid;
pub mod bresenham;
pub mod reach;
pub mod rng;
pub mod room;
pub mod map;
pub mod generators;
pub mod text;
pub mod writer;
pub mod los;
pub mod config;
