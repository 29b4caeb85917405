//! Procedural map generation on a tile grid: a town generator that lays
//! roads, packs building lots, cuts doors and assigns building content, and
//! a Voronoi region builder. Every function carries a contract over the
//! mathematical model of the grid.

pub mod tile;
pub mod map;
pub mod random;
pub mod builder;
pub mod lots;
pub mod roads;
pub mod doors;
pub mod content;
pub mod town_builder;
pub mod voronoi;
pub mod themes;
