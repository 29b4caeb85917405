//! The build context that the generation stages share, and the ways in which
//! a stage can fail.

use vstd::prelude::*;
use crate::map::{GridMap, Point};
use crate::tile::TileType;
use crate::town_builder::TownBuilder;
use crate::voronoi::VoronoiCellBuilder;

verus! {

/// Why a stage gave up. A failed generation leaves the context in an
/// unfinished state; the caller is expected to start over on a fresh one.
#[derive(Clone, Copy, Debug, PartialEq, Eq, Structural)]
pub enum GenerationError {
    /// The map is too small for the stage to lay out what it needs.
    MapTooSmall,
    /// The retry budget ran out before every building lot was placed.
    LotsNotPlaced,
    /// The retry budget ran out before every region seed was placed.
    SeedsNotPlaced,
    /// A region builder was asked for no seeds at all.
    NoSeeds,
}

/// One request to spawn an entity: the tile index and the name of the kind.
pub type SpawnRequest = (usize, String);

/// The state that generation works on: the map, the spawn requests issued so
/// far (several requests for one tile are allowed), and where the player
/// starts once that has been decided.
#[derive(Debug)]
pub struct BuilderMap {
    pub spawn_list: Vec<SpawnRequest>,
    pub map: GridMap,
    pub starting_position: Option<Point>,
}

impl BuilderMap {
    /// A context around a fresh map of solid wall, with no spawn requests
    /// and no starting position.
    pub fn new(new_depth: i32, width: i32, height: i32) -> (b: BuilderMap)
        requires
            0 < width,
            0 < height,
            width * height <= usize::MAX,
        ensures
            b.map.wf(),
            b.map.map_width == width,
            b.map.map_height == height,
            b.map.depth == new_depth,
            forall|i: int| 0 <= i < b.map.map@.len() ==> b.map.map@[i] == TileType::Wall,
            forall|i: int| 0 <= i < b.map.map@.len() ==> !b.map.visible_tiles@[i],
            forall|i: int| 0 <= i < b.map.map@.len() ==> !b.map.revealed_tiles@[i],
            forall|i: int| 0 <= i < b.map.map@.len() ==> !b.map.blocked@[i],
            b.spawn_list@.len() == 0,
            b.starting_position is None,
    {
        BuilderMap {
            spawn_list: Vec::new(),
            map: GridMap::new(new_depth, width, height),
            starting_position: None,
        }
    }

    /// What a stage that only repaints tiles leaves alone: the shape of the
    /// map and its overlays, the spawn requests and the starting position.
    pub open spec fn only_tiles_differ(&self, other: &BuilderMap) -> bool {
        &&& self.map.same_frame(&other.map)
        &&& self.spawn_list@ == other.spawn_list@
        &&& self.starting_position == other.starting_position
    }
}

/// Whether a spawn request asks for an entity of kind `name` at tile `idx`.
pub open spec fn requests(entry: SpawnRequest, idx: usize, name: Seq<char>) -> bool {
    entry.0 == idx && entry.1@ == name
}


/// The stage that a chain starts with.
#[derive(Debug)]
pub enum InitialStage {
    Town(Box<TownBuilder>),
    Voronoi(Box<VoronoiCellBuilder>),
}

/// A level in the making: the stage that generation starts with, once it has
/// been chosen, and the context that the stages work on.
#[derive(Debug)]
pub struct BuilderChain {
    pub starter: Option<InitialStage>,
    pub build_data: BuilderMap,
}

impl BuilderChain {
    /// A chain without a starting stage, around a fresh context.
    pub fn new(new_depth: i32, width: i32, height: i32) -> (chain: BuilderChain)
        requires
            0 < width,
            0 < height,
            width * height <= usize::MAX,
        ensures
            chain.starter is None,
            chain.build_data.map.wf(),
            chain.build_data.map.map_width == width,
            chain.build_data.map.map_height == height,
            chain.build_data.map.depth == new_depth,
            forall|i: int|
                0 <= i < chain.build_data.map.map@.len() ==> chain.build_data.map.map@[i]
                    == TileType::Wall,
            forall|i: int|
                0 <= i < chain.build_data.map.map@.len() ==> !chain.build_data.map.visible_tiles@[i],
            forall|i: int|
                0 <= i < chain.build_data.map.map@.len() ==> !chain.build_data.map.revealed_tiles@[i],
            forall|i: int|
                0 <= i < chain.build_data.map.map@.len() ==> !chain.build_data.map.blocked@[i],
            chain.build_data.spawn_list@.len() == 0,
            chain.build_data.starting_position is None,
    {
        BuilderChain { starter: None, build_data: BuilderMap::new(new_depth, width, height) }
    }

    /// Chooses the stage to start with. A chain has one starting stage: where
    /// one has been chosen already it stays, and the answer is `false`.
    pub fn start_with(&mut self, starter: InitialStage) -> (chosen: bool)
        ensures
            chosen == old(self).starter is None,
            final(self).build_data == old(self).build_data,
            final(self).starter == if chosen {
                Some(starter)
            } else {
                old(self).starter
            },
    {
        if self.starter.is_none() {
            self.starter = Some(starter);
            true
        } else {
            false
        }
    }
}

} // verus!
