//! The town generator: base paving, a road, building lots with their walls
//! and doors, the content of each building, and the townsfolk.

use vstd::prelude::*;
use std::collections::HashSet;
use bracket_lib::random::RandomNumberGenerator;
use crate::builder::{requests, BuilderChain, BuilderMap, GenerationError, InitialStage};
use crate::content::{
    archetype_fits, center_of, interior_of, interior_tiles, lot_center, Archetype,
    ArchetypeDeck, ContentRequest, ACCESS_ROOM_LOT,
};
use crate::doors::{cut_door, door_position, door_spot, doors_cut, Orientation};
use crate::lots::{
    claim_lot, covered_by_any, floors_laid, index_covered, lemma_fitting_lot_is_apart,
    lemma_index_names_cell, lemma_lone_lot_is_walled, lemma_lots_apart_symmetric,
    lemma_place_one_more, lot_claims, lot_covers, lot_fits, lot_free, lot_interior,
    lot_on_grid, lot_ring, lots_apart, raise_walls, walls_raised, without_lots, Lot,
};
use crate::map::{
    cell_index, cell_x, cell_y, filled, inner_tile, lemma_cell_index_in_range,
    lemma_cell_index_inverse, GridMap, Point,
};
use crate::random::{range, roll_dice, roll_total};
use crate::roads::{
    lane_offset, on_lane, pave_lane, road_fits, road_painted, road_planned, without_lanes,
    RoadPlan, PAINTED_LANES, ROAD_LANES,
};
use crate::tile::TileType;

verus! {

broadcast use vstd::std_specs::hash::group_hash_axioms;

/// A lot is at least 6 tiles wide and at most this much wider.
pub const MAX_W: i32 = 13;

/// A lot is at least 6 tiles high and at most this much higher.
pub const MAX_H: i32 = 10;

/// The number of building lots of a town.
pub const LOT_COUNT: usize = 7;

/// How many candidate lots a town builder samples, unless told otherwise,
/// before it gives up.
pub const DEFAULT_LOT_ATTEMPTS: u32 = 100_000_000;

/// The width and the height of the starting town's map.
pub const TOWN_SIZE: i32 = 80;

/// The chain that builds the town in which the game starts: a map of
/// `TOWN_SIZE` by `TOWN_SIZE` tiles at depth 0, still solid wall, with a town
/// builder as its starting stage.
pub fn starting_town() -> (chain: BuilderChain)
    ensures
        chain.starter matches Some(InitialStage::Town(b)) && b.lot_attempts == DEFAULT_LOT_ATTEMPTS,
        chain.build_data.map.wf(),
        chain.build_data.map.map_width == TOWN_SIZE,
        chain.build_data.map.map_height == TOWN_SIZE,
        chain.build_data.map.depth == 0,
        forall|i: int|
            0 <= i < chain.build_data.map.map@.len() ==> chain.build_data.map.map@[i]
                == TileType::Wall,
        forall|i: int|
            0 <= i < chain.build_data.map.map@.len() ==> !chain.build_data.map.visible_tiles@[i]
                && !chain.build_data.map.revealed_tiles@[i] && !chain.build_data.map.blocked@[i],
        chain.build_data.spawn_list@.len() == 0,
        chain.build_data.starting_position is None,
{
    let mut builder: BuilderChain = BuilderChain::new(0, TOWN_SIZE, TOWN_SIZE);
    builder.start_with(InitialStage::Town(TownBuilder::new()));
    builder
}

/// A building template of the content registry: the name it is looked up
/// by and the names of what is spawned inside.
#[derive(Debug)]
pub struct Building {
    pub name: String,
    pub to_spawn: Vec<String>,
}

/// The town generation stage. Placing lots is rejection sampling, so the
/// builder carries the budget of candidates it may try.
#[derive(Debug)]
pub struct TownBuilder {
    pub lot_attempts: u32,
}

/// The map sizes on which lots can be sampled: each die needs a face.
pub open spec fn lot_dice_fit(width: int, height: int) -> bool {
    11 <= width && 11 <= height
}

/// The shape that a sampled lot can have.
pub open spec fn lot_shape(lot: Lot) -> bool {
    &&& 6 <= lot.2 <= 6 + MAX_W
    &&& 6 <= lot.3 <= 6 + MAX_H
}

/// What holds of every candidate lot that is sampled on a `width` by
/// `height` map.
pub open spec fn lot_candidate(width: int, height: int, lot: Lot) -> bool {
    &&& 4 <= lot.0 <= 4 * (width - 10)
    &&& 5 <= lot.1 <= 5 * (height - 10)
    &&& lot_shape(lot)
}

/// What holds of the lots that have been placed on a `width` by `height`
/// map whose free tiles were `free` before the first of them: each is a
/// candidate that lies on the map and covered free tiles only, and no two of
/// them touch.
pub open spec fn lots_placed(width: int, height: int, free: Set<usize>, lots: Seq<Lot>) -> bool {
    &&& forall|k: int|
        0 <= k < lots.len() ==> lot_candidate(width, height, #[trigger] lots[k]) && lot_on_grid(
            width,
            height,
            lots[k],
        ) && lot_free(width, height, free, lots[k])
    &&& forall|j: int, k: int|
        0 <= j < lots.len() && 0 <= k < lots.len() && j != k ==> lots_apart(
            #[trigger] lots[j],
            #[trigger] lots[k],
        )
}

/// Whether the tile with index `i` may carry a building: it keeps two cells
/// away from the west and north edges, four from the east edge and fifteen
/// from the south edge, where the road runs.
pub open spec fn buildable(width: int, height: int, i: int) -> bool {
    &&& 0 <= i < width * height
    &&& 2 <= cell_x(width, i) < width - 4
    &&& 2 <= cell_y(width, i) < height - 15
}

/// The tiles that may carry a building on an empty map.
pub open spec fn building_area(width: int, height: int) -> Set<usize> {
    Set::new(|i: usize| buildable(width, height, i as int))
}

/// The tiles after paving: every tile that is not road is concrete, and the
/// road is as it was.
pub open spec fn paved(tiles: Seq<TileType>) -> Seq<TileType> {
    Seq::new(
        tiles.len(),
        |i: int|
            if tiles[i] != TileType::Road {
                TileType::Concrete
            } else {
                tiles[i]
            },
    )
}

/// The free tiles without those that already carry road.
pub open spec fn without_roads(free: Set<usize>, tiles: Seq<TileType>) -> Set<usize> {
    Set::new(
        |i: usize| free.contains(i) && !(i < tiles.len() && tiles[i as int] == TileType::Road),
    )
}

/// The spawn requests after a citizen has been requested at each of the
/// first `count` locations, in their order.
pub open spec fn citizens_requested(
    before: Seq<(usize, String)>,
    after: Seq<(usize, String)>,
    locations: Seq<usize>,
    count: int,
) -> bool {
    &&& after.len() == before.len() + count
    &&& after.subrange(0, before.len() as int) == before
    &&& forall|k: int|
        0 <= k < count ==> requests(#[trigger] after[before.len() + k], locations[k], "Citizen"@)
}

/// Requests up to `wanted` citizens, one at each location from the front of
/// the list, and says how many were requested: `wanted`, or as many as there
/// are locations where those are fewer. The locations are a set in a fixed
/// order: no tile is listed twice, so no location is used twice.
pub fn spawn_citizens(build_data: &mut BuilderMap, locations: &Vec<usize>, wanted: usize) -> (count:
    usize)
    requires
        locations@.no_duplicates(),
    ensures
        count == if wanted <= locations@.len() {
            wanted as int
        } else {
            locations@.len() as int
        },
        final(build_data).map == old(build_data).map,
        final(build_data).starting_position == old(build_data).starting_position,
        citizens_requested(
            old(build_data).spawn_list@,
            final(build_data).spawn_list@,
            locations@,
            count as int,
        ),
{
    let ghost before = build_data.spawn_list@;
    let mut k: usize = 0;
    assert(build_data.spawn_list@.subrange(0, before.len() as int) =~= before);
    while k < wanted && k < locations.len()
        invariant
            k <= wanted,
            k <= locations@.len(),
            before == old(build_data).spawn_list@,
            build_data.map == old(build_data).map,
            build_data.starting_position == old(build_data).starting_position,
            citizens_requested(before, build_data.spawn_list@, locations@, k as int),
        decreases locations@.len() - k,
    {
        let ghost list = build_data.spawn_list@;
        build_data.spawn_list.push((locations[k], "Citizen".to_string()));
        proof {
            let after = build_data.spawn_list@;
            assert(after.subrange(0, before.len() as int) =~= list.subrange(
                0,
                before.len() as int,
            ));
            assert forall|j: int| 0 <= j < k + 1 implies requests(
                #[trigger] after[before.len() + j],
                locations@[j],
                "Citizen"@,
            ) by {
                if j < k {
                    assert(after[before.len() + j] == list[before.len() + j]);
                }
            }
        }
        k = k + 1;
    }
    k
}

/// Whether the footpaths have an origin on a `width` by `height` map for
/// every face of the die: the row two north of the start of the road lies on
/// the map, and so do all ten columns that the die can reach, from six to
/// fifteen east of the start.
pub open spec fn footpath_origin_sure(width: int, height: int, road_start: Point) -> bool {
    &&& 0 <= road_start.y - 2 < height
    &&& 0 <= road_start.x + 6
    &&& road_start.x + 15 < width
}

/// Whether the footpaths have an origin on a `width` by `height` map for
/// some face of the die: the row lies on the map, and so does at least one of
/// the ten columns that the die can reach.
pub open spec fn footpath_origin_possible(width: int, height: int, road_start: Point) -> bool {
    &&& 0 <= road_start.y - 2 < height
    &&& 0 <= road_start.x + 15
    &&& road_start.x + 6 < width
}

/// What the town builder has decided once the town stands: the lots, the
/// door of each lot, and what each building is to hold, all in the order in
/// which the lots were placed.
#[derive(Debug)]
pub struct TownLayout {
    pub lots: Vec<Lot>,
    pub doors: Vec<usize>,
    pub content: Vec<ContentRequest>,
}

/// The tiles of a finished town: the road is painted on the paved map, the
/// lots are floored and walled, a door is cut into each, and the middle of
/// the access room is the way down.
pub open spec fn town_tiles(
    tiles: Seq<TileType>,
    width: int,
    height: int,
    lanes: Seq<Vec<usize>>,
    lots: Seq<Lot>,
    doors: Seq<usize>,
) -> Seq<TileType> {
    let with_road = road_painted(tiles, lanes);
    let with_walls = walls_raised(floors_laid(with_road, width, height, lots), width, height);
    let with_doors = doors_cut(with_walls, doors);
    if lots.len() > ACCESS_ROOM_LOT {
        with_doors.update(
            cell_index(
                width,
                lot_center(lots[ACCESS_ROOM_LOT as int]).x as int,
                lot_center(lots[ACCESS_ROOM_LOT as int]).y as int,
            ),
            TileType::DownStairs,
        )
    } else {
        with_doors
    }
}

/// Each lot of a town has a closed ring of wall with exactly one door in it.
///
/// Take tiles that hold no rusted metal floor off the outermost ring of the
/// map, lots that keep their distance from one another and two cells from the
/// edges of the map, and for each lot a door on its boundary ring. Once the
/// lots are floored, the walls are raised and the doors are cut, every tile
/// on the boundary ring of a lot is wall, except for the lot's own door,
/// which is floor; and every tile strictly inside a lot is floor.
pub proof fn lemma_lots_walled_with_one_door(
    tiles: Seq<TileType>,
    width: int,
    height: int,
    lots: Seq<Lot>,
    doors: Seq<usize>,
)
    requires
        0 < width,
        tiles.len() == width * height,
        width * height <= usize::MAX,
        forall|i: int| inner_tile(width, height, i) ==> tiles[i] != TileType::RustedMetalFloor,
        doors.len() == lots.len(),
        forall|k: int|
            0 <= k < lots.len() ==> 0 < (#[trigger] lots[k]).2 && 0 < lots[k].3 && 2 <= lots[k].0
                && 2 <= lots[k].1 && lots[k].0 + lots[k].2 <= width - 2 && lots[k].1 + lots[k].3
                <= height - 2,
        forall|j: int, k: int|
            0 <= j < lots.len() && 0 <= k < lots.len() && j != k ==> lots_apart(
                #[trigger] lots[j],
                #[trigger] lots[k],
            ),
        forall|k: int|
            0 <= k < doors.len() ==> (#[trigger] doors[k]) < width * height && door_spot(
                lots[k],
                cell_x(width, doors[k] as int),
                cell_y(width, doors[k] as int),
            ),
    ensures
        forall|k: int, x: int, y: int|
            0 <= k < lots.len() && #[trigger] lot_ring(lots[k], x, y) ==> doors_cut(
                walls_raised(floors_laid(tiles, width, height, lots), width, height),
                doors,
            )[cell_index(width, x, y)] == if cell_index(width, x, y) == doors[k] {
                TileType::RustedMetalFloor
            } else {
                TileType::Wall
            },
        forall|k: int, x: int, y: int|
            0 <= k < lots.len() && #[trigger] lot_interior(lots[k], x, y) ==> doors_cut(
                walls_raised(floors_laid(tiles, width, height, lots), width, height),
                doors,
            )[cell_index(width, x, y)] == TileType::RustedMetalFloor,
{
    let floors = floors_laid(tiles, width, height, lots);
    let walls = walls_raised(floors, width, height);
    let after = doors_cut(walls, doors);
    assert forall|k: int, x: int, y: int| 0 <= k < lots.len() && lot_covers(lots[k], x, y) implies {
        let i = cell_index(width, x, y);
        &&& 0 <= i < tiles.len()
        &&& (lot_ring(lots[k], x, y) ==> after[i] == if i == doors[k] {
            TileType::RustedMetalFloor
        } else {
            TileType::Wall
        })
        &&& (lot_interior(lots[k], x, y) ==> after[i] == TileType::RustedMetalFloor)
    } by {
        let lot = lots[k];
        let i = cell_index(width, x, y);
        lemma_cell_index_in_range(width, height, x, y);
        lemma_cell_index_inverse(width, x, y);
        // The floors around this lot are what a lone lot needs.
        assert forall|cx: int, cy: int| #[trigger] lot_covers(lot, cx, cy) implies floors[cell_index(
            width,
            cx,
            cy,
        )] == TileType::RustedMetalFloor by {
            lemma_cell_index_in_range(width, height, cx, cy);
            lemma_cell_index_inverse(width, cx, cy);
            assert(index_covered(width, height, lots[k], cell_index(width, cx, cy)));
        }
        assert forall|cx: int, cy: int| #[trigger]
            lot_claims(lot, cx, cy) && !lot_covers(lot, cx, cy) implies floors[cell_index(
            width,
            cx,
            cy,
        )] != TileType::RustedMetalFloor by {
            let c = cell_index(width, cx, cy);
            lemma_cell_index_in_range(width, height, cx, cy);
            lemma_cell_index_inverse(width, cx, cy);
            if covered_by_any(width, height, lots, c) {
                let j = choose|j: int|
                    0 <= j < lots.len() && index_covered(width, height, #[trigger] lots[j], c);
                assert(lot_covers(lots[j], cx, cy));
                assert(lots_apart(lots[k], lots[j]));
            }
            assert(inner_tile(width, height, c));
        }
        lemma_lone_lot_is_walled(floors, width, height, lot);
        // No other lot's door lies on this lot.
        assert forall|j: int| 0 <= j < doors.len() && doors[j] == i implies j == k by {
            lemma_index_names_cell(width, height, x, y, doors[j] as int);
            if j != k {
                assert(lot_covers(lots[j], x, y));
                assert(lots_apart(lots[k], lots[j]));
                assert(lot_claims(lots[k], x, y));
            }
        }
        if doors.contains(i as usize) {
            let j = choose|j: int| 0 <= j < doors.len() && doors[j] == i as usize;
            assert(j == k);
        }
        if i == doors[k] {
            assert(doors.contains(i as usize));
            lemma_index_names_cell(width, height, x, y, doors[k] as int);
        }
        if lot_ring(lot, x, y) {
            assert(walls[i] == TileType::Wall);
        }
        if lot_interior(lot, x, y) {
            assert(walls[i] == TileType::RustedMetalFloor);
            if i == doors[k] {
                assert(lot_ring(lot, x, y));
            }
        }
    }
    assert forall|k: int, x: int, y: int|
        0 <= k < lots.len() && #[trigger] lot_ring(lots[k], x, y) implies after[cell_index(
        width,
        x,
        y,
    )] == if cell_index(width, x, y) == doors[k] {
        TileType::RustedMetalFloor
    } else {
        TileType::Wall
    } by {
        assert(lot_covers(lots[k], x, y));
    }
    assert forall|k: int, x: int, y: int|
        0 <= k < lots.len() && #[trigger] lot_interior(lots[k], x, y) implies after[cell_index(
        width,
        x,
        y,
    )] == TileType::RustedMetalFloor by {
        assert(lot_covers(lots[k], x, y));
    }
}

/// A finished town consists of closed rooms. Take any tiles, pave them, paint
/// any lanes as road, and build on them lots that lie in the building area,
/// keep their distance from one another and have a door each on their
/// boundary ring. Then every tile on the boundary ring of a lot is wall,
/// except for the lot's own door, which is floor; and every tile strictly
/// inside a lot is floor, except for the middle of the access room, which is
/// the way down.
pub proof fn lemma_town_is_walled(
    tiles: Seq<TileType>,
    width: int,
    height: int,
    lanes: Seq<Vec<usize>>,
    lots: Seq<Lot>,
    doors: Seq<usize>,
)
    requires
        0 < width <= i32::MAX,
        0 < height <= i32::MAX,
        tiles.len() == width * height,
        width * height <= usize::MAX,
        doors.len() == lots.len(),
        forall|k: int|
            0 <= k < lots.len() ==> 3 <= (#[trigger] lots[k]).2 && 3 <= lots[k].3 && lot_free(
                width,
                height,
                building_area(width, height),
                lots[k],
            ),
        forall|j: int, k: int|
            0 <= j < lots.len() && 0 <= k < lots.len() && j != k ==> lots_apart(
                #[trigger] lots[j],
                #[trigger] lots[k],
            ),
        forall|k: int|
            0 <= k < doors.len() ==> (#[trigger] doors[k]) < width * height && door_spot(
                lots[k],
                cell_x(width, doors[k] as int),
                cell_y(width, doors[k] as int),
            ),
    ensures
        forall|k: int, x: int, y: int|
            0 <= k < lots.len() && #[trigger] lot_ring(lots[k], x, y) ==> town_tiles(
                paved(tiles),
                width,
                height,
                lanes,
                lots,
                doors,
            )[cell_index(width, x, y)] == if cell_index(width, x, y) == doors[k] {
                TileType::RustedMetalFloor
            } else {
                TileType::Wall
            },
        forall|k: int, x: int, y: int|
            0 <= k < lots.len() && #[trigger] lot_interior(lots[k], x, y) ==> town_tiles(
                paved(tiles),
                width,
                height,
                lanes,
                lots,
                doors,
            )[cell_index(width, x, y)] == if k == ACCESS_ROOM_LOT && x == lot_center(lots[k]).x
                && y == lot_center(lots[k]).y {
                TileType::DownStairs
            } else {
                TileType::RustedMetalFloor
            },
{
    let base = road_painted(paved(tiles), lanes);
    let closed = doors_cut(
        walls_raised(floors_laid(base, width, height, lots), width, height),
        doors,
    );
    let town = town_tiles(paved(tiles), width, height, lanes, lots, doors);
    assert forall|i: int| inner_tile(width, height, i) implies base[i]
        != TileType::RustedMetalFloor by {}
    assert forall|k: int| 0 <= k < lots.len() implies 2 <= (#[trigger] lots[k]).0 && 2 <= lots[k].1
        && lots[k].0 + lots[k].2 <= width - 4 && lots[k].1 + lots[k].3 <= height - 15 by {
        let lot = lots[k];
        assert(lot_covers(lot, lot.0 as int, lot.1 as int));
        assert(lot_covers(lot, lot.0 + lot.2 - 1, lot.1 + lot.3 - 1));
        lemma_cell_index_in_range(width, height, lot.0 as int, lot.1 as int);
        lemma_cell_index_in_range(width, height, lot.0 + lot.2 - 1, lot.1 + lot.3 - 1);
        lemma_cell_index_inverse(width, lot.0 as int, lot.1 as int);
        lemma_cell_index_inverse(width, lot.0 + lot.2 - 1, lot.1 + lot.3 - 1);
        assert(building_area(width, height).contains(
            cell_index(width, lot.0 as int, lot.1 as int) as usize,
        ));
        assert(building_area(width, height).contains(
            cell_index(width, lot.0 + lot.2 - 1, lot.1 + lot.3 - 1) as usize,
        ));
    }
    lemma_lots_walled_with_one_door(base, width, height, lots, doors);
    assert forall|k: int, x: int, y: int| 0 <= k < lots.len() && lot_covers(lots[k], x, y) implies {
        let i = cell_index(width, x, y);
        &&& 0 <= i < tiles.len()
        &&& town[i] == if k == ACCESS_ROOM_LOT && x == lot_center(lots[k]).x && y == lot_center(
            lots[k],
        ).y {
            TileType::DownStairs
        } else {
            closed[i]
        }
    } by {
        let i = cell_index(width, x, y);
        lemma_cell_index_in_range(width, height, x, y);
        if lots.len() > ACCESS_ROOM_LOT {
            let room = lots[ACCESS_ROOM_LOT as int];
            let mx = lot_center(room).x as int;
            let my = lot_center(room).y as int;
            assert(2 <= room.0 && room.0 + room.2 <= width - 4);
            assert(mx == room.0 + room.2 / 2 && my == room.1 + room.3 / 2);
            assert(lot_interior(room, mx, my));
            assert(lot_covers(room, mx, my));
            lemma_cell_index_in_range(width, height, mx, my);
            lemma_index_names_cell(width, height, mx, my, i);
            lemma_cell_index_inverse(width, x, y);
            if i == cell_index(width, mx, my) && k != ACCESS_ROOM_LOT {
                assert(lots_apart(lots[k], room));
                assert(lot_claims(lots[k], mx, my));
            }
        }
    }
    assert forall|k: int, x: int, y: int|
        0 <= k < lots.len() && #[trigger] lot_ring(lots[k], x, y) implies town[cell_index(
        width,
        x,
        y,
    )] == if cell_index(width, x, y) == doors[k] {
        TileType::RustedMetalFloor
    } else {
        TileType::Wall
    } by {
        assert(lot_covers(lots[k], x, y));
    }
    assert forall|k: int, x: int, y: int|
        0 <= k < lots.len() && #[trigger] lot_interior(lots[k], x, y) implies town[cell_index(
        width,
        x,
        y,
    )] == if k == ACCESS_ROOM_LOT && x == lot_center(lots[k]).x && y == lot_center(lots[k]).y {
        TileType::DownStairs
    } else {
        TileType::RustedMetalFloor
    } by {
        assert(lot_covers(lots[k], x, y));
    }
}

impl TownBuilder {
    /// A town builder with the default budget of candidate lots.
    pub fn new() -> (b: Box<TownBuilder>)
        ensures
            b.lot_attempts == DEFAULT_LOT_ATTEMPTS,
    {
        Box::new(TownBuilder { lot_attempts: DEFAULT_LOT_ATTEMPTS })
    }

    /// Samples one candidate lot: the column of its corner from four dice
    /// and the row from five, each die with ten faces fewer than the map is
    /// wide or high, and its width and height from one die each. Most
    /// candidates lie off the map; they are what the retry budget is for.
    pub fn sample_lot(rng: &mut RandomNumberGenerator, width: i32, height: i32) -> (lot: Lot)
        requires
            lot_dice_fit(width as int, height as int),
        ensures
            lot_candidate(width as int, height as int, lot),
    {
        let bx: i32 = roll_total(rng, 4, width - 10);
        let by: i32 = roll_total(rng, 5, height - 10);
        let bw: i32 = roll_dice(rng, 1, MAX_W + 1) + 5;
        let bh: i32 = roll_dice(rng, 1, MAX_H + 1) + 5;
        (bx, by, bw, bh)
    }

    /// Places the candidate if it fits and says whether it did. A candidate
    /// that does not fit changes nothing.
    pub fn try_place_lot(map: &mut GridMap, available: &mut HashSet<usize>, lot: Lot) -> (placed:
        bool)
        requires
            old(map).wf(),
            0 < lot.2,
            0 < lot.3,
        ensures
            final(map).wf(),
            final(map).same_frame(old(map)),
            placed == lot_free(
                old(map).map_width as int,
                old(map).map_height as int,
                old(available)@,
                lot,
            ),
            placed ==> lot_on_grid(old(map).map_width as int, old(map).map_height as int, lot),
            final(map).map@ == if placed {
                floors_laid(
                    old(map).map@,
                    old(map).map_width as int,
                    old(map).map_height as int,
                    seq![lot],
                )
            } else {
                old(map).map@
            },
            final(available)@ == if placed {
                without_lots(
                    old(available)@,
                    old(map).map_width as int,
                    old(map).map_height as int,
                    seq![lot],
                )
            } else {
                old(available)@
            },
    {
        if lot_fits(map, available, lot) {
            proof {
                let w = map.map_width as int;
                let h = map.map_height as int;
                assert(lot_covers(lot, lot.0 as int, lot.1 as int));
                assert(lot_covers(lot, lot.0 + lot.2 - 1, lot.1 + lot.3 - 1));
            }
            claim_lot(map, available, lot);
            true
        } else {
            false
        }
    }

    /// Places the building lots and raises their walls.
    ///
    /// Candidates are sampled until `LOT_COUNT` of them have been placed or
    /// the budget is used up. A candidate is placed only where all of its
    /// tiles are still free; placing it floors its footprint and takes the
    /// footprint and its direct neighbours out of the free set. Once all lots
    /// stand, every floor tile that touches something else becomes wall.
    ///
    /// Which lots come back depends on the dice. Whatever they are, they lie
    /// on the map, fitted the tiles that were free at the start, keep their
    /// distance from one another, and the map and the free set are exactly
    /// what placing those lots gives. Where the budget runs out, the lots
    /// that were placed until then stand as floor without walls, and the same
    /// holds of them. Where no tile is free, nothing can be placed: the call
    /// fails and changes nothing.
    pub fn buildings(
        &mut self,
        rng: &mut RandomNumberGenerator,
        build_data: &mut BuilderMap,
        available: &mut HashSet<usize>,
    ) -> (r: Result<Vec<Lot>, GenerationError>)
        requires
            old(build_data).map.wf(),
        ensures
            final(self).lot_attempts == old(self).lot_attempts,
            final(build_data).map.wf(),
            final(build_data).only_tiles_differ(old(build_data)),
            r is Err ==> r->Err_0 == GenerationError::MapTooSmall || r->Err_0
                == GenerationError::LotsNotPlaced,
            r is Ok ==> old(self).lot_attempts >= LOT_COUNT,
            final(available)@.subset_of(old(available)@),
            r == Err::<Vec<Lot>, GenerationError>(GenerationError::MapTooSmall) <==> !lot_dice_fit(
                old(build_data).map.map_width as int,
                old(build_data).map.map_height as int,
            ),
            r == Err::<Vec<Lot>, GenerationError>(GenerationError::MapTooSmall) ==> final(build_data).map.map@
                == old(build_data).map.map@ && final(available)@ == old(available)@,
            r == Err::<Vec<Lot>, GenerationError>(GenerationError::LotsNotPlaced) ==> exists|
                placed: Seq<Lot>,
            |
                #![trigger floors_laid(old(build_data).map.map@, old(build_data).map.map_width as int, old(build_data).map.map_height as int, placed)]
                placed.len() < LOT_COUNT && lots_placed(
                    old(build_data).map.map_width as int,
                    old(build_data).map.map_height as int,
                    old(available)@,
                    placed,
                ) && final(build_data).map.map@ == floors_laid(
                    old(build_data).map.map@,
                    old(build_data).map.map_width as int,
                    old(build_data).map.map_height as int,
                    placed,
                ) && final(available)@ == without_lots(
                    old(available)@,
                    old(build_data).map.map_width as int,
                    old(build_data).map.map_height as int,
                    placed,
                ),
            old(available)@ == Set::<usize>::empty() ==> r is Err && final(build_data).map.map@
                == old(build_data).map.map@ && final(available)@ == old(available)@,
            r matches Ok(lots) ==> {
                let w = old(build_data).map.map_width as int;
                let h = old(build_data).map.map_height as int;
                &&& lots@.len() == LOT_COUNT
                &&& lots_placed(w, h, old(available)@, lots@)
                &&& final(available)@ == without_lots(old(available)@, w, h, lots@)
                &&& final(build_data).map.map@ == walls_raised(
                    floors_laid(old(build_data).map.map@, w, h, lots@),
                    w,
                    h,
                )
            },
    {
        let width: i32 = build_data.map.map_width;
        let height: i32 = build_data.map.map_height;
        if width < 11 || height < 11 {
            return Err(GenerationError::MapTooSmall);
        }
        let ghost w = width as int;
        let ghost h = height as int;
        let ghost tiles0 = build_data.map.map@;
        let ghost free0 = available@;
        let mut lots: Vec<Lot> = Vec::new();
        let mut attempts: u32 = 0;
        proof {
            assert(build_data.map.map@.len() == build_data.map.map.len());
            lemma_place_one_more(tiles0, free0, w, h, Seq::<Lot>::empty(), (0i32, 0i32, 0i32, 0i32));
            assert(lots@ =~= Seq::<Lot>::empty());
        }
        while lots.len() < LOT_COUNT && attempts < self.lot_attempts
            invariant
                self.lot_attempts == old(self).lot_attempts,
                build_data.map.wf(),
                build_data.only_tiles_differ(old(build_data)),
                width == w,
                height == h,
                w == build_data.map.map_width,
                h == build_data.map.map_height,
                lot_dice_fit(w, h),
                w * h <= usize::MAX,
                tiles0 == old(build_data).map.map@,
                free0 == old(available)@,
                lots@.len() <= LOT_COUNT,
                attempts <= self.lot_attempts,
                lots@.len() <= attempts,
                forall|k: int|
                    0 <= k < lots@.len() ==> lot_candidate(w, h, #[trigger] lots@[k])
                        && lot_on_grid(w, h, lots@[k]) && lot_free(w, h, free0, lots@[k]),
                forall|j: int, k: int|
                    0 <= j < k < lots@.len() ==> lots_apart(#[trigger] lots@[j], #[trigger] lots@[k]),
                available@ == without_lots(free0, w, h, lots@),
                build_data.map.map@ == floors_laid(tiles0, w, h, lots@),
            decreases self.lot_attempts - attempts,
        {
            attempts = attempts + 1;
            let lot: Lot = Self::sample_lot(rng, width, height);
            let ghost placed_before = lots@;
            if Self::try_place_lot(&mut build_data.map, available, lot) {
                proof {
                    lemma_fitting_lot_is_apart(free0, w, h, placed_before, lot);
                    lemma_place_one_more(tiles0, free0, w, h, placed_before, lot);
                }
                lots.push(lot);
            }
        }
        proof {
            assert forall|j: int, k: int|
                0 <= j < lots@.len() && 0 <= k < lots@.len() && j != k implies lots_apart(
                #[trigger] lots@[j],
                #[trigger] lots@[k],
            ) by {
                if k < j {
                    lemma_lots_apart_symmetric(lots@[k], lots@[j]);
                }
            }
            assert(lots_placed(w, h, free0, lots@));
            if free0 == Set::<usize>::empty() && lots@.len() > 0 {
                let lot = lots@[0];
                assert(lot_covers(lot, lot.0 as int, lot.1 as int));
            }
        }
        if lots.len() < LOT_COUNT {
            proof {
                assert(build_data.map.map@ == floors_laid(tiles0, w, h, lots@));
                if lots@.len() == 0 {
                    assert(lots@ =~= Seq::<Lot>::empty());
                }
            }
            return Err(GenerationError::LotsNotPlaced);
        }
        raise_walls(&mut build_data.map);
        Ok(lots)
    }

    /// Cuts one door into each lot, on a side and at a tile chosen by the
    /// dice, and requests a door entity there.
    ///
    /// Whatever the dice give, the door of a lot is a tile of that lot's
    /// boundary ring and never a corner; the doors come back in the order of
    /// the lots, and so do the spawn requests. Every lot has to be at least
    /// three tiles wide and high, so that each side has a tile between its
    /// corners.
    pub fn place_doors(
        &self,
        rng: &mut RandomNumberGenerator,
        build_data: &mut BuilderMap,
        buildings: &Vec<Lot>,
    ) -> (doors: Vec<usize>)
        requires
            old(build_data).map.wf(),
            forall|k: int|
                0 <= k < buildings@.len() ==> lot_on_grid(
                    old(build_data).map.map_width as int,
                    old(build_data).map.map_height as int,
                    #[trigger] buildings@[k],
                ) && buildings@[k].2 >= 3 && buildings@[k].3 >= 3,
        ensures
            final(build_data).map.wf(),
            final(build_data).map.same_frame(&old(build_data).map),
            final(build_data).starting_position == old(build_data).starting_position,
            doors@.len() == buildings@.len(),
            forall|k: int|
                0 <= k < doors@.len() ==> (#[trigger] doors@[k]) < old(build_data).map.map@.len()
                    && door_spot(
                    buildings@[k],
                    cell_x(old(build_data).map.map_width as int, doors@[k] as int),
                    cell_y(old(build_data).map.map_width as int, doors@[k] as int),
                ),
            final(build_data).map.map@ == doors_cut(old(build_data).map.map@, doors@),
            final(build_data).spawn_list@.len() == old(build_data).spawn_list@.len() + doors@.len(),
            final(build_data).spawn_list@.subrange(0, old(build_data).spawn_list@.len() as int)
                == old(build_data).spawn_list@,
            forall|k: int|
                0 <= k < doors@.len() ==> requests(
                    #[trigger] final(build_data).spawn_list@[old(build_data).spawn_list@.len() + k],
                    doors@[k],
                    "Door"@,
                ),
    {
        let ghost w = build_data.map.map_width as int;
        let ghost h = build_data.map.map_height as int;
        let ghost tiles0 = build_data.map.map@;
        let ghost spawns0 = build_data.spawn_list@;
        let mut doors: Vec<usize> = Vec::new();
        let mut k: usize = 0;
        assert(build_data.map.map@ =~= doors_cut(tiles0, doors@));
        assert(build_data.spawn_list@.subrange(0, spawns0.len() as int) =~= spawns0);
        while k < buildings.len()
            invariant
                k <= buildings@.len(),
                build_data.map.wf(),
                build_data.map.same_frame(&old(build_data).map),
                build_data.starting_position == old(build_data).starting_position,
                w == build_data.map.map_width,
                h == build_data.map.map_height,
                tiles0 == old(build_data).map.map@,
                spawns0 == old(build_data).spawn_list@,
                forall|j: int|
                    0 <= j < buildings@.len() ==> lot_on_grid(w, h, #[trigger] buildings@[j])
                        && buildings@[j].2 >= 3 && buildings@[j].3 >= 3,
                doors@.len() == k,
                forall|j: int|
                    0 <= j < doors@.len() ==> (#[trigger] doors@[j]) < tiles0.len() && door_spot(
                        buildings@[j],
                        cell_x(w, doors@[j] as int),
                        cell_y(w, doors@[j] as int),
                    ),
                build_data.map.map@ == doors_cut(tiles0, doors@),
                build_data.spawn_list@.len() == spawns0.len() + k,
                build_data.spawn_list@.subrange(0, spawns0.len() as int) == spawns0,
                forall|j: int|
                    0 <= j < doors@.len() ==> requests(
                        #[trigger] build_data.spawn_list@[spawns0.len() + j],
                        doors@[j],
                        "Door"@,
                    ),
            decreases buildings@.len() - k,
        {
            let lot: Lot = buildings[k];
            let side: Orientation = Orientation::get_random(rng);
            let choices: i32 = match side {
                Orientation::N | Orientation::S => lot.2 - 1,
                Orientation::E | Orientation::W => lot.3 - 1,
            };
            let roll: i32 = range(rng, 0, choices - 1);
            let p: Point = door_position(lot, side, roll);
            let idx: usize = build_data.map.xy_idx(p.x, p.y);
            let ghost doors_before = doors@;
            let ghost spawns_before = build_data.spawn_list@;
            let ghost tiles_before = build_data.map.map@;
            cut_door(build_data, idx);
            doors.push(idx);
            proof {
                lemma_cell_index_inverse(w, p.x as int, p.y as int);
                assert forall|u: usize| #[trigger]
                    doors@.contains(u) == (doors_before.contains(u) || u == idx) by {
                    if doors_before.contains(u) {
                        let j = choose|j: int| 0 <= j < doors_before.len() && doors_before[j] == u;
                        assert(doors@[j] == u);
                    }
                    if u == idx {
                        assert(doors@[k as int] == idx);
                    }
                }
                assert(build_data.map.map@.len() == build_data.map.map.len());
                assert forall|i: int| 0 <= i < tiles0.len() implies build_data.map.map@[i]
                    == doors_cut(tiles0, doors@)[i] by {
                    assert(tiles_before[i] == doors_cut(tiles0, doors_before)[i]);
                    assert(doors@.contains(i as usize) == (doors_before.contains(i as usize) || i as usize == idx));
                }
                assert(build_data.map.map@ =~= doors_cut(tiles0, doors@));
                assert(build_data.spawn_list@.subrange(0, spawns0.len() as int)
                    =~= spawns_before.subrange(0, spawns0.len() as int));
                assert forall|j: int| 0 <= j < doors@.len() implies requests(
                    #[trigger] build_data.spawn_list@[spawns0.len() + j],
                    doors@[j],
                    "Door"@,
                ) by {
                    if j < k {
                        assert(build_data.spawn_list@[spawns0.len() + j]
                            == build_data.spawn_list@.subrange(0, spawns_before.len() as int)[spawns0.len()
                            + j]);
                        assert(doors@[j] == doors_before[j]);
                    }
                }
            }
            k = k + 1;
        }
        doors
    }

    /// Collects the tiles that may carry a building on this map.
    pub fn building_tiles(map: &GridMap) -> (available: HashSet<usize>)
        requires
            map.wf(),
        ensures
            available@ == building_area(map.map_width as int, map.map_height as int),
    {
        let ghost w = map.map_width as int;
        let ghost h = map.map_height as int;
        let mut available: HashSet<usize> = HashSet::new();
        let mut y: i32 = 2;
        proof {
            assert(map.map@.len() == map.map.len());
        }
        while y < map.map_height - 4
            invariant
                map.wf(),
                w == map.map_width,
                h == map.map_height,
                w * h <= usize::MAX,
                2 <= y,
                forall|i: usize| #[trigger]
                    available@.contains(i) <==> buildable(w, h, i as int) && cell_y(w, i as int)
                        < y,
            decreases h - y,
        {
            let mut x: i32 = 2;
            while x < map.map_width - 2
                invariant
                    map.wf(),
                    w == map.map_width,
                    h == map.map_height,
                    w * h <= usize::MAX,
                    2 <= y < h - 4,
                    2 <= x,
                    forall|i: usize| #[trigger]
                        available@.contains(i) <==> buildable(w, h, i as int) && (cell_y(
                            w,
                            i as int,
                        ) < y || (cell_y(w, i as int) == y && cell_x(w, i as int) < x)),
                decreases w - x,
            {
                if y < map.map_height - 15 && x < map.map_width - 4 {
                    let idx: usize = map.xy_idx(x, y);
                    available.insert(idx);
                }
                proof {
                    assert forall|i: usize| #[trigger]
                        available@.contains(i) <==> buildable(w, h, i as int) && (cell_y(
                            w,
                            i as int,
                        ) < y || (cell_y(w, i as int) == y && cell_x(w, i as int) < x + 1)) by {
                        if i < w * h {
                            lemma_index_names_cell(w, h, x as int, y as int, i as int);
                        }
                    }
                }
                x = x + 1;
            }
            y = y + 1;
        }
        proof {
            assert(available@ =~= building_area(w, h));
        }
        available
    }

    /// Lays the base paving: every tile of the map that is not road becomes
    /// concrete, and every tile that is road leaves the free set.
    pub fn lay_concrete(&mut self, build_data: &mut BuilderMap, available: &mut HashSet<usize>)
        requires
            old(build_data).map.wf(),
        ensures
            final(self).lot_attempts == old(self).lot_attempts,
            final(build_data).map.wf(),
            final(build_data).only_tiles_differ(old(build_data)),
            final(build_data).map.map@ == paved(old(build_data).map.map@),
            final(available)@ == without_roads(old(available)@, old(build_data).map.map@),
            final(available)@.subset_of(old(available)@),
    {
        let ghost tiles0 = build_data.map.map@;
        let ghost free0 = available@;
        let count: usize = build_data.map.map.len();
        let mut idx: usize = 0;
        while idx < count
            invariant
                build_data.map.wf(),
                build_data.only_tiles_differ(old(build_data)),
                tiles0 == old(build_data).map.map@,
                free0 == old(available)@,
                count == tiles0.len(),
                idx <= count,
                forall|i: int|
                    0 <= i < tiles0.len() ==> #[trigger] build_data.map.map@[i] == if i < idx {
                        paved(tiles0)[i]
                    } else {
                        tiles0[i]
                    },
                forall|i: usize| #[trigger]
                    available@.contains(i) <==> free0.contains(i) && !(i < idx && tiles0[i as int]
                        == TileType::Road),
            decreases count - idx,
        {
            if build_data.map.map[idx] != TileType::Road {
                build_data.map.map[idx] = TileType::Concrete;
            } else {
                available.remove(&idx);
            }
            idx = idx + 1;
        }
        proof {
            assert(build_data.map.map@ =~= paved(tiles0));
            assert(available@ =~= without_roads(free0, tiles0));
        }
    }

    /// Fixes the two ends of a road from the two rows that were drawn for
    /// them: the road starts next to the west edge and ends next to the east
    /// edge.
    pub fn road_between(map: &GridMap, start_row: i32, end_row: i32) -> (plan: RoadPlan)
        requires
            map.map_width >= 2,
        ensures
            plan.start == (Point { x: 1, y: start_row }),
            plan.end == (Point { x: (map.map_width - 2) as i32, y: end_row }),
    {
        RoadPlan { start: Point::new(1, start_row), end: Point::new(map.map_width - 2, end_row) }
    }

    /// Draws the rows in which the road starts and ends. The start lies in
    /// the band of rows near the south edge, the end anywhere between the
    /// tenth row and the south edge. A map on which one of the road's lanes
    /// would leave the grid is rejected.
    pub fn plan_road(&self, rng: &mut RandomNumberGenerator, map: &GridMap) -> (r: Result<
        RoadPlan,
        GenerationError,
    >)
        requires
            map.wf(),
        ensures
            r is Ok <==> road_fits(map.map_width as int, map.map_height as int),
            r is Err ==> r->Err_0 == GenerationError::MapTooSmall,
            r matches Ok(plan) ==> road_planned(map.map_width as int, map.map_height as int, plan),
    {
        if map.map_width < 2 || map.map_height < 16 {
            return Err(GenerationError::MapTooSmall);
        }
        let roll: i32 = range(rng, map.map_height - 14, map.map_height - 5);
        let end_roll: i32 = range(rng, 10, map.map_height - 3);
        Ok(Self::road_between(map, roll, end_roll))
    }

    /// Lists the searches that make up the road: for each lane, the index
    /// of the tile to start from and of the tile to reach.
    pub fn road_searches(map: &GridMap, plan: &RoadPlan) -> (searches: Vec<(usize, usize)>)
        requires
            map.wf(),
            road_fits(map.map_width as int, map.map_height as int),
            road_planned(map.map_width as int, map.map_height as int, *plan),
        ensures
            searches@.len() == ROAD_LANES,
            forall|j: int|
                0 <= j < ROAD_LANES ==> (#[trigger] searches@[j]).0 == map.index_of(
                    plan.start.x as int,
                    plan.start.y + lane_offset(j),
                ) && searches@[j].1 == map.index_of(plan.end.x as int, plan.end.y + lane_offset(j))
                    && searches@[j].0 < map.map@.len() && searches@[j].1 < map.map@.len(),
    {
        let mut searches: Vec<(usize, usize)> = Vec::new();
        searches.push(
            (map.xy_idx(plan.start.x, plan.start.y), map.xy_idx(plan.end.x, plan.end.y)),
        );
        searches.push(
            (map.xy_idx(plan.start.x, plan.start.y - 1), map.xy_idx(plan.end.x, plan.end.y - 1)),
        );
        searches.push(
            (map.xy_idx(plan.start.x, plan.start.y + 1), map.xy_idx(plan.end.x, plan.end.y + 1)),
        );
        searches.push(
            (map.xy_idx(plan.start.x, plan.start.y + 2), map.xy_idx(plan.end.x, plan.end.y + 2)),
        );
        searches.push(
            (map.xy_idx(plan.start.x, plan.start.y - 2), map.xy_idx(plan.end.x, plan.end.y - 2)),
        );
        searches
    }

    /// Paints the road from the paths that were found for its lanes, given
    /// in the order of `road_searches`. The steps of the first
    /// `PAINTED_LANES` lanes become road; the steps of every lane leave the
    /// free set. A lane for which no path was found is empty and contributes
    /// nothing.
    pub fn paint_road(
        &self,
        build_data: &mut BuilderMap,
        available: &mut HashSet<usize>,
        lanes: &Vec<Vec<usize>>,
    )
        requires
            old(build_data).map.wf(),
        ensures
            final(build_data).map.wf(),
            final(build_data).only_tiles_differ(old(build_data)),
            final(build_data).map.map@ == road_painted(old(build_data).map.map@, lanes@),
            final(available)@ == without_lanes(old(available)@, lanes@),
            final(available)@.subset_of(old(available)@),
    {
        let ghost tiles0 = build_data.map.map@;
        let ghost free0 = available@;
        let mut j: usize = 0;
        while j < lanes.len()
            invariant
                j <= lanes@.len(),
                build_data.map.wf(),
                build_data.only_tiles_differ(old(build_data)),
                tiles0 == old(build_data).map.map@,
                free0 == old(available)@,
                forall|i: int|
                    0 <= i < tiles0.len() ==> #[trigger] build_data.map.map@[i] == if on_lane(
                        lanes@,
                        0,
                        if j < PAINTED_LANES {
                            j as int
                        } else {
                            PAINTED_LANES as int
                        },
                        i as usize,
                    ) {
                        TileType::Road
                    } else {
                        tiles0[i]
                    },
                forall|i: usize| #[trigger]
                    available@.contains(i) <==> free0.contains(i) && !on_lane(
                        lanes@,
                        0,
                        j as int,
                        i,
                    ),
            decreases lanes@.len() - j,
        {
            let ghost painted: int = if j < PAINTED_LANES {
                j as int
            } else {
                PAINTED_LANES as int
            };
            let ghost painted2: int = if j + 1 < PAINTED_LANES {
                j + 1
            } else {
                PAINTED_LANES as int
            };
            pave_lane(&mut build_data.map, available, &lanes[j], j < PAINTED_LANES);
            proof {
                assert forall|u: usize|
                    on_lane(lanes@, 0, j + 1, u) == (on_lane(lanes@, 0, j as int, u) || lanes@[j as int]@.contains(
                        u,
                    )) && on_lane(lanes@, 0, painted2, u) == (on_lane(lanes@, 0, painted, u) || (j
                        < PAINTED_LANES && lanes@[j as int]@.contains(u))) by {
                    if on_lane(lanes@, 0, j + 1, u) {
                        let m = choose|m: int|
                            0 <= m < j + 1 && 0 <= m < lanes@.len() && (#[trigger] lanes@[m])@.contains(
                                u,
                            );
                        if m < j {
                            assert(on_lane(lanes@, 0, j as int, u));
                        }
                    }
                    if on_lane(lanes@, 0, painted2, u) {
                        let m = choose|m: int|
                            0 <= m < painted2 && 0 <= m < lanes@.len() && (#[trigger] lanes@[m])@.contains(
                                u,
                            );
                        if m < painted {
                            assert(on_lane(lanes@, 0, painted, u));
                        }
                    }
                    if lanes@[j as int]@.contains(u) {
                        assert(on_lane(lanes@, 0, j + 1, u));
                        if j < PAINTED_LANES {
                            assert(on_lane(lanes@, 0, painted2, u));
                        }
                    }
                    if on_lane(lanes@, 0, j as int, u) {
                        let m = choose|m: int|
                            0 <= m < j && 0 <= m < lanes@.len() && (#[trigger] lanes@[m])@.contains(u);
                        assert(on_lane(lanes@, 0, j + 1, u));
                    }
                    if on_lane(lanes@, 0, painted, u) {
                        let m = choose|m: int|
                            0 <= m < painted && 0 <= m < lanes@.len() && (#[trigger] lanes@[m])@.contains(
                                u,
                            );
                        assert(on_lane(lanes@, 0, painted2, u));
                    }
                }
            }
            j = j + 1;
        }
        proof {
            assert forall|u: usize|
                on_lane(lanes@, 0, PAINTED_LANES as int, u) == on_lane(
                    lanes@,
                    0,
                    if j < PAINTED_LANES {
                        j as int
                    } else {
                        PAINTED_LANES as int
                    },
                    u,
                ) by {
                if on_lane(lanes@, 0, PAINTED_LANES as int, u) {
                    let m = choose|m: int|
                        0 <= m < PAINTED_LANES && 0 <= m < lanes@.len() && (#[trigger] lanes@[m])@.contains(
                            u,
                        );
                    assert(m < j);
                }
            }
            assert(build_data.map.map@ =~= road_painted(tiles0, lanes@));
            assert(available@ =~= without_lanes(free0, lanes@));
        }
    }

    /// Decides what each building holds and collects the tiles that its
    /// content may be put on.
    ///
    /// The first lot is the home, and the player starts in its middle. The
    /// next four lots get the four named archetypes, each once, in an order
    /// that the dice decide. The lot after those is the access room: its
    /// middle tile becomes the stairs down. Every further lot gets one of the
    /// four named archetypes again. The requests come back in the order of
    /// the lots; looking the archetypes up and spawning their content is left
    /// to the content registry.
    pub fn building_content(
        &mut self,
        build_data: &mut BuilderMap,
        buildings: &Vec<Lot>,
        rng: &mut RandomNumberGenerator,
    ) -> (content: Vec<ContentRequest>)
        requires
            old(build_data).map.wf(),
            forall|k: int|
                0 <= k < buildings@.len() ==> lot_on_grid(
                    old(build_data).map.map_width as int,
                    old(build_data).map.map_height as int,
                    #[trigger] buildings@[k],
                ),
        ensures
            final(self).lot_attempts == old(self).lot_attempts,
            final(build_data).map.wf(),
            final(build_data).map.same_frame(&old(build_data).map),
            final(build_data).spawn_list@ == old(build_data).spawn_list@,
            final(build_data).starting_position == if buildings@.len() > 0 {
                Some(lot_center(buildings@[0]))
            } else {
                old(build_data).starting_position
            },
            final(build_data).map.map@ == if buildings@.len() > ACCESS_ROOM_LOT {
                old(build_data).map.map@.update(
                    old(build_data).map.index_of(
                        lot_center(buildings@[ACCESS_ROOM_LOT as int]).x as int,
                        lot_center(buildings@[ACCESS_ROOM_LOT as int]).y as int,
                    ),
                    TileType::DownStairs,
                )
            } else {
                old(build_data).map.map@
            },
            content@.len() == buildings@.len(),
            forall|k: int|
                0 <= k < content@.len() ==> archetype_fits(k, (#[trigger] content@[k]).archetype)
                    && content@[k].tiles@ == interior_of(
                    old(build_data).map.map_width as int,
                    old(build_data).map.map_height as int,
                    buildings@[k],
                ),
            forall|a: int, b: int|
                1 <= a < b < ACCESS_ROOM_LOT && b < content@.len() ==> (#[trigger] content@[a]).archetype
                    != (#[trigger] content@[b]).archetype,
    {
        let ghost w = build_data.map.map_width as int;
        let ghost h = build_data.map.map_height as int;
        let ghost tiles0 = build_data.map.map@;
        let mut deck: ArchetypeDeck = ArchetypeDeck::new();
        let mut content: Vec<ContentRequest> = Vec::new();
        let mut k: usize = 0;
        while k < buildings.len()
            invariant
                self.lot_attempts == old(self).lot_attempts,
                k <= buildings@.len(),
                build_data.map.wf(),
                build_data.map.same_frame(&old(build_data).map),
                build_data.spawn_list@ == old(build_data).spawn_list@,
                w == build_data.map.map_width,
                h == build_data.map.map_height,
                tiles0 == old(build_data).map.map@,
                forall|j: int| 0 <= j < buildings@.len() ==> lot_on_grid(w, h, #[trigger] buildings@[j]),
                build_data.starting_position == if k > 0 {
                    Some(lot_center(buildings@[0]))
                } else {
                    old(build_data).starting_position
                },
                build_data.map.map@ == if k > ACCESS_ROOM_LOT {
                    tiles0.update(
                        old(build_data).map.index_of(
                            lot_center(buildings@[ACCESS_ROOM_LOT as int]).x as int,
                            lot_center(buildings@[ACCESS_ROOM_LOT as int]).y as int,
                        ),
                        TileType::DownStairs,
                    )
                } else {
                    tiles0
                },
                deck.wf(),
                deck.home_dealt == (k > 0),
                deck.access_dealt == (k > ACCESS_ROOM_LOT),
                1 <= k <= ACCESS_ROOM_LOT ==> deck.remaining@.len() == ACCESS_ROOM_LOT - k,
                content@.len() == k,
                forall|j: int|
                    0 <= j < content@.len() ==> archetype_fits(j, (#[trigger] content@[j]).archetype)
                        && content@[j].tiles@ == interior_of(w, h, buildings@[j]),
                forall|a: int, b: int|
                    1 <= a < b < ACCESS_ROOM_LOT && b < content@.len() ==> (#[trigger] content@[a]).archetype
                        != (#[trigger] content@[b]).archetype,
                forall|a: int|
                    1 <= a < ACCESS_ROOM_LOT && a < content@.len() ==> !deck.remaining@.contains(
                        (#[trigger] content@[a]).archetype,
                    ),
            decreases buildings@.len() - k,
        {
            let lot: Lot = buildings[k];
            let options: usize = deck.pick_range();
            let pick: usize = if options > 0 {
                range(rng, 0, options as i32) as usize
            } else {
                0
            };
            let ghost content_before = content@;
            let archetype: Archetype = deck.deal(pick);
            let middle: Point = center_of(lot);
            match archetype {
                Archetype::Home => {
                    build_data.starting_position = Some(middle);
                },
                Archetype::AccessRoom => {
                    let at: usize = build_data.map.xy_idx(middle.x, middle.y);
                    build_data.map.map[at] = TileType::DownStairs;
                },
                _ => {},
            }
            let tiles: HashSet<usize> = interior_tiles(&build_data.map, lot);
            content.push(ContentRequest { archetype, tiles });
            proof {
                assert forall|a: int|
                    1 <= a < ACCESS_ROOM_LOT && a < content@.len() implies !deck.remaining@.contains(
                    (#[trigger] content@[a]).archetype,
                ) by {
                    if a < k {
                        assert(content@[a] == content_before[a]);
                    }
                }
                assert forall|a: int, b: int|
                    1 <= a < b < ACCESS_ROOM_LOT && b < content@.len() implies (#[trigger] content@[a]).archetype
                    != (#[trigger] content@[b]).archetype by {
                    assert(content@[a] == content_before[a]);
                    if b < k {
                        assert(content@[b] == content_before[b]);
                    }
                }
            }
            k = k + 1;
        }
        content
    }

    /// Spawns the townsfolk: two six-sided dice plus four citizens, one at
    /// each of the valid locations from the front of the list, and fewer
    /// where the locations run out. Returns how many were requested.
    ///
    /// The dice ask for 6 to 16 citizens, so 6 to 16 are requested where
    /// there are at least 16 locations, and never more than there are
    /// locations. No tile is listed twice among the locations, so each
    /// citizen gets a location of its own.
    pub fn spawn_townsfolk(
        &self,
        rng: &mut RandomNumberGenerator,
        build_data: &mut BuilderMap,
        valid_locations: &Vec<usize>,
    ) -> (count: usize)
        requires
            valid_locations@.no_duplicates(),
        ensures
            count <= 16,
            count <= valid_locations@.len(),
            count >= 6 || count == valid_locations@.len(),
            final(build_data).map == old(build_data).map,
            final(build_data).starting_position == old(build_data).starting_position,
            citizens_requested(
                old(build_data).spawn_list@,
                final(build_data).spawn_list@,
                valid_locations@,
                count as int,
            ),
    {
        let roll: i32 = roll_dice(rng, 2, 6) + 4;
        spawn_citizens(build_data, valid_locations, roll as usize)
    }

    /// The map that footpaths are routed on: a copy of the town's map on
    /// which every door is wall, so that no path runs through a building. The
    /// blocked overlay of the copy is rebuilt from the town's tiles as they
    /// are; the town's own map is not touched.
    pub fn footpath_map(map: &GridMap, doors: &Vec<usize>) -> (routing: GridMap)
        requires
            map.wf(),
        ensures
            routing.wf(),
            routing.map_width == map.map_width,
            routing.map_height == map.map_height,
            routing.depth == map.depth,
            routing.visible_tiles@ == map.visible_tiles@,
            routing.revealed_tiles@ == map.revealed_tiles@,
            routing.map@ == filled(map.map@, doors@, TileType::Wall),
            forall|i: int|
                0 <= i < routing.blocked@.len() ==> routing.blocked@[i] == !map.map@[i].walkable(),
    {
        let mut routing: GridMap = map.clone();
        routing.populate_blocked();
        routing.fill(doors, TileType::Wall);
        routing
    }

    /// The tile from which the footpaths set out: some way east of the start
    /// of the road, as far as the die says, and two rows north of it. `None`
    /// where that is no tile of the map.
    pub fn footpath_origin(map: &GridMap, road_start: Point, roll: i32) -> (origin: Option<usize>)
        requires
            map.wf(),
        ensures
            origin is Some <==> map.contains_cell(road_start.x + roll + 5, road_start.y - 2),
            origin is Some ==> origin->0 == map.index_of(road_start.x + roll + 5, road_start.y - 2)
                && origin->0 < map.map@.len(),
    {
        let x: i64 = road_start.x as i64 + roll as i64 + 5;
        let y: i64 = road_start.y as i64 - 2;
        if 0 <= x && x < map.map_width as i64 && 0 <= y && y < map.map_height as i64 {
            Some(map.xy_idx(x as i32, y as i32))
        } else {
            None
        }
    }

    /// Rolls the die for the footpaths' origin, a ten-sided one, and gives
    /// the tile that lies that many columns and five more east of the start
    /// of the road, two rows north of it.
    ///
    /// Where that tile lies on the map whatever the die shows, there is an
    /// origin; where it lies off the map whatever the die shows, there is
    /// none. In between the die decides. An origin that comes back is the
    /// tile of that row in one of the ten columns that the die can reach.
    pub fn roll_footpath_origin(
        &self,
        rng: &mut RandomNumberGenerator,
        map: &GridMap,
        road_start: Point,
    ) -> (origin: Option<usize>)
        requires
            map.wf(),
        ensures
            footpath_origin_sure(map.map_width as int, map.map_height as int, road_start)
                ==> origin is Some,
            !footpath_origin_possible(map.map_width as int, map.map_height as int, road_start)
                ==> origin is None,
            origin is Some ==> origin->0 == map.index_of(
                cell_x(map.map_width as int, origin->0 as int),
                road_start.y - 2,
            ),
            origin is Some ==> origin->0 < map.map@.len() && cell_y(
                map.map_width as int,
                origin->0 as int,
            ) == road_start.y - 2 && road_start.x + 6 <= cell_x(
                map.map_width as int,
                origin->0 as int,
            ) <= road_start.x + 15,
    {
        let roll: i32 = roll_dice(rng, 1, 10);
        proof {
            if 0 <= road_start.x + roll + 5 < map.map_width {
                lemma_cell_index_inverse(
                    map.map_width as int,
                    road_start.x + roll + 5,
                    road_start.y - 2,
                );
            }
        }
        Self::footpath_origin(map, road_start, roll)
    }

    /// Paints one routed path as footpath. A step that names no tile of the
    /// map is passed over; an empty path, which stands for a door that cannot
    /// be reached, changes nothing.
    pub fn draw_footpath(&self, build_data: &mut BuilderMap, path: &Vec<usize>)
        requires
            old(build_data).map.wf(),
        ensures
            final(build_data).map.wf(),
            final(build_data).only_tiles_differ(old(build_data)),
            final(build_data).map.map@ == filled(
                old(build_data).map.map@,
                path@,
                TileType::Footpath,
            ),
    {
        build_data.map.fill(path, TileType::Footpath);
    }

    /// The first part of building a town, up to the point where the road has
    /// to be routed: paves the map, collects the tiles that may carry a
    /// building, and plans the road.
    ///
    /// A map that is too small for the road is rejected before anything is
    /// changed.
    pub fn prepare(&mut self, rng: &mut RandomNumberGenerator, build_data: &mut BuilderMap) -> (r:
        Result<(HashSet<usize>, RoadPlan), GenerationError>)
        requires
            old(build_data).map.wf(),
        ensures
            final(self).lot_attempts == old(self).lot_attempts,
            final(build_data).map.wf(),
            final(build_data).only_tiles_differ(old(build_data)),
            r is Ok <==> road_fits(
                old(build_data).map.map_width as int,
                old(build_data).map.map_height as int,
            ),
            r is Err ==> r->Err_0 == GenerationError::MapTooSmall && final(build_data).map.map@
                == old(build_data).map.map@,
            r matches Ok((available, plan)) ==> {
                let w = old(build_data).map.map_width as int;
                let h = old(build_data).map.map_height as int;
                &&& road_planned(w, h, plan)
                &&& final(build_data).map.map@ == paved(old(build_data).map.map@)
                &&& available@ == without_roads(building_area(w, h), old(build_data).map.map@)
            },
    {
        if build_data.map.map_width < 2 || build_data.map.map_height < 16 {
            return Err(GenerationError::MapTooSmall);
        }
        let mut available: HashSet<usize> = Self::building_tiles(&build_data.map);
        self.lay_concrete(build_data, &mut available);
        match self.plan_road(rng, &build_data.map) {
            Ok(plan) => Ok((available, plan)),
            Err(e) => Err(e),
        }
    }

    /// The second part of building a town, once the lanes of the road have
    /// been routed: paints the road, places the lots and raises their walls,
    /// cuts the doors, and decides what the buildings hold.
    ///
    /// The layout that comes back says what the dice decided, and the map,
    /// the free tiles and the spawn requests are exactly what that layout
    /// gives.
    pub fn develop(
        &mut self,
        rng: &mut RandomNumberGenerator,
        build_data: &mut BuilderMap,
        available: &mut HashSet<usize>,
        lanes: &Vec<Vec<usize>>,
    ) -> (r: Result<TownLayout, GenerationError>)
        requires
            old(build_data).map.wf(),
        ensures
            final(self).lot_attempts == old(self).lot_attempts,
            final(build_data).map.wf(),
            final(build_data).map.same_frame(&old(build_data).map),
            r is Err ==> r->Err_0 == GenerationError::MapTooSmall || r->Err_0
                == GenerationError::LotsNotPlaced,
            r is Err ==> final(build_data).spawn_list@ == old(build_data).spawn_list@,
            r is Err ==> final(build_data).starting_position == old(build_data).starting_position,
            r == Err::<TownLayout, GenerationError>(GenerationError::MapTooSmall) <==> !lot_dice_fit(
                old(build_data).map.map_width as int,
                old(build_data).map.map_height as int,
            ),
            r == Err::<TownLayout, GenerationError>(GenerationError::MapTooSmall) ==> final(build_data).map.map@
                == road_painted(old(build_data).map.map@, lanes@) && final(available)@
                == without_lanes(old(available)@, lanes@),
            r == Err::<TownLayout, GenerationError>(GenerationError::LotsNotPlaced) ==> exists|
                placed: Seq<Lot>,
            |
                #![trigger floors_laid(road_painted(old(build_data).map.map@, lanes@), old(build_data).map.map_width as int, old(build_data).map.map_height as int, placed)]
                placed.len() < LOT_COUNT && lots_placed(
                    old(build_data).map.map_width as int,
                    old(build_data).map.map_height as int,
                    without_lanes(old(available)@, lanes@),
                    placed,
                ) && final(build_data).map.map@ == floors_laid(
                    road_painted(old(build_data).map.map@, lanes@),
                    old(build_data).map.map_width as int,
                    old(build_data).map.map_height as int,
                    placed,
                ) && final(available)@ == without_lots(
                    without_lanes(old(available)@, lanes@),
                    old(build_data).map.map_width as int,
                    old(build_data).map.map_height as int,
                    placed,
                ),
            old(available)@ == Set::<usize>::empty() ==> r is Err && final(build_data).map.map@
                == road_painted(old(build_data).map.map@, lanes@) && final(available)@ == old(
                available,
            )@,
            final(available)@.subset_of(old(available)@),
            r matches Ok(layout) ==> {
                let w = old(build_data).map.map_width as int;
                let h = old(build_data).map.map_height as int;
                let free = without_lanes(old(available)@, lanes@);
                let lots = layout.lots@;
                let doors = layout.doors@;
                let content = layout.content@;
                let spawns = old(build_data).spawn_list@;
                &&& lots.len() == LOT_COUNT
                &&& doors.len() == LOT_COUNT
                &&& content.len() == LOT_COUNT
                &&& lots_placed(w, h, free, lots)
                &&& forall|k: int|
                    0 <= k < doors.len() ==> (#[trigger] doors[k]) < w * h && door_spot(
                        lots[k],
                        cell_x(w, doors[k] as int),
                        cell_y(w, doors[k] as int),
                    )
                &&& forall|k: int|
                    0 <= k < content.len() ==> archetype_fits(k, (#[trigger] content[k]).archetype)
                        && content[k].tiles@ == interior_of(w, h, lots[k])
                &&& forall|a: int, b: int|
                    1 <= a < b < ACCESS_ROOM_LOT ==> (#[trigger] content[a]).archetype
                        != (#[trigger] content[b]).archetype
                &&& final(available)@ == without_lots(free, w, h, lots)
                &&& final(build_data).map.map@ == town_tiles(
                    old(build_data).map.map@,
                    w,
                    h,
                    lanes@,
                    lots,
                    doors,
                )
                &&& final(build_data).starting_position == Some(lot_center(lots[0]))
                &&& final(build_data).spawn_list@.len() == spawns.len() + LOT_COUNT
                &&& final(build_data).spawn_list@.subrange(0, spawns.len() as int) == spawns
                &&& forall|k: int|
                    0 <= k < doors.len() ==> requests(
                        #[trigger] final(build_data).spawn_list@[spawns.len() + k],
                        doors[k],
                        "Door"@,
                    )
            },
    {
        self.paint_road(build_data, available, lanes);
        proof {
            if old(available)@ == Set::<usize>::empty() {
                assert(available@ =~= Set::<usize>::empty());
            }
        }
        let lots: Vec<Lot> = match self.buildings(rng, build_data, available) {
            Ok(lots) => lots,
            Err(e) => {
                return Err(e);
            },
        };
        let doors: Vec<usize> = self.place_doors(rng, build_data, &lots);
        let content: Vec<ContentRequest> = self.building_content(build_data, &lots, rng);
        Ok(TownLayout { lots, doors, content })
    }
}

} // verus!
