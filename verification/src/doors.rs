//! The doors of the buildings: which tiles of a lot can take a door, and what
//! cutting one does.

use vstd::prelude::*;
use bracket_lib::random::RandomNumberGenerator;
use crate::builder::{requests, BuilderMap};
use crate::lots::{lot_corner, lot_ring, Lot};
use crate::map::Point;
use crate::random::roll_dice;
use crate::tile::TileType;

verus! {

/// The side of a lot that its door is cut into.
#[derive(Clone, Copy, Debug, PartialEq, Eq, Structural)]
pub enum Orientation {
    N,
    E,
    S,
    W,
}

impl Orientation {
    /// The side that a roll of a four-sided die stands for.
    pub open spec fn of_roll(roll: int) -> Orientation {
        if roll == 1 {
            Orientation::N
        } else if roll == 2 {
            Orientation::E
        } else if roll == 3 {
            Orientation::S
        } else {
            Orientation::W
        }
    }

    /// Turns a roll of a four-sided die into a side: 1 is north, 2 east,
    /// 3 south, and anything else west.
    pub fn from_roll(roll: i32) -> (side: Orientation)
        ensures
            side == Orientation::of_roll(roll as int),
    {
        match roll {
            1 => Orientation::N,
            2 => Orientation::E,
            3 => Orientation::S,
            _ => Orientation::W,
        }
    }

    /// Picks one of the four sides by a roll of a four-sided die.
    pub fn get_random(rng: &mut RandomNumberGenerator) -> (side: Orientation)
        ensures
            exists|roll: int| 1 <= roll <= 4 && side == Orientation::of_roll(roll),
    {
        let roll: i32 = roll_dice(rng, 1, 4);
        Orientation::from_roll(roll)
    }
}

/// How many tiles of a side can take the door: the side without its two
/// corners.
pub open spec fn door_choices(lot: Lot, side: Orientation) -> int {
    match side {
        Orientation::N | Orientation::S => lot.2 - 2,
        Orientation::E | Orientation::W => lot.3 - 2,
    }
}

/// The cell of the door that is cut into `side` at `offset` tiles past the
/// tile next to the side's first corner.
pub open spec fn door_cell(lot: Lot, side: Orientation, offset: int) -> (int, int) {
    match side {
        Orientation::N => (lot.0 + 1 + offset, lot.1 as int),
        Orientation::E => (lot.0 + lot.2 - 1, lot.1 + 1 + offset),
        Orientation::S => (lot.0 + 1 + offset, lot.1 + lot.3 - 1),
        Orientation::W => (lot.0 as int, lot.1 + 1 + offset),
    }
}

/// Where a door can be: on the boundary ring of the lot, but not in a
/// corner.
pub open spec fn door_spot(lot: Lot, x: int, y: int) -> bool {
    lot_ring(lot, x, y) && !lot_corner(lot, x, y)
}

/// The tiles after a door has been cut at each index of `doors`: those tiles
/// are passable floor, every other tile is as before.
pub open spec fn doors_cut(tiles: Seq<TileType>, doors: Seq<usize>) -> Seq<TileType> {
    Seq::new(
        tiles.len(),
        |i: int|
            if doors.contains(i as usize) {
                TileType::RustedMetalFloor
            } else {
                tiles[i]
            },
    )
}

/// The cell that a door takes on a given side of a lot.
pub fn door_position(lot: Lot, side: Orientation, offset: i32) -> (p: Point)
    requires
        0 <= lot.0,
        0 <= lot.1,
        0 < lot.2,
        0 < lot.3,
        lot.0 + lot.2 <= i32::MAX,
        lot.1 + lot.3 <= i32::MAX,
        0 <= offset < door_choices(lot, side),
    ensures
        (p.x as int, p.y as int) == door_cell(lot, side, offset as int),
        door_spot(lot, p.x as int, p.y as int),
{
    let (bx, by, bw, bh) = lot;
    match side {
        Orientation::N => Point::new(bx + 1 + offset, by),
        Orientation::E => Point::new(bx + bw - 1, by + 1 + offset),
        Orientation::S => Point::new(bx + 1 + offset, by + bh - 1),
        Orientation::W => Point::new(bx, by + 1 + offset),
    }
}

/// Cuts one door: the tile becomes passable floor and a door entity is
/// requested there.
pub fn cut_door(build_data: &mut BuilderMap, idx: usize)
    requires
        old(build_data).map.wf(),
        idx < old(build_data).map.map@.len(),
    ensures
        final(build_data).map.wf(),
        final(build_data).map.same_frame(&old(build_data).map),
        final(build_data).starting_position == old(build_data).starting_position,
        final(build_data).map.map@ == old(build_data).map.map@.update(
            idx as int,
            TileType::RustedMetalFloor,
        ),
        final(build_data).spawn_list@.len() == old(build_data).spawn_list@.len() + 1,
        final(build_data).spawn_list@.subrange(0, old(build_data).spawn_list@.len() as int) == old(
            build_data,
        ).spawn_list@,
        requests(final(build_data).spawn_list@.last(), idx, "Door"@),
{
    build_data.map.map[idx] = TileType::RustedMetalFloor;
    build_data.spawn_list.push((idx, "Door".to_string()));
    assert(final(build_data).spawn_list@.subrange(0, old(build_data).spawn_list@.len() as int)
        =~= old(build_data).spawn_list@);
}

} // verus!
