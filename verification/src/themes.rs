//! Which glyph a wall is drawn with. A wall joins up with the walls next to
//! it that the player has seen, so the glyph depends on those neighbours.

use vstd::prelude::*;
use crate::map::GridMap;
use crate::tile::TileType;

verus! {

/// The glyph of a wall on the outermost ring of the map, where the
/// neighbours are not looked at.
pub const BORDER_WALL_GLYPH: u8 = 35;

/// Whether the tile at `(x, y)` is a wall that the player has seen.
pub open spec fn revealed_wall(map: &GridMap, x: int, y: int) -> bool {
    map.tile_at(x, y) == TileType::Wall && map.revealed_tiles@[map.index_of(x, y)]
}

/// The neighbours of `(x, y)` that are revealed walls, as a sum: 1 for the
/// one to the north, 2 for the south, 4 for the west and 8 for the east.
pub open spec fn wall_mask(map: &GridMap, x: int, y: int) -> int {
    (if revealed_wall(map, x, y - 1) {
        1int
    } else {
        0int
    }) + (if revealed_wall(map, x, y + 1) {
        2int
    } else {
        0int
    }) + (if revealed_wall(map, x - 1, y) {
        4int
    } else {
        0int
    }) + (if revealed_wall(map, x + 1, y) {
        8int
    } else {
        0int
    })
}

/// The code page 437 glyph for each combination of neighbouring walls.
pub open spec fn mask_glyph(mask: int) -> u8 {
    if mask == 0 {
        9
    } else if mask == 1 || mask == 2 || mask == 3 {
        186
    } else if mask == 4 || mask == 8 || mask == 12 {
        205
    } else if mask == 5 {
        188
    } else if mask == 6 {
        187
    } else if mask == 7 {
        185
    } else if mask == 9 {
        200
    } else if mask == 10 {
        201
    } else if mask == 11 {
        204
    } else if mask == 13 {
        202
    } else if mask == 14 {
        203
    } else if mask == 15 {
        206
    } else {
        35
    }
}

/// Whether `(x, y)` lies on the outermost ring of the map or off the map.
pub open spec fn on_border(map: &GridMap, x: int, y: int) -> bool {
    x < 1 || x > map.map_width - 2 || y < 1 || y > map.map_height - 2
}

/// The glyph of the wall at `(x, y)`: the border glyph on the outermost ring
/// of the map and beyond, and otherwise the glyph that joins the wall to its
/// revealed neighbours.
pub fn wall_glyph(map: &GridMap, x: i32, y: i32) -> (glyph: u8)
    requires
        map.wf(),
    ensures
        glyph == if on_border(map, x as int, y as int) {
            BORDER_WALL_GLYPH
        } else {
            mask_glyph(wall_mask(map, x as int, y as int))
        },
{
    if x < 1 || x > map.map_width - 2 || y < 1 || y > map.map_height - 2 {
        return BORDER_WALL_GLYPH;
    }
    let mut mask: u8 = 0;
    if is_revealed_and_wall(map, x, y - 1) {
        mask += 1;
    }
    if is_revealed_and_wall(map, x, y + 1) {
        mask += 2;
    }
    if is_revealed_and_wall(map, x - 1, y) {
        mask += 4;
    }
    if is_revealed_and_wall(map, x + 1, y) {
        mask += 8;
    }
    assert(mask == wall_mask(map, x as int, y as int));
    match mask {
        0 => 9,
        1 => 186,
        2 => 186,
        3 => 186,
        4 => 205,
        5 => 188,
        6 => 187,
        7 => 185,
        8 => 205,
        9 => 200,
        10 => 201,
        11 => 204,
        12 => 205,
        13 => 202,
        14 => 203,
        15 => 206,
        _ => 35,
    }
}

/// Whether the tile at `(x, y)` is a wall that the player has seen.
pub fn is_revealed_and_wall(map: &GridMap, x: i32, y: i32) -> (r: bool)
    requires
        map.wf(),
        map.contains_cell(x as int, y as int),
    ensures
        r == revealed_wall(map, x as int, y as int),
{
    let idx: usize = map.xy_idx(x, y);
    map.map[idx] == TileType::Wall && map.revealed_tiles[idx]
}

} // verus!
