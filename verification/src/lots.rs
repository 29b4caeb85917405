//! Building lots: axis-aligned rectangles of tiles, the margin each one
//! claims around itself, and what placing one does to the map and to the set
//! of tiles that are still free.

use vstd::prelude::*;
use std::collections::HashSet;
use crate::map::{cell_index, cell_x, cell_y, in_grid, lemma_cell_index_inverse, lemma_index_has_cell, GridMap};
use crate::tile::TileType;

verus! {

broadcast use vstd::std_specs::hash::group_hash_axioms;

/// A lot as `(x, y, width, height)`: the rectangle of the cells `(cx, cy)`
/// with `x <= cx < x + width` and `y <= cy < y + height`.
pub type Lot = (i32, i32, i32, i32);

/// Whether the cell `(x, y)` belongs to the lot's footprint.
pub open spec fn lot_covers(lot: Lot, x: int, y: int) -> bool {
    lot.0 <= x < lot.0 + lot.2 && lot.1 <= y < lot.1 + lot.3
}

/// Whether the lot claims the cell `(x, y)`: the cell belongs to the
/// footprint or is the neighbour of a footprint cell to the west, east, north
/// or south. The diagonal neighbours of the four corners are not claimed.
pub open spec fn lot_claims(lot: Lot, x: int, y: int) -> bool {
    ||| lot_covers(lot, x, y)
    ||| lot_covers(lot, x - 1, y)
    ||| lot_covers(lot, x + 1, y)
    ||| lot_covers(lot, x, y - 1)
    ||| lot_covers(lot, x, y + 1)
}

/// A lot that is not empty and lies on a `width` by `height` grid.
pub open spec fn lot_on_grid(width: int, height: int, lot: Lot) -> bool {
    &&& 0 <= lot.0
    &&& 0 <= lot.1
    &&& 0 < lot.2
    &&& 0 < lot.3
    &&& lot.0 + lot.2 <= width
    &&& lot.1 + lot.3 <= height
}

/// Whether the lot is on the boundary ring of its own footprint at `(x, y)`.
pub open spec fn lot_ring(lot: Lot, x: int, y: int) -> bool {
    &&& lot_covers(lot, x, y)
    &&& (x == lot.0 || x == lot.0 + lot.2 - 1 || y == lot.1 || y == lot.1 + lot.3 - 1)
}

/// Whether `(x, y)` is one of the four corner cells of the lot.
pub open spec fn lot_corner(lot: Lot, x: int, y: int) -> bool {
    &&& (x == lot.0 || x == lot.0 + lot.2 - 1)
    &&& (y == lot.1 || y == lot.1 + lot.3 - 1)
}

/// Whether `(x, y)` lies inside the lot and off its boundary ring.
pub open spec fn lot_interior(lot: Lot, x: int, y: int) -> bool {
    lot.0 < x < lot.0 + lot.2 - 1 && lot.1 < y < lot.1 + lot.3 - 1
}

/// Two lots keep their distance: no cell of `b` is claimed by `a`, so the
/// footprints do not meet and no cell of one is a direct neighbour of a cell
/// of the other.
pub open spec fn lots_apart(a: Lot, b: Lot) -> bool {
    forall|x: int, y: int| #[trigger] lot_covers(b, x, y) ==> !lot_claims(a, x, y)
}

/// Whether the tile with index `i` belongs to the lot's footprint.
pub open spec fn index_covered(width: int, height: int, lot: Lot, i: int) -> bool {
    0 <= i < width * height && lot_covers(lot, cell_x(width, i), cell_y(width, i))
}

/// Whether the tile with index `i` is claimed by the lot.
pub open spec fn index_claimed(width: int, height: int, lot: Lot, i: int) -> bool {
    0 <= i < width * height && lot_claims(lot, cell_x(width, i), cell_y(width, i))
}

/// Whether some lot of the list covers the tile with index `i`.
pub open spec fn covered_by_any(width: int, height: int, lots: Seq<Lot>, i: int) -> bool {
    exists|k: int| 0 <= k < lots.len() && index_covered(width, height, #[trigger] lots[k], i)
}

/// Whether some lot of the list claims the tile with index `i`.
pub open spec fn claimed_by_any(width: int, height: int, lots: Seq<Lot>, i: int) -> bool {
    exists|k: int| 0 <= k < lots.len() && index_claimed(width, height, #[trigger] lots[k], i)
}

/// The tiles after the footprints of `lots` have been floored with rusted
/// metal; every other tile is as before.
pub open spec fn floors_laid(tiles: Seq<TileType>, width: int, height: int, lots: Seq<Lot>) -> Seq<
    TileType,
> {
    Seq::new(
        tiles.len(),
        |i: int|
            if covered_by_any(width, height, lots, i) {
                TileType::RustedMetalFloor
            } else {
                tiles[i]
            },
    )
}

/// The free tiles that are left once every tile claimed by one of `lots` has
/// been taken out.
pub open spec fn without_lots(free: Set<usize>, width: int, height: int, lots: Seq<Lot>) -> Set<
    usize,
> {
    Set::new(|i: usize| free.contains(i) && !claimed_by_any(width, height, lots, i as int))
}

/// A lot can be placed when each of its cells lies on the map and is still
/// free.
pub open spec fn lot_free(width: int, height: int, free: Set<usize>, lot: Lot) -> bool {
    forall|x: int, y: int| #[trigger]
        lot_covers(lot, x, y) ==> in_grid(width, height, x, y) && free.contains(
            cell_index(width, x, y) as usize,
        )
}

/// An index is the index of the cell `(x, y)` exactly when its column and
/// row are `x` and `y`.
pub proof fn lemma_index_names_cell(width: int, height: int, x: int, y: int, i: int)
    requires
        0 < width,
        in_grid(width, height, x, y),
        0 <= i < width * height,
    ensures
        i == cell_index(width, x, y) <==> (cell_x(width, i) == x && cell_y(width, i) == y),
{
    lemma_index_has_cell(width, height, i);
    lemma_cell_index_inverse(width, x, y);
}

/// Stepping one cell east or west moves the index by one; stepping one cell
/// south or north moves it by the width.
pub proof fn lemma_neighbour_indices(width: int, x: int, y: int)
    ensures
        cell_index(width, x + 1, y) == cell_index(width, x, y) + 1,
        cell_index(width, x - 1, y) == cell_index(width, x, y) - 1,
        cell_index(width, x, y + 1) == cell_index(width, x, y) + width,
        cell_index(width, x, y - 1) == cell_index(width, x, y) - width,
{
    assert((y + 1) * width == y * width + width) by (nonlinear_arith);
    assert((y - 1) * width == y * width - width) by (nonlinear_arith);
}

/// Keeping distance is mutual: if `a` claims no cell of `b`, then `b` claims
/// no cell of `a`.
pub proof fn lemma_lots_apart_symmetric(a: Lot, b: Lot)
    requires
        lots_apart(a, b),
    ensures
        lots_apart(b, a),
{
    assert forall|x: int, y: int| #[trigger] lot_covers(a, x, y) implies !lot_claims(b, x, y) by {
        if lot_covers(b, x, y) {
            assert(lot_claims(a, x, y));
        }
        if lot_covers(b, x - 1, y) {
            assert(lot_claims(a, x - 1, y));
        }
        if lot_covers(b, x + 1, y) {
            assert(lot_claims(a, x + 1, y));
        }
        if lot_covers(b, x, y - 1) {
            assert(lot_claims(a, x, y - 1));
        }
        if lot_covers(b, x, y + 1) {
            assert(lot_claims(a, x, y + 1));
        }
    }
}


/// Tests whether a lot can be placed: every cell it covers lies on the map
/// and is still free.
pub fn lot_fits(map: &GridMap, available: &HashSet<usize>, lot: Lot) -> (r: bool)
    requires
        map.wf(),
    ensures
        r == lot_free(map.map_width as int, map.map_height as int, available@, lot),
{
    let (bx, by, bw, bh) = lot;
    let ghost w = map.map_width as int;
    let ghost h = map.map_height as int;
    if bw <= 0 || bh <= 0 {
        return true;
    }
    if bx < 0 || by < 0 || bx as i64 + bw as i64 > map.map_width as i64 || by as i64 + bh as i64
        > map.map_height as i64 {
        proof {
            let wx: int = if bx < 0 {
                bx as int
            } else {
                bx + bw - 1
            };
            let wy: int = if by < 0 {
                by as int
            } else {
                by + bh - 1
            };
            assert(lot_covers(lot, wx, wy));
            assert(!in_grid(w, h, wx, wy));
        }
        return false;
    }
    let mut y: i32 = by;
    while y < by + bh
        invariant
            map.wf(),
            lot == (bx, by, bw, bh),
            w == map.map_width,
            h == map.map_height,
            0 <= bx,
            0 <= by,
            0 < bw,
            0 < bh,
            bx + bw <= w,
            by + bh <= h,
            by <= y <= by + bh,
            forall|cx: int, cy: int|
                lot_covers(lot, cx, cy) && cy < y ==> available@.contains(
                    #[trigger] cell_index(w, cx, cy) as usize,
                ),
        decreases by + bh - y,
    {
        let mut x: i32 = bx;
        while x < bx + bw
            invariant
                map.wf(),
                lot == (bx, by, bw, bh),
                w == map.map_width,
                h == map.map_height,
                0 <= bx,
                0 <= by,
                0 < bw,
                0 < bh,
                bx + bw <= w,
                by + bh <= h,
                by <= y < by + bh,
                bx <= x <= bx + bw,
                forall|cx: int, cy: int|
                    lot_covers(lot, cx, cy) && (cy < y || (cy == y && cx < x))
                        ==> available@.contains(#[trigger] cell_index(w, cx, cy) as usize),
            decreases bx + bw - x,
        {
            let idx: usize = map.xy_idx(x, y);
            if !available.contains(&idx) {
                proof {
                    assert(lot_covers(lot, x as int, y as int));
                }
                return false;
            }
            x = x + 1;
        }
        y = y + 1;
    }
    true
}

/// Places a lot: floors its footprint with rusted metal and takes every tile
/// it claims (the footprint and the direct neighbours of its cells) out of
/// the free set.
pub fn claim_lot(map: &mut GridMap, available: &mut HashSet<usize>, lot: Lot)
    requires
        old(map).wf(),
        lot_on_grid(old(map).map_width as int, old(map).map_height as int, lot),
    ensures
        final(map).wf(),
        final(map).same_frame(old(map)),
        final(map).map@ == floors_laid(
            old(map).map@,
            old(map).map_width as int,
            old(map).map_height as int,
            seq![lot],
        ),
        final(available)@ == without_lots(
            old(available)@,
            old(map).map_width as int,
            old(map).map_height as int,
            seq![lot],
        ),
{
    let (bx, by, bw, bh) = lot;
    let ghost w = map.map_width as int;
    let ghost h = map.map_height as int;
    let ghost tiles0 = map.map@;
    let ghost free0 = available@;
    let width: usize = map.map_width as usize;
    let mut y: i32 = by;
    while y < by + bh
        invariant
            map.wf(),
            map.same_frame(old(map)),
            lot == (bx, by, bw, bh),
            lot_on_grid(w, h, lot),
            w == map.map_width,
            h == map.map_height,
            width == w,
            tiles0 == old(map).map@,
            free0 == old(available)@,
            by <= y <= by + bh,
            forall|i: int|
                0 <= i < tiles0.len() ==> #[trigger] map.map@[i] == if index_covered(
                    w,
                    h,
                    (bx, by, bw, (y - by) as i32),
                    i,
                ) {
                    TileType::RustedMetalFloor
                } else {
                    tiles0[i]
                },
            forall|i: usize| #[trigger]
                available@.contains(i) <==> free0.contains(i) && !index_claimed(
                    w,
                    h,
                    (bx, by, bw, (y - by) as i32),
                    i as int,
                ),
        decreases by + bh - y,
    {
        let ghost rows: Lot = (bx, by, bw, (y - by) as i32);
        let mut x: i32 = bx;
        while x < bx + bw
            invariant
                map.wf(),
                map.same_frame(old(map)),
                lot == (bx, by, bw, bh),
                lot_on_grid(w, h, lot),
                w == map.map_width,
                h == map.map_height,
                width == w,
                tiles0 == old(map).map@,
                free0 == old(available)@,
                by <= y < by + bh,
                bx <= x <= bx + bw,
                rows == (bx, by, bw, (y - by) as i32),
                forall|i: int|
                    0 <= i < tiles0.len() ==> #[trigger] map.map@[i] == if index_covered(
                        w,
                        h,
                        rows,
                        i,
                    ) || index_covered(w, h, (bx, y, (x - bx) as i32, 1i32), i) {
                        TileType::RustedMetalFloor
                    } else {
                        tiles0[i]
                    },
                forall|i: usize| #[trigger]
                    available@.contains(i) <==> free0.contains(i) && !index_claimed(
                        w,
                        h,
                        rows,
                        i as int,
                    ) && !index_claimed(w, h, (bx, y, (x - bx) as i32, 1i32), i as int),
            decreases bx + bw - x,
        {
            let ghost part: Lot = (bx, y, (x - bx) as i32, 1i32);
            let ghost part2: Lot = (bx, y, (x + 1 - bx) as i32, 1i32);
            let idx: usize = map.xy_idx(x, y);
            map.map[idx] = TileType::RustedMetalFloor;
            available.remove(&idx);
            proof {
                lemma_neighbour_indices(w, x as int, y as int);
                assert(map.map@.len() == map.map.len());
            }
            if x + 1 < map.map_width {
                proof {
                    map.lemma_index_in_range(x + 1, y as int);
                }
                available.remove(&(idx + 1));
            }
            if x >= 1 {
                proof {
                    map.lemma_index_in_range(x - 1, y as int);
                }
                available.remove(&(idx - 1));
            }
            if y + 1 < map.map_height {
                proof {
                    map.lemma_index_in_range(x as int, y + 1);
                }
                available.remove(&(idx + width));
            }
            if y >= 1 {
                proof {
                    map.lemma_index_in_range(x as int, y - 1);
                }
                available.remove(&(idx - width));
            }
            proof {
                assert forall|i: int| 0 <= i < tiles0.len() implies #[trigger] map.map@[i]
                    == if index_covered(w, h, rows, i) || index_covered(w, h, part2, i) {
                    TileType::RustedMetalFloor
                } else {
                    tiles0[i]
                } by {
                    lemma_index_names_cell(w, h, x as int, y as int, i);
                    assert(index_covered(w, h, part2, i) == (index_covered(w, h, part, i) || i
                        == idx));
                }
                assert forall|i: usize| #[trigger]
                    available@.contains(i) <==> free0.contains(i) && !index_claimed(
                        w,
                        h,
                        rows,
                        i as int,
                    ) && !index_claimed(w, h, part2, i as int) by {
                    let cx = cell_x(w, i as int);
                    let cy = cell_y(w, i as int);
                    if i < w * h {
                        lemma_index_has_cell(w, h, i as int);
                        lemma_index_names_cell(w, h, x as int, y as int, i as int);
                        if x + 1 < w {
                            lemma_index_names_cell(w, h, x + 1, y as int, i as int);
                        }
                        if x >= 1 {
                            lemma_index_names_cell(w, h, x - 1, y as int, i as int);
                        }
                        if y + 1 < h {
                            lemma_index_names_cell(w, h, x as int, y + 1, i as int);
                        }
                        if y >= 1 {
                            lemma_index_names_cell(w, h, x as int, y - 1, i as int);
                        }
                        assert(lot_claims(part2, cx, cy) == (lot_claims(part, cx, cy) || (cx == x
                            && cy == y) || (cx == x + 1 && cy == y) || (cx == x - 1 && cy == y)
                            || (cx == x && cy == y + 1) || (cx == x && cy == y - 1)));
                    }
                }
            }
            x = x + 1;
        }
        proof {
            let rows2: Lot = (bx, by, bw, (y + 1 - by) as i32);
            let full: Lot = (bx, y, bw, 1i32);
            assert forall|i: int| index_covered(w, h, rows2, i) == (index_covered(w, h, rows, i)
                || index_covered(w, h, full, i)) by {}
            assert forall|i: int| index_claimed(w, h, rows2, i) == (index_claimed(w, h, rows, i)
                || index_claimed(w, h, full, i)) by {}
        }
        y = y + 1;
    }
    proof {
        let lots = seq![lot];
        assert(lots[0] == lot);
        assert forall|i: int| covered_by_any(w, h, lots, i) == index_covered(w, h, lot, i) by {
            if index_covered(w, h, lot, i) {
                assert(index_covered(w, h, lots[0], i));
            }
        }
        assert forall|i: int| claimed_by_any(w, h, lots, i) == index_claimed(w, h, lot, i) by {
            if index_claimed(w, h, lot, i) {
                assert(index_claimed(w, h, lots[0], i));
            }
        }
        assert(map.map@ =~= floors_laid(tiles0, w, h, lots));
        assert(available@ =~= without_lots(free0, w, h, lots));
    }
}


/// Whether the perimeter pass turns the tile with index `i` into wall: the
/// tile is rusted metal floor, lies at least two cells away from every edge
/// of the map, and at least one of its four direct neighbours is not rusted
/// metal floor.
pub open spec fn wall_due(tiles: Seq<TileType>, width: int, height: int, i: int) -> bool {
    &&& 0 <= i < tiles.len()
    &&& 2 <= cell_x(width, i) < width - 2
    &&& 2 <= cell_y(width, i) < height - 2
    &&& tiles[i] == TileType::RustedMetalFloor
    &&& (tiles[i - 1] != TileType::RustedMetalFloor || tiles[i + 1] != TileType::RustedMetalFloor
        || tiles[i - width] != TileType::RustedMetalFloor || tiles[i + width]
        != TileType::RustedMetalFloor)
}

/// The tiles after the perimeter pass. Every decision is taken on the tiles
/// as they were before the pass.
pub open spec fn walls_raised(tiles: Seq<TileType>, width: int, height: int) -> Seq<TileType> {
    Seq::new(
        tiles.len(),
        |i: int|
            if wall_due(tiles, width, height, i) {
                TileType::Wall
            } else {
                tiles[i]
            },
    )
}

/// The perimeter pass: derives the walls of every building from its floor,
/// by turning each floor tile that touches something else into wall.
pub fn raise_walls(map: &mut GridMap)
    requires
        old(map).wf(),
    ensures
        final(map).wf(),
        final(map).same_frame(old(map)),
        final(map).map@ == walls_raised(
            old(map).map@,
            old(map).map_width as int,
            old(map).map_height as int,
        ),
{
    let before = map.clone();
    let ghost w = map.map_width as int;
    let ghost h = map.map_height as int;
    let width: usize = map.map_width as usize;
    let mut y: i32 = 2;
    while y < map.map_height - 2
        invariant
            map.wf(),
            map.same_frame(old(map)),
            before.wf(),
            before.map@ == old(map).map@,
            before.map_width == w,
            before.map_height == h,
            w == map.map_width,
            h == map.map_height,
            width == w,
            2 <= y,
            forall|i: int|
                0 <= i < before.map@.len() ==> #[trigger] map.map@[i] == if wall_due(
                    before.map@,
                    w,
                    h,
                    i,
                ) && cell_y(w, i) < y {
                    TileType::Wall
                } else {
                    before.map@[i]
                },
        decreases h - y,
    {
        let mut x: i32 = 2;
        while x < map.map_width - 2
            invariant
                map.wf(),
                map.same_frame(old(map)),
                before.wf(),
                before.map@ == old(map).map@,
                before.map_width == w,
                before.map_height == h,
                w == map.map_width,
                h == map.map_height,
                width == w,
                2 <= y < h - 2,
                2 <= x,
                forall|i: int|
                    0 <= i < before.map@.len() ==> #[trigger] map.map@[i] == if wall_due(
                        before.map@,
                        w,
                        h,
                        i,
                    ) && (cell_y(w, i) < y || (cell_y(w, i) == y && cell_x(w, i) < x)) {
                        TileType::Wall
                    } else {
                        before.map@[i]
                    },
            decreases w - x,
        {
            let idx: usize = before.xy_idx(x, y);
            proof {
                lemma_neighbour_indices(w, x as int, y as int);
                before.lemma_index_in_range(x - 1, y as int);
                before.lemma_index_in_range(x + 1, y as int);
                before.lemma_index_in_range(x as int, y - 1);
                before.lemma_index_in_range(x as int, y + 1);
                lemma_cell_index_inverse(w, x as int, y as int);
                assert(before.map@.len() == before.map.len());
            }
            if before.map[idx] == TileType::RustedMetalFloor {
                let mut neighbors: u32 = 0;
                if before.map[idx - 1] != TileType::RustedMetalFloor {
                    neighbors = neighbors + 1;
                }
                if before.map[idx + 1] != TileType::RustedMetalFloor {
                    neighbors = neighbors + 1;
                }
                if before.map[idx - width] != TileType::RustedMetalFloor {
                    neighbors = neighbors + 1;
                }
                if before.map[idx + width] != TileType::RustedMetalFloor {
                    neighbors = neighbors + 1;
                }
                if neighbors > 0 {
                    map.map[idx] = TileType::Wall;
                }
            }
            proof {
                assert forall|i: int| 0 <= i < before.map@.len() implies #[trigger] map.map@[i]
                    == if wall_due(before.map@, w, h, i) && (cell_y(w, i) < y || (cell_y(w, i)
                    == y && cell_x(w, i) < x + 1)) {
                    TileType::Wall
                } else {
                    before.map@[i]
                } by {
                    lemma_index_names_cell(w, h, x as int, y as int, i);
                }
            }
            x = x + 1;
        }
        proof {
            assert forall|i: int| 0 <= i < before.map@.len() && wall_due(before.map@, w, h, i)
                && cell_y(w, i) == y implies cell_x(w, i) < x by {}
        }
        y = y + 1;
    }
    proof {
        assert(map.map@ =~= walls_raised(before.map@, w, h));
    }
}

/// A lot that stands alone gets a complete ring of wall and keeps its floor
/// inside. Where every cell of the lot is floored, every direct neighbour of
/// the lot is something else, and the lot keeps two cells away from the edges
/// of the map, the perimeter pass turns every cell of the lot's boundary ring
/// into wall and leaves every cell strictly inside as floor.
pub proof fn lemma_lone_lot_is_walled(tiles: Seq<TileType>, width: int, height: int, lot: Lot)
    requires
        0 < width,
        tiles.len() == width * height,
        0 < lot.2,
        0 < lot.3,
        2 <= lot.0,
        2 <= lot.1,
        lot.0 + lot.2 <= width - 2,
        lot.1 + lot.3 <= height - 2,
        forall|x: int, y: int| #[trigger]
            lot_covers(lot, x, y) ==> tiles[cell_index(width, x, y)] == TileType::RustedMetalFloor,
        forall|x: int, y: int| #[trigger]
            lot_claims(lot, x, y) && !lot_covers(lot, x, y) ==> tiles[cell_index(width, x, y)]
                != TileType::RustedMetalFloor,
    ensures
        forall|x: int, y: int| #[trigger]
            lot_ring(lot, x, y) ==> walls_raised(tiles, width, height)[cell_index(width, x, y)]
                == TileType::Wall,
        forall|x: int, y: int| #[trigger]
            lot_interior(lot, x, y) ==> walls_raised(tiles, width, height)[cell_index(
                width,
                x,
                y,
            )] == TileType::RustedMetalFloor,
{
    let after = walls_raised(tiles, width, height);
    assert forall|x: int, y: int| lot_covers(lot, x, y) implies {
        let i = cell_index(width, x, y);
        &&& 0 <= i < tiles.len()
        &&& (lot_ring(lot, x, y) ==> after[i] == TileType::Wall)
        &&& (lot_interior(lot, x, y) ==> after[i] == TileType::RustedMetalFloor)
    } by {
        let i = cell_index(width, x, y);
        crate::map::lemma_cell_index_in_range(width, height, x, y);
        lemma_cell_index_inverse(width, x, y);
        lemma_neighbour_indices(width, x, y);
        assert(lot_claims(lot, x - 1, y) && lot_claims(lot, x + 1, y) && lot_claims(lot, x, y - 1)
            && lot_claims(lot, x, y + 1));
        if lot_interior(lot, x, y) {
            assert(lot_covers(lot, x - 1, y) && lot_covers(lot, x + 1, y) && lot_covers(
                lot,
                x,
                y - 1,
            ) && lot_covers(lot, x, y + 1));
            assert(!wall_due(tiles, width, height, i));
        }
        if lot_ring(lot, x, y) {
            assert(!lot_covers(lot, x - 1, y) || !lot_covers(lot, x + 1, y) || !lot_covers(
                lot,
                x,
                y - 1,
            ) || !lot_covers(lot, x, y + 1));
            assert(wall_due(tiles, width, height, i));
        }
    }
    assert forall|x: int, y: int| #[trigger] lot_ring(lot, x, y) implies after[cell_index(
        width,
        x,
        y,
    )] == TileType::Wall by {
        assert(lot_covers(lot, x, y));
    }
    assert forall|x: int, y: int| #[trigger] lot_interior(lot, x, y) implies after[cell_index(
        width,
        x,
        y,
    )] == TileType::RustedMetalFloor by {
        assert(lot_covers(lot, x, y));
    }
}


/// A tile is covered or claimed by a list with one more lot exactly when the
/// list or the new lot covers or claims it.
pub proof fn lemma_any_push(width: int, height: int, lots: Seq<Lot>, lot: Lot, i: int)
    ensures
        covered_by_any(width, height, lots.push(lot), i) == (covered_by_any(width, height, lots, i)
            || index_covered(width, height, lot, i)),
        claimed_by_any(width, height, lots.push(lot), i) == (claimed_by_any(width, height, lots, i)
            || index_claimed(width, height, lot, i)),
{
    let more = lots.push(lot);
    assert(more[lots.len() as int] == lot);
    if covered_by_any(width, height, lots, i) {
        let k = choose|k: int| 0 <= k < lots.len() && index_covered(width, height, #[trigger] lots[k], i);
        assert(more[k] == lots[k]);
    }
    if covered_by_any(width, height, more, i) {
        let k = choose|k: int| 0 <= k < more.len() && index_covered(width, height, #[trigger] more[k], i);
        if k < lots.len() {
            assert(more[k] == lots[k]);
        }
    }
    if claimed_by_any(width, height, lots, i) {
        let k = choose|k: int| 0 <= k < lots.len() && index_claimed(width, height, #[trigger] lots[k], i);
        assert(more[k] == lots[k]);
    }
    if claimed_by_any(width, height, more, i) {
        let k = choose|k: int| 0 <= k < more.len() && index_claimed(width, height, #[trigger] more[k], i);
        if k < lots.len() {
            assert(more[k] == lots[k]);
        }
    }
}

/// Placing lots one after the other comes to the same as placing the whole
/// list: for the floors that are laid and for the tiles that stay free.
pub proof fn lemma_place_one_more(
    tiles: Seq<TileType>,
    free: Set<usize>,
    width: int,
    height: int,
    lots: Seq<Lot>,
    lot: Lot,
)
    ensures
        floors_laid(floors_laid(tiles, width, height, lots), width, height, seq![lot])
            == floors_laid(tiles, width, height, lots.push(lot)),
        without_lots(without_lots(free, width, height, lots), width, height, seq![lot])
            == without_lots(free, width, height, lots.push(lot)),
        floors_laid(tiles, width, height, Seq::<Lot>::empty()) == tiles,
        without_lots(free, width, height, Seq::<Lot>::empty()) == free,
{
    let one = seq![lot];
    assert(one[0] == lot);
    assert forall|i: int|
        covered_by_any(width, height, one, i) == index_covered(width, height, lot, i)
        && claimed_by_any(width, height, one, i) == index_claimed(width, height, lot, i) by {
        lemma_any_push(width, height, Seq::<Lot>::empty(), lot, i);
        assert(Seq::<Lot>::empty().push(lot) =~= one);
    }
    assert forall|i: int|
        covered_by_any(width, height, lots.push(lot), i) == (covered_by_any(width, height, lots, i)
            || index_covered(width, height, lot, i)) && claimed_by_any(
            width,
            height,
            lots.push(lot),
            i,
        ) == (claimed_by_any(width, height, lots, i) || index_claimed(width, height, lot, i)) by {
        lemma_any_push(width, height, lots, lot, i);
    }
    assert(floors_laid(floors_laid(tiles, width, height, lots), width, height, one) =~= floors_laid(
        tiles,
        width,
        height,
        lots.push(lot),
    ));
    assert(without_lots(without_lots(free, width, height, lots), width, height, one)
        =~= without_lots(free, width, height, lots.push(lot)));
    assert(floors_laid(tiles, width, height, Seq::<Lot>::empty()) =~= tiles);
    assert(without_lots(free, width, height, Seq::<Lot>::empty()) =~= free);
}

/// A lot that fits among the tiles left free by earlier lots lies on the
/// map, fitted the free tiles as they were at the start, and keeps its
/// distance from each of the earlier lots.
pub proof fn lemma_fitting_lot_is_apart(
    free: Set<usize>,
    width: int,
    height: int,
    lots: Seq<Lot>,
    lot: Lot,
)
    requires
        0 < width,
        width * height <= usize::MAX,
        0 < lot.2,
        0 < lot.3,
        lot_free(width, height, without_lots(free, width, height, lots), lot),
    ensures
        lot_on_grid(width, height, lot),
        lot_free(width, height, free, lot),
        forall|k: int| 0 <= k < lots.len() ==> lots_apart(#[trigger] lots[k], lot),
{
    let left = without_lots(free, width, height, lots);
    assert(lot_covers(lot, lot.0 as int, lot.1 as int));
    assert(lot_covers(lot, lot.0 + lot.2 - 1, lot.1 + lot.3 - 1));
    assert forall|k: int| 0 <= k < lots.len() implies lots_apart(#[trigger] lots[k], lot) by {
        assert forall|x: int, y: int| #[trigger] lot_covers(lot, x, y) implies !lot_claims(
            lots[k],
            x,
            y,
        ) by {
            let i = cell_index(width, x, y);
            crate::map::lemma_cell_index_in_range(width, height, x, y);
            lemma_cell_index_inverse(width, x, y);
            assert(left.contains(i as usize));
            if lot_claims(lots[k], x, y) {
                assert(index_claimed(width, height, lots[k], i));
                assert(claimed_by_any(width, height, lots, i));
            }
        }
    }
}

} // verus!
