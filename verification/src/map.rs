//! The grid map: a flat tile buffer with its overlays and the one
//! coordinate mapping that every generator shares.

use vstd::prelude::*;
use crate::tile::TileType;

verus! {

/// A position on the grid, in tile coordinates.
#[derive(Clone, Copy, Debug, PartialEq, Eq, Structural, Hash)]
pub struct Point {
    pub x: i32,
    pub y: i32,
}

impl Point {
    pub fn new(x: i32, y: i32) -> (p: Point)
        ensures
            p.x == x,
            p.y == y,
    {
        Point { x, y }
    }
}

/// The index of the cell `(x, y)` in a row-major grid that is `width` wide.
pub open spec fn cell_index(width: int, x: int, y: int) -> int {
    y * width + x
}

/// Whether `(x, y)` names a cell of a `width` by `height` grid.
pub open spec fn in_grid(width: int, height: int, x: int, y: int) -> bool {
    0 <= x < width && 0 <= y < height
}

/// The column of the cell with index `idx`.
pub open spec fn cell_x(width: int, idx: int) -> int {
    idx % width
}

/// The row of the cell with index `idx`.
pub open spec fn cell_y(width: int, idx: int) -> int {
    idx / width
}

/// Whether the tile with index `i` is off the outermost ring of the grid.
pub open spec fn inner_tile(width: int, height: int, i: int) -> bool {
    &&& 0 <= i < width * height
    &&& 1 <= cell_x(width, i) < width - 1
    &&& 1 <= cell_y(width, i) < height - 1
}

/// Every cell of the grid has an index below `width * height`.
pub proof fn lemma_cell_index_in_range(width: int, height: int, x: int, y: int)
    requires
        in_grid(width, height, x, y),
    ensures
        0 <= cell_index(width, x, y) < width * height,
{
    assert(0 <= y * width) by (nonlinear_arith)
        requires
            0 <= y,
            0 <= width,
    ;
    assert(y * width + width <= height * width) by (nonlinear_arith)
        requires
            y + 1 <= height,
            0 <= width,
    ;
    assert(height * width == width * height) by (nonlinear_arith);
}

/// The column and row of a cell are recovered from its index.
pub proof fn lemma_cell_index_inverse(width: int, x: int, y: int)
    requires
        0 <= x < width,
    ensures
        cell_x(width, cell_index(width, x, y)) == x,
        cell_y(width, cell_index(width, x, y)) == y,
{
    vstd::arithmetic::div_mod::lemma_fundamental_div_mod_converse(y * width + x, width, y, x);
}

/// Every index below `width * height` belongs to exactly the cell at its
/// column and row, and that cell lies in the grid.
pub proof fn lemma_index_has_cell(width: int, height: int, idx: int)
    requires
        0 < width,
        0 <= idx < width * height,
    ensures
        in_grid(width, height, cell_x(width, idx), cell_y(width, idx)),
        cell_index(width, cell_x(width, idx), cell_y(width, idx)) == idx,
{
    vstd::arithmetic::div_mod::lemma_fundamental_div_mod(idx, width);
    vstd::arithmetic::div_mod::lemma_mod_bound(idx, width);
    let q = idx / width;
    assert(width * q == q * width) by (nonlinear_arith);
    assert(0 <= q) by (nonlinear_arith)
        requires
            q == idx / width,
            0 <= idx,
            0 < width,
    ;
    if q >= height {
        assert(q * width >= height * width) by (nonlinear_arith)
            requires
                q >= height,
                0 < width,
        ;
        assert(height * width == width * height) by (nonlinear_arith);
    }
}

/// The coordinate mapping is a bijection between the cells of the grid and
/// the indices below `width * height`: it stays in range, distinct cells get
/// distinct indices, and every index is the index of a cell.
pub proof fn lemma_xy_idx_bijection(width: int, height: int)
    requires
        0 < width,
        0 < height,
    ensures
        forall|x: int, y: int|
            in_grid(width, height, x, y) ==> 0 <= #[trigger] cell_index(width, x, y) < width
                * height,
        forall|x1: int, y1: int, x2: int, y2: int|
            in_grid(width, height, x1, y1) && in_grid(width, height, x2, y2) && #[trigger] cell_index(
                width,
                x1,
                y1,
            ) == #[trigger] cell_index(width, x2, y2) ==> x1 == x2 && y1 == y2,
        forall|idx: int|
            0 <= idx < width * height ==> in_grid(
                width,
                height,
                #[trigger] cell_x(width, idx),
                cell_y(width, idx),
            ) && cell_index(width, cell_x(width, idx), cell_y(width, idx)) == idx,
{
    assert forall|x: int, y: int| in_grid(width, height, x, y) implies 0 <= #[trigger] cell_index(
        width,
        x,
        y,
    ) < width * height by {
        lemma_cell_index_in_range(width, height, x, y);
    }
    assert forall|x1: int, y1: int, x2: int, y2: int|
        in_grid(width, height, x1, y1) && in_grid(width, height, x2, y2) && #[trigger] cell_index(
            width,
            x1,
            y1,
        ) == #[trigger] cell_index(width, x2, y2) implies x1 == x2 && y1 == y2 by {
        lemma_cell_index_inverse(width, x1, y1);
        lemma_cell_index_inverse(width, x2, y2);
    }
    assert forall|idx: int| 0 <= idx < width * height implies in_grid(
        width,
        height,
        #[trigger] cell_x(width, idx),
        cell_y(width, idx),
    ) && cell_index(width, cell_x(width, idx), cell_y(width, idx)) == idx by {
        lemma_index_has_cell(width, height, idx);
    }
}


/// The tiles after every tile whose index is listed in `at` has been set to
/// `tile`; the other tiles are as before.
pub open spec fn filled(tiles: Seq<TileType>, at: Seq<usize>, tile: TileType) -> Seq<TileType> {
    Seq::new(
        tiles.len(),
        |i: int|
            if at.contains(i as usize) {
                tile
            } else {
                tiles[i]
            },
    )
}

/// The tile grid of one level, with its per-tile overlays.
///
/// All four buffers are row-major and hold one entry per cell.
#[derive(Debug)]
pub struct GridMap {
    pub map: Vec<TileType>,
    pub visible_tiles: Vec<bool>,
    pub revealed_tiles: Vec<bool>,
    pub blocked: Vec<bool>,
    pub map_width: i32,
    pub map_height: i32,
    pub depth: i32,
}

impl GridMap {
    /// The number of cells of the grid.
    pub open spec fn tile_count(&self) -> int {
        self.map_width * self.map_height
    }

    /// Well-formedness: positive dimensions, and every buffer holds exactly
    /// one entry per cell.
    pub open spec fn wf(&self) -> bool {
        &&& 0 < self.map_width
        &&& 0 < self.map_height
        &&& self.map@.len() == self.tile_count()
        &&& self.visible_tiles@.len() == self.tile_count()
        &&& self.revealed_tiles@.len() == self.tile_count()
        &&& self.blocked@.len() == self.tile_count()
    }

    /// Whether `(x, y)` names a cell of this map.
    pub open spec fn contains_cell(&self, x: int, y: int) -> bool {
        in_grid(self.map_width as int, self.map_height as int, x, y)
    }

    /// The index of the cell `(x, y)`.
    pub open spec fn index_of(&self, x: int, y: int) -> int {
        cell_index(self.map_width as int, x, y)
    }

    /// The tile at `(x, y)`.
    pub open spec fn tile_at(&self, x: int, y: int) -> TileType {
        self.map@[self.index_of(x, y)]
    }

    /// Two maps of the same shape that differ at most in their tiles.
    pub open spec fn same_frame(&self, other: &GridMap) -> bool {
        &&& self.map_width == other.map_width
        &&& self.map_height == other.map_height
        &&& self.depth == other.depth
        &&& self.visible_tiles@ == other.visible_tiles@
        &&& self.revealed_tiles@ == other.revealed_tiles@
        &&& self.blocked@ == other.blocked@
        &&& self.map@.len() == other.map@.len()
    }

    /// Every cell of a well-formed map has an index inside the buffers.
    pub proof fn lemma_index_in_range(&self, x: int, y: int)
        requires
            self.wf(),
            self.contains_cell(x, y),
        ensures
            0 <= self.index_of(x, y) < self.map@.len(),
    {
        lemma_cell_index_in_range(self.map_width as int, self.map_height as int, x, y);
    }

    /// A fresh map of solid wall, with nothing seen, revealed or blocked.
    pub fn new(new_depth: i32, width: i32, height: i32) -> (m: GridMap)
        requires
            0 < width,
            0 < height,
            width * height <= usize::MAX,
        ensures
            m.wf(),
            m.map_width == width,
            m.map_height == height,
            m.depth == new_depth,
            forall|i: int| 0 <= i < m.map@.len() ==> m.map@[i] == TileType::Wall,
            forall|i: int| 0 <= i < m.map@.len() ==> !m.visible_tiles@[i],
            forall|i: int| 0 <= i < m.map@.len() ==> !m.revealed_tiles@[i],
            forall|i: int| 0 <= i < m.map@.len() ==> !m.blocked@[i],
    {
        assert(0 <= width * height) by (nonlinear_arith)
            requires
                0 < width,
                0 < height,
        ;
        assert((width as usize) * (height as usize) == width * height) by (nonlinear_arith)
            requires
                0 < width,
                0 < height,
                width * height <= usize::MAX,
        ;
        let count: usize = (width as usize) * (height as usize);
        let mut map: Vec<TileType> = Vec::new();
        let mut visible_tiles: Vec<bool> = Vec::new();
        let mut revealed_tiles: Vec<bool> = Vec::new();
        let mut blocked: Vec<bool> = Vec::new();
        let mut i: usize = 0;
        while i < count
            invariant
                i <= count,
                map@.len() == i,
                visible_tiles@.len() == i,
                revealed_tiles@.len() == i,
                blocked@.len() == i,
                forall|k: int| 0 <= k < i ==> map@[k] == TileType::Wall,
                forall|k: int| 0 <= k < i ==> !visible_tiles@[k],
                forall|k: int| 0 <= k < i ==> !revealed_tiles@[k],
                forall|k: int| 0 <= k < i ==> !blocked@[k],
            decreases count - i,
        {
            map.push(TileType::Wall);
            visible_tiles.push(false);
            revealed_tiles.push(false);
            blocked.push(false);
            i = i + 1;
        }
        GridMap {
            map,
            visible_tiles,
            revealed_tiles,
            blocked,
            map_width: width,
            map_height: height,
            depth: new_depth,
        }
    }

    /// Checks at run time what `wf` states.
    pub fn is_well_formed(&self) -> (r: bool)
        ensures
            r == self.wf(),
    {
        if self.map_width <= 0 || self.map_height <= 0 {
            return false;
        }
        let w: u64 = self.map_width as u64;
        let h: u64 = self.map_height as u64;
        assert(w * h <= 0x7fff_ffff * 0x7fff_ffff) by (nonlinear_arith)
            requires
                w <= 0x7fff_ffff,
                h <= 0x7fff_ffff,
        ;
        let count: u64 = w * h;
        assert(count == self.tile_count());
        self.map.len() as u64 == count && self.visible_tiles.len() as u64 == count
            && self.revealed_tiles.len() as u64 == count && self.blocked.len() as u64 == count
    }

    /// Whether `(x, y)` lies on the map.
    pub fn in_bounds(&self, x: i32, y: i32) -> (r: bool)
        ensures
            r == self.contains_cell(x as int, y as int),
    {
        0 <= x && x < self.map_width && 0 <= y && y < self.map_height
    }

    /// The index of the cell `(x, y)`: `y * width + x`. The cell must lie on
    /// the map; `checked_xy_idx` is the variant that tests this itself.
    pub fn xy_idx(&self, x: i32, y: i32) -> (idx: usize)
        requires
            self.wf(),
            self.contains_cell(x as int, y as int),
        ensures
            idx == self.index_of(x as int, y as int),
            idx < self.map@.len(),
    {
        let row: usize = y as usize;
        let w: usize = self.map_width as usize;
        proof {
            self.lemma_index_in_range(x as int, y as int);
            assert(row * w == y * self.map_width) by (nonlinear_arith)
                requires
                    row == y,
                    w == self.map_width,
            ;
            assert(self.map@.len() == self.map.len());
        }
        row * w + (x as usize)
    }

    /// The index of the cell `(x, y)`, or `None` when it lies off the map.
    pub fn checked_xy_idx(&self, x: i32, y: i32) -> (r: Option<usize>)
        requires
            self.wf(),
        ensures
            r is Some <==> self.contains_cell(x as int, y as int),
            r is Some ==> r->0 == self.index_of(x as int, y as int) && r->0 < self.map@.len(),
    {
        if self.in_bounds(x, y) {
            Some(self.xy_idx(x, y))
        } else {
            None
        }
    }

    /// The cell with index `idx`, as `(x, y)`: the inverse of `xy_idx`.
    pub fn idx_xy(&self, idx: usize) -> (p: (i32, i32))
        requires
            self.wf(),
            idx < self.map@.len(),
        ensures
            self.contains_cell(p.0 as int, p.1 as int),
            self.index_of(p.0 as int, p.1 as int) == idx,
            p.0 == cell_x(self.map_width as int, idx as int),
            p.1 == cell_y(self.map_width as int, idx as int),
    {
        proof {
            lemma_index_has_cell(self.map_width as int, self.map_height as int, idx as int);
        }
        let w: usize = self.map_width as usize;
        ((idx % w) as i32, (idx / w) as i32)
    }

    /// Rebuilds the blocked overlay from the tiles: a cell is blocked exactly
    /// when its tile cannot be walked on.
    pub fn populate_blocked(&mut self)
        requires
            old(self).wf(),
        ensures
            final(self).wf(),
            final(self).map@ == old(self).map@,
            final(self).visible_tiles@ == old(self).visible_tiles@,
            final(self).revealed_tiles@ == old(self).revealed_tiles@,
            final(self).map_width == old(self).map_width,
            final(self).map_height == old(self).map_height,
            final(self).depth == old(self).depth,
            forall|i: int|
                0 <= i < final(self).blocked@.len() ==> final(self).blocked@[i] == !old(
                    self,
                ).map@[i].walkable(),
    {
        let n: usize = self.map.len();
        let mut i: usize = 0;
        while i < n
            invariant
                i <= n,
                n == self.map@.len(),
                self.wf(),
                self.map@ == old(self).map@,
                self.visible_tiles@ == old(self).visible_tiles@,
                self.revealed_tiles@ == old(self).revealed_tiles@,
                self.map_width == old(self).map_width,
                self.map_height == old(self).map_height,
                self.depth == old(self).depth,
                forall|k: int| 0 <= k < i ==> self.blocked@[k] == !self.map@[k].walkable(),
            decreases n - i,
        {
            let b: bool = !self.map[i].is_walkable();
            self.blocked[i] = b;
            i = i + 1;
        }
    }

    /// Sets every listed tile to `tile`. An index that names no tile of the
    /// map is passed over.
    pub fn fill(&mut self, at: &Vec<usize>, tile: TileType)
        requires
            old(self).wf(),
        ensures
            final(self).wf(),
            final(self).same_frame(old(self)),
            final(self).map@ == filled(old(self).map@, at@, tile),
    {
        let ghost tiles0 = self.map@;
        let mut s: usize = 0;
        proof {
            assert(self.map@.len() == self.map.len());
            assert(self.map@ =~= filled(tiles0, at@.subrange(0, 0), tile));
        }
        while s < at.len()
            invariant
                s <= at@.len(),
                self.wf(),
                self.same_frame(old(self)),
                tiles0 == old(self).map@,
                tiles0.len() <= usize::MAX,
                self.map@ == filled(tiles0, at@.subrange(0, s as int), tile),
            decreases at@.len() - s,
        {
            let idx: usize = at[s];
            if idx < self.map.len() {
                self.map[idx] = tile;
            }
            proof {
                let done = at@.subrange(0, s as int);
                let more = at@.subrange(0, s + 1);
                assert forall|u: usize| #[trigger] more.contains(u) == (done.contains(u) || u == idx) by {
                    if done.contains(u) {
                        let j = choose|j: int| 0 <= j < done.len() && done[j] == u;
                        assert(more[j] == u);
                    }
                    if u == idx {
                        assert(more[s as int] == idx);
                    }
                }
                assert forall|i: int| 0 <= i < tiles0.len() implies self.map@[i] == filled(
                    tiles0,
                    more,
                    tile,
                )[i] by {
                    assert(more.contains(i as usize) == (done.contains(i as usize) || i as usize
                        == idx));
                }
                assert(self.map@ =~= filled(tiles0, more, tile));
            }
            s = s + 1;
        }
        proof {
            assert(at@.subrange(0, s as int) =~= at@);
        }
    }

    /// Whether a step onto `(x, y)` is possible: the cell lies on the map, its
    /// tile can be walked on, and nothing blocks it.
    pub open spec fn passable(&self, x: int, y: int) -> bool {
        &&& self.contains_cell(x, y)
        &&& self.tile_at(x, y).walkable()
        &&& !self.blocked@[self.index_of(x, y)]
    }

    /// Whether a step onto `(x, y)` is possible.
    pub fn is_exit_valid(&self, x: i32, y: i32) -> (r: bool)
        requires
            self.wf(),
        ensures
            r == self.passable(x as int, y as int),
    {
        if !self.in_bounds(x, y) {
            return false;
        }
        let idx: usize = self.xy_idx(x, y);
        self.map[idx].is_walkable() && !self.blocked[idx]
    }
}

/// The one-element list of the neighbour `(x, y)` and its index where a
/// step onto it is possible, and the empty list where it is not.
pub open spec fn exit_to(map: &GridMap, x: int, y: int) -> Seq<usize> {
    if map.passable(x, y) {
        seq![map.index_of(x, y) as usize]
    } else {
        Seq::<usize>::empty()
    }
}

/// The tiles that can be reached in one step from the tile at `(x, y)`.
/// Steps go west, east, north and south, never diagonally, and the exits are
/// listed in that order.
pub open spec fn exits_from(map: &GridMap, x: int, y: int) -> Seq<usize> {
    exit_to(map, x - 1, y) + exit_to(map, x + 1, y) + exit_to(map, x, y - 1) + exit_to(
        map,
        x,
        y + 1,
    )
}

impl GridMap {
    /// Lists the tiles that can be reached in one step from tile `idx`: the
    /// walkable, unblocked neighbours to the west, east, north and south, in
    /// that order. Every step costs the same.
    pub fn available_exits(&self, idx: usize) -> (exits: Vec<usize>)
        requires
            self.wf(),
            idx < self.map@.len(),
        ensures
            exits@ == exits_from(
                self,
                cell_x(self.map_width as int, idx as int),
                cell_y(self.map_width as int, idx as int),
            ),
    {
        let (x, y) = self.idx_xy(idx);
        let mut exits: Vec<usize> = Vec::new();
        if self.is_exit_valid(x - 1, y) {
            exits.push(self.xy_idx(x - 1, y));
        }
        assert(exits@ =~= exit_to(self, x - 1, y as int));
        let ghost west = exits@;
        if self.is_exit_valid(x + 1, y) {
            exits.push(self.xy_idx(x + 1, y));
        }
        assert(exits@ =~= west + exit_to(self, x + 1, y as int));
        let ghost east = exits@;
        if self.is_exit_valid(x, y - 1) {
            exits.push(self.xy_idx(x, y - 1));
        }
        assert(exits@ =~= east + exit_to(self, x as int, y - 1));
        let ghost north = exits@;
        if self.is_exit_valid(x, y + 1) {
            exits.push(self.xy_idx(x, y + 1));
        }
        assert(exits@ =~= north + exit_to(self, x as int, y + 1));
        exits
    }
}

impl Clone for GridMap {
    /// A deep copy: the new map owns buffers of its own with the same
    /// contents.
    fn clone(&self) -> (m: GridMap)
        ensures
            m.map@ == self.map@,
            m.visible_tiles@ == self.visible_tiles@,
            m.revealed_tiles@ == self.revealed_tiles@,
            m.blocked@ == self.blocked@,
            m.map_width == self.map_width,
            m.map_height == self.map_height,
            m.depth == self.depth,
    {
        let n: usize = self.map.len();
        let mut map: Vec<TileType> = Vec::new();
        let mut i: usize = 0;
        while i < n
            invariant
                i <= n,
                n == self.map@.len(),
                map@ == self.map@.subrange(0, i as int),
            decreases n - i,
        {
            map.push(self.map[i]);
            assert(map@ =~= self.map@.subrange(0, i + 1));
            i = i + 1;
        }
        assert(map@ =~= self.map@);
        let visible_tiles = self.visible_tiles.clone();
        let revealed_tiles = self.revealed_tiles.clone();
        let blocked = self.blocked.clone();
        assert(visible_tiles@ =~= self.visible_tiles@);
        assert(revealed_tiles@ =~= self.revealed_tiles@);
        assert(blocked@ =~= self.blocked@);
        GridMap {
            map,
            visible_tiles,
            revealed_tiles,
            blocked,
            map_width: self.map_width,
            map_height: self.map_height,
            depth: self.depth,
        }
    }
}

} // verus!
