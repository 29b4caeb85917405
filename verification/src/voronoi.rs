//! The Voronoi region builder: scatters seed points, assigns every tile to
//! its nearest seed, and carves out the tiles that lie inside a region.

use vstd::prelude::*;
use bracket_lib::random::RandomNumberGenerator;
use crate::builder::{BuilderMap, GenerationError};
use crate::lots::{lemma_index_names_cell, lemma_neighbour_indices};
use crate::map::{
    cell_x, cell_y, inner_tile, lemma_cell_index_in_range, lemma_cell_index_inverse,
    lemma_index_has_cell, GridMap, Point,
};
use crate::random::roll_dice;
use crate::tile::TileType;

verus! {

/// The metric by which the nearest seed of a tile is found.
#[derive(PartialEq, Eq, Structural, Copy, Clone, Debug)]
pub enum DistanceAlgorithm {
    /// The square of the straight-line distance.
    Pythagoras,
    /// The steps along the columns plus the steps along the rows.
    Manhattan,
    /// The larger of the steps along the columns and along the rows.
    Chebyshev,
}

/// The number of seeds of a builder that is not told otherwise.
pub const DEFAULT_SEEDS: usize = 64;

/// How many positions are drawn at most while the seeds are scattered.
pub const MAX_SEED_ATTEMPTS: u32 = 1_000_000;

/// How far apart two coordinates are.
pub open spec fn gap(a: int, b: int) -> int {
    if a >= b {
        a - b
    } else {
        b - a
    }
}

/// The distance between two points under a metric.
pub open spec fn distance(algorithm: DistanceAlgorithm, a: Point, b: Point) -> int {
    let dx = gap(a.x as int, b.x as int);
    let dy = gap(a.y as int, b.y as int);
    match algorithm {
        DistanceAlgorithm::Pythagoras => dx * dx + dy * dy,
        DistanceAlgorithm::Manhattan => dx + dy,
        DistanceAlgorithm::Chebyshev => if dx > dy {
            dx
        } else {
            dy
        },
    }
}

/// Whether seed `m` is the seed that the point `p` belongs to: no seed is
/// nearer, and of the seeds that are equally near it is the first.
pub open spec fn is_nearest(algorithm: DistanceAlgorithm, seeds: Seq<Point>, p: Point, m: int) -> bool {
    &&& 0 <= m < seeds.len()
    &&& forall|j: int|
        0 <= j < seeds.len() ==> distance(algorithm, p, seeds[m]) <= distance(
            algorithm,
            p,
            #[trigger] seeds[j],
        )
    &&& forall|j: int|
        0 <= j < m ==> distance(algorithm, p, seeds[m]) < distance(algorithm, p, #[trigger] seeds[j])
}

/// The seed that the point `p` belongs to.
pub open spec fn nearest(algorithm: DistanceAlgorithm, seeds: Seq<Point>, p: Point) -> int {
    choose|m: int| is_nearest(algorithm, seeds, p, m)
}

/// The point at which the tile with index `i` lies.
pub open spec fn tile_point(width: int, i: int) -> Point {
    Point { x: cell_x(width, i) as i32, y: cell_y(width, i) as i32 }
}

/// The seed of every tile of a `width` by `height` grid.
pub open spec fn regions(
    algorithm: DistanceAlgorithm,
    seeds: Seq<Point>,
    width: int,
    height: int,
) -> Seq<usize> {
    Seq::new(
        (width * height) as nat,
        |i: int| nearest(algorithm, seeds, tile_point(width, i)) as usize,
    )
}

/// How many of the four direct neighbours of tile `i` belong to another seed
/// than the tile itself.
pub open spec fn region_edges(membership: Seq<usize>, width: int, i: int) -> int {
    (if membership[i - 1] != membership[i] {
        1int
    } else {
        0int
    }) + (if membership[i + 1] != membership[i] {
        1int
    } else {
        0int
    }) + (if membership[i - width] != membership[i] {
        1int
    } else {
        0int
    }) + (if membership[i + width] != membership[i] {
        1int
    } else {
        0int
    })
}

/// The tiles after carving: off the outermost ring of the map, a tile with
/// fewer than two neighbours in another region gets `tile`. Every other tile
/// is as before, so the borders between regions keep what the map held.
pub open spec fn carved(
    tiles: Seq<TileType>,
    membership: Seq<usize>,
    width: int,
    height: int,
    tile: TileType,
) -> Seq<TileType> {
    Seq::new(
        tiles.len(),
        |i: int|
            if inner_tile(width, height, i) && region_edges(membership, width, i) < 2 {
                tile
            } else {
                tiles[i]
            },
    )
}

/// Where a seed can lie on a `width` by `height` map: anywhere off the
/// outermost ring.
pub open spec fn seed_in_band(width: int, height: int, p: Point) -> bool {
    1 <= p.x <= width - 2 && 1 <= p.y <= height - 2
}

/// The map sizes that have a position for a seed.
pub open spec fn seeds_fit(width: int, height: int) -> bool {
    3 <= width && 3 <= height
}

/// What holds of the seeds that are scattered on a map: there are `count` of
/// them, each lies on the map, and no two lie at the same position.
pub open spec fn seeds_scattered(seeds: Seq<Point>, width: int, height: int, count: int) -> bool {
    &&& seeds.len() == count
    &&& seeds.no_duplicates()
    &&& forall|j: int| 0 <= j < seeds.len() ==> seed_in_band(width, height, #[trigger] seeds[j])
}

/// Among the first `n` seeds there is one that the point belongs to.
proof fn lemma_nearest_among(algorithm: DistanceAlgorithm, seeds: Seq<Point>, p: Point, n: int)
    requires
        0 < n <= seeds.len(),
    ensures
        exists|m: int| is_nearest(algorithm, seeds.subrange(0, n), p, m),
    decreases n,
{
    let first = seeds.subrange(0, n);
    if n == 1 {
        assert(is_nearest(algorithm, first, p, 0));
    } else {
        lemma_nearest_among(algorithm, seeds, p, n - 1);
        let fewer = seeds.subrange(0, n - 1);
        let m = choose|m: int| is_nearest(algorithm, fewer, p, m);
        assert(fewer[m] == first[m]);
        assert forall|j: int| 0 <= j < n - 1 implies fewer[j] == first[j] by {}
        if distance(algorithm, p, first[n - 1]) < distance(algorithm, p, first[m]) {
            assert forall|j: int| 0 <= j < first.len() implies distance(
                algorithm,
                p,
                first[n - 1],
            ) <= distance(algorithm, p, #[trigger] first[j]) by {
                if j < n - 1 {
                    assert(fewer[j] == first[j]);
                }
            }
            assert forall|j: int| 0 <= j < n - 1 implies distance(algorithm, p, first[n - 1])
                < distance(algorithm, p, #[trigger] first[j]) by {
                assert(fewer[j] == first[j]);
            }
            assert(is_nearest(algorithm, first, p, n - 1));
        } else {
            assert forall|j: int| 0 <= j < first.len() implies distance(algorithm, p, first[m])
                <= distance(algorithm, p, #[trigger] first[j]) by {
                if j < n - 1 {
                    assert(fewer[j] == first[j]);
                }
            }
            assert forall|j: int| 0 <= j < m implies distance(algorithm, p, first[m]) < distance(
                algorithm,
                p,
                #[trigger] first[j],
            ) by {
                assert(fewer[j] == first[j]);
            }
            assert(is_nearest(algorithm, first, p, m));
        }
    }
}

/// Where there is a seed at all, every point has a seed that it belongs to:
/// `nearest` names a seed that is as near as any, and the first of those.
pub proof fn lemma_nearest_exists(algorithm: DistanceAlgorithm, seeds: Seq<Point>, p: Point)
    requires
        seeds.len() > 0,
    ensures
        is_nearest(algorithm, seeds, p, nearest(algorithm, seeds, p)),
{
    lemma_nearest_among(algorithm, seeds, p, seeds.len() as int);
    assert(seeds.subrange(0, seeds.len() as int) =~= seeds);
}

/// A single seed owns the whole map, so carving paints every tile off the
/// outermost ring, wherever the seed lies, and leaves the ring as it was.
pub proof fn lemma_one_seed_carves_all(
    algorithm: DistanceAlgorithm,
    seeds: Seq<Point>,
    tiles: Seq<TileType>,
    width: int,
    height: int,
    tile: TileType,
)
    requires
        seeds.len() == 1,
        0 < width,
        tiles.len() == width * height,
    ensures
        forall|i: int|
            0 <= i < tiles.len() ==> #[trigger] carved(
                tiles,
                regions(algorithm, seeds, width, height),
                width,
                height,
                tile,
            )[i] == if inner_tile(width, height, i) {
                tile
            } else {
                tiles[i]
            },
{
    let found = regions(algorithm, seeds, width, height);
    assert forall|j: int| 0 <= j < width * height implies #[trigger] found[j] == 0 by {
        lemma_nearest_exists(algorithm, seeds, tile_point(width, j));
    }
    assert forall|i: int| 0 <= i < tiles.len() implies #[trigger] carved(
        tiles,
        found,
        width,
        height,
        tile,
    )[i] == if inner_tile(width, height, i) {
        tile
    } else {
        tiles[i]
    } by {
        if inner_tile(width, height, i) {
            let x = cell_x(width, i);
            let y = cell_y(width, i);
            lemma_index_has_cell(width, height, i);
            lemma_neighbour_indices(width, x, y);
            lemma_cell_index_in_range(width, height, x - 1, y);
            lemma_cell_index_in_range(width, height, x + 1, y);
            lemma_cell_index_in_range(width, height, x, y - 1);
            lemma_cell_index_in_range(width, height, x, y + 1);
            assert(found[i] == 0 && found[i - 1] == 0 && found[i + 1] == 0 && found[i - width]
                == 0 && found[i + width] == 0);
            assert(region_edges(found, width, i) == 0);
        }
    }
}

/// A point has exactly one seed that it belongs to.
pub proof fn lemma_nearest_unique(
    algorithm: DistanceAlgorithm,
    seeds: Seq<Point>,
    p: Point,
    m: int,
)
    requires
        is_nearest(algorithm, seeds, p, m),
    ensures
        nearest(algorithm, seeds, p) == m,
{
    let c = nearest(algorithm, seeds, p);
    assert(is_nearest(algorithm, seeds, p, c));
    if c < m {
        assert(distance(algorithm, p, seeds[m]) < distance(algorithm, p, seeds[c]));
        assert(distance(algorithm, p, seeds[c]) <= distance(algorithm, p, seeds[m]));
    }
    if m < c {
        assert(distance(algorithm, p, seeds[c]) < distance(algorithm, p, seeds[m]));
        assert(distance(algorithm, p, seeds[m]) <= distance(algorithm, p, seeds[c]));
    }
}

/// The distance between two points under a metric.
pub fn distance2d(algorithm: DistanceAlgorithm, a: Point, b: Point) -> (d: u128)
    ensures
        d == distance(algorithm, a, b),
{
    let ax: i64 = a.x as i64;
    let bx: i64 = b.x as i64;
    let ay: i64 = a.y as i64;
    let by: i64 = b.y as i64;
    let dx: u128 = if ax >= bx {
        (ax - bx) as u128
    } else {
        (bx - ax) as u128
    };
    let dy: u128 = if ay >= by {
        (ay - by) as u128
    } else {
        (by - ay) as u128
    };
    match algorithm {
        DistanceAlgorithm::Pythagoras => {
            assert(dx * dx <= 0xffff_ffff * 0xffff_ffff) by (nonlinear_arith)
                requires
                    dx <= 0xffff_ffff,
            ;
            assert(dy * dy <= 0xffff_ffff * 0xffff_ffff) by (nonlinear_arith)
                requires
                    dy <= 0xffff_ffff,
            ;
            dx * dx + dy * dy
        },
        DistanceAlgorithm::Manhattan => dx + dy,
        DistanceAlgorithm::Chebyshev => if dx > dy {
            dx
        } else {
            dy
        },
    }
}

/// Finds the seed that a point belongs to: the nearest one, and the first of
/// those that are equally near.
pub fn nearest_seed(algorithm: DistanceAlgorithm, seeds: &Vec<Point>, p: Point) -> (m: usize)
    requires
        seeds@.len() > 0,
    ensures
        is_nearest(algorithm, seeds@, p, m as int),
        m == nearest(algorithm, seeds@, p),
{
    let mut best: usize = 0;
    let mut best_distance: u128 = distance2d(algorithm, p, seeds[0]);
    let mut j: usize = 1;
    while j < seeds.len()
        invariant
            1 <= j <= seeds@.len(),
            best < j,
            best_distance == distance(algorithm, p, seeds@[best as int]),
            forall|k: int|
                0 <= k < j ==> distance(algorithm, p, seeds@[best as int]) <= distance(
                    algorithm,
                    p,
                    #[trigger] seeds@[k],
                ),
            forall|k: int|
                0 <= k < best ==> distance(algorithm, p, seeds@[best as int]) < distance(
                    algorithm,
                    p,
                    #[trigger] seeds@[k],
                ),
        decreases seeds@.len() - j,
    {
        let d: u128 = distance2d(algorithm, p, seeds[j]);
        if d < best_distance {
            best = j;
            best_distance = d;
        }
        j = j + 1;
    }
    proof {
        lemma_nearest_unique(algorithm, seeds@, p, best as int);
    }
    best
}

/// Assigns every tile of the map to its seed.
pub fn membership(map: &GridMap, algorithm: DistanceAlgorithm, seeds: &Vec<Point>) -> (found: Vec<
    usize,
>)
    requires
        map.wf(),
        seeds@.len() > 0,
    ensures
        found@ == regions(algorithm, seeds@, map.map_width as int, map.map_height as int),
        forall|i: int|
            0 <= i < found@.len() ==> is_nearest(
                algorithm,
                seeds@,
                tile_point(map.map_width as int, i),
                #[trigger] found@[i] as int,
            ),
{
    let ghost w = map.map_width as int;
    let ghost h = map.map_height as int;
    let count: usize = map.map.len();
    let mut found: Vec<usize> = Vec::new();
    let mut i: usize = 0;
    while i < count
        invariant
            map.wf(),
            seeds@.len() > 0,
            w == map.map_width,
            h == map.map_height,
            count == w * h,
            i <= count,
            found@.len() == i,
            forall|k: int|
                0 <= k < i ==> is_nearest(
                    algorithm,
                    seeds@,
                    tile_point(w, k),
                    #[trigger] found@[k] as int,
                ) && found@[k] == nearest(algorithm, seeds@, tile_point(w, k)),
        decreases count - i,
    {
        let (x, y) = map.idx_xy(i);
        let m: usize = nearest_seed(algorithm, seeds, Point::new(x, y));
        found.push(m);
        i = i + 1;
    }
    proof {
        assert(found@ =~= regions(algorithm, seeds@, w, h));
    }
    found
}

/// Carves the regions out of the map: off the outermost ring, every tile
/// that has fewer than two direct neighbours in another region gets `tile`.
pub fn carve(map: &mut GridMap, found: &Vec<usize>, tile: TileType)
    requires
        old(map).wf(),
        found@.len() == old(map).map@.len(),
    ensures
        final(map).wf(),
        final(map).same_frame(old(map)),
        final(map).map@ == carved(
            old(map).map@,
            found@,
            old(map).map_width as int,
            old(map).map_height as int,
            tile,
        ),
{
    let ghost w = map.map_width as int;
    let ghost h = map.map_height as int;
    let ghost tiles0 = map.map@;
    let width: usize = map.map_width as usize;
    let mut y: i32 = 1;
    while y < map.map_height - 1
        invariant
            map.wf(),
            map.same_frame(old(map)),
            found@.len() == tiles0.len(),
            tiles0 == old(map).map@,
            w == map.map_width,
            h == map.map_height,
            width == w,
            1 <= y,
            forall|i: int|
                0 <= i < tiles0.len() ==> #[trigger] map.map@[i] == if cell_y(w, i) < y {
                    carved(tiles0, found@, w, h, tile)[i]
                } else {
                    tiles0[i]
                },
        decreases h - y,
    {
        let mut x: i32 = 1;
        while x < map.map_width - 1
            invariant
                map.wf(),
                map.same_frame(old(map)),
                found@.len() == tiles0.len(),
                tiles0 == old(map).map@,
                w == map.map_width,
                h == map.map_height,
                width == w,
                1 <= y < h - 1,
                1 <= x,
                forall|i: int|
                    0 <= i < tiles0.len() ==> #[trigger] map.map@[i] == if cell_y(w, i) < y || (
                    cell_y(w, i) == y && cell_x(w, i) < x) {
                        carved(tiles0, found@, w, h, tile)[i]
                    } else {
                        tiles0[i]
                    },
            decreases w - x,
        {
            let my_idx: usize = map.xy_idx(x, y);
            proof {
                lemma_neighbour_indices(w, x as int, y as int);
                map.lemma_index_in_range(x - 1, y as int);
                map.lemma_index_in_range(x + 1, y as int);
                map.lemma_index_in_range(x as int, y - 1);
                map.lemma_index_in_range(x as int, y + 1);
                lemma_cell_index_inverse(w, x as int, y as int);
                assert(map.map@.len() == map.map.len());
            }
            let my_seed: usize = found[my_idx];
            let mut neighbors: u32 = 0;
            if found[my_idx - 1] != my_seed {
                neighbors = neighbors + 1;
            }
            if found[my_idx + 1] != my_seed {
                neighbors = neighbors + 1;
            }
            if found[my_idx - width] != my_seed {
                neighbors = neighbors + 1;
            }
            if found[my_idx + width] != my_seed {
                neighbors = neighbors + 1;
            }
            assert(neighbors == region_edges(found@, w, my_idx as int));
            if neighbors < 2 {
                map.map[my_idx] = tile;
            }
            proof {
                assert forall|i: int| 0 <= i < tiles0.len() implies #[trigger] map.map@[i]
                    == if cell_y(w, i) < y || (cell_y(w, i) == y && cell_x(w, i) < x + 1) {
                    carved(tiles0, found@, w, h, tile)[i]
                } else {
                    tiles0[i]
                } by {
                    lemma_index_names_cell(w, h, x as int, y as int, i);
                }
            }
            x = x + 1;
        }
        y = y + 1;
    }
    proof {
        assert(map.map@ =~= carved(tiles0, found@, w, h, tile));
    }
}

/// Adds a candidate to the seeds unless a seed lies at its position already,
/// and says whether it was added.
pub fn add_seed(seeds: &mut Vec<Point>, candidate: Point) -> (added: bool)
    ensures
        added == !old(seeds)@.contains(candidate),
        final(seeds)@ == if added {
            old(seeds)@.push(candidate)
        } else {
            old(seeds)@
        },
        old(seeds)@.no_duplicates() ==> final(seeds)@.no_duplicates(),
{
    let mut j: usize = 0;
    while j < seeds.len()
        invariant
            j <= seeds@.len(),
            seeds@ == old(seeds)@,
            forall|k: int| 0 <= k < j ==> seeds@[k] != candidate,
        decreases seeds@.len() - j,
    {
        if seeds[j] == candidate {
            return false;
        }
        j = j + 1;
    }
    seeds.push(candidate);
    true
}

/// The Voronoi stage: `n_seeds` regions under the metric
/// `distance_algorithm`, whose insides are painted with `tile_to_draw`.
#[derive(Debug)]
pub struct VoronoiCellBuilder {
    pub n_seeds: usize,
    pub distance_algorithm: DistanceAlgorithm,
    pub tile_to_draw: TileType,
}

impl VoronoiCellBuilder {
    /// The default builder: 64 seeds, the Chebyshev metric, floor inside the
    /// regions.
    pub fn new() -> (b: Box<VoronoiCellBuilder>)
        ensures
            b.n_seeds == DEFAULT_SEEDS,
            b.distance_algorithm == DistanceAlgorithm::Chebyshev,
            b.tile_to_draw == TileType::Floor,
    {
        Box::new(
            VoronoiCellBuilder {
                n_seeds: DEFAULT_SEEDS,
                distance_algorithm: DistanceAlgorithm::Chebyshev,
                tile_to_draw: TileType::Floor,
            },
        )
    }

    /// The default builder under the squared straight-line metric.
    pub fn pythagoras() -> (b: Box<VoronoiCellBuilder>)
        ensures
            b.n_seeds == DEFAULT_SEEDS,
            b.distance_algorithm == DistanceAlgorithm::Pythagoras,
            b.tile_to_draw == TileType::Floor,
    {
        Box::new(
            VoronoiCellBuilder {
                n_seeds: DEFAULT_SEEDS,
                distance_algorithm: DistanceAlgorithm::Pythagoras,
                tile_to_draw: TileType::Floor,
            },
        )
    }

    /// The default builder under the Manhattan metric.
    pub fn manhattan() -> (b: Box<VoronoiCellBuilder>)
        ensures
            b.n_seeds == DEFAULT_SEEDS,
            b.distance_algorithm == DistanceAlgorithm::Manhattan,
            b.tile_to_draw == TileType::Floor,
    {
        Box::new(
            VoronoiCellBuilder {
                n_seeds: DEFAULT_SEEDS,
                distance_algorithm: DistanceAlgorithm::Manhattan,
                tile_to_draw: TileType::Floor,
            },
        )
    }

    /// A builder with a seed count, a metric and a tile of the caller's
    /// choice.
    pub fn new_advanced(seeds: usize, algorithm: DistanceAlgorithm, tile: TileType) -> (b: Box<
        VoronoiCellBuilder,
    >)
        ensures
            b.n_seeds == seeds,
            b.distance_algorithm == algorithm,
            b.tile_to_draw == tile,
    {
        Box::new(
            VoronoiCellBuilder { n_seeds: seeds, distance_algorithm: algorithm, tile_to_draw: tile },
        )
    }

    /// Scatters the seeds: draws positions off the outermost ring of the map
    /// until `n_seeds` different ones have come up, or until
    /// `MAX_SEED_ATTEMPTS` positions have been drawn.
    ///
    /// No seeds are scattered at once. One seed is placed by the first draw,
    /// wherever it falls. For more seeds the dice decide whether enough
    /// different positions come up in time.
    pub fn scatter_seeds(&self, rng: &mut RandomNumberGenerator, map: &GridMap) -> (r: Result<
        Vec<Point>,
        GenerationError,
    >)
        requires
            map.wf(),
        ensures
            r is Err ==> r->Err_0 == GenerationError::MapTooSmall || r->Err_0
                == GenerationError::SeedsNotPlaced,
            r == Err::<Vec<Point>, GenerationError>(GenerationError::MapTooSmall) <==> self.n_seeds
                > 0 && !seeds_fit(map.map_width as int, map.map_height as int),
            self.n_seeds == 0 ==> r is Ok,
            self.n_seeds == 1 && seeds_fit(map.map_width as int, map.map_height as int) ==> r is Ok,
            r is Ok ==> self.n_seeds <= MAX_SEED_ATTEMPTS,
            r matches Ok(seeds) ==> seeds_scattered(
                seeds@,
                map.map_width as int,
                map.map_height as int,
                self.n_seeds as int,
            ),
    {
        let mut seeds: Vec<Point> = Vec::new();
        if self.n_seeds == 0 {
            return Ok(seeds);
        }
        if map.map_width < 3 || map.map_height < 3 {
            return Err(GenerationError::MapTooSmall);
        }
        let mut attempts: u32 = 0;
        while seeds.len() < self.n_seeds && attempts < MAX_SEED_ATTEMPTS
            invariant
                map.wf(),
                3 <= map.map_width,
                3 <= map.map_height,
                attempts <= MAX_SEED_ATTEMPTS,
                seeds@.len() <= attempts,
                attempts >= 1 ==> seeds@.len() >= 1,
                seeds@.len() <= self.n_seeds,
                seeds@.no_duplicates(),
                forall|j: int|
                    0 <= j < seeds@.len() ==> seed_in_band(
                        map.map_width as int,
                        map.map_height as int,
                        #[trigger] seeds@[j],
                    ),
            decreases MAX_SEED_ATTEMPTS - attempts,
        {
            attempts = attempts + 1;
            let vx: i32 = roll_dice(rng, 1, map.map_width - 2);
            let vy: i32 = roll_dice(rng, 1, map.map_height - 2);
            add_seed(&mut seeds, Point::new(vx, vy));
        }
        if seeds.len() < self.n_seeds {
            return Err(GenerationError::SeedsNotPlaced);
        }
        Ok(seeds)
    }

    /// Carves the regions of the given seeds out of the map.
    pub fn carve_regions(&self, build_data: &mut BuilderMap, seeds: &Vec<Point>)
        requires
            old(build_data).map.wf(),
            seeds@.len() > 0,
        ensures
            final(build_data).map.wf(),
            final(build_data).only_tiles_differ(old(build_data)),
            final(build_data).map.map@ == carved(
                old(build_data).map.map@,
                regions(
                    self.distance_algorithm,
                    seeds@,
                    old(build_data).map.map_width as int,
                    old(build_data).map.map_height as int,
                ),
                old(build_data).map.map_width as int,
                old(build_data).map.map_height as int,
                self.tile_to_draw,
            ),
    {
        let found: Vec<usize> = membership(&build_data.map, self.distance_algorithm, seeds);
        carve(&mut build_data.map, &found, self.tile_to_draw);
    }

    /// Runs the stage: scatters the seeds and carves their regions.
    ///
    /// Where the stage succeeds, the map is what carving gives for some
    /// `n_seeds` seeds that lie off the outermost ring of the map at
    /// different positions; which seeds they are depends on the dice. With
    /// one seed the stage succeeds on every map that has a position for it.
    /// A builder without seeds has no regions to carve and fails.
    pub fn build(&mut self, rng: &mut RandomNumberGenerator, build_data: &mut BuilderMap) -> (r:
        Result<(), GenerationError>)
        requires
            old(build_data).map.wf(),
        ensures
            *final(self) == *old(self),
            final(build_data).map.wf(),
            final(build_data).only_tiles_differ(old(build_data)),
            r is Err ==> final(build_data).map.map@ == old(build_data).map.map@,
            r is Err ==> r->Err_0 == GenerationError::NoSeeds || r->Err_0
                == GenerationError::MapTooSmall || r->Err_0 == GenerationError::SeedsNotPlaced,
            r == Err::<(), GenerationError>(GenerationError::NoSeeds) <==> old(self).n_seeds == 0,
            r == Err::<(), GenerationError>(GenerationError::MapTooSmall) <==> old(self).n_seeds > 0
                && !seeds_fit(
                old(build_data).map.map_width as int,
                old(build_data).map.map_height as int,
            ),
            old(self).n_seeds == 1 && seeds_fit(
                old(build_data).map.map_width as int,
                old(build_data).map.map_height as int,
            ) ==> r is Ok,
            r is Ok ==> exists|seeds: Seq<Point>|
                #![trigger seeds_scattered(seeds, old(build_data).map.map_width as int, old(build_data).map.map_height as int, old(self).n_seeds as int)]
                seeds_scattered(
                    seeds,
                    old(build_data).map.map_width as int,
                    old(build_data).map.map_height as int,
                    old(self).n_seeds as int,
                ) && final(build_data).map.map@ == carved(
                    old(build_data).map.map@,
                    regions(
                        old(self).distance_algorithm,
                        seeds,
                        old(build_data).map.map_width as int,
                        old(build_data).map.map_height as int,
                    ),
                    old(build_data).map.map_width as int,
                    old(build_data).map.map_height as int,
                    old(self).tile_to_draw,
                ),
    {
        if self.n_seeds == 0 {
            return Err(GenerationError::NoSeeds);
        }
        match self.scatter_seeds(rng, &build_data.map) {
            Err(e) => Err(e),
            Ok(seeds) => {
                self.carve_regions(build_data, &seeds);
                proof {
                    assert(seeds_scattered(
                        seeds@,
                        old(build_data).map.map_width as int,
                        old(build_data).map.map_height as int,
                        old(self).n_seeds as int,
                    ));
                }
                Ok(())
            },
        }
    }
}

} // verus!
