//! The town's road: where it runs, the lanes that are routed for it, and what
//! painting them does to the map and to the tiles that are free for building.

use vstd::prelude::*;
use std::collections::HashSet;
use crate::map::{GridMap, Point};
use crate::tile::TileType;

verus! {

broadcast use vstd::std_specs::hash::group_hash_axioms;

/// The two ends of the town's road: one next to the west edge of the map,
/// one next to the east edge.
#[derive(Clone, Copy, Debug, PartialEq, Eq, Structural)]
pub struct RoadPlan {
    pub start: Point,
    pub end: Point,
}

/// The number of lanes that are searched for one road: the road itself, one
/// lane to either side that is painted too, and one more to either side that
/// only keeps buildings away.
pub const ROAD_LANES: usize = 5;

/// The number of lanes, counted from the first, that are painted as road.
pub const PAINTED_LANES: usize = 3;

/// The map sizes on which a road with all of its lanes stays on the map.
pub open spec fn road_fits(width: int, height: int) -> bool {
    2 <= width && 16 <= height
}

/// What holds of every road that is planned on a `width` by `height` map.
pub open spec fn road_planned(width: int, height: int, plan: RoadPlan) -> bool {
    &&& plan.start.x == 1
    &&& height - 14 <= plan.start.y < height - 5
    &&& plan.end.x == width - 2
    &&& 10 <= plan.end.y < height - 3
}

/// By how many rows the lane `lane` is shifted against the road itself: the
/// lanes come in the order 0, -1, +1, +2, -2.
pub open spec fn lane_offset(lane: int) -> int {
    if lane == 1 {
        -1
    } else if lane == 2 {
        1
    } else if lane == 3 {
        2
    } else if lane == 4 {
        -2
    } else {
        0
    }
}

/// Whether tile `i` is a step of one of the lanes `from..to`.
pub open spec fn on_lane(lanes: Seq<Vec<usize>>, from: int, to: int, i: usize) -> bool {
    exists|j: int|
        from <= j < to && 0 <= j < lanes.len() && (#[trigger] lanes[j])@.contains(i)
}

/// The tiles after the first `PAINTED_LANES` lanes have been painted as road.
pub open spec fn road_painted(tiles: Seq<TileType>, lanes: Seq<Vec<usize>>) -> Seq<TileType> {
    Seq::new(
        tiles.len(),
        |i: int|
            if on_lane(lanes, 0, PAINTED_LANES as int, i as usize) {
                TileType::Road
            } else {
                tiles[i]
            },
    )
}

/// The free tiles that no lane runs over.
pub open spec fn without_lanes(free: Set<usize>, lanes: Seq<Vec<usize>>) -> Set<usize> {
    Set::new(|i: usize| free.contains(i) && !on_lane(lanes, 0, lanes.len() as int, i))
}

/// Takes the steps of one lane out of the free set and, where `paint` is
/// set, turns them into road. A step that is no tile of the map is not
/// painted.
pub fn pave_lane(map: &mut GridMap, available: &mut HashSet<usize>, lane: &Vec<usize>, paint: bool)
    requires
        old(map).wf(),
    ensures
        final(map).wf(),
        final(map).same_frame(old(map)),
        forall|i: int|
            0 <= i < old(map).map@.len() ==> #[trigger] final(map).map@[i] == if paint
                && lane@.contains(i as usize) {
                TileType::Road
            } else {
                old(map).map@[i]
            },
        forall|i: usize| #[trigger]
            final(available)@.contains(i) <==> old(available)@.contains(i) && !lane@.contains(i),
{
    let ghost tiles0 = map.map@;
    let ghost free0 = available@;
    let mut s: usize = 0;
    proof {
        assert(map.map@.len() == map.map.len());
    }
    while s < lane.len()
        invariant
            s <= lane@.len(),
            map.wf(),
            map.same_frame(old(map)),
            tiles0 == old(map).map@,
            free0 == old(available)@,
            tiles0.len() <= usize::MAX,
            forall|i: int|
                0 <= i < tiles0.len() ==> #[trigger] map.map@[i] == if paint && lane@.subrange(
                    0,
                    s as int,
                ).contains(i as usize) {
                    TileType::Road
                } else {
                    tiles0[i]
                },
            forall|i: usize| #[trigger]
                available@.contains(i) <==> free0.contains(i) && !lane@.subrange(
                    0,
                    s as int,
                ).contains(i),
        decreases lane@.len() - s,
    {
        let step: usize = lane[s];
        available.remove(&step);
        if paint && step < map.map.len() {
            map.map[step] = TileType::Road;
        }
        proof {
            let done = lane@.subrange(0, s as int);
            let more = lane@.subrange(0, s + 1);
            assert forall|u: usize| #[trigger] more.contains(u) == (done.contains(u) || u == step) by {
                if done.contains(u) {
                    let j = choose|j: int| 0 <= j < done.len() && done[j] == u;
                    assert(more[j] == u);
                }
                if u == step {
                    assert(more[s as int] == step);
                }
            }
            assert forall|i: int| 0 <= i < tiles0.len() implies #[trigger] map.map@[i] == if paint
                && more.contains(i as usize) {
                TileType::Road
            } else {
                tiles0[i]
            } by {
                assert(more.contains(i as usize) == (done.contains(i as usize) || i as usize
                    == step));
            }
        }
        s = s + 1;
    }
    proof {
        assert(lane@.subrange(0, s as int) =~= lane@);
    }
}

} // verus!
