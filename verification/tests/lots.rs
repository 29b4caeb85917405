use std::collections::HashSet;

use mapgen::lots::{claim_lot, lot_fits, raise_walls};
use mapgen::map::GridMap;
use mapgen::tile::TileType;
use mapgen::town_builder::TownBuilder;

fn all_tiles(map: &GridMap) -> HashSet<usize> {
    (0..map.map.len()).collect()
}

#[test]
fn lot_fits_needs_every_tile_free_and_on_the_map() {
    let map = GridMap::new(0, 10, 10);
    let mut free = all_tiles(&map);
    assert!(lot_fits(&map, &free, (3, 3, 4, 4)));
    assert!(lot_fits(&map, &free, (0, 0, 10, 10)));
    assert!(!lot_fits(&map, &free, (7, 3, 4, 4)));
    assert!(!lot_fits(&map, &free, (3, 7, 4, 4)));
    assert!(!lot_fits(&map, &free, (-1, 3, 4, 4)));
    assert!(!lot_fits(&map, &free, (3, -1, 4, 4)));
    free.remove(&map.xy_idx(6, 6));
    assert!(!lot_fits(&map, &free, (3, 3, 4, 4)));
    assert!(lot_fits(&map, &free, (3, 3, 3, 4)));
}

#[test]
fn lot_fits_accepts_an_empty_lot() {
    let map = GridMap::new(0, 10, 10);
    let free: HashSet<usize> = HashSet::new();
    assert!(lot_fits(&map, &free, (3, 3, 0, 4)));
    assert!(lot_fits(&map, &free, (30, 30, 4, 0)));
    assert!(!lot_fits(&map, &free, (3, 3, 1, 1)));
}

#[test]
fn lot_fits_survives_extreme_coordinates() {
    let map = GridMap::new(0, 10, 10);
    let free = all_tiles(&map);
    assert!(!lot_fits(&map, &free, (i32::MAX, i32::MAX, i32::MAX, i32::MAX)));
    assert!(!lot_fits(&map, &free, (i32::MIN, 0, 5, 5)));
}

#[test]
fn claim_lot_floors_the_footprint_and_claims_its_neighbours() {
    let mut map = GridMap::new(0, 10, 10);
    let mut free = all_tiles(&map);
    claim_lot(&mut map, &mut free, (3, 3, 2, 2));
    let footprint = [33usize, 34, 43, 44];
    let halo = [32usize, 35, 42, 45, 23, 24, 53, 54];
    for i in 0..100usize {
        let floored = footprint.contains(&i);
        assert_eq!(map.map[i] == TileType::RustedMetalFloor, floored);
        if !floored {
            assert_eq!(map.map[i], TileType::Wall);
        }
        assert_eq!(free.contains(&i), !floored && !halo.contains(&i));
    }
    // The diagonal neighbours of the corners stay free.
    for corner in [22usize, 25, 52, 55] {
        assert!(free.contains(&corner));
    }
}

#[test]
fn claim_lot_at_the_edge_does_not_wrap_around() {
    let mut map = GridMap::new(0, 6, 6);
    let mut free = all_tiles(&map);
    claim_lot(&mut map, &mut free, (0, 0, 2, 2));
    // Footprint 0, 1, 6, 7; neighbours 2, 8 to the east and 12, 13 to the south.
    let gone = [0usize, 1, 6, 7, 2, 8, 12, 13];
    for i in 0..36usize {
        assert_eq!(free.contains(&i), !gone.contains(&i));
    }
    let mut map = GridMap::new(0, 6, 6);
    let mut free = all_tiles(&map);
    claim_lot(&mut map, &mut free, (5, 5, 1, 1));
    let gone = [35usize, 34, 29];
    for i in 0..36usize {
        assert_eq!(free.contains(&i), !gone.contains(&i));
    }
}

#[test]
fn try_place_lot_leaves_everything_alone_when_the_lot_does_not_fit() {
    let mut map = GridMap::new(0, 10, 10);
    let mut free = all_tiles(&map);
    free.remove(&44);
    let before = free.clone();
    assert!(!TownBuilder::try_place_lot(&mut map, &mut free, (3, 3, 2, 2)));
    assert_eq!(free, before);
    assert!(map.map.iter().all(|t| *t == TileType::Wall));
    assert!(TownBuilder::try_place_lot(&mut map, &mut free, (5, 5, 2, 2)));
    assert_eq!(map.map[55], TileType::RustedMetalFloor);
    assert!(!free.contains(&55));
    assert!(!free.contains(&54));
}

#[test]
fn raise_walls_rings_a_lone_lot() {
    let mut map = GridMap::new(0, 12, 12);
    for t in map.map.iter_mut() {
        *t = TileType::Concrete;
    }
    let mut free = all_tiles(&map);
    claim_lot(&mut map, &mut free, (3, 3, 5, 4));
    raise_walls(&mut map);
    for y in 0..12 {
        for x in 0..12 {
            let inside = (3..8).contains(&x) && (3..7).contains(&y);
            let ring = inside && (x == 3 || x == 7 || y == 3 || y == 6);
            let expected = if ring {
                TileType::Wall
            } else if inside {
                TileType::RustedMetalFloor
            } else {
                TileType::Concrete
            };
            assert_eq!(map.map[map.xy_idx(x, y)], expected, "at ({}, {})", x, y);
        }
    }
}

#[test]
fn raise_walls_decides_on_the_tiles_as_they_were() {
    // A floor strip two tiles thick: every tile touches concrete, so all of
    // it becomes wall, also the tiles whose neighbours turned to wall first.
    let mut map = GridMap::new(0, 12, 12);
    for t in map.map.iter_mut() {
        *t = TileType::Concrete;
    }
    let mut free = all_tiles(&map);
    claim_lot(&mut map, &mut free, (3, 3, 6, 2));
    raise_walls(&mut map);
    for y in 3..5 {
        for x in 3..9 {
            assert_eq!(map.map[map.xy_idx(x, y)], TileType::Wall);
        }
    }
}

#[test]
fn raise_walls_leaves_the_two_outer_rings_alone() {
    let mut map = GridMap::new(0, 8, 8);
    for t in map.map.iter_mut() {
        *t = TileType::Concrete;
    }
    let at = map.xy_idx(1, 4);
    map.map[at] = TileType::RustedMetalFloor;
    let inner = map.xy_idx(2, 2);
    map.map[inner] = TileType::RustedMetalFloor;
    raise_walls(&mut map);
    assert_eq!(map.map[at], TileType::RustedMetalFloor);
    assert_eq!(map.map[inner], TileType::Wall);
}
