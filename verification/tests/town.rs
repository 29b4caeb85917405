use std::collections::HashSet;

use bracket_lib::random::RandomNumberGenerator;
use mapgen::builder::{BuilderChain, BuilderMap, GenerationError, InitialStage};
use mapgen::content::{center_of, interior_tiles, named_archetype, Archetype, ArchetypeDeck};
use mapgen::lots::Lot;
use mapgen::map::{GridMap, Point};
use mapgen::tile::TileType;
use mapgen::doors::{cut_door, door_position, Orientation};
use mapgen::random::roll_total;
use mapgen::roads::{pave_lane, RoadPlan};
use mapgen::town_builder::{
    spawn_citizens, starting_town, Building, TownBuilder, DEFAULT_LOT_ATTEMPTS, LOT_COUNT, MAX_H,
    MAX_W,
};

fn paved_town(width: i32, height: i32) -> (BuilderMap, HashSet<usize>) {
    let mut data = BuilderMap::new(0, width, height);
    let mut free = TownBuilder::building_tiles(&data.map);
    let mut builder = TownBuilder::new();
    builder.lay_concrete(&mut data, &mut free);
    (data, free)
}

fn covers(lot: &Lot, x: i32, y: i32) -> bool {
    lot.0 <= x && x < lot.0 + lot.2 && lot.1 <= y && y < lot.1 + lot.3
}

fn claims(lot: &Lot, x: i32, y: i32) -> bool {
    covers(lot, x, y)
        || covers(lot, x - 1, y)
        || covers(lot, x + 1, y)
        || covers(lot, x, y - 1)
        || covers(lot, x, y + 1)
}

fn on_ring(lot: &Lot, x: i32, y: i32) -> bool {
    covers(lot, x, y)
        && (x == lot.0 || x == lot.0 + lot.2 - 1 || y == lot.1 || y == lot.1 + lot.3 - 1)
}

fn in_corner(lot: &Lot, x: i32, y: i32) -> bool {
    (x == lot.0 || x == lot.0 + lot.2 - 1) && (y == lot.1 || y == lot.1 + lot.3 - 1)
}

#[test]
fn starting_town_is_an_80_by_80_wall_block_with_a_town_stage() {
    let chain = starting_town();
    assert_eq!(chain.build_data.map.map_width, 80);
    assert_eq!(chain.build_data.map.map_height, 80);
    assert_eq!(chain.build_data.map.depth, 0);
    assert_eq!(chain.build_data.map.map.len(), 6400);
    assert!(chain.build_data.map.map.iter().all(|t| *t == TileType::Wall));
    assert!(chain.build_data.spawn_list.is_empty());
    assert_eq!(chain.build_data.starting_position, None);
    match chain.starter {
        Some(InitialStage::Town(b)) => assert_eq!(b.lot_attempts, DEFAULT_LOT_ATTEMPTS),
        _ => panic!("the starting town starts with a town builder"),
    }
}

#[test]
fn a_chain_keeps_its_first_starting_stage() {
    let mut chain = BuilderChain::new(2, 10, 10);
    assert!(chain.starter.is_none());
    assert!(chain.start_with(InitialStage::Town(TownBuilder::new())));
    assert!(!chain.start_with(InitialStage::Voronoi(mapgen::voronoi::VoronoiCellBuilder::new())));
    assert!(matches!(chain.starter, Some(InitialStage::Town(_))));
    assert_eq!(chain.build_data.map.depth, 2);
}

#[test]
fn town_builder_new_has_the_default_budget() {
    let b = TownBuilder::new();
    assert_eq!(b.lot_attempts, 100_000_000);
}

#[test]
fn building_holds_a_name_and_its_spawns() {
    let b = Building { name: "pub".to_string(), to_spawn: vec!["Barkeep".to_string()] };
    assert_eq!(b.name, "pub");
    assert_eq!(b.to_spawn, vec!["Barkeep".to_string()]);
}

#[test]
fn building_tiles_keep_their_margins() {
    let map = GridMap::new(0, 20, 20);
    let free = TownBuilder::building_tiles(&map);
    assert_eq!(free.len(), 14 * 3);
    for y in 0..20 {
        for x in 0..20 {
            let expected = (2..16).contains(&x) && (2..5).contains(&y);
            assert_eq!(free.contains(&map.xy_idx(x, y)), expected);
        }
    }
}

#[test]
fn building_tiles_of_a_small_map_are_none() {
    let map = GridMap::new(0, 6, 17);
    assert!(TownBuilder::building_tiles(&map).is_empty());
    let map = GridMap::new(0, 30, 17);
    assert!(TownBuilder::building_tiles(&map).is_empty());
    let map = GridMap::new(0, 7, 18);
    let free = TownBuilder::building_tiles(&map);
    assert_eq!(free, HashSet::from([map.xy_idx(2, 2)]));
}

#[test]
fn lay_concrete_paves_every_tile_but_the_roads() {
    let mut data = BuilderMap::new(0, 5, 4);
    data.map.map[7] = TileType::Road;
    data.map.map[0] = TileType::Road;
    data.map.map[12] = TileType::Floor;
    let mut free: HashSet<usize> = (0..20).collect();
    let mut builder = TownBuilder::new();
    builder.lay_concrete(&mut data, &mut free);
    for i in 0..20usize {
        let road = i == 7 || i == 0;
        let expected = if road { TileType::Road } else { TileType::Concrete };
        assert_eq!(data.map.map[i], expected);
        // Every road tile leaves the free set, on the border too.
        assert_eq!(free.contains(&i), !road);
    }
    assert!(data.spawn_list.is_empty());
    assert_eq!(data.starting_position, None);
}

#[test]
fn lay_concrete_paves_a_solid_map_to_its_edges() {
    let mut data = BuilderMap::new(0, 9, 7);
    let mut free: HashSet<usize> = HashSet::from([0, 8, 30, 62, 400]);
    let before = free.clone();
    TownBuilder::new().lay_concrete(&mut data, &mut free);
    assert!(data.map.map.iter().all(|t| *t == TileType::Concrete));
    assert_eq!(free, before);
}

#[test]
fn road_between_fixes_the_columns() {
    let map = GridMap::new(0, 80, 80);
    let plan = TownBuilder::road_between(&map, 70, 20);
    assert_eq!(plan, RoadPlan { start: Point::new(1, 70), end: Point::new(78, 20) });
}

#[test]
fn plan_road_stays_in_its_bands() {
    let map = GridMap::new(0, 80, 80);
    let builder = TownBuilder::new();
    let mut starts = HashSet::new();
    let mut ends = HashSet::new();
    for seed in 0..200u64 {
        let mut rng = RandomNumberGenerator::seeded(seed);
        let plan = builder.plan_road(&mut rng, &map).unwrap();
        assert_eq!(plan.start.x, 1);
        assert_eq!(plan.end.x, 78);
        assert!(66 <= plan.start.y && plan.start.y < 75);
        assert!(10 <= plan.end.y && plan.end.y < 77);
        starts.insert(plan.start.y);
        ends.insert(plan.end.y);
    }
    // The rows are drawn, not fixed at an end of their band.
    assert!(starts.len() > 1);
    assert!(ends.len() > 1);
}

#[test]
fn plan_road_rejects_a_map_that_is_too_small() {
    let builder = TownBuilder::new();
    let mut rng = RandomNumberGenerator::seeded(3);
    let map = GridMap::new(0, 80, 15);
    assert_eq!(builder.plan_road(&mut rng, &map), Err(GenerationError::MapTooSmall));
    let map = GridMap::new(0, 1, 80);
    assert_eq!(builder.plan_road(&mut rng, &map), Err(GenerationError::MapTooSmall));
    let map = GridMap::new(0, 2, 16);
    let plan = builder.plan_road(&mut rng, &map).unwrap();
    assert_eq!(plan.start.x, 1);
    assert_eq!(plan.end.x, 0);
    assert!(2 <= plan.start.y && plan.start.y < 11);
    assert!(10 <= plan.end.y && plan.end.y < 13);
}

#[test]
fn road_searches_lists_the_five_lanes() {
    let map = GridMap::new(0, 80, 80);
    let plan = RoadPlan { start: Point::new(1, 70), end: Point::new(78, 20) };
    let searches = TownBuilder::road_searches(&map, &plan);
    assert_eq!(
        searches,
        vec![(5601, 1678), (5521, 1598), (5681, 1758), (5761, 1838), (5441, 1518)]
    );
}

#[test]
fn pave_lane_paints_only_when_asked() {
    let mut map = GridMap::new(0, 5, 5);
    let mut free: HashSet<usize> = (0..25).collect();
    pave_lane(&mut map, &mut free, &vec![6, 7, 8, 99], true);
    pave_lane(&mut map, &mut free, &vec![11, 12], false);
    for i in 0..25usize {
        let road = [6usize, 7, 8].contains(&i);
        assert_eq!(map.map[i] == TileType::Road, road);
        assert_eq!(free.contains(&i), !road && i != 11 && i != 12);
    }
}

#[test]
fn paint_road_paints_three_lanes_and_clears_five() {
    let mut data = BuilderMap::new(0, 6, 6);
    let mut free: HashSet<usize> = (0..36).collect();
    let lanes = vec![vec![12, 13], vec![6, 7], vec![18, 19], vec![24, 25], vec![0, 1, 400]];
    let builder = TownBuilder::new();
    builder.paint_road(&mut data, &mut free, &lanes);
    for i in 0..36usize {
        let painted = [12usize, 13, 6, 7, 18, 19].contains(&i);
        let cleared = painted || [24usize, 25, 0, 1].contains(&i);
        assert_eq!(data.map.map[i] == TileType::Road, painted);
        assert_eq!(free.contains(&i), !cleared);
    }
    assert!(data.spawn_list.is_empty());
    assert_eq!(data.starting_position, None);
}

#[test]
fn paint_road_without_routes_changes_nothing() {
    let mut data = BuilderMap::new(0, 6, 6);
    let mut free: HashSet<usize> = (0..36).collect();
    let lanes: Vec<Vec<usize>> = vec![vec![], vec![], vec![], vec![], vec![]];
    TownBuilder::new().paint_road(&mut data, &mut free, &lanes);
    assert!(data.map.map.iter().all(|t| *t == TileType::Wall));
    assert_eq!(free.len(), 36);
    TownBuilder::new().paint_road(&mut data, &mut free, &Vec::new());
    assert_eq!(free.len(), 36);
}

#[test]
fn sampled_lots_have_the_documented_shape() {
    let mut rng = RandomNumberGenerator::seeded(11);
    let mut widths = HashSet::new();
    let mut heights = HashSet::new();
    for _ in 0..2000 {
        let (x, y, w, h) = TownBuilder::sample_lot(&mut rng, 80, 80);
        assert!(4 <= x && x <= 280);
        assert!(5 <= y && y <= 350);
        assert!(6 <= w && w <= 6 + MAX_W);
        assert!(6 <= h && h <= 6 + MAX_H);
        widths.insert(w);
        heights.insert(h);
    }
    assert_eq!(widths.len(), 14);
    assert_eq!(heights.len(), 11);
}

#[test]
fn seven_lots_stand_on_a_synthetic_town_map() {
    let (mut data, mut free) = paved_town(80, 80);
    let free_before = free.clone();
    let mut builder = TownBuilder::new();
    let mut rng = RandomNumberGenerator::seeded(1);
    let lots = builder.buildings(&mut rng, &mut data, &mut free).unwrap();
    assert_eq!(lots.len(), 7);
    assert_eq!(LOT_COUNT, 7);

    for (k, lot) in lots.iter().enumerate() {
        assert!(6 <= lot.2 && lot.2 <= 19);
        assert!(6 <= lot.3 && lot.3 <= 16);
        // Every lot lies in the part of the map that may carry buildings.
        assert!(2 <= lot.0 && lot.0 + lot.2 <= 76);
        assert!(2 <= lot.1 && lot.1 + lot.3 <= 65);
        // No lot touches or overlaps another.
        for (j, other) in lots.iter().enumerate() {
            if j != k {
                for y in lot.1..lot.1 + lot.3 {
                    for x in lot.0..lot.0 + lot.2 {
                        assert!(!claims(other, x, y));
                    }
                }
            }
        }
    }

    for y in 0..80 {
        for x in 0..80 {
            let idx = data.map.xy_idx(x, y);
            let owner = lots.iter().find(|l| covers(l, x, y));
            let expected = match owner {
                Some(lot) if on_ring(lot, x, y) => TileType::Wall,
                Some(_) => TileType::RustedMetalFloor,
                None => TileType::Concrete,
            };
            assert_eq!(data.map.map[idx], expected, "at ({}, {})", x, y);
            let claimed = lots.iter().any(|l| claims(l, x, y));
            assert_eq!(free.contains(&idx), free_before.contains(&idx) && !claimed);
        }
    }
}

#[test]
fn lots_run_out_of_budget_on_a_map_without_room() {
    // The band that may carry buildings is three rows high here: no lot fits.
    let (mut data, mut free) = paved_town(40, 20);
    let mut builder = TownBuilder { lot_attempts: 5000 };
    let mut rng = RandomNumberGenerator::seeded(5);
    assert_eq!(
        builder.buildings(&mut rng, &mut data, &mut free),
        Err(GenerationError::LotsNotPlaced)
    );
    assert_eq!(builder.lot_attempts, 5000);
}

#[test]
fn lots_need_a_budget() {
    let (mut data, mut free) = paved_town(80, 80);
    let mut builder = TownBuilder { lot_attempts: 0 };
    let mut rng = RandomNumberGenerator::seeded(5);
    assert_eq!(
        builder.buildings(&mut rng, &mut data, &mut free),
        Err(GenerationError::LotsNotPlaced)
    );
}

#[test]
fn lots_reject_a_map_that_is_too_small_for_the_dice() {
    let mut rng = RandomNumberGenerator::seeded(5);
    let mut builder = TownBuilder::new();
    let mut data = BuilderMap::new(0, 10, 40);
    let mut free = HashSet::new();
    assert_eq!(builder.buildings(&mut rng, &mut data, &mut free), Err(GenerationError::MapTooSmall));
    let mut data = BuilderMap::new(0, 40, 10);
    assert_eq!(builder.buildings(&mut rng, &mut data, &mut free), Err(GenerationError::MapTooSmall));
    assert!(data.map.map.iter().all(|t| *t == TileType::Wall));
}

#[test]
fn orientation_follows_the_roll() {
    assert_eq!(Orientation::from_roll(1), Orientation::N);
    assert_eq!(Orientation::from_roll(2), Orientation::E);
    assert_eq!(Orientation::from_roll(3), Orientation::S);
    assert_eq!(Orientation::from_roll(4), Orientation::W);
    assert_eq!(Orientation::from_roll(0), Orientation::W);
    assert_eq!(Orientation::from_roll(-7), Orientation::W);
}

#[test]
fn random_orientations_cover_all_sides() {
    let mut rng = RandomNumberGenerator::seeded(17);
    let mut seen = HashSet::new();
    for _ in 0..200 {
        seen.insert(format!("{:?}", Orientation::get_random(&mut rng)));
    }
    assert_eq!(seen.len(), 4);
}

#[test]
fn door_position_skips_the_corners() {
    let lot: Lot = (3, 3, 5, 4);
    assert_eq!(door_position(lot, Orientation::N, 0), Point::new(4, 3));
    assert_eq!(door_position(lot, Orientation::N, 2), Point::new(6, 3));
    assert_eq!(door_position(lot, Orientation::S, 0), Point::new(4, 6));
    assert_eq!(door_position(lot, Orientation::S, 2), Point::new(6, 6));
    assert_eq!(door_position(lot, Orientation::E, 0), Point::new(7, 4));
    assert_eq!(door_position(lot, Orientation::E, 1), Point::new(7, 5));
    assert_eq!(door_position(lot, Orientation::W, 0), Point::new(3, 4));
    assert_eq!(door_position(lot, Orientation::W, 1), Point::new(3, 5));
}

#[test]
fn cut_door_opens_the_wall_and_requests_a_door() {
    let mut data = BuilderMap::new(0, 6, 6);
    data.spawn_list.push((3, "Rat".to_string()));
    cut_door(&mut data, 14);
    for i in 0..36usize {
        let expected = if i == 14 { TileType::RustedMetalFloor } else { TileType::Wall };
        assert_eq!(data.map.map[i], expected);
    }
    assert_eq!(data.spawn_list, vec![(3, "Rat".to_string()), (14, "Door".to_string())]);
}

#[test]
fn every_lot_gets_one_door_on_its_ring() {
    let lots: Vec<Lot> = vec![(3, 3, 5, 4), (10, 3, 6, 6), (3, 10, 3, 3), (12, 12, 7, 5)];
    let builder = TownBuilder::new();
    let mut sides = HashSet::new();
    for seed in 0..60u64 {
        let mut data = BuilderMap::new(0, 24, 24);
        let mut rng = RandomNumberGenerator::seeded(seed);
        let doors = builder.place_doors(&mut rng, &mut data, &lots);
        assert_eq!(doors.len(), lots.len());
        for (k, door) in doors.iter().enumerate() {
            let (x, y) = data.map.idx_xy(*door);
            assert!(on_ring(&lots[k], x, y));
            assert!(!in_corner(&lots[k], x, y));
            if k == 1 {
                sides.insert((x == 10, x == 15, y == 3, y == 8));
            }
        }
        for i in 0..data.map.map.len() {
            let expected =
                if doors.contains(&i) { TileType::RustedMetalFloor } else { TileType::Wall };
            assert_eq!(data.map.map[i], expected);
        }
        let expected: Vec<(usize, String)> =
            doors.iter().map(|d| (*d, "Door".to_string())).collect();
        assert_eq!(data.spawn_list, expected);
        assert_eq!(data.starting_position, None);
    }
    assert_eq!(sides.len(), 4);
}

#[test]
fn a_three_by_three_lot_has_one_door_spot_per_side() {
    let lots: Vec<Lot> = vec![(4, 4, 3, 3)];
    let builder = TownBuilder::new();
    for seed in 0..40u64 {
        let mut data = BuilderMap::new(0, 12, 12);
        let mut rng = RandomNumberGenerator::seeded(seed);
        let doors = builder.place_doors(&mut rng, &mut data, &lots);
        let spot = data.map.idx_xy(doors[0]);
        assert!([(5, 4), (6, 5), (5, 6), (4, 5)].contains(&spot));
    }
}

#[test]
fn archetype_names_are_the_registry_keys() {
    assert_eq!(Archetype::Home.name(), "home");
    assert_eq!(Archetype::Pub.name(), "pub");
    assert_eq!(Archetype::AbandonedHouse.name(), "abandonedhouse");
    assert_eq!(Archetype::RipperDocOffice.name(), "ripperdocoffice");
    assert_eq!(Archetype::DrugDen.name(), "drugden");
    assert_eq!(Archetype::AccessRoom.name(), "accessroom");
    assert_eq!(named_archetype(0), Archetype::Pub);
    assert_eq!(named_archetype(1), Archetype::AbandonedHouse);
    assert_eq!(named_archetype(2), Archetype::RipperDocOffice);
    assert_eq!(named_archetype(3), Archetype::DrugDen);
}

#[test]
fn the_deck_deals_home_then_the_four_then_the_access_room() {
    let mut deck = ArchetypeDeck::new();
    assert_eq!(deck.pick_range(), 0);
    assert_eq!(deck.deal(0), Archetype::Home);
    assert_eq!(deck.pick_range(), 4);
    assert_eq!(deck.deal(2), Archetype::RipperDocOffice);
    assert_eq!(deck.pick_range(), 3);
    assert_eq!(deck.deal(2), Archetype::DrugDen);
    assert_eq!(deck.pick_range(), 2);
    assert_eq!(deck.deal(0), Archetype::Pub);
    // One is left: there is nothing to pick, and the pick is ignored.
    assert_eq!(deck.pick_range(), 0);
    assert_eq!(deck.deal(3), Archetype::AbandonedHouse);
    assert_eq!(deck.pick_range(), 0);
    assert_eq!(deck.deal(0), Archetype::AccessRoom);
    // From here on the four come again, with repetition.
    assert_eq!(deck.pick_range(), 4);
    assert_eq!(deck.deal(1), Archetype::AbandonedHouse);
    assert_eq!(deck.pick_range(), 4);
    assert_eq!(deck.deal(1), Archetype::AbandonedHouse);
    assert_eq!(deck.deal(3), Archetype::DrugDen);
}

#[test]
fn center_and_interior_of_a_lot() {
    let map = GridMap::new(0, 20, 20);
    assert_eq!(center_of((3, 4, 6, 9)), Point::new(6, 8));
    assert_eq!(center_of((3, 4, 1, 1)), Point::new(3, 4));
    let tiles = interior_tiles(&map, (3, 4, 4, 5));
    // Columns 4..=5, rows 5..=7.
    assert_eq!(tiles, HashSet::from([104, 105, 124, 125, 144, 145]));
    assert!(interior_tiles(&map, (3, 4, 2, 5)).is_empty());
    assert!(interior_tiles(&map, (3, 4, 5, 1)).is_empty());
}

#[test]
fn building_content_assigns_archetypes_in_order() {
    let lots: Vec<Lot> = vec![
        (2, 2, 6, 6),
        (10, 2, 6, 6),
        (18, 2, 6, 6),
        (26, 2, 6, 6),
        (2, 10, 6, 6),
        (10, 10, 8, 6),
        (20, 10, 6, 6),
        (28, 10, 6, 6),
        (2, 18, 6, 6),
    ];
    let named =
        [Archetype::Pub, Archetype::AbandonedHouse, Archetype::RipperDocOffice, Archetype::DrugDen];
    let mut orders = HashSet::new();
    for seed in 0..40u64 {
        let mut data = BuilderMap::new(0, 40, 40);
        data.spawn_list.push((1, "Rat".to_string()));
        let mut builder = TownBuilder::new();
        let mut rng = RandomNumberGenerator::seeded(seed);
        let content = builder.building_content(&mut data, &lots, &mut rng);
        assert_eq!(content.len(), 9);
        assert_eq!(content[0].archetype, Archetype::Home);
        let mut drawn = HashSet::new();
        for request in &content[1..5] {
            assert!(named.contains(&request.archetype));
            assert!(drawn.insert(request.archetype));
        }
        assert_eq!(content[5].archetype, Archetype::AccessRoom);
        for request in &content[6..] {
            assert!(named.contains(&request.archetype));
        }
        orders.insert(format!("{:?}", content[1].archetype));

        for (k, request) in content.iter().enumerate() {
            let mut expected = HashSet::new();
            for y in lots[k].1 + 1..lots[k].1 + lots[k].3 - 1 {
                for x in lots[k].0 + 1..lots[k].0 + lots[k].2 - 1 {
                    expected.insert(data.map.xy_idx(x, y));
                }
            }
            assert_eq!(request.tiles, expected);
            assert_eq!(request.tiles.len() as i32, (lots[k].2 - 2) * (lots[k].3 - 2));
        }

        assert_eq!(data.starting_position, Some(Point::new(5, 5)));
        let stairs = data.map.xy_idx(14, 13);
        for i in 0..data.map.map.len() {
            let expected = if i == stairs { TileType::DownStairs } else { TileType::Wall };
            assert_eq!(data.map.map[i], expected);
        }
        assert_eq!(data.spawn_list, vec![(1, "Rat".to_string())]);
    }
    assert!(orders.len() > 1);
}

#[test]
fn building_content_of_few_lots_has_no_access_room() {
    let lots: Vec<Lot> = vec![(2, 2, 6, 6), (10, 2, 6, 6)];
    let mut data = BuilderMap::new(0, 20, 20);
    let mut rng = RandomNumberGenerator::seeded(8);
    let content = TownBuilder::new().building_content(&mut data, &lots, &mut rng);
    assert_eq!(content.len(), 2);
    assert_eq!(content[0].archetype, Archetype::Home);
    assert!(data.map.map.iter().all(|t| *t == TileType::Wall));
    let none: Vec<Lot> = Vec::new();
    let mut data = BuilderMap::new(0, 20, 20);
    data.starting_position = Some(Point::new(1, 1));
    assert!(TownBuilder::new().building_content(&mut data, &none, &mut rng).is_empty());
    assert_eq!(data.starting_position, Some(Point::new(1, 1)));
}

#[test]
fn spawn_citizens_takes_locations_from_the_front() {
    let mut data = BuilderMap::new(0, 6, 6);
    data.spawn_list.push((3, "Rat".to_string()));
    assert_eq!(spawn_citizens(&mut data, &vec![5, 9, 2, 30], 3), 3);
    assert_eq!(
        data.spawn_list,
        vec![
            (3, "Rat".to_string()),
            (5, "Citizen".to_string()),
            (9, "Citizen".to_string()),
            (2, "Citizen".to_string()),
        ]
    );
    assert_eq!(spawn_citizens(&mut data, &vec![7, 8], 10), 2);
    assert_eq!(data.spawn_list.len(), 6);
    assert_eq!(data.spawn_list[5], (8, "Citizen".to_string()));
    assert_eq!(spawn_citizens(&mut data, &Vec::new(), 10), 0);
    assert_eq!(spawn_citizens(&mut data, &vec![7, 8], 0), 0);
    assert_eq!(data.spawn_list.len(), 6);
}

#[test]
fn townsfolk_number_six_to_sixteen() {
    let locations: Vec<usize> = (100..200).collect();
    let builder = TownBuilder::new();
    let mut counts = HashSet::new();
    for seed in 0..300u64 {
        let mut data = BuilderMap::new(0, 20, 20);
        let mut rng = RandomNumberGenerator::seeded(seed);
        let count = builder.spawn_townsfolk(&mut rng, &mut data, &locations);
        assert!(6 <= count && count <= 16);
        assert_eq!(data.spawn_list.len(), count);
        for (k, request) in data.spawn_list.iter().enumerate() {
            assert_eq!(*request, (100 + k, "Citizen".to_string()));
        }
        counts.insert(count);
    }
    assert!(counts.len() > 3);
}

#[test]
fn townsfolk_never_outnumber_the_locations() {
    let builder = TownBuilder::new();
    for seed in 0..50u64 {
        let mut data = BuilderMap::new(0, 20, 20);
        let mut rng = RandomNumberGenerator::seeded(seed);
        assert_eq!(builder.spawn_townsfolk(&mut rng, &mut data, &vec![4, 5, 6]), 3);
        assert_eq!(data.spawn_list.len(), 3);
        let mut data = BuilderMap::new(0, 20, 20);
        let ten: Vec<usize> = (0..10).collect();
        let count = builder.spawn_townsfolk(&mut rng, &mut data, &ten);
        assert!(6 <= count && count <= 10);
    }
}

#[test]
fn footpath_map_walls_up_the_doors_on_a_copy() {
    let mut map = GridMap::new(0, 6, 6);
    for t in map.map.iter_mut() {
        *t = TileType::Concrete;
    }
    map.map[0] = TileType::Wall;
    map.map[14] = TileType::RustedMetalFloor;
    let routing = TownBuilder::footpath_map(&map, &vec![14, 200]);
    for i in 0..36usize {
        let expected = if i == 0 || i == 14 { TileType::Wall } else { TileType::Concrete };
        assert_eq!(routing.map[i], expected);
        // The overlay shows the town as it is: the door is no obstacle there.
        assert_eq!(routing.blocked[i], i == 0);
    }
    assert_eq!(map.map[14], TileType::RustedMetalFloor);
    assert!(!map.blocked[0]);
}

#[test]
fn footpath_origin_lies_east_and_north_of_the_road_start() {
    let map = GridMap::new(0, 80, 80);
    assert_eq!(TownBuilder::footpath_origin(&map, Point::new(1, 70), 4), Some(68 * 80 + 10));
    assert_eq!(TownBuilder::footpath_origin(&map, Point::new(1, 1), 4), None);
    assert_eq!(TownBuilder::footpath_origin(&map, Point::new(70, 70), 5), None);
    assert_eq!(TownBuilder::footpath_origin(&map, Point::new(i32::MAX, 70), 10), None);
    let builder = TownBuilder::new();
    let mut seen = HashSet::new();
    for seed in 0..100u64 {
        let mut rng = RandomNumberGenerator::seeded(seed);
        let origin = builder.roll_footpath_origin(&mut rng, &map, Point::new(1, 70)).unwrap();
        let (x, y) = map.idx_xy(origin);
        assert_eq!(y, 68);
        assert!(7 <= x && x <= 16);
        seen.insert(x);
    }
    assert!(seen.len() > 1);
}

#[test]
fn draw_footpath_paints_the_steps() {
    let mut data = BuilderMap::new(0, 6, 6);
    let builder = TownBuilder::new();
    builder.draw_footpath(&mut data, &vec![7, 8, 9, 1000]);
    builder.draw_footpath(&mut data, &Vec::new());
    for i in 0..36usize {
        let expected = if (7..10).contains(&i) { TileType::Footpath } else { TileType::Wall };
        assert_eq!(data.map.map[i], expected);
    }
}

fn straight_lanes(map: &GridMap, plan: &RoadPlan) -> Vec<Vec<usize>> {
    // A stand-in for the router: each lane runs along its start row.
    TownBuilder::road_searches(map, plan)
        .iter()
        .map(|(from, _)| (0..78).map(|step| from + step).collect())
        .collect()
}

fn build_town(seed: u64) -> (BuilderMap, HashSet<usize>, Vec<Lot>, Vec<usize>, Vec<Archetype>) {
    let mut chain = starting_town();
    let mut builder = TownBuilder::new();
    let mut rng = RandomNumberGenerator::seeded(seed);
    let (mut free, plan) = builder.prepare(&mut rng, &mut chain.build_data).unwrap();
    let lanes = straight_lanes(&chain.build_data.map, &plan);
    let layout = builder.develop(&mut rng, &mut chain.build_data, &mut free, &lanes).unwrap();
    let locations: Vec<usize> = (0..6400)
        .filter(|i| chain.build_data.map.map[*i] == TileType::Concrete)
        .collect();
    builder.spawn_townsfolk(&mut rng, &mut chain.build_data, &locations);
    let archetypes = layout.content.iter().map(|c| c.archetype).collect();
    (chain.build_data, free, layout.lots, layout.doors, archetypes)
}

#[test]
fn a_whole_town_keeps_its_invariants() {
    let (data, free, lots, doors, archetypes) = build_town(3);
    assert_eq!(lots.len(), 7);
    assert_eq!(doors.len(), 7);
    assert_eq!(archetypes.len(), 7);
    assert_eq!(archetypes[0], Archetype::Home);
    assert_eq!(archetypes[5], Archetype::AccessRoom);
    assert_eq!(data.starting_position, Some(center_of(lots[0])));
    let stairs = center_of(lots[5]);

    let mut roads = 0;
    for y in 0..80 {
        for x in 0..80 {
            let idx = data.map.xy_idx(x, y);
            let tile = data.map.map[idx];
            match lots.iter().position(|l| covers(l, x, y)) {
                Some(k) => {
                    let expected = if idx == doors[k] {
                        TileType::RustedMetalFloor
                    } else if on_ring(&lots[k], x, y) {
                        TileType::Wall
                    } else if k == 5 && Point::new(x, y) == stairs {
                        TileType::DownStairs
                    } else {
                        TileType::RustedMetalFloor
                    };
                    assert_eq!(tile, expected, "at ({}, {})", x, y);
                    assert!(!free.contains(&idx));
                }
                None => {
                    assert!(tile == TileType::Concrete || tile == TileType::Road);
                    if tile == TileType::Road {
                        roads += 1;
                        assert!(!free.contains(&idx));
                    }
                }
            }
        }
    }
    assert_eq!(roads, 3 * 78);
    for (k, door) in doors.iter().enumerate() {
        let (x, y) = data.map.idx_xy(*door);
        assert!(on_ring(&lots[k], x, y) && !in_corner(&lots[k], x, y));
        assert_eq!(data.spawn_list[k], (*door, "Door".to_string()));
    }
    let citizens = data.spawn_list.len() - 7;
    assert!(6 <= citizens && citizens <= 16);
    assert!(data.spawn_list[7..].iter().all(|(_, name)| name == "Citizen"));
}

#[test]
fn the_same_seed_builds_the_same_town() {
    let (first, free_first, lots_first, doors_first, archetypes_first) = build_town(77);
    let (second, free_second, lots_second, doors_second, archetypes_second) = build_town(77);
    assert_eq!(first.map.map, second.map.map);
    assert_eq!(first.spawn_list, second.spawn_list);
    assert_eq!(first.starting_position, second.starting_position);
    assert_eq!(free_first, free_second);
    assert_eq!(lots_first, lots_second);
    assert_eq!(doors_first, doors_second);
    assert_eq!(archetypes_first, archetypes_second);
}

#[test]
fn prepare_rejects_a_small_map_untouched() {
    let mut data = BuilderMap::new(0, 40, 15);
    let mut rng = RandomNumberGenerator::seeded(1);
    let mut builder = TownBuilder::new();
    assert!(matches!(builder.prepare(&mut rng, &mut data), Err(GenerationError::MapTooSmall)));
    assert!(data.map.map.iter().all(|t| *t == TileType::Wall));
}

#[test]
fn prepare_paves_and_plans() {
    let mut data = BuilderMap::new(0, 30, 40);
    let mut rng = RandomNumberGenerator::seeded(1);
    let mut builder = TownBuilder::new();
    let (free, plan) = builder.prepare(&mut rng, &mut data).unwrap();
    assert_eq!(free, TownBuilder::building_tiles(&data.map));
    assert_eq!(free.len(), 24 * 23);
    assert_eq!(plan.start.x, 1);
    assert_eq!(plan.end.x, 28);
    assert!(26 <= plan.start.y && plan.start.y < 35);
    assert!(10 <= plan.end.y && plan.end.y < 37);
    assert!(data.map.map.iter().all(|t| *t == TileType::Concrete));
}

#[test]
fn develop_fails_cleanly_without_room() {
    let mut data = BuilderMap::new(0, 40, 20);
    let mut rng = RandomNumberGenerator::seeded(1);
    let mut builder = TownBuilder { lot_attempts: 2000 };
    let (mut free, _) = builder.prepare(&mut rng, &mut data).unwrap();
    let lanes: Vec<Vec<usize>> = Vec::new();
    let result = builder.develop(&mut rng, &mut data, &mut free, &lanes);
    assert!(matches!(result, Err(GenerationError::LotsNotPlaced)));
    assert!(data.spawn_list.is_empty());
    assert_eq!(data.starting_position, None);
}

#[test]
fn roll_total_is_the_sum_of_the_dice() {
    for seed in 0..50u64 {
        let mut rng = RandomNumberGenerator::seeded(seed);
        let total = roll_total(&mut rng, 4, 70);
        assert!(4 <= total && total <= 280);
        // Rolling the dice one by one draws the same numbers as rolling them at once.
        let mut at_once = RandomNumberGenerator::seeded(seed);
        assert_eq!(total, at_once.roll_dice(4, 70));
        assert_eq!(rng.next_u64(), at_once.next_u64());
    }
    let mut rng = RandomNumberGenerator::seeded(1);
    assert_eq!(roll_total(&mut rng, 0, 6), 0);
    assert_eq!(roll_total(&mut rng, 9, 1), 9);
}

#[test]
fn roll_total_stops_at_the_largest_value() {
    let mut rng = RandomNumberGenerator::seeded(1);
    for _ in 0..20 {
        let total = roll_total(&mut rng, 5, i32::MAX - 1);
        assert!(5 <= total);
    }
    let mut capped = false;
    for _ in 0..20 {
        capped = capped || roll_total(&mut rng, 40, i32::MAX - 1) == i32::MAX;
    }
    assert!(capped);
}

#[test]
fn rolled_footpath_origin_is_owed_where_every_face_lands_on_the_map() {
    let map = GridMap::new(0, 80, 80);
    let builder = TownBuilder::new();
    for seed in 0..60u64 {
        let mut rng = RandomNumberGenerator::seeded(seed);
        // Columns 70 to 79: the last face still lands on the map.
        let origin = builder.roll_footpath_origin(&mut rng, &map, Point::new(64, 2)).unwrap();
        let (x, y) = map.idx_xy(origin);
        assert_eq!(y, 0);
        assert!(70 <= x && x <= 79);
        // The row lies off the map, or every column does.
        assert_eq!(builder.roll_footpath_origin(&mut rng, &map, Point::new(1, 1)), None);
        assert_eq!(builder.roll_footpath_origin(&mut rng, &map, Point::new(1, 82)), None);
        assert_eq!(builder.roll_footpath_origin(&mut rng, &map, Point::new(74, 70)), None);
        assert_eq!(builder.roll_footpath_origin(&mut rng, &map, Point::new(-16, 70)), None);
    }
}

#[test]
fn rolled_footpath_origin_is_up_to_the_die_at_the_edge() {
    let map = GridMap::new(0, 80, 80);
    let builder = TownBuilder::new();
    let mut some = 0;
    let mut none = 0;
    for seed in 0..200u64 {
        let mut rng = RandomNumberGenerator::seeded(seed);
        // Columns 75 to 84: half of the faces land on the map.
        match builder.roll_footpath_origin(&mut rng, &map, Point::new(69, 70)) {
            Some(origin) => {
                let (x, y) = map.idx_xy(origin);
                assert_eq!(y, 68);
                assert!(75 <= x && x <= 79);
                some += 1;
            }
            None => none += 1,
        }
    }
    assert!(some > 0 && none > 0);
}

#[test]
fn lots_fail_and_change_nothing_where_no_tile_is_free() {
    let mut data = BuilderMap::new(0, 80, 80);
    let mut free: HashSet<usize> = HashSet::new();
    let mut builder = TownBuilder { lot_attempts: 3000 };
    let mut rng = RandomNumberGenerator::seeded(9);
    assert_eq!(
        builder.buildings(&mut rng, &mut data, &mut free),
        Err(GenerationError::LotsNotPlaced)
    );
    assert!(data.map.map.iter().all(|t| *t == TileType::Wall));
    assert!(free.is_empty());
}

#[test]
fn lots_placed_before_the_budget_ran_out_stand_without_walls() {
    // Room for lots, but a budget that is far too small for seven of them.
    let mut placed_some = false;
    for seed in 0..40u64 {
        let (mut data, mut free) = paved_town(80, 80);
        let before = free.clone();
        let mut builder = TownBuilder { lot_attempts: 200_000 };
        let mut rng = RandomNumberGenerator::seeded(seed);
        if builder.buildings(&mut rng, &mut data, &mut free).is_err() {
            assert!(data.map.map.iter().all(|t| *t != TileType::Wall));
            for i in 0..6400usize {
                if data.map.map[i] == TileType::RustedMetalFloor {
                    placed_some = true;
                    assert!(before.contains(&i));
                    assert!(!free.contains(&i));
                } else {
                    assert_eq!(data.map.map[i], TileType::Concrete);
                }
            }
        }
    }
    assert!(placed_some);
}
