use dungeon_gen::cell::RoomType;
use dungeon_gen::dungeon::{Dungeon, GenerationError};
use dungeon_gen::grid::{Grid, GridError};
use dungeon_gen::params::DungeonOptions;
use dungeon_gen::rng::RandomSource;
use dungeon_gen::room::Room;

fn blank_dungeon(width: u32, height: u32) -> Dungeon {
    let opts = DungeonOptions {
        name: String::from("unit"),
        height,
        width,
        room_types: Vec::new(),
        amount_of_rooms: 0,
        room_size_low: 3,
        room_size_high: 4,
        start_finish_min_distance: 0,
        room_padding_density: 0,
        sparse: false,
        count: 1,
    };
    Dungeon::new(&opts).unwrap()
}

fn grids_equal(a: &Grid<RoomType>, b: &Grid<RoomType>) -> bool {
    if a.width() != b.width() || a.height() != b.height() {
        return false;
    }
    for y in 0..a.height() {
        for x in 0..a.width() {
            if a.get(x, y).unwrap() != b.get(x, y).unwrap() {
                return false;
            }
        }
    }
    true
}

#[test]
fn grid_accessors_are_bounds_checked() {
    let mut g = Grid::<RoomType>::new(4, 3, RoomType::Empty).unwrap();
    assert_eq!(g.get(3, 2).unwrap(), RoomType::Empty);
    assert_eq!(g.get(4, 0), Err(GridError::OutOfBounds));
    assert_eq!(g.get(0, 3), Err(GridError::OutOfBounds));
    assert_eq!(g.set(1, 1, RoomType::Wall), Ok(()));
    assert_eq!(g.get(1, 1).unwrap(), RoomType::Wall);
    assert_eq!(g.get(1, 0).unwrap(), RoomType::Empty);
    assert_eq!(g.set(9, 9, RoomType::Wall), Err(GridError::OutOfBounds));
}

#[test]
fn neighbors4_returns_only_in_bounds_cells() {
    let g = Grid::<RoomType>::new(3, 3, RoomType::Empty).unwrap();
    let mut corner = g.neighbors4(0, 0);
    corner.sort();
    assert_eq!(corner, vec![(0, 1), (1, 0)]);
    let mut center = g.neighbors4(1, 1);
    center.sort();
    assert_eq!(center, vec![(0, 1), (1, 0), (1, 2), (2, 1)]);
}

#[test]
fn pruning_reaches_a_fixed_point_and_is_idempotent() {
    // A corridor with a dangling dead-end spur.
    let mut d = blank_dungeon(9, 9);
    d.fill_with_walls();
    // horizontal corridor between two rooms cells
    for x in 2..7 {
        d.grid.set(x, 4, RoomType::Hall).unwrap();
    }
    d.grid.set(1, 4, RoomType::Start).unwrap();
    d.grid.set(7, 4, RoomType::End).unwrap();
    // dangling spur going up from the corridor middle
    d.grid.set(4, 3, RoomType::Hall).unwrap();
    d.grid.set(4, 2, RoomType::Hall).unwrap();
    d.remove_dead_ends();
    // the spur is gone, the through-corridor stays
    assert_eq!(d.grid.get(4, 3).unwrap(), RoomType::Wall);
    assert_eq!(d.grid.get(4, 2).unwrap(), RoomType::Wall);
    for x in 2..7 {
        assert_eq!(d.grid.get(x, 4).unwrap(), RoomType::Hall);
    }
    // a second pass changes nothing
    let snapshot = d.grid.duplicate();
    d.remove_dead_ends();
    assert!(grids_equal(&snapshot, &d.grid));
}

#[test]
fn connecting_two_regions_leaves_one_open_region() {
    let mut d = blank_dungeon(9, 9);
    d.grid.set(2, 2, RoomType::Start).unwrap();
    d.regions.set(2, 2, 1).unwrap();
    d.grid.set(4, 2, RoomType::Hall).unwrap();
    d.regions.set(4, 2, 2).unwrap();
    d.regions_count = 2;
    d.fill_with_walls();
    let mut rng = RandomSource::from_seed(3);
    let outcome = d.connect_regions(&mut rng);
    assert!(outcome.single);
    assert_eq!(outcome.merged.len(), 3);
    assert_eq!(outcome.merged[1], outcome.merged[2]);
    // the connector between them was carved open
    assert_eq!(d.grid.get(3, 2).unwrap(), RoomType::Hall);
}

#[test]
fn connector_next_to_end_region_becomes_locked_door() {
    let mut d = blank_dungeon(9, 9);
    d.grid.set(2, 2, RoomType::Start).unwrap();
    d.regions.set(2, 2, 1).unwrap();
    d.grid.set(4, 2, RoomType::End).unwrap();
    d.regions.set(4, 2, 2).unwrap();
    d.regions_count = 2;
    d.fill_with_walls();
    let mut rng = RandomSource::from_seed(3);
    let outcome = d.connect_regions(&mut rng);
    assert!(outcome.single);
    assert_eq!(d.grid.get(3, 2).unwrap(), RoomType::LockedDoor);
}

#[test]
fn boss_room_projects_to_solid_block_with_drilled_interior() {
    // A 3x3 Boss interior with its one-cell wall margin, projected for
    // the raycast renderer: margin walls recolor to Boss, the interior
    // drills out to Empty.
    let mut d = blank_dungeon(9, 9);
    d.fill_with_walls();
    for y in 3..6 {
        for x in 3..6 {
            d.grid.set(x, y, RoomType::Boss).unwrap();
        }
    }
    d.placed_rooms.push(Room {
        x: 2,
        y: 2,
        width: 5,
        height: 5,
        room_type: RoomType::Boss,
    });
    d.convert_rooms_to_raycast_format();
    for y in 2..7 {
        for x in 2..7 {
            let margin = x == 2 || x == 6 || y == 2 || y == 6;
            let got = d.raycast_grid.get(x, y).unwrap();
            if margin {
                assert_eq!(got, RoomType::Boss, "margin cell ({}, {})", x, y);
            } else {
                assert_eq!(got, RoomType::Empty, "interior cell ({}, {})", x, y);
            }
        }
    }
    // cells outside the room stay walls
    assert_eq!(d.raycast_grid.get(0, 0).unwrap(), RoomType::Wall);
}

#[test]
fn raycast_projection_blanks_corridors_and_doors() {
    let mut d = blank_dungeon(9, 9);
    d.fill_with_walls();
    d.grid.set(1, 1, RoomType::Hall).unwrap();
    d.grid.set(2, 1, RoomType::LockedDoor).unwrap();
    d.convert_rooms_to_raycast_format();
    assert_eq!(d.raycast_grid.get(1, 1).unwrap(), RoomType::Empty);
    assert_eq!(d.raycast_grid.get(2, 1).unwrap(), RoomType::Empty);
    assert_eq!(d.raycast_grid.get(5, 5).unwrap(), RoomType::Wall);
}

#[test]
fn reversing_rows_mirrors_each_row() {
    let mut d = blank_dungeon(9, 9);
    d.fill_with_walls();
    d.convert_rooms_to_raycast_format();
    d.raycast_grid.set(0, 0, RoomType::Boss).unwrap();
    d.raycast_grid.set(1, 2, RoomType::Shop).unwrap();
    d.reverse_grid_rows();
    assert_eq!(d.raycast_grid.get(8, 0).unwrap(), RoomType::Boss);
    assert_eq!(d.raycast_grid.get(7, 2).unwrap(), RoomType::Shop);
}

#[test]
fn cell_codes_follow_the_export_numbering() {
    assert_eq!(RoomType::Empty.to_int(), 0);
    assert_eq!(RoomType::Wall.to_int(), 1);
    assert_eq!(RoomType::Hall.to_int(), 2);
    assert_eq!(RoomType::Start.to_int(), 3);
    assert_eq!(RoomType::End.to_int(), 4);
    assert_eq!(RoomType::Boss.to_int(), 5);
    assert_eq!(RoomType::Shop.to_int(), 6);
    assert_eq!(RoomType::Treasure.to_int(), 7);
    assert_eq!(RoomType::Secret.to_int(), 8);
    assert_eq!(RoomType::LockedDoor.to_int(), 9);
}

#[test]
fn same_seed_draws_the_same_numbers() {
    let mut a = RandomSource::from_seed(99);
    let mut b = RandomSource::from_seed(99);
    for _ in 0..50 {
        assert_eq!(a.gen_range_usize(0, 1000), b.gen_range_usize(0, 1000));
    }
}

#[test]
fn ratio_draws_respect_certain_outcomes() {
    let mut rng = RandomSource::from_seed(5);
    for _ in 0..20 {
        assert!(rng.gen_ratio(4, 4));
        assert!(!rng.gen_ratio(0, 4));
    }
}

#[test]
fn straight_run_weight_converges_to_one_half() {
    // The carver keeps its direction with a 2-in-4 draw; empirically
    // the continuation rate converges to that configured weight.
    let mut rng = RandomSource::from_seed(11);
    let trials = 20000;
    let mut kept = 0u32;
    for _ in 0..trials {
        if rng.gen_ratio(2, 4) {
            kept += 1;
        }
    }
    let rate = kept as f64 / trials as f64;
    assert!(rate > 0.45 && rate < 0.55, "rate was {}", rate);
}

#[test]
fn range_draws_stay_in_bounds_and_vary() {
    let mut rng = RandomSource::from_seed(21);
    let mut seen_different = false;
    let first = rng.gen_range_usize(10, 20);
    assert!((10..20).contains(&first));
    for _ in 0..200 {
        let v = rng.gen_range_usize(10, 20);
        assert!((10..20).contains(&v));
        if v != first {
            seen_different = true;
        }
    }
    assert!(seen_different);
}

#[test]
fn exhausted_anchor_placement_reports_placement_failed() {
    // On a 10x10 grid the minimum anchor distance is 5, which random
    // draws often miss; some seed exhausts all twenty retries.
    for seed in 0..50000u64 {
        let mut d = blank_dungeon(10, 10);
        let mut rng = RandomSource::from_seed(seed);
        if let Err(e) = d.place_start_and_end(&mut rng) {
            assert_eq!(e, GenerationError::PlacementFailed);
            assert_eq!(d.placed_rooms.len(), 0, "failure must leave the floor untouched");
            return;
        }
    }
    panic!("no seed exhausted the retry budget");
}

#[test]
fn walk_only_starts_when_all_four_directions_are_open() {
    // a corner seed has fewer than four open neighbors: nothing happens
    let mut d = blank_dungeon(9, 9);
    let mut rng = RandomSource::from_seed(2);
    d.make_halls((0, 0), &mut rng);
    assert_eq!(d.regions_count, 0);
    for y in 0..9 {
        for x in 0..9 {
            assert_eq!(d.grid.get(x, y).unwrap(), RoomType::Empty);
        }
    }
    // an interior seed on a blank floor starts a walk: the seed is
    // carved and exactly one fresh region id is claimed
    let mut d2 = blank_dungeon(9, 9);
    d2.make_halls((4, 4), &mut rng);
    assert_eq!(d2.regions_count, 1);
    assert_eq!(d2.grid.get(4, 4).unwrap(), RoomType::Hall);
    assert_eq!(d2.regions.get(4, 4).unwrap(), 1);
    // every carved cell carries the walk's id
    for y in 0..9 {
        for x in 0..9 {
            if d2.grid.get(x, y).unwrap() == RoomType::Hall {
                assert_eq!(d2.regions.get(x, y).unwrap(), 1);
            }
        }
    }
}

#[test]
fn one_region_floor_is_single_without_any_carving() {
    let mut d = blank_dungeon(9, 9);
    d.grid.set(2, 2, RoomType::Start).unwrap();
    d.regions.set(2, 2, 1).unwrap();
    d.regions_count = 1;
    d.fill_with_walls();
    let snapshot = d.grid.duplicate();
    let mut rng = RandomSource::from_seed(4);
    let outcome = d.connect_regions(&mut rng);
    assert!(outcome.single);
    assert!(grids_equal(&snapshot, &d.grid));
}

#[test]
fn oversized_specs_leave_the_floor_untouched() {
    let mut d = blank_dungeon(9, 9);
    d.add_room(Room {
        height: 30,
        width: 30,
        x: 0,
        y: 0,
        room_type: RoomType::Boss,
    });
    let mut rng = RandomSource::from_seed(6);
    d.generate(2, &mut rng);
    assert_eq!(d.placed_rooms.len(), 0);
    for y in 0..9 {
        for x in 0..9 {
            assert_eq!(d.grid.get(x, y).unwrap(), RoomType::Empty);
        }
    }
}

#[test]
fn choose_name_picks_an_element_or_none() {
    let mut rng = RandomSource::from_seed(8);
    let empty: Vec<String> = Vec::new();
    assert!(rng.choose_name(&empty).is_none());
    let names = vec![String::from("boss"), String::from("shop")];
    for _ in 0..20 {
        let picked = rng.choose_name(&names).unwrap();
        assert!(picked.as_str() == "boss" || picked.as_str() == "shop");
    }
}
