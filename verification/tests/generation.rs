use dungeon_gen::cell::RoomType;
use dungeon_gen::dungeon::Dungeon;
use dungeon_gen::floor::{connected, gen_floor, new_dungeon, room_type_from_name};
use dungeon_gen::params::{DungeonOptions, DungeonParameters};
use dungeon_gen::rng::RandomSource;

fn options(width: u32, height: u32, rooms: u32, low: u32, high: u32, sparse: bool) -> DungeonOptions {
    DungeonOptions {
        name: String::from("test"),
        height,
        width,
        room_types: vec![
            String::from("boss"),
            String::from("shop"),
            String::from("treasure"),
            String::from("secret"),
        ],
        amount_of_rooms: rooms,
        room_size_low: low,
        room_size_high: high,
        start_finish_min_distance: 0,
        room_padding_density: 0,
        sparse,
        count: 1,
    }
}

fn generate_floor(opts: &DungeonOptions) -> Dungeon {
    let format = String::from("fx");
    for seed in 0..200u64 {
        let mut rng = RandomSource::from_seed(seed);
        if let Some(d) = gen_floor(opts, &format, &mut rng) {
            return d;
        }
    }
    panic!("no floor could be generated in 200 seeded attempts");
}

/// Flood fill from the start cell over non-Wall cells; returns the
/// visited mask.
fn flood_from_start(d: &Dungeon) -> Vec<Vec<bool>> {
    let w = d.grid.width();
    let h = d.grid.height();
    let mut visited = vec![vec![false; w]; h];
    let mut stack = vec![(d.start_x, d.start_y)];
    visited[d.start_y][d.start_x] = true;
    while let Some((x, y)) = stack.pop() {
        let mut neighbors: Vec<(usize, usize)> = Vec::new();
        if x + 1 < w {
            neighbors.push((x + 1, y));
        }
        if x > 0 {
            neighbors.push((x - 1, y));
        }
        if y + 1 < h {
            neighbors.push((x, y + 1));
        }
        if y > 0 {
            neighbors.push((x, y - 1));
        }
        for (nx, ny) in neighbors {
            if !visited[ny][nx] {
                let c = d.grid.get(nx, ny).unwrap();
                if c != RoomType::Wall && c != RoomType::Empty {
                    visited[ny][nx] = true;
                    stack.push((nx, ny));
                }
            }
        }
    }
    visited
}

#[test]
fn accepted_floor_has_no_empty_cell() {
    let d = generate_floor(&options(16, 16, 3, 3, 5, false));
    for y in 0..d.grid.height() {
        for x in 0..d.grid.width() {
            assert_ne!(d.grid.get(x, y).unwrap(), RoomType::Empty);
        }
    }
}

#[test]
fn accepted_floor_connects_start_and_end() {
    let d = generate_floor(&options(16, 16, 2, 3, 5, false));
    let visited = flood_from_start(&d);
    assert!(visited[d.end_y][d.end_x]);
    assert_eq!(d.grid.get(d.start_x, d.start_y).unwrap(), RoomType::Start);
    assert_eq!(d.grid.get(d.end_x, d.end_y).unwrap(), RoomType::End);
    assert!(connected(d));
}

#[test]
fn placed_room_interiors_are_disjoint_and_in_bounds() {
    let d = generate_floor(&options(24, 24, 6, 3, 6, false));
    let w = d.grid.width();
    let h = d.grid.height();
    let rooms = &d.placed_rooms;
    assert!(rooms.len() >= 2);
    for r in rooms.iter() {
        assert!(r.x + r.width <= w);
        assert!(r.y + r.height <= h);
    }
    for a in 0..rooms.len() {
        for b in (a + 1)..rooms.len() {
            let ra = &rooms[a];
            let rb = &rooms[b];
            // interiors: the placed rectangle minus its one-cell margin
            let ax0 = ra.x + 1;
            let ax1 = ra.x + ra.width - 1;
            let ay0 = ra.y + 1;
            let ay1 = ra.y + ra.height - 1;
            let bx0 = rb.x + 1;
            let bx1 = rb.x + rb.width - 1;
            let by0 = rb.y + 1;
            let by1 = rb.y + rb.height - 1;
            let overlap_x = ax0 < bx1 && bx0 < ax1;
            let overlap_y = ay0 < by1 && by0 < ay1;
            assert!(
                !(overlap_x && overlap_y),
                "rooms {} and {} overlap",
                a,
                b
            );
        }
    }
}

#[test]
fn ten_by_ten_without_rooms_yields_one_region() {
    // 10x10 grid, zero extra rooms, sparse off: one region spans all
    // non-Wall cells and the anchors are connected.
    let d = generate_floor(&options(10, 10, 0, 3, 4, false));
    assert_eq!(d.placed_rooms.len(), 2);
    let visited = flood_from_start(&d);
    assert!(visited[d.end_y][d.end_x]);
    for y in 0..d.grid.height() {
        for x in 0..d.grid.width() {
            let c = d.grid.get(x, y).unwrap();
            if c != RoomType::Wall {
                assert!(
                    visited[y][x],
                    "non-wall cell ({}, {}) unreachable from start",
                    x,
                    y
                );
            }
        }
    }
}

#[test]
fn oversized_rooms_place_nothing_but_still_connect() {
    // Requested room sizes exceed the grid: zero themed rooms are
    // placed, generation still runs and reachability still holds.
    let d = generate_floor(&options(20, 20, 5, 30, 31, false));
    assert_eq!(d.placed_rooms.len(), 2, "only the start and end rooms");
    let visited = flood_from_start(&d);
    assert!(visited[d.end_y][d.end_x]);
}

#[test]
fn sparse_floor_is_fully_pruned_and_still_connected() {
    let d = generate_floor(&options(16, 16, 2, 3, 5, true));
    let visited = flood_from_start(&d);
    assert!(visited[d.end_y][d.end_x], "pruning cut the start from the end");
    let w = d.grid.width();
    let h = d.grid.height();
    for y in 0..h {
        for x in 0..w {
            if d.grid.get(x, y).unwrap() != RoomType::Hall {
                continue;
            }
            let mut exits = 0;
            if x + 1 < w && d.grid.get(x + 1, y).unwrap() != RoomType::Wall {
                exits += 1;
            }
            if x > 0 && d.grid.get(x - 1, y).unwrap() != RoomType::Wall {
                exits += 1;
            }
            if y + 1 < h && d.grid.get(x, y + 1).unwrap() != RoomType::Wall {
                exits += 1;
            }
            if y > 0 && d.grid.get(x, y - 1).unwrap() != RoomType::Wall {
                exits += 1;
            }
            assert!(exits > 1, "dead end left at ({}, {})", x, y);
        }
    }
}

#[test]
fn invalid_configurations_are_rejected() {
    let mut rng = RandomSource::from_seed(1);
    let format = String::from("fx");
    assert!(gen_floor(&options(5, 16, 0, 3, 4, false), &format, &mut rng).is_none());
    assert!(gen_floor(&options(16, 8, 0, 3, 4, false), &format, &mut rng).is_none());
    // rooms requested with an empty size range
    assert!(gen_floor(&options(16, 16, 3, 5, 5, false), &format, &mut rng).is_none());
}

#[test]
fn new_dungeon_produces_requested_floor_counts() {
    let mut opts = options(12, 12, 1, 3, 5, false);
    opts.count = 3;
    let params = DungeonParameters {
        dungeons: vec![opts],
        file_path: String::new(),
        output_format: String::from("fx"),
        include_images: false,
    };
    let mut rng = RandomSource::from_seed(7);
    let result = new_dungeon(&params, &mut rng);
    assert_eq!(result.len(), 1);
    assert_eq!(result[0].len(), 3);
    for d in &result[0] {
        assert_eq!(d.grid.width(), 12);
        assert_eq!(d.grid.height(), 12);
    }
}

#[test]
fn accepted_anchors_keep_the_minimum_distance() {
    let d = generate_floor(&options(16, 16, 0, 3, 4, false));
    let dx = if d.start_x >= d.end_x { d.start_x - d.end_x } else { d.end_x - d.start_x };
    let dy = if d.start_y >= d.end_y { d.start_y - d.end_y } else { d.end_y - d.start_y };
    assert!(dx + dy >= 16 / 2);
}

#[test]
fn raycast_format_projects_and_mirrors_the_grid() {
    let opts = options(14, 14, 2, 3, 5, false);
    let format = String::from("raycast");
    let mut d = None;
    for seed in 0..200u64 {
        let mut rng = dungeon_gen::rng::RandomSource::from_seed(seed);
        if let Some(found) = gen_floor(&opts, &format, &mut rng) {
            d = Some(found);
            break;
        }
    }
    let d = d.expect("no raycast floor generated");
    let w = d.grid.width();
    let h = d.grid.height();
    // recompute the projection: rooms in order, then the closing sweep,
    // then mirror each row
    let mut expect = vec![vec![0u32; w]; h];
    for y in 0..h {
        for x in 0..w {
            expect[y][x] = d.grid.get(x, y).unwrap().to_int();
        }
    }
    for room in &d.placed_rooms {
        let code = room.room_type.to_int();
        for y in room.y..room.y + room.height {
            for x in room.x..room.x + room.width {
                if expect[y][x] == RoomType::Wall.to_int() {
                    expect[y][x] = code;
                } else if expect[y][x] == code {
                    expect[y][x] = RoomType::Empty.to_int();
                }
            }
        }
    }
    for y in 0..h {
        for x in 0..w {
            if expect[y][x] == RoomType::Hall.to_int()
                || expect[y][x] == RoomType::LockedDoor.to_int()
            {
                expect[y][x] = RoomType::Empty.to_int();
            }
        }
    }
    for y in 0..h {
        for x in 0..w {
            assert_eq!(
                d.raycast_grid.get(x, y).unwrap().to_int(),
                expect[y][w - 1 - x],
                "raycast mismatch at ({}, {})",
                x,
                y
            );
        }
    }
}

#[test]
fn plain_format_leaves_the_raycast_grid_blank() {
    let d = generate_floor(&options(12, 12, 1, 3, 5, false));
    for y in 0..d.grid.height() {
        for x in 0..d.grid.width() {
            assert_eq!(d.raycast_grid.get(x, y).unwrap(), RoomType::Empty);
        }
    }
}

#[test]
fn room_names_map_to_their_categories() {
    assert_eq!(room_type_from_name(&String::from("start")), RoomType::Start);
    assert_eq!(room_type_from_name(&String::from("end")), RoomType::End);
    assert_eq!(room_type_from_name(&String::from("boss")), RoomType::Boss);
    assert_eq!(room_type_from_name(&String::from("shop")), RoomType::Shop);
    assert_eq!(
        room_type_from_name(&String::from("treasure")),
        RoomType::Treasure
    );
    assert_eq!(room_type_from_name(&String::from("secret")), RoomType::Secret);
    assert_eq!(room_type_from_name(&String::from("vault")), RoomType::Empty);
}

#[test]
fn seeded_generation_is_reproducible() {
    let opts = options(14, 14, 2, 3, 5, false);
    let format = String::from("fx");
    let mut rng_a = RandomSource::from_seed(42);
    let mut rng_b = RandomSource::from_seed(42);
    let a = gen_floor(&opts, &format, &mut rng_a);
    let b = gen_floor(&opts, &format, &mut rng_b);
    assert_eq!(a.is_some(), b.is_some());
    if let (Some(da), Some(db)) = (a, b) {
        assert_eq!(da.start_x, db.start_x);
        assert_eq!(da.start_y, db.start_y);
        for y in 0..da.grid.height() {
            for x in 0..da.grid.width() {
                assert_eq!(da.grid.get(x, y).unwrap(), db.grid.get(x, y).unwrap());
            }
        }
    }
}
