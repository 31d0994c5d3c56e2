use vstd::prelude::*;
use vstd::string::StringExecFns;

use crate::cell::RoomType;
use crate::dungeon::Dungeon;
use crate::params::{DungeonOptions, DungeonParameters};
use crate::raycast::{final_pass, project_rooms_at};
use crate::reach::{lemma_connected_symmetric, spec_connected};
use crate::rng::RandomSource;
use crate::room::Room;

verus! {

/// How many times one floor may be regenerated from scratch before its
/// dungeon gives up: a connectivity failure discards the whole attempt
/// and a fresh one starts, so a ceiling keeps infeasible parameters
/// from spinning forever.
pub const MAX_FLOOR_ATTEMPTS: u32 = 10000;

/// The configuration admits a floor attempt: the grid leaves room for
/// the interior start/end sampling, and a requested room size range is
/// non-empty.
pub open spec fn config_ok(p: DungeonOptions) -> bool {
    &&& p.width >= 9
    &&& p.height >= 9
    &&& (p.amount_of_rooms == 0 || p.room_size_low < p.room_size_high)
}

/// The themed category a configured room-type name stands for;
/// unrecognized names stand for no category at all.
pub open spec fn spec_room_type_from_name(s: Seq<char>) -> RoomType {
    if s == "start"@ {
        RoomType::Start
    } else if s == "end"@ {
        RoomType::End
    } else if s == "boss"@ {
        RoomType::Boss
    } else if s == "shop"@ {
        RoomType::Shop
    } else if s == "treasure"@ {
        RoomType::Treasure
    } else if s == "secret"@ {
        RoomType::Secret
    } else {
        RoomType::Empty
    }
}

pub fn room_type_from_name(name: &String) -> (r: RoomType)
    ensures
        r == spec_room_type_from_name(name@),
{
    let s_start = String::from_str("start");
    if *name == s_start {
        return RoomType::Start;
    }
    let s_end = String::from_str("end");
    if *name == s_end {
        return RoomType::End;
    }
    let s_boss = String::from_str("boss");
    if *name == s_boss {
        return RoomType::Boss;
    }
    let s_shop = String::from_str("shop");
    if *name == s_shop {
        return RoomType::Shop;
    }
    let s_treasure = String::from_str("treasure");
    if *name == s_treasure {
        return RoomType::Treasure;
    }
    let s_secret = String::from_str("secret");
    if *name == s_secret {
        return RoomType::Secret;
    }
    RoomType::Empty
}

/// Whether this finished floor's start and end anchors are mutually
/// reachable over 4-connected passable cells.
pub fn connected(d: Dungeon) -> (r: bool)
    requires
        d.wf(),
        d.anchors_placed(),
    ensures
        r == spec_connected(d.grid, d.start_x as int, d.start_y as int, d.end_x as int, d.end_y as int),
{
    d.are_start_and_end_connected()
}

/// Every guarantee an accepted floor carries: well-formed grids of the
/// configured dimensions, the anchors in place, no transient `Empty`
/// cell left, and the start and end anchors mutually reachable — also
/// after sparse-mode pruning, which never cuts a straightened route.
pub open spec fn accepted_floor(d: Dungeon, p: DungeonOptions) -> bool {
    &&& d.wf()
    &&& d.grid.spec_width() == p.width
    &&& d.grid.spec_height() == p.height
    &&& d.anchors_placed()
    &&& d.no_empty_cells()
    &&& spec_connected(d.grid, d.start_x as int, d.start_y as int, d.end_x as int, d.end_y as int)
    &&& spec_connected(d.grid, d.end_x as int, d.end_y as int, d.start_x as int, d.start_y as int)
}

/// The raycast grid holds the projection of the final grid over the
/// placed rooms — solid blocks with drilled interiors — with every row
/// then mirrored for the consuming renderer.
pub open spec fn raycast_projected(d: Dungeon) -> bool {
    forall|i: int, j: int|
        d.raycast_grid.in_bounds(i, j) ==> d.raycast_grid.at(i, j) == final_pass(
            project_rooms_at(d.grid, d.placed_rooms@, d.grid.spec_width() - 1 - i, j),
        )
}

/// The raycast grid was never touched: still all unassigned.
pub open spec fn raycast_blank(d: Dungeon) -> bool {
    forall|i: int, j: int|
        d.raycast_grid.in_bounds(i, j) ==> d.raycast_grid.at(i, j) == RoomType::Empty
}

/// Run one whole floor attempt: build an empty grid, place the start
/// and end anchors, queue and place the themed rooms, carve corridors
/// through everything still open, wall off the rest, connect the
/// regions, and accept the floor only if its anchors are connected.
/// Rejected attempts and infeasible configurations yield `None`.
pub fn gen_floor(parameters: &DungeonOptions, format: &String, rng: &mut RandomSource) -> (r:
    Option<Dungeon>)
    ensures
        !config_ok(*parameters) ==> r is None,
        match r {
            Some(d) => {
                &&& accepted_floor(d, *parameters)
                &&& parameters.sparse ==> d.pruned()
                &&& format@ == "raycast"@ ==> raycast_projected(d)
                &&& format@ != "raycast"@ ==> raycast_blank(d)
            },
            None => true,
        },
{
    if parameters.width < 9 || parameters.height < 9 {
        return None;
    }
    if parameters.amount_of_rooms > 0 && parameters.room_size_low >= parameters.room_size_high {
        return None;
    }
    let d_opt = Dungeon::new(parameters);
    let mut d: Dungeon;
    match d_opt {
        Some(built) => {
            d = built;
        },
        None => {
            return None;
        },
    }
    match d.place_start_and_end(rng) {
        Ok(()) => {},
        Err(_) => {
            return None;
        },
    }
    let mut c: u32 = 0;
    let amount = parameters.amount_of_rooms;
    while c < amount
        invariant
            amount == parameters.amount_of_rooms,
            amount > 0 ==> parameters.room_size_low < parameters.room_size_high,
            c <= amount,
            d.wf(),
            d.regions_zero_on_empty(),
            d.regions_in_range(),
            d.anchors_placed(),
            d.grid.spec_width() == parameters.width,
            d.grid.spec_height() == parameters.height,
            d.placed_rooms@.len() >= 2,
            raycast_blank(d),
            forall|t: int|
                0 <= t < d.rooms@.len() ==> (#[trigger] d.rooms@[t]).room_type != RoomType::Empty,
        decreases amount - c,
    {
        let name_opt = rng.choose_name(&parameters.room_types);
        match name_opt {
            Some(name) => {
                let room_type = room_type_from_name(name);
                if room_type != RoomType::Empty {
                    let low = parameters.room_size_low as usize;
                    let high = parameters.room_size_high as usize;
                    let room = Room {
                        height: rng.gen_range_usize(low, high),
                        width: rng.gen_range_usize(low, high),
                        x: 0,
                        y: 0,
                        room_type,
                    };
                    d.add_room(room);
                }
            },
            None => {},
        }
        c = c + 1;
    }
    d.generate(2, rng);
    let w = d.grid.width();
    let h = d.grid.height();
    let mut x: usize = 0;
    while x < w
        invariant
            x <= w,
            w == d.grid.spec_width(),
            h == d.grid.spec_height(),
            d.wf(),
            d.regions_zero_on_empty(),
            d.regions_in_range(),
            d.anchors_placed(),
            d.grid.spec_width() == parameters.width,
            d.grid.spec_height() == parameters.height,
            d.placed_rooms@.len() >= 2,
            raycast_blank(d),
        decreases w - x,
    {
        let mut y: usize = 0;
        while y < h
            invariant
                x < w,
                y <= h,
                w == d.grid.spec_width(),
                h == d.grid.spec_height(),
                d.wf(),
                d.regions_zero_on_empty(),
                d.regions_in_range(),
                d.anchors_placed(),
                d.grid.spec_width() == parameters.width,
                d.grid.spec_height() == parameters.height,
                d.placed_rooms@.len() >= 2,
                raycast_blank(d),
            decreases h - y,
        {
            if d.grid.read(x, y) == RoomType::Empty {
                let ghost pre = d;
                d.make_halls((x, y), rng);
                proof {
                    assert(d.grid.at(d.start_x as int, d.start_y as int) == RoomType::Start);
                    assert(d.grid.at(d.end_x as int, d.end_y as int) == RoomType::End);
                    assert(d.regions.at(d.start_x as int, d.start_y as int) != 0);
                    assert(d.regions.at(d.end_x as int, d.end_y as int) != 0);
                }
            }
            y = y + 1;
        }
        x = x + 1;
    }
    d.fill_with_walls();
    let ghost filled = d;
    let _outcome = d.connect_regions(rng);
    proof {
        assert forall|i: int, j: int| d.grid.in_bounds(i, j) implies d.grid.at(i, j)
            != RoomType::Empty by {
            assert(filled.grid.in_bounds(i, j));
            if d.grid.at(i, j) != filled.grid.at(i, j) {
            } else {
                assert(filled.grid.at(i, j) != RoomType::Empty);
            }
        }
        assert(d.grid.at(d.start_x as int, d.start_y as int) == RoomType::Start);
        assert(d.grid.at(d.end_x as int, d.end_y as int) == RoomType::End);
        assert(d.regions.at(d.start_x as int, d.start_y as int) != 0);
        assert(d.regions.at(d.end_x as int, d.end_y as int) != 0);
    }
    let now_connected = d.are_start_and_end_connected();
    if !now_connected {
        return None;
    }
    if parameters.sparse {
        d.remove_dead_ends();
        proof {
            assert(d.grid.at(d.start_x as int, d.start_y as int) == RoomType::Start);
            assert(d.grid.at(d.end_x as int, d.end_y as int) == RoomType::End);
        }
    }
    let ghost pruned_snapshot = d;
    proof {
        lemma_connected_symmetric(
            d.grid,
            d.start_x as int,
            d.start_y as int,
            d.end_x as int,
            d.end_y as int,
        );
    }
    let s_raycast = String::from_str("raycast");
    if *format == s_raycast {
        let ghost before_convert = d;
        d.convert_rooms_to_raycast_format();
        let ghost after_convert = d;
        d.reverse_grid_rows();
        proof {
            assert forall|i: int, j: int| d.raycast_grid.in_bounds(i, j) implies d.raycast_grid.at(
                i,
                j,
            ) == final_pass(
                project_rooms_at(d.grid, d.placed_rooms@, d.grid.spec_width() - 1 - i, j),
            ) by {
                let w_int = d.grid.spec_width() as int;
                assert(d.raycast_grid.at(i, j) == after_convert.raycast_grid.at(w_int - 1 - i, j));
                assert(after_convert.raycast_grid.at(w_int - 1 - i, j) == final_pass(
                    project_rooms_at(
                        before_convert.grid,
                        before_convert.placed_rooms@,
                        w_int - 1 - i,
                        j,
                    ),
                ));
            }
            assert(raycast_projected(d));
        }
    }
    proof {
        if parameters.sparse {
            assert(pruned_snapshot.pruned());
            assert forall|px: int, py: int| d.grid.in_bounds(px, py) implies !d.is_dead_end(
                px,
                py,
            ) by {
                assert(d.grid == pruned_snapshot.grid);
                assert(!pruned_snapshot.is_dead_end(px, py));
            }
            assert(d.pruned());
        }
    }
    Some(d)
}

/// Generate every configured dungeon: keep attempting floors until the
/// requested count is reached, discarding any rejected attempt whole,
/// with a per-dungeon ceiling of `MAX_FLOOR_ATTEMPTS` tries so that
/// infeasible parameters end in fewer floors instead of spinning.
pub fn new_dungeon(parameters: &DungeonParameters, rng: &mut RandomSource) -> (r: Vec<Vec<Dungeon>>)
    ensures
        r@.len() == parameters.dungeons@.len(),
        forall|i: int|
            0 <= i < r@.len() ==> (#[trigger] r@[i])@.len() <= parameters.dungeons@[i].count,
        forall|i: int, j: int|
            0 <= i < r@.len() && 0 <= j < r@[i]@.len() ==> accepted_floor(
                #[trigger] r@[i]@[j],
                parameters.dungeons@[i],
            ),
{
    let mut dungeons: Vec<Vec<Dungeon>> = Vec::new();
    let n = parameters.dungeons.len();
    let mut i: usize = 0;
    while i < n
        invariant
            i <= n,
            n == parameters.dungeons@.len(),
            dungeons@.len() == i,
            forall|a: int|
                0 <= a < i ==> (#[trigger] dungeons@[a])@.len() <= parameters.dungeons@[a].count,
            forall|a: int, b: int|
                0 <= a < i && 0 <= b < dungeons@[a]@.len() ==> accepted_floor(
                    #[trigger] dungeons@[a]@[b],
                    parameters.dungeons@[a],
                ),
        decreases n - i,
    {
        let options = &parameters.dungeons[i];
        let count = options.count as usize;
        let mut floors: Vec<Dungeon> = Vec::new();
        let mut attempts: u32 = 0;
        while floors.len() < count && attempts < MAX_FLOOR_ATTEMPTS
            invariant
                count == parameters.dungeons@[i as int].count,
                i < n,
                n == parameters.dungeons@.len(),
                attempts <= MAX_FLOOR_ATTEMPTS,
                floors@.len() <= count,
                forall|b: int|
                    0 <= b < floors@.len() ==> accepted_floor(
                        #[trigger] floors@[b],
                        parameters.dungeons@[i as int],
                    ),
            decreases MAX_FLOOR_ATTEMPTS - attempts,
        {
            attempts = attempts + 1;
            let attempt = gen_floor(&parameters.dungeons[i], &parameters.output_format, rng);
            match attempt {
                Some(floor) => {
                    floors.push(floor);
                },
                None => {},
            }
        }
        dungeons.push(floors);
        i = i + 1;
    }
    dungeons
}

} // verus!
