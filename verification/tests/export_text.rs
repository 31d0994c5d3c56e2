use dungeon_gen::cell::RoomType;
use dungeon_gen::dungeon::Dungeon;
use dungeon_gen::export::{
    dungeons_file_text, dungeons_lua_text, lua_addr_pairs, lua_dungeon_data, lua_text,
    rows_block_text, rows_lua_text, usize_to_dec,
};
use dungeon_gen::grid::Grid;
use dungeon_gen::painter::{create_image_from_values, to_color, Painter};
use dungeon_gen::params::DungeonOptions;

fn tiny_grid() -> Grid<RoomType> {
    // 2x2: row 0 = Wall, Hall; row 1 = Start, End
    let mut g = Grid::<RoomType>::new(2, 2, RoomType::Empty).unwrap();
    g.set(0, 0, RoomType::Wall).unwrap();
    g.set(1, 0, RoomType::Hall).unwrap();
    g.set(0, 1, RoomType::Start).unwrap();
    g.set(1, 1, RoomType::End).unwrap();
    g
}

fn tiny_dungeon() -> Dungeon {
    let opts = DungeonOptions {
        name: String::from("unit"),
        height: 2,
        width: 2,
        room_types: Vec::new(),
        amount_of_rooms: 0,
        room_size_low: 3,
        room_size_high: 4,
        start_finish_min_distance: 0,
        room_padding_density: 0,
        sparse: false,
        count: 1,
    };
    let mut d = Dungeon::new(&opts).unwrap();
    d.grid.set(0, 0, RoomType::Wall).unwrap();
    d.grid.set(1, 0, RoomType::Hall).unwrap();
    d.grid.set(0, 1, RoomType::Start).unwrap();
    d.grid.set(1, 1, RoomType::End).unwrap();
    d.start_x = 0;
    d.start_y = 1;
    d.end_x = 1;
    d.end_y = 1;
    d
}

#[test]
fn decimal_rendering_is_exact() {
    assert_eq!(usize_to_dec(0), "0");
    assert_eq!(usize_to_dec(7), "7");
    assert_eq!(usize_to_dec(10), "10");
    assert_eq!(usize_to_dec(12345), "12345");
    assert_eq!(usize_to_dec(90210), "90210");
}

#[test]
fn row_blocks_join_codes_with_commas() {
    let g = tiny_grid();
    assert_eq!(rows_block_text(&g), "1,2,\n3,4\n");
    assert_eq!(rows_lua_text(&g, false), "1,2,\n3,4");
    // mirrored rows read right to left
    assert_eq!(rows_lua_text(&g, true), "2,1,\n4,3");
}

#[test]
fn lua_dungeon_entry_has_dims_start_and_rows() {
    let g = tiny_grid();
    let text = lua_dungeon_data(&g, false, 0, 1);
    // height, width; mirrored start column (2 - 0 - 1 = 1), start row
    assert_eq!(text, "{\n2,2,\n1,1,\n1,2,\n3,4}");
}

#[test]
fn pointer_script_splices_the_name_everywhere() {
    let text = lua_text(String::from("abc"));
    let expected = "\nabc_pointers = {}\ntotaloffset = 0\nfield(\"abc\")\nfor i,d in ipairs(abc) do\n    abc_pointers[i] = address()\n   write(bytes(d))\nend\nfield(\"abc_pointers\")\nwrite(bytes(abc_pointers, \"uint24\"))\n";
    assert_eq!(text, expected);
}

#[test]
fn addr_pairs_script_splices_the_name() {
    let text = lua_addr_pairs(&String::from("abc"));
    let expected = "\nfield(\"abc_pairs\")\nfor i,d in ipairs(test_dungeon_raycast) do\n    write(bytes({abc_pointers[i],abc_raycast_pointers[i]}, \"uint32\"))\nend\n    ";
    assert_eq!(text, expected);
}

#[test]
fn file_text_wraps_each_floor_in_a_declaration() {
    let d = tiny_dungeon();
    let data = vec![d];
    let text = dungeons_file_text(&data, &String::from("dng"), false);
    let expected =
        "uint8_t dng0 = {\n2, 2,\n1,0,\n1,2,\n3,4\n};\n\nuint24_t dng_floors[] = { dng0  };\n";
    assert_eq!(text, expected);
}

#[test]
fn lua_file_text_holds_plain_and_raycast_tables() {
    let d = tiny_dungeon();
    let data = vec![d];
    let text = dungeons_lua_text(&data, &String::from("dng"));
    // the plain table mirrors each row; the raycast grid is still blank
    assert!(text.starts_with("dng = {\n{\n2,2,\n1,1,\n2,1,\n4,3}\n}\n"));
    assert!(text.contains("dng_raycast = {\n{\n2,2,\n1,1,\n0,0,\n0,0}\n}\n"));
    assert!(text.contains("\nfield(\"dng_pairs\")\n"));
}

#[test]
fn colors_follow_the_palette_and_the_ramp() {
    assert_eq!(to_color(0), (120, 120, 120));
    assert_eq!(to_color(1), (0, 0, 0));
    assert_eq!(to_color(3), (0, 255, 0));
    assert_eq!(to_color(9), (255, 0, 255));
    assert_eq!(to_color(20), (60, 240, 240));
    assert_eq!(to_color(100), (44, 176, 176));
}

#[test]
fn images_scale_each_cell_to_five_by_five() {
    let mut g = Grid::<RoomType>::new(2, 1, RoomType::Empty).unwrap();
    g.set(0, 0, RoomType::Wall).unwrap();
    g.set(1, 0, RoomType::Start).unwrap();
    let img = create_image_from_values(&g);
    assert_eq!(img.width(), 10);
    assert_eq!(img.height(), 5);
    for py in 0..5 {
        for px in 0..5 {
            assert_eq!(img.get(px, py).unwrap(), (0, 0, 0));
            assert_eq!(img.get(px + 5, py).unwrap(), (0, 255, 0));
        }
    }
}

#[test]
fn painter_records_only_when_enabled() {
    let mut p = Painter::new();
    let g = Grid::<RoomType>::new(2, 2, RoomType::Wall).unwrap();
    p.add_step(g.duplicate());
    assert_eq!(p.steps.len(), 0);
    assert_eq!(p.paint().len(), 0);
    p.enable();
    p.add_step(g.duplicate());
    p.add_step(g);
    assert_eq!(p.steps.len(), 2);
    let frames = p.paint();
    assert_eq!(frames.len(), 2);
    assert_eq!(frames[0].width(), 10);
    assert_eq!(frames[0].get(0, 0).unwrap(), (0, 0, 0));
}
