use vstd::prelude::*;
use vstd::string::StringExecFns;

use crate::cell::RoomType;
use crate::dungeon::Dungeon;
use crate::grid::Grid;

verus! {

/// The character for one decimal digit.
pub open spec fn spec_digit(d: int) -> char {
    if d == 0 {
        '0'
    } else if d == 1 {
        '1'
    } else if d == 2 {
        '2'
    } else if d == 3 {
        '3'
    } else if d == 4 {
        '4'
    } else if d == 5 {
        '5'
    } else if d == 6 {
        '6'
    } else if d == 7 {
        '7'
    } else if d == 8 {
        '8'
    } else {
        '9'
    }
}

/// The decimal numeral of `n`, most significant digit first.
pub open spec fn spec_dec(n: nat) -> Seq<char>
    decreases n,
{
    if n < 10 {
        seq![spec_digit(n as int)]
    } else {
        spec_dec(n / 10).push(spec_digit((n % 10) as int))
    }
}

fn digit_string(d: usize) -> (s: String)
    requires
        d < 10,
    ensures
        s@ == seq![spec_digit(d as int)],
{
    let s: String;
    if d == 0 {
        s = String::from_str("0");
        proof {
            reveal_strlit("0");
        }
    } else if d == 1 {
        s = String::from_str("1");
        proof {
            reveal_strlit("1");
        }
    } else if d == 2 {
        s = String::from_str("2");
        proof {
            reveal_strlit("2");
        }
    } else if d == 3 {
        s = String::from_str("3");
        proof {
            reveal_strlit("3");
        }
    } else if d == 4 {
        s = String::from_str("4");
        proof {
            reveal_strlit("4");
        }
    } else if d == 5 {
        s = String::from_str("5");
        proof {
            reveal_strlit("5");
        }
    } else if d == 6 {
        s = String::from_str("6");
        proof {
            reveal_strlit("6");
        }
    } else if d == 7 {
        s = String::from_str("7");
        proof {
            reveal_strlit("7");
        }
    } else if d == 8 {
        s = String::from_str("8");
        proof {
            reveal_strlit("8");
        }
    } else {
        s = String::from_str("9");
        proof {
            reveal_strlit("9");
        }
    }
    proof {
        assert(s@ =~= seq![spec_digit(d as int)]);
    }
    s
}

/// Decimal rendering of an unsigned number.
pub fn usize_to_dec(n: usize) -> (s: String)
    ensures
        s@ == spec_dec(n as nat),
    decreases n,
{
    if n < 10 {
        digit_string(n)
    } else {
        let mut s = usize_to_dec(n / 10);
        let tail = digit_string(n % 10);
        s.append(tail.as_str());
        proof {
            assert(s@ =~= spec_dec(n as nat));
        }
        s
    }
}

/// The numeric code of the cell at column `i`, row `j`; a mirrored
/// grid is read right to left.
pub open spec fn cell_code(g: Grid<RoomType>, mirrored: bool, i: int, j: int) -> nat {
    if mirrored {
        g.at(g.spec_width() - 1 - i, j).spec_to_int() as nat
    } else {
        g.at(i, j).spec_to_int() as nat
    }
}

/// Row `j`'s first `k` cell codes, comma-separated.
pub open spec fn spec_row_csv(g: Grid<RoomType>, mirrored: bool, j: int, k: int) -> Seq<char>
    decreases k,
{
    if k <= 0 {
        Seq::empty()
    } else if k == 1 {
        spec_dec(cell_code(g, mirrored, 0, j))
    } else {
        spec_row_csv(g, mirrored, j, k - 1) + ","@ + spec_dec(cell_code(g, mirrored, k - 1, j))
    }
}

/// The first `upto` rows in the array-literal format: every row ends
/// in a newline, non-final rows with a comma before it.
pub open spec fn spec_rows_block(g: Grid<RoomType>, upto: int) -> Seq<char>
    decreases upto,
{
    if upto <= 0 {
        Seq::empty()
    } else {
        spec_rows_block(g, upto - 1) + spec_row_csv(g, false, upto - 1, g.spec_width() as int) + (
        if upto - 1 < g.spec_height() - 1 {
            ",\n"@
        } else {
            "\n"@
        })
    }
}

/// The first `upto` rows in the data-table format: rows joined by a
/// comma and newline, nothing after the final row.
pub open spec fn spec_rows_lua(g: Grid<RoomType>, mirrored: bool, upto: int) -> Seq<char>
    decreases upto,
{
    if upto <= 0 {
        Seq::empty()
    } else {
        spec_rows_lua(g, mirrored, upto - 1) + spec_row_csv(g, mirrored, upto - 1, g.spec_width() as int)
            + (if upto - 1 < g.spec_height() - 1 {
            ",\n"@
        } else {
            Seq::empty()
        })
    }
}

/// One row of cell codes, comma-separated.
fn row_csv_text(g: &Grid<RoomType>, mirrored: bool, j: usize) -> (s: String)
    requires
        g.wf(),
        j < g.spec_height(),
        g.spec_width() >= 1,
    ensures
        s@ == spec_row_csv(*g, mirrored, j as int, g.spec_width() as int),
{
    let w = g.width();
    let mut s = String::new();
    let mut k: usize = 0;
    while k < w
        invariant
            g.wf(),
            w == g.spec_width(),
            1 <= w,
            j < g.spec_height(),
            k <= w,
            s@ == spec_row_csv(*g, mirrored, j as int, k as int),
        decreases w - k,
    {
        let column = if mirrored {
            w - 1 - k
        } else {
            k
        };
        let code = g.read(column, j).to_int();
        let code_text = usize_to_dec(code as usize);
        if k > 0 {
            s.append(",");
        }
        s.append(code_text.as_str());
        proof {
            assert(s@ =~= spec_row_csv(*g, mirrored, j as int, k + 1 as int));
        }
        k = k + 1;
    }
    s
}

/// A whole grid in the array-literal row format.
pub fn rows_block_text(g: &Grid<RoomType>) -> (s: String)
    requires
        g.wf(),
        g.spec_width() >= 1,
    ensures
        s@ == spec_rows_block(*g, g.spec_height() as int),
{
    let h = g.height();
    let mut s = String::new();
    let mut j: usize = 0;
    while j < h
        invariant
            g.wf(),
            h == g.spec_height(),
            1 <= g.spec_width(),
            j <= h,
            s@ == spec_rows_block(*g, j as int),
        decreases h - j,
    {
        let row = row_csv_text(g, false, j);
        s.append(row.as_str());
        if j < h - 1 {
            s.append(",\n");
        } else {
            s.append("\n");
        }
        proof {
            assert(s@ =~= spec_rows_block(*g, j + 1 as int));
        }
        j = j + 1;
    }
    s
}

/// A whole grid in the data-table row format.
pub fn rows_lua_text(g: &Grid<RoomType>, mirrored: bool) -> (s: String)
    requires
        g.wf(),
        g.spec_width() >= 1,
    ensures
        s@ == spec_rows_lua(*g, mirrored, g.spec_height() as int),
{
    let h = g.height();
    let mut s = String::new();
    let mut j: usize = 0;
    while j < h
        invariant
            g.wf(),
            h == g.spec_height(),
            1 <= g.spec_width(),
            j <= h,
            s@ == spec_rows_lua(*g, mirrored, j as int),
        decreases h - j,
    {
        let row = row_csv_text(g, mirrored, j);
        s.append(row.as_str());
        if j < h - 1 {
            s.append(",\n");
        }
        proof {
            assert(s@ =~= spec_rows_lua(*g, mirrored, j + 1 as int));
        }
        j = j + 1;
    }
    s
}

/// The pointer-table script that accompanies one data table.
pub open spec fn spec_lua_text(name: Seq<char>) -> Seq<char> {
    "\n"@ + name + "_pointers = {}\ntotaloffset = 0\nfield(\""@ + name + "\")\nfor i,d in ipairs("@
        + name + ") do\n    "@ + name
        + "_pointers[i] = address()\n   write(bytes(d))\nend\nfield(\""@ + name
        + "_pointers\")\nwrite(bytes("@ + name + "_pointers, \"uint24\"))\n"@
}

/// The script that follows a data table: it records each floor's
/// address and writes a pointer table after them.
pub fn lua_text(lua_name: String) -> (r: String)
    ensures
        r@ == spec_lua_text(lua_name@),
{
    let mut r = String::from_str("\n");
    r.append(lua_name.as_str());
    r.append("_pointers = {}\ntotaloffset = 0\nfield(\"");
    r.append(lua_name.as_str());
    r.append("\")\nfor i,d in ipairs(");
    r.append(lua_name.as_str());
    r.append(") do\n    ");
    r.append(lua_name.as_str());
    r.append("_pointers[i] = address()\n   write(bytes(d))\nend\nfield(\"");
    r.append(lua_name.as_str());
    r.append("_pointers\")\nwrite(bytes(");
    r.append(lua_name.as_str());
    r.append("_pointers, \"uint24\"))\n");
    proof {
        assert(r@ =~= spec_lua_text(lua_name@));
    }
    r
}

/// The script that pairs each floor's address with its raycast twin.
pub open spec fn spec_lua_addr_pairs(name: Seq<char>) -> Seq<char> {
    "\nfield(\""@ + name + "_pairs\")\nfor i,d in ipairs(test_dungeon_raycast) do\n    write(bytes({"@
        + name + "_pointers[i],"@ + name + "_raycast_pointers[i]}, \"uint32\"))\nend\n    "@
}

pub fn lua_addr_pairs(name: &String) -> (r: String)
    ensures
        r@ == spec_lua_addr_pairs(name@),
{
    let mut r = String::from_str("\nfield(\"");
    r.append(name.as_str());
    r.append("_pairs\")\nfor i,d in ipairs(test_dungeon_raycast) do\n    write(bytes({");
    r.append(name.as_str());
    r.append("_pointers[i],");
    r.append(name.as_str());
    r.append("_raycast_pointers[i]}, \"uint32\"))\nend\n    ");
    proof {
        assert(r@ =~= spec_lua_addr_pairs(name@));
    }
    r
}

/// One floor as a data-table entry: dimensions, then the start cell
/// with its column mirrored, then the rows.
pub open spec fn spec_lua_dungeon_data(
    g: Grid<RoomType>,
    mirrored: bool,
    start_x: int,
    start_y: int,
) -> Seq<char> {
    "{\n"@ + spec_dec(g.spec_height() as nat) + ","@ + spec_dec(g.spec_width() as nat) + ",\n"@
        + spec_dec((g.spec_width() - start_x - 1) as nat) + ","@ + spec_dec(start_y as nat) + ",\n"@
        + spec_rows_lua(g, mirrored, g.spec_height() as int) + "}"@
}

/// One floor's data-table text. The caller hands the grid with its
/// dimensions and start anchor; the start column is mirrored, matching
/// the renderer's reversed row order.
pub fn lua_dungeon_data(
    grid: &Grid<RoomType>,
    mirrored: bool,
    start_x: usize,
    start_y: usize,
) -> (r: String)
    requires
        grid.wf(),
        grid.spec_width() >= 1,
        start_x < grid.spec_width(),
    ensures
        r@ == spec_lua_dungeon_data(*grid, mirrored, start_x as int, start_y as int),
{
    let w = grid.width();
    let h = grid.height();
    let mut r = String::from_str("{\n");
    let h_text = usize_to_dec(h);
    r.append(h_text.as_str());
    r.append(",");
    let w_text = usize_to_dec(w);
    r.append(w_text.as_str());
    r.append(",\n");
    let sx_text = usize_to_dec(w - start_x - 1);
    r.append(sx_text.as_str());
    r.append(",");
    let sy_text = usize_to_dec(start_y);
    r.append(sy_text.as_str());
    r.append(",\n");
    let rows = rows_lua_text(grid, mirrored);
    r.append(rows.as_str());
    r.append("}");
    proof {
        assert(r@ =~= spec_lua_dungeon_data(*grid, mirrored, start_x as int, start_y as int));
    }
    r
}

/// One floor's block in the array-literal file: dimensions, start
/// cell, then the rows.
pub open spec fn spec_dungeon_file_entry(d: Dungeon, raycast: bool) -> Seq<char> {
    let g = if raycast {
        d.raycast_grid
    } else {
        d.grid
    };
    spec_dec(g.spec_height() as nat) + ", "@ + spec_dec(g.spec_width() as nat) + ",\n"@ + spec_dec(
        d.start_y as nat,
    ) + ","@ + spec_dec(d.start_x as nat) + ",\n"@ + spec_rows_block(g, g.spec_height() as int)
}

/// The first `upto` floors, each wrapped as a named byte-array
/// declaration.
pub open spec fn spec_file_entries(
    data: Seq<Dungeon>,
    name: Seq<char>,
    raycast: bool,
    upto: int,
) -> Seq<char>
    decreases upto,
{
    if upto <= 0 {
        Seq::empty()
    } else {
        spec_file_entries(data, name, raycast, upto - 1) + "uint8_t "@ + name + spec_dec(
            (upto - 1) as nat,
        ) + " = {"@ + "\n"@ + spec_dungeon_file_entry(data[upto - 1], raycast) + "};"@ + "\n"@
    }
}

/// The floor names, comma-separated, each with a trailing space.
pub open spec fn spec_floor_list(name: Seq<char>, upto: int) -> Seq<char>
    decreases upto,
{
    if upto <= 0 {
        Seq::empty()
    } else if upto == 1 {
        name + spec_dec(0) + " "@
    } else {
        spec_floor_list(name, upto - 1) + ","@ + name + spec_dec((upto - 1) as nat) + " "@
    }
}

/// The whole array-literal export: one byte-array declaration per
/// floor, then a pointer table naming them all.
pub open spec fn spec_dungeons_file_text(data: Seq<Dungeon>, name: Seq<char>, raycast: bool) -> Seq<
    char,
> {
    spec_file_entries(data, name, raycast, data.len() as int) + "\nuint24_t "@ + name
        + "_floors[] = { "@ + spec_floor_list(name, data.len() as int) + " };\n"@
}

/// Serialize one dungeon's floors to the array-literal text format;
/// the caller chooses the plain or the raycast grid.
#[verifier::rlimit(60)]
pub fn dungeons_file_text(data: &Vec<Dungeon>, name: &String, raycast: bool) -> (r: String)
    requires
        forall|k: int|
            0 <= k < data@.len() ==> (#[trigger] data@[k]).wf() && data@[k].grid.spec_width() >= 1,
    ensures
        r@ == spec_dungeons_file_text(data@, name@, raycast),
{
    let n = data.len();
    let mut r = String::new();
    let mut k: usize = 0;
    while k < n
        invariant
            n == data@.len(),
            k <= n,
            forall|t: int|
                0 <= t < data@.len() ==> (#[trigger] data@[t]).wf() && data@[t].grid.spec_width()
                    >= 1,
            r@ == spec_file_entries(data@, name@, raycast, k as int),
        decreases n - k,
    {
        let d = &data[k];
        r.append("uint8_t ");
        r.append(name.as_str());
        let idx_text = usize_to_dec(k);
        r.append(idx_text.as_str());
        r.append(" = {");
        r.append("\n");
        let g = if raycast {
            &d.raycast_grid
        } else {
            &d.grid
        };
        let h_text = usize_to_dec(g.height());
        r.append(h_text.as_str());
        r.append(", ");
        let w_text = usize_to_dec(g.width());
        r.append(w_text.as_str());
        r.append(",\n");
        let sy_text = usize_to_dec(d.start_y);
        r.append(sy_text.as_str());
        r.append(",");
        let sx_text = usize_to_dec(d.start_x);
        r.append(sx_text.as_str());
        r.append(",\n");
        let rows = rows_block_text(g);
        r.append(rows.as_str());
        r.append("};");
        r.append("\n");
        proof {
            assert(r@ =~= spec_file_entries(data@, name@, raycast, k + 1 as int));
        }
        k = k + 1;
    }
    r.append("\nuint24_t ");
    r.append(name.as_str());
    r.append("_floors[] = { ");
    let mut k2: usize = 0;
    while k2 < n
        invariant
            n == data@.len(),
            k2 <= n,
            r@ == spec_file_entries(data@, name@, raycast, n as int) + "\nuint24_t "@ + name@
                + "_floors[] = { "@ + spec_floor_list(name@, k2 as int),
        decreases n - k2,
    {
        if k2 > 0 {
            r.append(",");
        }
        r.append(name.as_str());
        let idx_text = usize_to_dec(k2);
        r.append(idx_text.as_str());
        r.append(" ");
        proof {
            assert(r@ =~= spec_file_entries(data@, name@, raycast, n as int) + "\nuint24_t "@
                + name@ + "_floors[] = { "@ + spec_floor_list(name@, k2 + 1 as int));
        }
        k2 = k2 + 1;
    }
    r.append(" };\n");
    proof {
        assert(r@ =~= spec_dungeons_file_text(data@, name@, raycast));
    }
    r
}

/// The first `upto` floors as data-table entries joined by a comma and
/// newline; the plain grids are written mirrored, the raycast grids as
/// they stand.
pub open spec fn spec_lua_entries(data: Seq<Dungeon>, raycast: bool, upto: int) -> Seq<char>
    decreases upto,
{
    if upto <= 0 {
        Seq::empty()
    } else {
        let d = data[upto - 1];
        let entry = if raycast {
            spec_lua_dungeon_data(d.raycast_grid, false, d.start_x as int, d.start_y as int)
        } else {
            spec_lua_dungeon_data(d.grid, true, d.start_x as int, d.start_y as int)
        };
        if upto == 1 {
            entry
        } else {
            spec_lua_entries(data, raycast, upto - 1) + ",\n"@ + entry
        }
    }
}

/// The whole data-table export: the plain floors (mirrored), their
/// pointer script, the raycast floors, theirs, and the address pairs.
pub open spec fn spec_dungeons_lua_text(data: Seq<Dungeon>, name: Seq<char>) -> Seq<char> {
    name + " = {\n"@ + spec_lua_entries(data, false, data.len() as int) + "\n}"@ + "\n"@
        + spec_lua_text(name) + "\n"@ + (name + "_raycast"@) + " = {\n"@ + spec_lua_entries(
        data,
        true,
        data.len() as int,
    ) + "\n}"@ + "\n"@ + spec_lua_text(name + "_raycast"@) + "\n"@ + spec_lua_addr_pairs(name)
}

/// Serialize one dungeon's floors to the data-table script format.
#[verifier::rlimit(60)]
pub fn dungeons_lua_text(data: &Vec<Dungeon>, name: &String) -> (r: String)
    requires
        forall|k: int|
            0 <= k < data@.len() ==> {
                &&& (#[trigger] data@[k]).wf()
                &&& data@[k].grid.spec_width() >= 1
                &&& data@[k].start_x < data@[k].grid.spec_width()
            },
    ensures
        r@ == spec_dungeons_lua_text(data@, name@),
{
    let n = data.len();
    let mut r = String::new();
    r.append(name.as_str());
    r.append(" = {\n");
    let mut k: usize = 0;
    while k < n
        invariant
            n == data@.len(),
            k <= n,
            forall|t: int|
                0 <= t < data@.len() ==> {
                    &&& (#[trigger] data@[t]).wf()
                    &&& data@[t].grid.spec_width() >= 1
                    &&& data@[t].start_x < data@[t].grid.spec_width()
                },
            r@ == name@ + " = {\n"@ + spec_lua_entries(data@, false, k as int),
        decreases n - k,
    {
        if k > 0 {
            r.append(",\n");
        }
        let d = &data[k];
        let entry = lua_dungeon_data(&d.grid, true, d.start_x, d.start_y);
        r.append(entry.as_str());
        proof {
            assert(r@ =~= name@ + " = {\n"@ + spec_lua_entries(data@, false, k + 1 as int));
        }
        k = k + 1;
    }
    r.append("\n}");
    r.append("\n");
    let code = lua_text(name.clone());
    r.append(code.as_str());
    r.append("\n");
    let mut ray_name = name.clone();
    ray_name.append("_raycast");
    r.append(ray_name.as_str());
    r.append(" = {\n");
    let mut k2: usize = 0;
    while k2 < n
        invariant
            n == data@.len(),
            k2 <= n,
            forall|t: int|
                0 <= t < data@.len() ==> {
                    &&& (#[trigger] data@[t]).wf()
                    &&& data@[t].grid.spec_width() >= 1
                    &&& data@[t].start_x < data@[t].grid.spec_width()
                },
            ray_name@ == name@ + "_raycast"@,
            r@ == name@ + " = {\n"@ + spec_lua_entries(data@, false, n as int) + "\n}"@ + "\n"@
                + spec_lua_text(name@) + "\n"@ + (name@ + "_raycast"@) + " = {\n"@
                + spec_lua_entries(data@, true, k2 as int),
        decreases n - k2,
    {
        if k2 > 0 {
            r.append(",\n");
        }
        let d = &data[k2];
        proof {
            assert(d.grid.same_dims(d.raycast_grid));
        }
        let entry = lua_dungeon_data(&d.raycast_grid, false, d.start_x, d.start_y);
        r.append(entry.as_str());
        proof {
            assert(r@ =~= name@ + " = {\n"@ + spec_lua_entries(data@, false, n as int) + "\n}"@
                + "\n"@ + spec_lua_text(name@) + "\n"@ + (name@ + "_raycast"@) + " = {\n"@
                + spec_lua_entries(data@, true, k2 + 1 as int));
        }
        k2 = k2 + 1;
    }
    r.append("\n}");
    r.append("\n");
    let ray_code = lua_text(ray_name);
    r.append(ray_code.as_str());
    r.append("\n");
    let pairs = lua_addr_pairs(name);
    r.append(pairs.as_str());
    proof {
        assert(r@ =~= spec_dungeons_lua_text(data@, name@));
    }
    r
}

} // verus!
