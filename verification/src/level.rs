use crate::vec2::Vec2;
use vstd::prelude::*;

pub mod pack;
pub mod playable_level;

use pack::PackLevel;

verus! {

// ---------------------------------------------------------------------------
// The grid model: what a level text means, cell by cell.
//
// A level text is a newline-separated grid. Each character classifies its
// cell: `#` wall, `@` player start, `+` player start on a storage location,
// `$` crate start, `*` crate start on a storage location, `.` empty storage
// location, and space, `-` or `_` plain ground. Any other character is a
// parse error at its coordinates.
// ---------------------------------------------------------------------------
/// A line with a final carriage return removed, as `str::lines` strips a
/// `"\r\n"` terminator.
pub open spec fn strip_cr(l: Seq<char>) -> Seq<char> {
    if l.len() > 0 && l.last() == '\r' {
        l.drop_last()
    } else {
        l
    }
}

/// Helper for [`split_lines`]: `cur` is the (newline-free) part of the
/// current line already seen, `rest` the text still to come.
pub open spec fn split_rest(cur: Seq<char>, rest: Seq<char>) -> Seq<Seq<char>>
    decreases rest.len(),
{
    if rest.len() == 0 {
        if cur.len() == 0 {
            Seq::empty()
        } else {
            seq![cur]
        }
    } else if rest[0] == '\n' {
        seq![strip_cr(cur)] + split_rest(Seq::empty(), rest.drop_first())
    } else {
        split_rest(cur.push(rest[0]), rest.drop_first())
    }
}

/// The lines of a text, as `str::lines` yields them: split at `'\n'`, a
/// `'\r'` directly before the `'\n'` stripped, and no empty final line for a
/// trailing newline.
pub open spec fn split_lines(s: Seq<char>) -> Seq<Seq<char>> {
    split_rest(Seq::empty(), s)
}

pub open spec fn is_wall_char(c: char) -> bool {
    c == '#'
}

pub open spec fn is_crate_char(c: char) -> bool {
    c == '$' || c == '*'
}

pub open spec fn is_storage_char(c: char) -> bool {
    c == '.' || c == '*' || c == '+'
}

pub open spec fn is_player_char(c: char) -> bool {
    c == '@' || c == '+'
}

pub open spec fn is_blank_char(c: char) -> bool {
    c == ' ' || c == '-' || c == '_'
}

/// The level alphabet of the grid format.
pub open spec fn is_level_char(c: char) -> bool {
    is_wall_char(c) || is_crate_char(c) || is_storage_char(c) || is_player_char(c)
        || is_blank_char(c)
}

/// Whether a wall stands strictly before column `x` in `row`.
pub open spec fn wall_before(row: Seq<char>, x: int) -> bool {
    exists|j: int| 0 <= j < x && row[j] == '#'
}

/// A cell predicate: given the whole row, the column and the row index,
/// whether the cell belongs to one of the level's component lists.
pub open spec fn wall_cell() -> spec_fn(Seq<char>, int, int) -> bool {
    |row: Seq<char>, x: int, y: int| is_wall_char(row[x])
}

pub open spec fn crate_cell() -> spec_fn(Seq<char>, int, int) -> bool {
    |row: Seq<char>, x: int, y: int| is_crate_char(row[x])
}

pub open spec fn storage_cell() -> spec_fn(Seq<char>, int, int) -> bool {
    |row: Seq<char>, x: int, y: int| is_storage_char(row[x])
}

pub open spec fn player_cell() -> spec_fn(Seq<char>, int, int) -> bool {
    |row: Seq<char>, x: int, y: int| is_player_char(row[x])
}

/// Ground is cosmetic: player and crate starts stand on ground, and a blank
/// cell is ground only when it is not in the first row or column and a wall
/// stands before it in its row (blanks left of the first wall are outside
/// the level).
pub open spec fn ground_cell() -> spec_fn(Seq<char>, int, int) -> bool {
    |row: Seq<char>, x: int, y: int|
        row[x] == '@' || row[x] == '$' || (is_blank_char(row[x]) && y != 0 && x != 0
            && wall_before(row, x))
}

pub open spec fn bad_cell() -> spec_fn(Seq<char>, int, int) -> bool {
    |row: Seq<char>, x: int, y: int| !is_level_char(row[x])
}

/// The positions `(x, y)` of row `y` from column `x` on whose cells satisfy
/// `pred`, in increasing column order.
pub open spec fn row_cells_from(
    row: Seq<char>,
    y: int,
    x: int,
    pred: spec_fn(Seq<char>, int, int) -> bool,
) -> Seq<(int, int)>
    decreases row.len() - x,
{
    if x < 0 || x >= row.len() {
        Seq::empty()
    } else {
        let rest = row_cells_from(row, y, x + 1, pred);
        if pred(row, x, y) {
            seq![(x, y)] + rest
        } else {
            rest
        }
    }
}

/// The positions of all cells satisfying `pred` from row `y` on, in
/// row-major order.
pub open spec fn grid_cells_from(
    grid: Seq<Seq<char>>,
    y: int,
    pred: spec_fn(Seq<char>, int, int) -> bool,
) -> Seq<(int, int)>
    decreases grid.len() - y,
{
    if y < 0 || y >= grid.len() {
        Seq::empty()
    } else {
        row_cells_from(grid[y], y, 0, pred) + grid_cells_from(grid, y + 1, pred)
    }
}

/// The positions of all cells of the grid satisfying `pred`, in row-major
/// order.
pub open spec fn grid_cells(
    grid: Seq<Seq<char>>,
    pred: spec_fn(Seq<char>, int, int) -> bool,
) -> Seq<(int, int)> {
    grid_cells_from(grid, 0, pred)
}

/// The length of the longest row.
pub open spec fn max_row_len(grid: Seq<Seq<char>>) -> int
    decreases grid.len(),
{
    if grid.len() == 0 {
        0
    } else {
        let rest = max_row_len(grid.drop_last());
        if grid.last().len() > rest {
            grid.last().len() as int
        } else {
            rest
        }
    }
}

pub open spec fn player_cells(grid: Seq<Seq<char>>) -> Seq<(int, int)> {
    grid_cells(grid, player_cell())
}

/// Where the player starts: the last player cell in row-major order, or the
/// origin sentinel when the grid has none (`(0, 0)` doubles as "missing
/// player"; the validity check rejects it).
pub open spec fn level_player(grid: Seq<Seq<char>>) -> (int, int) {
    if player_cells(grid).len() == 0 {
        (0, 0)
    } else {
        player_cells(grid).last()
    }
}

/// What parsing a grid yields when every cell is in the level alphabet.
pub open spec fn parse_ok_view(title: Seq<char>, grid: Seq<Seq<char>>) -> LevelView {
    LevelView {
        title,
        walls: grid_cells(grid, wall_cell()),
        crates: grid_cells(grid, crate_cell()),
        storage_locations: grid_cells(grid, storage_cell()),
        grounds: grid_cells(grid, ground_cell()),
        player: level_player(grid),
        width: max_row_len(grid),
        height: grid.len() as int,
    }
}

// ---------------------------------------------------------------------------
// The level type.
// ---------------------------------------------------------------------------
/// Mathematical content of a [`Level`]: positions as integer pairs.
#[verifier::ext_equal]
pub ghost struct LevelView {
    pub title: Seq<char>,
    pub walls: Seq<(int, int)>,
    pub crates: Seq<(int, int)>,
    pub storage_locations: Seq<(int, int)>,
    pub grounds: Seq<(int, int)>,
    pub player: (int, int),
    pub width: int,
    pub height: int,
}

impl LevelView {
    /// A level is playable when a player start was given (the origin is the
    /// "missing player" sentinel), there is at least one crate, and storage
    /// locations and crates match up one to one. Solvability is not checked.
    pub open spec fn is_valid(self) -> bool {
        &&& self.player != (0int, 0int)
        &&& self.crates.len() > 0
        &&& self.storage_locations.len() == self.crates.len()
    }
}

pub open spec fn positions_view(v: Seq<Vec2>) -> Seq<(int, int)> {
    v.map_values(|p: Vec2| p@)
}

/// Whether a wall stands at `p`.
pub open spec fn is_wall_at(lv: LevelView, p: (int, int)) -> bool {
    lv.walls.contains(p)
}

/// Whether `p` is a storage location.
pub open spec fn is_storage_at(lv: LevelView, p: (int, int)) -> bool {
    lv.storage_locations.contains(p)
}

/// Linear scan for a position in a list of positions.
fn scan_positions(v: &Vec<Vec2>, pos: &Vec2) -> (r: bool)
    ensures
        r == positions_view(v@).contains(pos@),
{
    let mut k: usize = 0;
    while k < v.len()
        invariant
            k <= v@.len(),
            forall|j: int| 0 <= j < k as int ==> positions_view(v@)[j] != pos@,
        decreases v@.len() - k,
    {
        if v[k].x == pos.x && v[k].y == pos.y {
            proof {
                assert(positions_view(v@)[k as int] == pos@);
            }
            return true;
        }
        k = k + 1;
    }
    proof {
        assert(forall|j: int| 0 <= j < positions_view(v@).len() ==> positions_view(v@)[j] != pos@);
    }
    false
}

/// Immutable static geometry of one puzzle, created once by parsing.
#[derive(Clone, Debug)]
pub struct Level {
    pub title: String,
    pub walls: Vec<Vec2>,
    pub crates: Vec<Vec2>,
    pub storage_locations: Vec<Vec2>,
    pub grounds: Vec<Vec2>,
    pub player: Vec2,
    pub width: usize,
    pub height: usize,
}

impl View for Level {
    type V = LevelView;

    open spec fn view(&self) -> LevelView {
        LevelView {
            title: self.title@,
            walls: positions_view(self.walls@),
            crates: positions_view(self.crates@),
            storage_locations: positions_view(self.storage_locations@),
            grounds: positions_view(self.grounds@),
            player: self.player@,
            width: self.width as int,
            height: self.height as int,
        }
    }
}

/// Failure to parse a level text.
#[derive(Clone, Copy, Debug, PartialEq, Eq, Structural)]
pub enum ParseError {
    /// A character outside the level alphabet, with its zero-based column
    /// and row and the character itself.
    UnexpectedChar { x: usize, y: usize, c: char },
}

impl Level {
    /// Parses a level from the pack level's grid text.
    ///
    /// On success the level holds exactly the walls, crates, storage
    /// locations and grounds that the grid names, in row-major order, the
    /// last player start seen (or the origin sentinel when there is none),
    /// and the grid's bounding box. A character outside the level alphabet
    /// fails the parse, naming the first such character in row-major order
    /// and its zero-based coordinates. The length bound keeps every
    /// coordinate representable as an `i32`.
    pub fn parse(pack_level: &PackLevel) -> (r: Result<Level, ParseError>)
        requires
            pack_level.data@.len() <= 0x7fff_ffff,
        ensures
            ({
                let grid = split_lines(pack_level.data@);
                let bad = grid_cells(grid, bad_cell());
                match r {
                    Ok(level) => {
                        &&& bad.len() == 0
                        &&& level@ == parse_ok_view(pack_level.title@, grid)
                    },
                    Err(e) => {
                        &&& bad.len() > 0
                        &&& 0 <= bad[0].1 < grid.len()
                        &&& 0 <= bad[0].0 < grid[bad[0].1].len()
                        &&& e == (ParseError::UnexpectedChar {
                            x: bad[0].0 as usize,
                            y: bad[0].1 as usize,
                            c: grid[bad[0].1][bad[0].0],
                        })
                    },
                }
            }),
    {
        let grid = split_lines_exec(pack_level.data.as_str());
        let ghost g = split_lines(pack_level.data@);
        proof {
            lemma_split_rest_bounds(Seq::empty(), pack_level.data@);
        }
        let mut walls: Vec<Vec2> = Vec::new();
        let mut crates: Vec<Vec2> = Vec::new();
        let mut storage_locations: Vec<Vec2> = Vec::new();
        let mut grounds: Vec<Vec2> = Vec::new();
        let mut player = Vec2 { x: 0, y: 0 };
        let ghost mut pdone: Seq<(int, int)> = Seq::empty();
        let mut width: usize = 0;
        let mut y: usize = 0;
        proof {
            assert(g.take(0) =~= Seq::<Seq<char>>::empty());
            assert(positions_view(walls@) =~= Seq::<(int, int)>::empty());
            assert(positions_view(walls@) + grid_cells_from(g, 0, wall_cell()) =~= grid_cells(
                g,
                wall_cell(),
            ));
            assert(positions_view(crates@) + grid_cells_from(g, 0, crate_cell()) =~= grid_cells(
                g,
                crate_cell(),
            ));
            assert(positions_view(storage_locations@) + grid_cells_from(g, 0, storage_cell())
                =~= grid_cells(g, storage_cell()));
            assert(positions_view(grounds@) + grid_cells_from(g, 0, ground_cell()) =~= grid_cells(
                g,
                ground_cell(),
            ));
            assert(pdone + grid_cells_from(g, 0, player_cell()) =~= grid_cells(g, player_cell()));
        }
        while y < grid.len()
            invariant
                y <= grid.len(),
                g == split_lines(pack_level.data@),
                grid.deep_view() == g,
                g.len() <= 0x8000_0000,
                forall|k: int| 0 <= k < g.len() ==> (#[trigger] g[k]).len() <= 0x7fff_ffff,
                width as int == max_row_len(g.take(y as int)),
                width <= 0x7fff_ffff,
                grid_cells(g, wall_cell()) == positions_view(walls@) + grid_cells_from(
                    g,
                    y as int,
                    wall_cell(),
                ),
                grid_cells(g, crate_cell()) == positions_view(crates@) + grid_cells_from(
                    g,
                    y as int,
                    crate_cell(),
                ),
                grid_cells(g, storage_cell()) == positions_view(storage_locations@)
                    + grid_cells_from(g, y as int, storage_cell()),
                grid_cells(g, ground_cell()) == positions_view(grounds@) + grid_cells_from(
                    g,
                    y as int,
                    ground_cell(),
                ),
                grid_cells(g, bad_cell()) == grid_cells_from(g, y as int, bad_cell()),
                grid_cells(g, player_cell()) == pdone + grid_cells_from(g, y as int, player_cell()),
                player@ == (if pdone.len() == 0 {
                    (0int, 0int)
                } else {
                    pdone.last()
                }),
            decreases grid.len() - y,
        {
            let row = &grid[y];
            let row_width = row.len();
            proof {
                assert(row@ =~= g[y as int]);
            }
            if row_width > width {
                width = row_width;
            }
            proof {
                assert(g.take(y as int + 1).drop_last() =~= g.take(y as int));
                assert(g.take(y as int + 1).last() == g[y as int]);
                assert(width as int == max_row_len(g.take(y as int + 1)));
            }
            let mut found_first_wall = false;
            let mut x: usize = 0;
            while x < row_width
                invariant
                    x <= row_width,
                    g == split_lines(pack_level.data@),
                    y < g.len(),
                    row_width == row@.len(),
                    row@ == g[y as int],
                    g.len() <= 0x8000_0000,
                    row_width <= 0x7fff_ffff,
                    grid_cells(g, wall_cell()) == positions_view(walls@) + row_cells_from(
                        g[y as int],
                        y as int,
                        x as int,
                        wall_cell(),
                    ) + grid_cells_from(g, y as int + 1, wall_cell()),
                    grid_cells(g, crate_cell()) == positions_view(crates@) + row_cells_from(
                        g[y as int],
                        y as int,
                        x as int,
                        crate_cell(),
                    ) + grid_cells_from(g, y as int + 1, crate_cell()),
                    grid_cells(g, storage_cell()) == positions_view(storage_locations@)
                        + row_cells_from(g[y as int], y as int, x as int, storage_cell())
                        + grid_cells_from(g, y as int + 1, storage_cell()),
                    grid_cells(g, ground_cell()) == positions_view(grounds@) + row_cells_from(
                        g[y as int],
                        y as int,
                        x as int,
                        ground_cell(),
                    ) + grid_cells_from(g, y as int + 1, ground_cell()),
                    grid_cells(g, bad_cell()) == row_cells_from(
                        g[y as int],
                        y as int,
                        x as int,
                        bad_cell(),
                    ) + grid_cells_from(g, y as int + 1, bad_cell()),
                    grid_cells(g, player_cell()) == pdone + row_cells_from(
                        g[y as int],
                        y as int,
                        x as int,
                        player_cell(),
                    ) + grid_cells_from(g, y as int + 1, player_cell()),
                    player@ == (if pdone.len() == 0 {
                        (0int, 0int)
                    } else {
                        pdone.last()
                    }),
                    found_first_wall == wall_before(g[y as int], x as int),
                decreases row_width - x,
            {
                let c = row[x];
                let pos = Vec2 { x: x as i32, y: y as i32 };
                proof {
                    assert(pos@ == (x as int, y as int));
                    assert(g[y as int][x as int] == c);
                }
                let ghost walls_before = walls@;
                let ghost crates_before = crates@;
                let ghost storage_before = storage_locations@;
                let ghost grounds_before = grounds@;
                let ghost pdone_before = pdone;
                if c == '#' {
                    walls.push(pos);
                    found_first_wall = true;
                    proof {
                        assert(wall_before(g[y as int], x as int + 1));
                    }
                } else if c == '@' {
                    player = pos;
                    grounds.push(pos);
                    proof {
                        pdone = pdone.push((x as int, y as int));
                    }
                } else if c == '+' {
                    storage_locations.push(pos);
                    player = pos;
                    proof {
                        pdone = pdone.push((x as int, y as int));
                    }
                } else if c == '$' {
                    crates.push(pos);
                    grounds.push(pos);
                } else if c == '*' {
                    storage_locations.push(pos);
                    crates.push(pos);
                } else if c == '.' {
                    storage_locations.push(pos);
                } else if c == ' ' || c == '-' || c == '_' {
                    if found_first_wall && y != 0 && x != 0 {
                        grounds.push(pos);
                    }
                } else {
                    proof {
                        let xi = x as int;
                        let yi = y as int;
                        let bad = grid_cells(g, bad_cell());
                        assert(!is_level_char(c));
                        assert(bad_cell()(g[yi], xi, yi));
                        assert(row_cells_from(g[yi], yi, xi, bad_cell()) == seq![(xi, yi)]
                            + row_cells_from(g[yi], yi, xi + 1, bad_cell()));
                        assert(row_cells_from(g[yi], yi, xi, bad_cell())[0] == (xi, yi));
                        assert(bad[0] == (xi, yi));
                        assert(bad.len() > 0);
                        assert(0 <= bad[0].1 < g.len());
                        assert(0 <= bad[0].0 < g[bad[0].1].len());
                        assert(g[bad[0].1][bad[0].0] == c);
                        assert(bad[0].0 as usize == x);
                        assert(bad[0].1 as usize == y);
                    }
                    return Err(ParseError::UnexpectedChar { x, y, c });
                }
                proof {
                    if c != '#' {
                        if wall_before(g[y as int], x as int) {
                            assert(wall_before(g[y as int], x as int + 1));
                        } else {
                            assert forall|j: int| 0 <= j < x as int + 1 implies g[y as int][j]
                                != '#' by {
                                if j < x as int && g[y as int][j] == '#' {
                                    assert(wall_before(g[y as int], x as int));
                                }
                            }
                        }
                    }
                    let xi = x as int;
                    let yi = y as int;
                    let rowg = g[yi];
                    assert(positions_view(walls@) + row_cells_from(rowg, yi, xi + 1, wall_cell())
                        =~= walls_before.map_values(|p: Vec2| p@) + row_cells_from(
                        rowg,
                        yi,
                        xi,
                        wall_cell(),
                    ));
                    assert(positions_view(crates@) + row_cells_from(rowg, yi, xi + 1, crate_cell())
                        =~= crates_before.map_values(|p: Vec2| p@) + row_cells_from(
                        rowg,
                        yi,
                        xi,
                        crate_cell(),
                    ));
                    assert(positions_view(storage_locations@) + row_cells_from(
                        rowg,
                        yi,
                        xi + 1,
                        storage_cell(),
                    ) =~= storage_before.map_values(|p: Vec2| p@) + row_cells_from(
                        rowg,
                        yi,
                        xi,
                        storage_cell(),
                    ));
                    assert(positions_view(grounds@) + row_cells_from(rowg, yi, xi + 1, ground_cell())
                        =~= grounds_before.map_values(|p: Vec2| p@) + row_cells_from(
                        rowg,
                        yi,
                        xi,
                        ground_cell(),
                    ));
                    assert(pdone + row_cells_from(rowg, yi, xi + 1, player_cell()) =~= pdone_before
                        + row_cells_from(rowg, yi, xi, player_cell()));
                }
                x = x + 1;
            }
            proof {
                let yi = y as int;
                assert(row_cells_from(g[yi], yi, row_width as int, wall_cell()) =~= Seq::<(
                    int,
                    int,
                )>::empty());
                assert(positions_view(walls@) + row_cells_from(
                    g[yi],
                    yi,
                    row_width as int,
                    wall_cell(),
                ) + grid_cells_from(g, yi + 1, wall_cell()) =~= positions_view(walls@)
                    + grid_cells_from(g, yi + 1, wall_cell()));
                assert(positions_view(crates@) + row_cells_from(
                    g[yi],
                    yi,
                    row_width as int,
                    crate_cell(),
                ) + grid_cells_from(g, yi + 1, crate_cell()) =~= positions_view(crates@)
                    + grid_cells_from(g, yi + 1, crate_cell()));
                assert(positions_view(storage_locations@) + row_cells_from(
                    g[yi],
                    yi,
                    row_width as int,
                    storage_cell(),
                ) + grid_cells_from(g, yi + 1, storage_cell()) =~= positions_view(
                    storage_locations@,
                ) + grid_cells_from(g, yi + 1, storage_cell()));
                assert(positions_view(grounds@) + row_cells_from(
                    g[yi],
                    yi,
                    row_width as int,
                    ground_cell(),
                ) + grid_cells_from(g, yi + 1, ground_cell()) =~= positions_view(grounds@)
                    + grid_cells_from(g, yi + 1, ground_cell()));
                assert(row_cells_from(g[yi], yi, row_width as int, bad_cell()) + grid_cells_from(
                    g,
                    yi + 1,
                    bad_cell(),
                ) =~= grid_cells_from(g, yi + 1, bad_cell()));
                assert(pdone + row_cells_from(g[yi], yi, row_width as int, player_cell())
                    + grid_cells_from(g, yi + 1, player_cell()) =~= pdone + grid_cells_from(
                    g,
                    yi + 1,
                    player_cell(),
                ));
            }
            y = y + 1;
        }
        let height = grid.len();
        proof {
            assert(g.take(g.len() as int) =~= g);
            assert(grid_cells_from(g, g.len() as int, wall_cell()) =~= Seq::<(int, int)>::empty());
            assert(positions_view(walls@) =~= positions_view(walls@) + grid_cells_from(
                g,
                g.len() as int,
                wall_cell(),
            ));
            assert(positions_view(crates@) =~= positions_view(crates@) + grid_cells_from(
                g,
                g.len() as int,
                crate_cell(),
            ));
            assert(positions_view(storage_locations@) =~= positions_view(storage_locations@)
                + grid_cells_from(g, g.len() as int, storage_cell()));
            assert(positions_view(grounds@) =~= positions_view(grounds@) + grid_cells_from(
                g,
                g.len() as int,
                ground_cell(),
            ));
            assert(pdone =~= pdone + grid_cells_from(g, g.len() as int, player_cell()));
            assert(grid_cells(g, bad_cell()).len() == 0);
        }
        let level = Level {
            title: pack_level.title.clone(),
            walls,
            crates,
            storage_locations,
            grounds,
            player,
            width,
            height,
        };
        proof {
            assert(level@ =~= parse_ok_view(pack_level.title@, g));
        }
        Ok(level)
    }

    /// Whether a wall stands at `pos`.
    pub fn has_wall(&self, pos: &Vec2) -> (r: bool)
        ensures
            r == is_wall_at(self@, pos@),
    {
        scan_positions(&self.walls, pos)
    }

    /// Whether `pos` is a storage location.
    pub fn has_storage(&self, pos: &Vec2) -> (r: bool)
        ensures
            r == is_storage_at(self@, pos@),
    {
        scan_positions(&self.storage_locations, pos)
    }

    /// Whether the level data meets all of the criteria to be considered a
    /// valid Sokoban level: a player start, at least one crate, and a
    /// storage location for each crate. Does not factor in whether the
    /// level can be completed.
    pub fn is_valid(&self) -> (r: bool)
        ensures
            r == self@.is_valid(),
    {
        !self.player.is_zero() && self.crates.len() > 0 && self.storage_locations.len()
            == self.crates.len()
    }
}

// ---------------------------------------------------------------------------
// Executable line splitting.
// ---------------------------------------------------------------------------
/// Every line of `split_rest(cur, rest)` is at most `cur + rest` long, and
/// there are at most one more line than characters in `rest`.
proof fn lemma_split_rest_bounds(cur: Seq<char>, rest: Seq<char>)
    ensures
        split_rest(cur, rest).len() <= 1 + rest.len(),
        forall|k: int|
            0 <= k < split_rest(cur, rest).len() ==> (#[trigger] split_rest(cur, rest)[k]).len()
                <= cur.len() + rest.len(),
    decreases rest.len(),
{
    if rest.len() == 0 {
    } else if rest[0] == '\n' {
        lemma_split_rest_bounds(Seq::empty(), rest.drop_first());
    } else {
        lemma_split_rest_bounds(cur.push(rest[0]), rest.drop_first());
    }
}

use vstd::string::StrSliceExecFns;

/// The lines of `data`, each as a vector of characters.
fn split_lines_exec(data: &str) -> (grid: Vec<Vec<char>>)
    ensures
        grid.deep_view() == split_lines(data@),
{
    let len: usize = data.unicode_len();
    let mut grid: Vec<Vec<char>> = Vec::new();
    let mut cur: Vec<char> = Vec::new();
    let mut i: usize = 0;
    proof {
        assert(data@.skip(0) =~= data@);
        assert(grid.deep_view() =~= Seq::<Seq<char>>::empty());
        assert(grid.deep_view() + split_rest(cur@, data@.skip(0)) =~= split_lines(data@));
    }
    while i < len
        invariant
            i <= len,
            len == data@.len(),
            split_lines(data@) == grid.deep_view() + split_rest(cur@, data@.skip(i as int)),
        decreases len - i,
    {
        let c = data.get_char(i);
        proof {
            assert(data@.skip(i as int)[0] == data@[i as int]);
            assert(data@.skip(i as int).drop_first() =~= data@.skip(i as int + 1));
        }
        if c == '\n' {
            let ghost prev_cur = cur@;
            if cur.len() > 0 && cur[cur.len() - 1] == '\r' {
                cur.pop();
            }
            proof {
                assert(cur@ =~= strip_cr(prev_cur));
            }
            let ghost prev_grid = grid.deep_view();
            grid.push(cur);
            cur = Vec::new();
            proof {
                assert(grid.deep_view() =~~= prev_grid.push(strip_cr(prev_cur)));
                assert(grid.deep_view() + split_rest(cur@, data@.skip(i as int + 1)) =~= prev_grid
                    + (seq![strip_cr(prev_cur)] + split_rest(
                    Seq::empty(),
                    data@.skip(i as int).drop_first(),
                )));
            }
        } else {
            cur.push(c);
        }
        i = i + 1;
    }
    proof {
        assert(data@.skip(len as int) =~= Seq::<char>::empty());
    }
    if cur.len() > 0 {
        let ghost prev_grid = grid.deep_view();
        let ghost last_cur = cur@;
        grid.push(cur);
        proof {
            assert(grid.deep_view() =~~= prev_grid.push(last_cur));
            assert(grid.deep_view() =~= prev_grid + seq![last_cur]);
        }
    } else {
        proof {
            assert(grid.deep_view() + split_rest(cur@, Seq::<char>::empty()) =~= grid.deep_view());
        }
    }
    grid
}

} // verus!
