//! Levels as text: one line per row of the grid, one glyph per cell.
//!
//! `W` is a wall, `*` sand, `F` a falling ghost, `G` a still ghost, `R` a
//! rock, `=` a stair, a blank an empty cell, and `@` a hero on an empty cell.

use vstd::prelude::*;
use crate::block::{Block, block_of, glyph_of, ghostly};
use crate::direction::{Pos, pos_of};
use crate::error::ParseError;
use crate::stage::{
    Grid, Point, Stage, HEIGHT, WIDTH, grid_block_at, grid_ghosts, grid_shaped, inside,
    row_ghosts, rows_ghosts,
};
use crate::state::{State, StateView};

verus! {

/// `String::push` appends the character to the end of the string.
pub assume_specification[ String::push ](s: &mut String, c: char)
    ensures
        final(s)@ == old(s)@.push(c),
;

/// What is wrong with the glyph `c` at the given line and column, if
/// anything: it stands for no block, or it lies beyond the grid.
pub open spec fn glyph_error(c: char, line: int, column: int) -> Option<ParseError> {
    if block_of(c) is None {
        Some(ParseError::UnknownGlyph(c))
    } else if !inside((column, line)) {
        Some(ParseError::OutsideGrid(line as usize, column as usize))
    } else {
        None
    }
}

/// The first error among the first `n` glyphs of a row.
pub open spec fn row_error(row: Seq<char>, line: int, n: int) -> Option<ParseError>
    decreases n,
{
    if n <= 0 {
        None
    } else {
        match row_error(row, line, n - 1) {
            Some(e) => Some(e),
            None => glyph_error(row[n - 1], line, n - 1),
        }
    }
}

/// The first error in the first `n` rows, read row by row.
pub open spec fn rows_error(rows: Seq<Seq<char>>, n: int) -> Option<ParseError>
    decreases n,
{
    if n <= 0 {
        None
    } else {
        match rows_error(rows, n - 1) {
            Some(e) => Some(e),
            None => row_error(rows[n - 1], n - 1, rows[n - 1].len() as int),
        }
    }
}

/// What a level's text puts into the cell at `p`: the block that the glyph
/// there stands for, an empty cell where a hero is drawn, and a wall where
/// the text has no glyph.
pub open spec fn parsed_cell(rows: Seq<Seq<char>>, p: Pos) -> Block {
    if 0 <= p.1 < rows.len() && 0 <= p.0 < rows[p.1].len() {
        match block_of(rows[p.1][p.0]) {
            Some(Block::Hero) => Block::Empty,
            Some(b) => b,
            None => Block::Wall,
        }
    } else {
        Block::Wall
    }
}

/// The grid that a level's text describes.
pub open spec fn parsed_grid(rows: Seq<Seq<char>>) -> Grid {
    Seq::new(HEIGHT as nat, |y: int| Seq::new(WIDTH as nat, |x: int| parsed_cell(rows, (x, y))))
}

/// Where heroes are drawn among the first `n` glyphs of a row, from the left.
pub open spec fn row_heroes(row: Seq<char>, line: int, n: int) -> Seq<Pos>
    decreases n,
{
    if n <= 0 {
        Seq::empty()
    } else if row[n - 1] == '@' {
        row_heroes(row, line, n - 1).push((n - 1, line))
    } else {
        row_heroes(row, line, n - 1)
    }
}

/// Where heroes are drawn in the first `n` rows, row by row.
pub open spec fn rows_heroes(rows: Seq<Seq<char>>, n: int) -> Seq<Pos>
    decreases n,
{
    if n <= 0 {
        Seq::empty()
    } else {
        rows_heroes(rows, n - 1) + row_heroes(rows[n - 1], n - 1, rows[n - 1].len() as int)
    }
}

/// What reading a level's text gives: the first error in reading order, or
/// the state with the grid that the text describes, the heroes in the order
/// in which they are drawn, and the ghosts counted.
pub open spec fn parse(rows: Seq<Seq<char>>) -> Result<StateView, ParseError> {
    match rows_error(rows, rows.len() as int) {
        Some(e) => Err(e),
        None => Ok(
            StateView {
                grid: parsed_grid(rows),
                heroes: rows_heroes(rows, rows.len() as int),
                ghosts: grid_ghosts(parsed_grid(rows)),
            },
        ),
    }
}

/// The rows of a level as sequences of characters.
pub open spec fn texts(lines: Seq<&str>) -> Seq<Seq<char>> {
    lines.map_values(|l: &str| l@)
}

/// The glyph that a state shows at `p`: `@` wherever a hero stands, and the
/// glyph of the grid's content elsewhere.
pub open spec fn shown_glyph(s: StateView, p: Pos) -> char {
    if s.heroes.contains(p) {
        '@'
    } else {
        glyph_of(s.block_at(p))
    }
}

/// Row `y` of a state as text.
pub open spec fn shown_row(s: StateView, y: int) -> Seq<char> {
    Seq::new(WIDTH as nat, |x: int| shown_glyph(s, (x, y)))
}

/// The rows of a state as text, top row first.
pub open spec fn shown_rows(s: StateView) -> Seq<Seq<char>> {
    Seq::new(HEIGHT as nat, |y: int| shown_row(s, y))
}

/// The first `n` rows of a state, each closed by a line feed.
pub open spec fn shown_lines(s: StateView, n: int) -> Seq<char>
    decreases n,
{
    if n <= 0 {
        Seq::empty()
    } else {
        shown_lines(s, n - 1) + shown_row(s, n - 1).push('\n')
    }
}

/// A state as text: its rows, each closed by a line feed, and two empty
/// lines after them.
pub open spec fn shown_text(s: StateView) -> Seq<char> {
    shown_lines(s, HEIGHT as int).push('\n').push('\n')
}

/// `p` comes before column `column` of line `line` in reading order.
pub open spec fn read_before(p: Pos, line: int, column: int) -> bool {
    p.1 < line || (p.1 == line && p.0 < column)
}

impl State {
    /// Reads a level. The text is read line by line and glyph by glyph; the
    /// first glyph that stands for no block, or that lies beyond the grid,
    /// is reported. Cells for which the text has no glyph are walls.
    pub fn from_lines(lines: Vec<&str>) -> (r: Result<State, ParseError>)
        ensures
            match r {
                Ok(state) => state.wf() && parse(texts(lines@)) == Ok::<StateView, ParseError>(
                    state@,
                ),
                Err(e) => parse(texts(lines@)) == Err::<StateView, ParseError>(e),
            },
    {
        let ghost rows = texts(lines@);
        let mut stage = Stage::new();
        let mut heroes: Vec<Point> = Vec::new();
        let mut line: usize = 0;
        assert forall|x: int, y: int| 0 <= x < WIDTH && 0 <= y < HEIGHT implies #[trigger] stage@[y][x]
            == Block::Wall by {
            assert(grid_block_at(stage@, (x, y)) == Block::Wall);
        }
        while line < lines.len()
            invariant
                0 <= line <= lines.len(),
                rows == texts(lines@),
                stage.wf(),
                rows_error(rows, line as int) is None,
                heroes@.map_values(|p: Point| pos_of(p)) == rows_heroes(rows, line as int),
                forall|i: int|
                    0 <= i < heroes.len() ==> {
                        let p = pos_of(#[trigger] heroes[i]);
                        inside(p) && read_before(p, line as int, 0) && stage@[p.1][p.0] is Empty
                    },
                forall|x: int, y: int|
                    0 <= x < WIDTH && 0 <= y < HEIGHT ==> #[trigger] stage@[y][x] == if read_before(
                        (x, y),
                        line as int,
                        0,
                    ) {
                        parsed_cell(rows, (x, y))
                    } else {
                        Block::Wall
                    },
            decreases lines.len() - line,
        {
            let text: &str = lines[line];
            let ghost row = text@;
            assert(rows[line as int] == row);
            let length = text.unicode_len();
            let mut column: usize = 0;
            while column < length
                invariant
                    0 <= line < lines.len(),
                    0 <= column <= length,
                    length == row.len(),
                    row == text@,
                    rows == texts(lines@),
                    rows[line as int] == row,
                    stage.wf(),
                    rows_error(rows, line as int) is None,
                    row_error(row, line as int, column as int) is None,
                    heroes@.map_values(|p: Point| pos_of(p)) == rows_heroes(rows, line as int)
                        + row_heroes(row, line as int, column as int),
                    forall|i: int|
                        0 <= i < heroes.len() ==> {
                            let p = pos_of(#[trigger] heroes[i]);
                            inside(p) && read_before(p, line as int, column as int)
                                && stage@[p.1][p.0] is Empty
                        },
                    forall|x: int, y: int|
                        0 <= x < WIDTH && 0 <= y < HEIGHT ==> #[trigger] stage@[y][x]
                            == if read_before((x, y), line as int, column as int) {
                            parsed_cell(rows, (x, y))
                        } else {
                            Block::Wall
                        },
                decreases length - column,
            {
                let c = text.get_char(column);
                let block = match Block::from_char(c) {
                    Ok(block) => block,
                    Err(e) => {
                        proof {
                            lemma_rows_error_found(rows, line as int, column as int, lines.len() as int);
                        }
                        return Err(e);
                    },
                };
                if line >= HEIGHT || column >= WIDTH {
                    proof {
                        lemma_rows_error_found(rows, line as int, column as int, lines.len() as int);
                    }
                    return Err(ParseError::OutsideGrid(line, column));
                }
                let point: Point = (column as i32, line as i32);
                let ghost before = stage@;
                let ghost heroes_before = heroes@;
                match block {
                    Block::Hero => {
                        heroes.push(point);
                        let _ = stage.set_block_at(&point, Block::Empty);
                        assert(heroes@.map_values(|p: Point| pos_of(p)) =~= heroes_before.map_values(
                            |p: Point| pos_of(p),
                        ).push(pos_of(point)));
                    },
                    _ => {
                        let _ = stage.set_block_at(&point, block);
                    },
                }
                assert(rows_heroes(rows, line as int) + row_heroes(row, line as int, column + 1)
                    =~= heroes@.map_values(|p: Point| pos_of(p)));
                column += 1;
            }
            assert(heroes@.map_values(|p: Point| pos_of(p)) =~= rows_heroes(rows, line + 1));
            line += 1;
        }
        assert(stage@ =~~= parsed_grid(rows));
        let state = State::new(heroes, stage);
        Ok(state)
    }

    /// The state as text: each row of the grid as a line, heroes drawn as
    /// `@`, and two empty lines at the end.
    pub fn dump(&self) -> (r: String)
        ensures
            r@ == shown_text(self@),
    {
        let mut out = String::new();
        let mut line: usize = 0;
        while line < HEIGHT
            invariant
                0 <= line <= HEIGHT,
                out@ == shown_lines(self@, line as int),
            decreases HEIGHT - line,
        {
            let ghost start = out@;
            let mut column: usize = 0;
            while column < WIDTH
                invariant
                    0 <= line < HEIGHT,
                    0 <= column <= WIDTH,
                    out@ == start + shown_row(self@, line as int).subrange(0, column as int),
                decreases WIDTH - column,
            {
                let point: Point = (column as i32, line as i32);
                let block = self.block_at(&point);
                let is_hero = self.hero_index_at(&point).is_some();
                let c = if !is_hero {
                    block.to_char()
                } else {
                    '@'
                };
                let ghost so_far = out@;
                out.push(c);
                assert(out@ =~= start + shown_row(self@, line as int).subrange(0, column + 1));
                column += 1;
            }
            out.push('\n');
            assert(out@ =~= shown_lines(self@, line + 1)) by {
                assert(shown_row(self@, line as int).subrange(0, WIDTH as int) =~= shown_row(
                    self@,
                    line as int,
                ));
            }
            line += 1;
        }
        out.push('\n');
        out.push('\n');
        out
    }
}

/// Once a glyph is in error and nothing before it in reading order is, that
/// error is what reading the whole text reports.
proof fn lemma_rows_error_found(rows: Seq<Seq<char>>, line: int, column: int, n: int)
    requires
        0 <= line < n <= rows.len(),
        0 <= column < rows[line].len(),
        rows_error(rows, line) is None,
        row_error(rows[line], line, column) is None,
        glyph_error(rows[line][column], line, column) is Some,
    ensures
        rows_error(rows, n) == glyph_error(rows[line][column], line, column),
    decreases n,
{
    if n == line + 1 {
        lemma_row_error_found(rows[line], line, column, rows[line].len() as int);
    } else {
        lemma_rows_error_found(rows, line, column, n - 1);
    }
}

proof fn lemma_row_error_found(row: Seq<char>, line: int, column: int, n: int)
    requires
        0 <= column < n <= row.len(),
        row_error(row, line, column) is None,
        glyph_error(row[column], line, column) is Some,
    ensures
        row_error(row, line, n) == glyph_error(row[column], line, column),
    decreases n,
{
    if n > column + 1 {
        lemma_row_error_found(row, line, column, n - 1);
    }
}

/// What reading gives back for the grid of a drawn state: the state's own
/// grid, but for the cells on which a hero stands, which come back empty.
/// A hero is drawn the same on a stair as on air.
pub open spec fn drawn_grid(s: StateView) -> Grid {
    Seq::new(
        HEIGHT as nat,
        |y: int|
            Seq::new(
                WIDTH as nat,
                |x: int|
                    if s.heroes.contains((x, y)) {
                        Block::Empty
                    } else {
                        s.grid[y][x]
                    },
            ),
    )
}

/// Every hero of the state stands on air, none on a stair.
pub open spec fn heroes_on_air(s: StateView) -> bool {
    forall|i: int| 0 <= i < s.heroes.len() ==> grid_block_at(s.grid, #[trigger] s.heroes[i]) is Empty
}

proof fn lemma_shown_row_reads(s: StateView, y: int, n: int)
    requires
        s.wf(),
        0 <= y < HEIGHT,
        0 <= n <= WIDTH,
    ensures
        row_error(shown_row(s, y), y, n) is None,
    decreases n,
{
    if n > 0 {
        lemma_shown_row_reads(s, y, n - 1);
    }
}

proof fn lemma_shown_rows_read(s: StateView, n: int)
    requires
        s.wf(),
        0 <= n <= HEIGHT,
    ensures
        rows_error(shown_rows(s), n) is None,
    decreases n,
{
    if n > 0 {
        lemma_shown_rows_read(s, n - 1);
        lemma_shown_row_reads(s, n - 1, WIDTH as int);
    }
}

/// A position is among the heroes read from the first `n` glyphs of a row
/// exactly if it lies in that row among these glyphs and a hero is drawn
/// there.
proof fn lemma_row_heroes_contains(row: Seq<char>, line: int, n: int, p: Pos)
    requires
        0 <= n <= row.len(),
    ensures
        row_heroes(row, line, n).contains(p) <==> p.1 == line && 0 <= p.0 < n && row[p.0] == '@',
    decreases n,
{
    if n > 0 {
        lemma_row_heroes_contains(row, line, n - 1, p);
        let before = row_heroes(row, line, n - 1);
        if row[n - 1] == '@' {
            let all = before.push((n - 1, line));
            if all.contains(p) {
                let i = choose|i: int| 0 <= i < all.len() && all[i] == p;
                if i < before.len() {
                    assert(before[i] == p);
                }
            }
            if before.contains(p) {
                let i = choose|i: int| 0 <= i < before.len() && before[i] == p;
                assert(all[i] == p);
            }
            assert(all[before.len() as int] == (n - 1, line));
        }
    }
}

/// A position is among the heroes read from the first `n` rows exactly if
/// it lies in one of them and a hero is drawn there.
proof fn lemma_rows_heroes_contains(rows: Seq<Seq<char>>, n: int, p: Pos)
    requires
        0 <= n <= rows.len(),
    ensures
        rows_heroes(rows, n).contains(p) <==> 0 <= p.1 < n && 0 <= p.0 < rows[p.1].len()
            && rows[p.1][p.0] == '@',
    decreases n,
{
    if n > 0 {
        lemma_rows_heroes_contains(rows, n - 1, p);
        let row = rows[n - 1];
        lemma_row_heroes_contains(row, n - 1, row.len() as int, p);
        let before = rows_heroes(rows, n - 1);
        let here = row_heroes(row, n - 1, row.len() as int);
        let all = before + here;
        if all.contains(p) {
            let i = choose|i: int| 0 <= i < all.len() && all[i] == p;
            if i < before.len() {
                assert(before[i] == p);
            } else {
                assert(here[i - before.len()] == p);
            }
        }
        if before.contains(p) {
            let i = choose|i: int| 0 <= i < before.len() && before[i] == p;
            assert(all[i] == p);
        }
        if here.contains(p) {
            let i = choose|i: int| 0 <= i < here.len() && here[i] == p;
            assert(all[before.len() + i] == p);
        }
    }
}

proof fn lemma_row_ghosts_alike(a: Seq<Block>, b: Seq<Block>, n: int)
    requires
        0 <= n <= a.len(),
        n <= b.len(),
        forall|x: int| 0 <= x < n ==> ghostly(a[x]) == ghostly(b[x]),
    ensures
        row_ghosts(a, n) == row_ghosts(b, n),
    decreases n,
{
    if n > 0 {
        lemma_row_ghosts_alike(a, b, n - 1);
    }
}

proof fn lemma_rows_ghosts_alike(g: Grid, h: Grid, n: int)
    requires
        grid_shaped(g),
        grid_shaped(h),
        0 <= n <= HEIGHT,
        forall|x: int, y: int|
            0 <= x < WIDTH && 0 <= y < HEIGHT ==> ghostly(g[y][x]) == ghostly(h[y][x]),
    ensures
        rows_ghosts(g, n) == rows_ghosts(h, n),
    decreases n,
{
    if n > 0 {
        lemma_rows_ghosts_alike(g, h, n - 1);
        lemma_row_ghosts_alike(g[n - 1], h[n - 1], WIDTH as int);
    }
}

/// Drawing a state and reading the drawing succeeds, and gives a valid state
/// with the same hazard counter and heroes at the same positions. Its grid
/// is the drawn state's grid with the cells under the heroes empty; so where
/// every hero stands on air, it is the same grid.
pub proof fn lemma_round_trip(s: StateView)
    requires
        s.wf(),
    ensures
        parse(shown_rows(s)) is Ok,
        ({
            let t = parse(shown_rows(s))->Ok_0;
            &&& t.wf()
            &&& t.grid == drawn_grid(s)
            &&& heroes_on_air(s) ==> t.grid == s.grid
            &&& forall|p: Pos| t.heroes.contains(p) <==> s.heroes.contains(p)
            &&& t.ghosts == s.ghosts
        }),
{
    let rows = shown_rows(s);
    lemma_shown_rows_read(s, HEIGHT as int);
    let t = parse(rows)->Ok_0;
    assert forall|x: int, y: int| 0 <= x < WIDTH && 0 <= y < HEIGHT implies parsed_cell(
        rows,
        (x, y),
    ) == #[trigger] drawn_grid(s)[y][x] by {
        assert(rows[y][x] == shown_glyph(s, (x, y)));
        if !s.heroes.contains((x, y)) {
            assert(!(s.grid[y][x] is Hero));
        }
    }
    assert(t.grid =~~= drawn_grid(s));
    assert forall|p: Pos| t.heroes.contains(p) <==> s.heroes.contains(p) by {
        lemma_rows_heroes_contains(rows, HEIGHT as int, p);
        if s.heroes.contains(p) {
            let i = choose|i: int| 0 <= i < s.heroes.len() && s.heroes[i] == p;
            assert(s.standable(s.heroes[i]));
        }
        if inside(p) {
            assert(rows[p.1][p.0] == shown_glyph(s, p));
            assert(!(s.grid[p.1][p.0] is Hero));
        }
    }
    assert forall|x: int, y: int| 0 <= x < WIDTH && 0 <= y < HEIGHT implies ghostly(t.grid[y][x])
        == ghostly(s.grid[y][x]) by {
        if s.heroes.contains((x, y)) {
            let i = choose|i: int| 0 <= i < s.heroes.len() && s.heroes[i] == (x, y);
            assert(s.standable(s.heroes[i]));
        }
    }
    lemma_rows_ghosts_alike(t.grid, s.grid, HEIGHT as int);
    assert forall|i: int| 0 <= i < t.heroes.len() implies t.standable(#[trigger] t.heroes[i]) by {
        let p = t.heroes[i];
        assert(t.heroes.contains(p));
        assert(s.heroes.contains(p));
        let k = choose|k: int| 0 <= k < s.heroes.len() && s.heroes[k] == p;
        assert(s.standable(s.heroes[k]));
    }
    assert forall|x: int, y: int| 0 <= x < WIDTH && 0 <= y < HEIGHT implies !(
    #[trigger] t.grid[y][x] is Hero) by {
        assert(!(s.grid[y][x] is Hero));
    }
    if heroes_on_air(s) {
        assert forall|x: int, y: int| 0 <= x < WIDTH && 0 <= y < HEIGHT implies #[trigger] t.grid[y][x]
            == s.grid[y][x] by {
            if s.heroes.contains((x, y)) {
                let i = choose|i: int| 0 <= i < s.heroes.len() && s.heroes[i] == (x, y);
                assert(grid_block_at(s.grid, s.heroes[i]) is Empty);
            }
        }
        assert(t.grid =~~= s.grid);
    }
}

} // verus!
