//! Boards as text: `A` is an amazon, `T` a tree, `.` a cell left empty, and
//! `x` the cell to fill next.

use vstd::prelude::*;
use vstd::string::StringExecFns;
use crate::amazonas::board::{Board, BoardView, cell_of_option};
use crate::amazonas::threat::{Cell, Coordinates, Number};

verus! {

/// Why a board's text cannot be read.
#[derive(Clone, Copy, Debug, PartialEq, Eq, Structural)]
pub enum BoardError {
    /// The text has more lines than a board can have rows.
    TooManyLines,
    /// The text fills more cells than the board has.
    TooManyCells,
}

/// How far the reading of a board's text has come.
pub enum Reading {
    /// The board so far; more cells may follow.
    Open(BoardView),
    /// The board as it stood when the mark of the next cell was read:
    /// nothing after the mark counts.
    Closed(BoardView),
    /// A glyph filled a cell, but every cell was filled.
    Failed,
}

/// Whether the glyph fills a cell.
pub open spec fn fills(c: char) -> bool {
    c == 'T' || c == 'A' || c == '.'
}

/// The board after a glyph that fills its next cell.
pub open spec fn filled(b: BoardView, c: char) -> BoardView {
    if c == 'T' {
        b.with_tree()
    } else if c == 'A' {
        b.with_amazon()
    } else {
        b.with_empty()
    }
}

/// The reading after one more glyph: `T`, `A` and `.` fill the next cell,
/// `x` ends the reading, and every other glyph is passed over.
pub open spec fn read_glyph(r: Reading, c: char) -> Reading {
    match r {
        Reading::Open(b) => if c == 'x' {
            Reading::Closed(b)
        } else if fills(c) {
            if b.next is None {
                Reading::Failed
            } else {
                Reading::Open(filled(b, c))
            }
        } else {
            r
        },
        _ => r,
    }
}

/// The reading after the first `n` glyphs of a row.
pub open spec fn read_row(r: Reading, row: Seq<char>, n: int) -> Reading
    decreases n,
{
    if n <= 0 {
        r
    } else {
        read_glyph(read_row(r, row, n - 1), row[n - 1])
    }
}

/// The reading after the first `n` rows.
pub open spec fn read_rows(r: Reading, rows: Seq<Seq<char>>, n: int) -> Reading
    decreases n,
{
    if n <= 0 {
        r
    } else {
        read_row(read_rows(r, rows, n - 1), rows[n - 1], rows[n - 1].len() as int)
    }
}

/// The board that a text describes: as many rows as the text has lines, and
/// the cells filled in reading order by the glyphs up to the first `x`.
pub open spec fn parse_board(rows: Seq<Seq<char>>) -> Result<BoardView, BoardError> {
    if rows.len() > i32::MAX {
        Err(BoardError::TooManyLines)
    } else {
        match read_rows(Reading::Open(BoardView::empty(rows.len() as int)), rows, rows.len() as int) {
            Reading::Open(b) => Ok(b),
            Reading::Closed(b) => Ok(b),
            Reading::Failed => Err(BoardError::TooManyCells),
        }
    }
}

/// The glyph that a board shows at a cell: the mark of the next cell to
/// fill, else a tree, else an amazon, else the mark of an empty cell.
pub open spec fn shown_cell(b: BoardView, c: Cell) -> char {
    if b.next == Some(c) {
        'x'
    } else if b.trees.contains(c) {
        'T'
    } else if b.amazons.contains(c) {
        'A'
    } else {
        '.'
    }
}

/// The first `n` cells of row `line`, each followed by a blank.
pub open spec fn shown_cells(b: BoardView, line: int, n: int) -> Seq<char>
    decreases n,
{
    if n <= 0 {
        Seq::empty()
    } else {
        shown_cells(b, line, n - 1).push(shown_cell(b, (n - 1, line))).push(' ')
    }
}

/// The first `n` rows of a board, each after the prefix and closed by a line
/// feed.
pub open spec fn shown_lines(b: BoardView, prefix: Seq<char>, n: int) -> Seq<char>
    decreases n,
{
    if n <= 0 {
        Seq::empty()
    } else {
        (shown_lines(b, prefix, n - 1) + prefix + shown_cells(b, n - 1, b.size)).push('\n')
    }
}

/// A board as text: its rows, and two empty lines after them.
pub open spec fn shown_text(b: BoardView, prefix: Seq<char>) -> Seq<char> {
    shown_lines(b, prefix, b.size).push('\n').push('\n')
}

/// The rows of a text as sequences of characters.
pub open spec fn texts(lines: Seq<&str>) -> Seq<Seq<char>> {
    lines.map_values(|l: &str| l@)
}

impl Board {
    /// Reads a board. It has as many rows as the text has lines. The glyphs
    /// are read line by line: `T`, `A` and `.` fill the next cell with a
    /// tree, with an amazon or with nothing; `x` ends the reading; any other
    /// glyph is passed over. A text that fills more cells than the board
    /// has is refused.
    pub fn from_lines(lines: Vec<&str>) -> (r: Result<Board, BoardError>)
        ensures
            match r {
                Ok(b) => parse_board(texts(lines@)) == Ok::<BoardView, BoardError>(b@),
                Err(e) => parse_board(texts(lines@)) == Err::<BoardView, BoardError>(e),
            },
    {
        if lines.len() > i32::MAX as usize {
            return Err(BoardError::TooManyLines);
        }
        let ghost rows = texts(lines@);
        let mut ret = Board::new(lines.len() as Number);
        let mut line: usize = 0;
        while line < lines.len()
            invariant
                0 <= line <= lines.len() <= i32::MAX,
                rows == texts(lines@),
                ret.wf(),
                ret@.size == lines.len(),
                read_rows(Reading::Open(BoardView::empty(rows.len() as int)), rows, line as int)
                    == Reading::Open(ret@),
            decreases lines.len() - line,
        {
            let text: &str = lines[line];
            let ghost row = text@;
            assert(rows[line as int] == row);
            let ghost start = Reading::Open(ret@);
            let length = text.unicode_len();
            let mut column: usize = 0;
            while column < length
                invariant
                    0 <= line < lines.len() <= i32::MAX,
                    0 <= column <= length,
                    length == row.len(),
                    row == text@,
                    rows == texts(lines@),
                    rows[line as int] == row,
                    ret.wf(),
                    ret@.size == lines.len(),
                    start == read_rows(
                        Reading::Open(BoardView::empty(rows.len() as int)),
                        rows,
                        line as int,
                    ),
                    read_row(start, row, column as int) == Reading::Open(ret@),
                decreases length - column,
            {
                let c = text.get_char(column);
                if c == 'x' {
                    proof {
                        lemma_read_rows_settled(
                            Reading::Open(BoardView::empty(rows.len() as int)),
                            rows,
                            line as int,
                            column as int + 1,
                            rows.len() as int,
                        );
                    }
                    return Ok(ret);
                }
                if c == 'T' || c == 'A' || c == '.' {
                    if ret.next_cell_to_fill().is_none() {
                        proof {
                            lemma_read_rows_settled(
                                Reading::Open(BoardView::empty(rows.len() as int)),
                                rows,
                                line as int,
                                column as int + 1,
                                rows.len() as int,
                            );
                        }
                        return Err(BoardError::TooManyCells);
                    }
                    if c == 'T' {
                        ret = ret.fill_next_cell_with_tree();
                    } else if c == 'A' {
                        ret = ret.fill_next_cell_with_amazon();
                    } else {
                        ret = ret.fill_next_cell_with_empty();
                    }
                }
                column += 1;
            }
            line += 1;
        }
        Ok(ret)
    }

    /// The board as text: each row after `prefix`, each cell as its glyph
    /// and a blank, and two empty lines at the end.
    pub fn dump(&self, prefix: &str) -> (r: String)
        ensures
            r@ == shown_text(self@, prefix@),
    {
        let size = self.board_size();
        let next = self.next_cell_to_fill();
        let mut out = String::new();
        let mut line: Number = 0;
        while line < size
            invariant
                size == self@.size,
                cell_of_option(next) == self@.next,
                0 <= line <= size || (size < 0 && line == 0),
                out@ == shown_lines(self@, prefix@, line as int),
            decreases size - line,
        {
            out.append(prefix);
            let ghost start = out@;
            let mut column: Number = 0;
            while column < size
                invariant
                    size == self@.size,
                    cell_of_option(next) == self@.next,
                    0 <= line < size,
                    0 <= column <= size,
                    out@ == start + shown_cells(self@, line as int, column as int),
                decreases size - column,
            {
                let c: Coordinates = (column, line);
                let mut glyph = '.';
                if self.has_amazon(&c) {
                    glyph = 'A';
                }
                if self.has_tree(&c) {
                    glyph = 'T';
                }
                match next {
                    Some(n) => {
                        if n.0 == c.0 && n.1 == c.1 {
                            glyph = 'x';
                        }
                    },
                    None => {},
                }
                out.push(glyph);
                out.push(' ');
                assert(out@ =~= start + shown_cells(self@, line as int, column + 1));
                column += 1;
            }
            out.push('\n');
            assert(out@ =~= shown_lines(self@, prefix@, line + 1));
            line += 1;
        }
        assert(shown_lines(self@, prefix@, line as int) == shown_lines(
            self@,
            prefix@,
            size as int,
        ));
        out.push('\n');
        out.push('\n');
        out
    }
}

/// Once a reading is closed or has failed, nothing that follows changes it.
proof fn lemma_read_row_settled(r: Reading, row: Seq<char>, from: int, n: int)
    requires
        0 <= from <= n <= row.len(),
        !(read_row(r, row, from) is Open),
    ensures
        read_row(r, row, n) == read_row(r, row, from),
    decreases n,
{
    if n > from {
        lemma_read_row_settled(r, row, from, n - 1);
    }
}

proof fn lemma_read_row_of_settled(r: Reading, row: Seq<char>, n: int)
    requires
        !(r is Open),
        0 <= n <= row.len(),
    ensures
        read_row(r, row, n) == r,
    decreases n,
{
    if n > 0 {
        lemma_read_row_of_settled(r, row, n - 1);
    }
}

/// Once the reading of line `line` is closed or has failed after `column`
/// glyphs, that is what the reading of the whole text gives.
proof fn lemma_read_rows_settled(r: Reading, rows: Seq<Seq<char>>, line: int, column: int, n: int)
    requires
        0 <= line < n <= rows.len(),
        0 <= column <= rows[line].len(),
        !(read_row(read_rows(r, rows, line), rows[line], column) is Open),
    ensures
        read_rows(r, rows, n) == read_row(read_rows(r, rows, line), rows[line], column),
    decreases n,
{
    if n == line + 1 {
        lemma_read_row_settled(read_rows(r, rows, line), rows[line], column, rows[line].len() as int);
    } else {
        lemma_read_rows_settled(r, rows, line, column, n - 1);
        lemma_read_row_of_settled(read_rows(r, rows, n - 1), rows[n - 1], rows[n - 1].len() as int);
    }
}

} // verus!
