//! The grid of blocks, with bounds-checked access.

use vstd::prelude::*;
use crate::block::{Block, ghostly};
use crate::direction::{Pos, pos_of};
use crate::error::StageError;

verus! {

pub type Coordinate = i32;

/// Column first, then row.
pub type Point = (Coordinate, Coordinate);

pub const WIDTH: usize = 12;

pub const HEIGHT: usize = 12;

/// The rows of a grid, top row first; each row lists its cells from the left.
pub type Grid = Seq<Seq<Block>>;

/// A grid of `HEIGHT` rows of `WIDTH` cells.
pub open spec fn grid_shaped(g: Grid) -> bool {
    &&& g.len() == HEIGHT
    &&& forall|y: int| 0 <= y < HEIGHT ==> (#[trigger] g[y]).len() == WIDTH
}

/// Whether a position lies within the grid.
pub open spec fn inside(p: Pos) -> bool {
    0 <= p.0 < WIDTH && 0 <= p.1 < HEIGHT
}

/// What a grid holds at a position; every position beyond the grid reads as
/// a wall.
pub open spec fn grid_block_at(g: Grid, p: Pos) -> Block {
    if inside(p) {
        g[p.1][p.0]
    } else {
        Block::Wall
    }
}

/// The grid with one cell replaced.
pub open spec fn grid_set(g: Grid, p: Pos, b: Block) -> Grid {
    g.update(p.1, g[p.1].update(p.0, b))
}

/// No cell stores the hero overlay.
pub open spec fn hero_free(g: Grid) -> bool {
    forall|x: int, y: int| 0 <= x < WIDTH && 0 <= y < HEIGHT ==> !(#[trigger] g[y][x] is Hero)
}

/// How many of the first `n` cells of a row hold a ghost.
pub open spec fn row_ghosts(row: Seq<Block>, n: int) -> nat
    decreases n,
{
    if n <= 0 {
        0
    } else {
        row_ghosts(row, n - 1) + if ghostly(row[n - 1]) {
            1nat
        } else {
            0nat
        }
    }
}

/// How many cells of the first `n` rows of a grid hold a ghost.
pub open spec fn rows_ghosts(g: Grid, n: int) -> nat
    decreases n,
{
    if n <= 0 {
        0
    } else {
        rows_ghosts(g, n - 1) + row_ghosts(g[n - 1], WIDTH as int)
    }
}

/// How many cells of a grid hold a ghost.
pub open spec fn grid_ghosts(g: Grid) -> nat {
    rows_ghosts(g, HEIGHT as int)
}

#[derive(Clone, Copy, PartialEq, Eq, Hash)]
pub struct Stage {
    pub blocks: [[Block; WIDTH]; HEIGHT],
}

impl View for Stage {
    type V = Grid;

    open spec fn view(&self) -> Grid {
        Seq::new(HEIGHT as nat, |y: int| self.blocks[y]@)
    }
}

impl Stage {
    /// No cell stores the hero overlay.
    pub open spec fn wf(&self) -> bool {
        hero_free(self@)
    }

    /// A stage of walls only.
    pub fn new() -> (r: Stage)
        ensures
            r.wf(),
            forall|p: Pos| grid_block_at(r@, p) == Block::Wall,
    {
        Stage { blocks: [[Block::Wall; WIDTH]; HEIGHT] }
    }

    pub fn width(&self) -> (r: usize)
        ensures
            r == WIDTH,
    {
        self.blocks[0].len()
    }

    pub fn height(&self) -> (r: usize)
        ensures
            r == HEIGHT,
    {
        self.blocks.len()
    }

    pub fn outside(&self, location: &Point) -> (r: bool)
        ensures
            r == !inside(pos_of(*location)),
    {
        let (x, y) = *location;
        x < 0 || y < 0 || x >= WIDTH as i32 || y >= HEIGHT as i32
    }

    /// The block at a point; a point beyond the grid reads as a wall.
    pub fn block_at(&self, point: &Point) -> (r: Block)
        ensures
            r == grid_block_at(self@, pos_of(*point)),
    {
        if self.outside(point) {
            Block::Wall
        } else {
            let (x, y) = *point;
            let x = x as usize;
            let y = y as usize;
            self.blocks[y][x]
        }
    }

    /// Writes one cell. The hero overlay is refused, and so is a point
    /// beyond the grid; a refused write changes nothing.
    pub fn set_block_at(&mut self, point: &Point, block: Block) -> (r: Result<(), StageError>)
        ensures
            block is Hero ==> r == Err::<(), StageError>(StageError::HeroNotStorable),
            !(block is Hero) && !inside(pos_of(*point)) ==> r == Err::<(), StageError>(
                StageError::OutOfBounds,
            ),
            !(block is Hero) && inside(pos_of(*point)) ==> r is Ok,
            r is Ok ==> final(self)@ == grid_set(old(self)@, pos_of(*point), block),
            r is Err ==> *final(self) == *old(self),
            old(self).wf() ==> final(self).wf(),
    {
        if matches!(block, Block::Hero) {
            return Err(StageError::HeroNotStorable);
        }
        if self.outside(point) {
            return Err(StageError::OutOfBounds);
        }
        let (x, y) = *point;
        let x = x as usize;
        let y = y as usize;
        self.blocks[y][x] = block;
        assert(self@ =~= grid_set(old(self)@, pos_of(*point), block));
        Ok(())
    }
}

/// A row of `n` cells holds at most `n` ghosts.
pub proof fn lemma_row_ghosts_bound(row: Seq<Block>, n: int)
    requires
        0 <= n,
    ensures
        row_ghosts(row, n) <= n,
    decreases n,
{
    if n > 0 {
        lemma_row_ghosts_bound(row, n - 1);
    }
}

/// A grid holds at most as many ghosts as it has cells.
pub proof fn lemma_rows_ghosts_bound(g: Grid, n: int)
    requires
        0 <= n,
    ensures
        rows_ghosts(g, n) <= n * WIDTH,
    decreases n,
{
    if n > 0 {
        lemma_rows_ghosts_bound(g, n - 1);
        lemma_row_ghosts_bound(g[n - 1], WIDTH as int);
    }
}

/// Replacing one cell of a row changes the count of its first `n` cells by
/// what the old and the new cell count for, if the cell is among them.
pub proof fn lemma_row_ghosts_update(row: Seq<Block>, x: int, b: Block, n: int)
    requires
        0 <= x < row.len(),
        0 <= n <= row.len(),
    ensures
        row_ghosts(row.update(x, b), n) + (if x < n && ghostly(row[x]) {
            1nat
        } else {
            0nat
        }) == row_ghosts(row, n) + (if x < n && ghostly(b) {
            1nat
        } else {
            0nat
        }),
    decreases n,
{
    if n > 0 {
        lemma_row_ghosts_update(row, x, b, n - 1);
    }
}

/// Replacing one cell of a grid changes the count of ghosts by what the old
/// and the new cell count for.
pub proof fn lemma_grid_ghosts_set(g: Grid, p: Pos, b: Block)
    requires
        grid_shaped(g),
        inside(p),
    ensures
        grid_shaped(grid_set(g, p, b)),
        grid_ghosts(grid_set(g, p, b)) + (if ghostly(g[p.1][p.0]) {
            1nat
        } else {
            0nat
        }) == grid_ghosts(g) + (if ghostly(b) {
            1nat
        } else {
            0nat
        }),
{
    lemma_rows_ghosts_set(g, p, b, HEIGHT as int);
}

proof fn lemma_rows_ghosts_set(g: Grid, p: Pos, b: Block, n: int)
    requires
        grid_shaped(g),
        inside(p),
        0 <= n <= HEIGHT,
    ensures
        rows_ghosts(grid_set(g, p, b), n) + (if p.1 < n && ghostly(g[p.1][p.0]) {
            1nat
        } else {
            0nat
        }) == rows_ghosts(g, n) + (if p.1 < n && ghostly(b) {
            1nat
        } else {
            0nat
        }),
    decreases n,
{
    if n > 0 {
        lemma_rows_ghosts_set(g, p, b, n - 1);
        if p.1 == n - 1 {
            lemma_row_ghosts_update(g[p.1], p.0, b, WIDTH as int);
        }
    }
}

} // verus!
