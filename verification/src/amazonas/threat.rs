//! When one amazon threatens another.
//!
//! An amazon threatens the cells next to it, the cells a knight's jump away,
//! and every cell of its row, its column and its diagonals up to the first
//! tree.

use vstd::prelude::*;

verus! {

pub type Number = i32;

/// Column first, then row.
pub type Coordinates = (Number, Number);

/// A cell's column and row as mathematical integers.
pub type Cell = (int, int);

/// The cell that coordinates denote.
pub open spec fn cell_of(c: Coordinates) -> Cell {
    (c.0 as int, c.1 as int)
}

/// The cells that a vector of coordinates denotes.
pub open spec fn cells_of(v: Seq<Coordinates>) -> Seq<Cell> {
    v.map_values(|c: Coordinates| cell_of(c))
}

/// The distance of `x` from zero.
pub open spec fn magnitude(x: int) -> int {
    if x < 0 {
        -x
    } else {
        x
    }
}

pub open spec fn same_vertical(a: Cell, b: Cell) -> bool {
    a.0 == b.0
}

pub open spec fn same_horizontal(a: Cell, b: Cell) -> bool {
    a.1 == b.1
}

pub open spec fn same_diagonal(a: Cell, b: Cell) -> bool {
    magnitude(a.0 - b.0) == magnitude(a.1 - b.1)
}

/// `b` lies strictly between `a` and `c`.
pub open spec fn between_number(a: int, b: int, c: int) -> bool {
    (a < b && b < c) || (a > b && b > c)
}

pub open spec fn between_vertical(a: Cell, between: Cell, c: Cell) -> bool {
    same_vertical(a, between) && between_number(a.1, between.1, c.1)
}

pub open spec fn between_horizontal(a: Cell, between: Cell, c: Cell) -> bool {
    same_horizontal(a, between) && between_number(a.0, between.0, c.0)
}

pub open spec fn between_diagonal(a: Cell, between: Cell, c: Cell) -> bool {
    same_diagonal(a, between) && same_diagonal(between, c) && between_number(a.0, between.0, c.0)
}

pub open spec fn knight_jump(a: Cell, b: Cell) -> bool {
    (magnitude(a.0 - b.0) == 1 && magnitude(a.1 - b.1) == 2) || (magnitude(a.0 - b.0) == 2
        && magnitude(a.1 - b.1) == 1)
}

pub open spec fn too_close(a: Cell, b: Cell) -> bool {
    magnitude(a.0 - b.0) <= 1 && magnitude(a.1 - b.1) <= 1
}

/// A tree stands between `a` and `b` on the line that joins them: their
/// common row, their common column or their common diagonal.
pub open spec fn shielded(a: Cell, b: Cell, trees: Seq<Cell>) -> bool {
    exists|i: int|
        0 <= i < trees.len() && if same_horizontal(a, b) {
            between_horizontal(a, #[trigger] trees[i], b)
        } else if same_vertical(a, b) {
            between_vertical(a, trees[i], b)
        } else {
            between_diagonal(a, trees[i], b)
        }
}

/// An amazon at `a` threatens the cell `b`: the cells are different, and
/// they are a knight's jump apart, or next to each other, or on one row,
/// column or diagonal with no tree between them.
pub open spec fn threatened(a: Cell, b: Cell, trees: Seq<Cell>) -> bool {
    if a == b {
        false
    } else if knight_jump(a, b) || too_close(a, b) {
        true
    } else if same_horizontal(a, b) || same_vertical(a, b) || same_diagonal(a, b) {
        !shielded(a, b, trees)
    } else {
        false
    }
}

/// Threat is mutual: what an amazon at `a` does to `b`, one at `b` does to
/// `a`.
pub proof fn lemma_threat_symmetric(a: Cell, b: Cell, trees: Seq<Cell>)
    ensures
        threatened(a, b, trees) == threatened(b, a, trees),
{
    if shielded(a, b, trees) {
        let i = choose|i: int|
            0 <= i < trees.len() && if same_horizontal(a, b) {
                between_horizontal(a, #[trigger] trees[i], b)
            } else if same_vertical(a, b) {
                between_vertical(a, trees[i], b)
            } else {
                between_diagonal(a, trees[i], b)
            };
        assert(if same_horizontal(b, a) {
            between_horizontal(b, trees[i], a)
        } else if same_vertical(b, a) {
            between_vertical(b, trees[i], a)
        } else {
            between_diagonal(b, trees[i], a)
        });
    }
    if shielded(b, a, trees) {
        let i = choose|i: int|
            0 <= i < trees.len() && if same_horizontal(b, a) {
                between_horizontal(b, #[trigger] trees[i], a)
            } else if same_vertical(b, a) {
                between_vertical(b, trees[i], a)
            } else {
                between_diagonal(b, trees[i], a)
            };
        assert(if same_horizontal(a, b) {
            between_horizontal(a, trees[i], b)
        } else if same_vertical(a, b) {
            between_vertical(a, trees[i], b)
        } else {
            between_diagonal(a, trees[i], b)
        });
    }
}

/// One more tree never adds a threat.
pub proof fn lemma_tree_never_harms(a: Cell, b: Cell, trees: Seq<Cell>, tree: Cell)
    ensures
        threatened(a, b, trees.push(tree)) ==> threatened(a, b, trees),
{
    if shielded(a, b, trees) {
        let i = choose|i: int|
            0 <= i < trees.len() && if same_horizontal(a, b) {
                between_horizontal(a, #[trigger] trees[i], b)
            } else if same_vertical(a, b) {
                between_vertical(a, trees[i], b)
            } else {
                between_diagonal(a, trees[i], b)
            };
        assert(trees.push(tree)[i] == trees[i]);
    }
}

/// Calls `num_traits::abs`, which `pathfinding` hands on as
/// `pathfinding::num_traits::abs`. For a signed integer other than the
/// smallest one it gives the number itself where that is not negative, and
/// the number negated where it is.
#[verifier::external_body]
fn abs(value: i64) -> (r: i64)
    requires
        value > i64::MIN,
    ensures
        r == magnitude(value as int),
{
    pathfinding::num_traits::abs(value)
}

/// How far apart two coordinates are.
fn distance(a: Number, b: Number) -> (r: i64)
    ensures
        r == magnitude(a - b),
{
    abs(a as i64 - b as i64)
}

fn is_same_vertical(a: &Coordinates, b: &Coordinates) -> (r: bool)
    ensures
        r == same_vertical(cell_of(*a), cell_of(*b)),
{
    a.0 == b.0
}

fn is_same_horizontal(a: &Coordinates, b: &Coordinates) -> (r: bool)
    ensures
        r == same_horizontal(cell_of(*a), cell_of(*b)),
{
    a.1 == b.1
}

fn is_same_diagonal(a: &Coordinates, b: &Coordinates) -> (r: bool)
    ensures
        r == same_diagonal(cell_of(*a), cell_of(*b)),
{
    distance(a.0, b.0) == distance(a.1, b.1)
}

fn is_between_number(a: Number, b: Number, c: Number) -> (r: bool)
    ensures
        r == between_number(a as int, b as int, c as int),
{
    (a < b && b < c) || (a > b && b > c)
}

fn is_between_vertical(a: &Coordinates, between: &Coordinates, c: &Coordinates) -> (r: bool)
    ensures
        r == between_vertical(cell_of(*a), cell_of(*between), cell_of(*c)),
{
    if !is_same_vertical(a, between) {
        return false;
    }
    is_between_number(a.1, between.1, c.1)
}

fn is_between_horizontal(a: &Coordinates, between: &Coordinates, c: &Coordinates) -> (r: bool)
    ensures
        r == between_horizontal(cell_of(*a), cell_of(*between), cell_of(*c)),
{
    if !is_same_horizontal(a, between) {
        return false;
    }
    is_between_number(a.0, between.0, c.0)
}

fn is_between_diagonal(a: &Coordinates, between: &Coordinates, c: &Coordinates) -> (r: bool)
    ensures
        r == between_diagonal(cell_of(*a), cell_of(*between), cell_of(*c)),
{
    is_same_diagonal(a, between) && is_same_diagonal(between, c) && is_between_number(
        a.0,
        between.0,
        c.0,
    )
}

fn is_knight_jump(a: &Coordinates, b: &Coordinates) -> (r: bool)
    ensures
        r == knight_jump(cell_of(*a), cell_of(*b)),
{
    let dx = distance(a.0, b.0);
    let dy = distance(a.1, b.1);
    (dx == 1 && dy == 2) || (dx == 2 && dy == 1)
}

fn is_too_close(a: &Coordinates, b: &Coordinates) -> (r: bool)
    ensures
        r == too_close(cell_of(*a), cell_of(*b)),
{
    distance(a.0, b.0) <= 1 && distance(a.1, b.1) <= 1
}

/// Whether a tree stands between `a` and `b` on the line that joins them.
fn is_shielded(a: &Coordinates, b: &Coordinates, trees: &Vec<Coordinates>) -> (r: bool)
    ensures
        r == shielded(cell_of(*a), cell_of(*b), cells_of(trees@)),
{
    let horizontal = is_same_horizontal(a, b);
    let vertical = is_same_vertical(a, b);
    let mut i: usize = 0;
    while i < trees.len()
        invariant
            0 <= i <= trees.len(),
            horizontal == same_horizontal(cell_of(*a), cell_of(*b)),
            vertical == same_vertical(cell_of(*a), cell_of(*b)),
            forall|j: int|
                0 <= j < i ==> !(if horizontal {
                    between_horizontal(cell_of(*a), #[trigger] cells_of(trees@)[j], cell_of(*b))
                } else if vertical {
                    between_vertical(cell_of(*a), cells_of(trees@)[j], cell_of(*b))
                } else {
                    between_diagonal(cell_of(*a), cells_of(trees@)[j], cell_of(*b))
                }),
        decreases trees.len() - i,
    {
        let t = &trees[i];
        assert(cells_of(trees@)[i as int] == cell_of(*t));
        let found = if horizontal {
            is_between_horizontal(a, t, b)
        } else if vertical {
            is_between_vertical(a, t, b)
        } else {
            is_between_diagonal(a, t, b)
        };
        if found {
            return true;
        }
        i += 1;
    }
    false
}

/// Whether an amazon at `a` threatens the cell `b`, given the trees.
pub fn is_threatened(a: &Coordinates, b: &Coordinates, trees: &Vec<Coordinates>) -> (r: bool)
    ensures
        r == threatened(cell_of(*a), cell_of(*b), cells_of(trees@)),
{
    if a.0 == b.0 && a.1 == b.1 {
        return false;
    }
    if is_knight_jump(a, b) {
        return true;
    }
    if is_too_close(a, b) {
        return true;
    }
    if is_same_horizontal(a, b) {
        return !is_shielded(a, b, trees);
    }
    if is_same_vertical(a, b) {
        return !is_shielded(a, b, trees);
    }
    if is_same_diagonal(a, b) {
        return !is_shielded(a, b, trees);
    }
    false
}

} // verus!
