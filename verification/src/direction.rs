//! The four moves and how they translate a point.

use vstd::prelude::*;
use crate::stage::Point;

verus! {

/// A cell's column and row as mathematical integers.
pub type Pos = (int, int);

/// The position that a point denotes.
pub open spec fn pos_of(p: Point) -> Pos {
    (p.0 as int, p.1 as int)
}

#[derive(Clone, Copy, Debug, PartialEq, Eq, Structural)]
pub enum Direction {
    Up,
    Down,
    Left,
    Right,
}

/// One step from `p`: rows grow downwards, columns to the right.
pub open spec fn step(d: Direction, p: Pos) -> Pos {
    match d {
        Direction::Up => (p.0, p.1 - 1),
        Direction::Down => (p.0, p.1 + 1),
        Direction::Left => (p.0 - 1, p.1),
        Direction::Right => (p.0 + 1, p.1),
    }
}

/// The directions in the order in which moves are tried.
pub open spec fn all_directions() -> Seq<Direction> {
    seq![Direction::Up, Direction::Down, Direction::Left, Direction::Right]
}

impl Direction {
    /// The neighbour of `pos` in this direction. The step must stay within
    /// the range of a coordinate.
    pub fn move_point(&self, pos: &Point) -> (r: Point)
        requires
            i32::MIN <= step(*self, pos_of(*pos)).0 <= i32::MAX,
            i32::MIN <= step(*self, pos_of(*pos)).1 <= i32::MAX,
        ensures
            pos_of(r) == step(*self, pos_of(*pos)),
    {
        match self {
            Direction::Up => (pos.0, pos.1 - 1),
            Direction::Down => (pos.0, pos.1 + 1),
            Direction::Left => (pos.0 - 1, pos.1),
            Direction::Right => (pos.0 + 1, pos.1),
        }
    }

    pub fn is_horizontal(&self) -> (r: bool)
        ensures
            r == (*self is Left || *self is Right),
    {
        match self {
            Direction::Up => false,
            Direction::Down => false,
            _ => true,
        }
    }

    /// All four directions, in the order in which moves are tried.
    pub fn iterator() -> (r: [Direction; 4])
        ensures
            r@ == all_directions(),
    {
        let r = [Direction::Up, Direction::Down, Direction::Left, Direction::Right];
        assert(r@ =~= all_directions());
        r
    }
}

/// One step in each of the four directions, in turn, leads back to the start.
pub proof fn lemma_whole_turn_around(p: Pos)
    ensures
        step(Direction::Right, step(Direction::Left, step(Direction::Down, step(Direction::Up, p))))
            == p,
{
}

} // verus!
