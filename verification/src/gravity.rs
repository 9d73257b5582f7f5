//! The cascade that lets unsupported rocks, falling ghosts and heroes drop.
//!
//! The cascade is local to a column and greedy. It starts at a cell, pulls
//! down what stands stacked above it by one cell, and then starts again one
//! row further down.

use vstd::prelude::*;
use crate::block::{Block, fallable};
use crate::direction::{Direction, Pos, pos_of, step};
use crate::stage::{HEIGHT, Point, inside};
use crate::state::{State, StateView, lemma_first_hero_unique, lemma_modify_wf, lemma_move_hero_wf};

verus! {

/// The cell `e` shows empty, and what shows right above it is subject to
/// gravity: it falls into `e`.
pub open spec fn falls_into(s: StateView, e: Pos) -> bool {
    s.block_at(e) is Empty && fallable(s.block_at(step(Direction::Up, e)))
}

/// The state after what is right above `e` has dropped into `e`: a hero
/// moves down; a rock or a falling ghost leaves its cell empty and fills `e`.
pub open spec fn fall_into(s: StateView, e: Pos) -> StateView {
    let above = step(Direction::Up, e);
    let b = s.block_at(above);
    if b is Hero {
        s.move_hero(s.first_hero_at(above), e)
    } else {
        s.modify(above, Block::Empty).modify(e, b)
    }
}

/// Drops what is above `e` into `e`, then what was above that into the cell
/// that became free, and so on upwards, until a cell has nothing above it
/// that falls.
pub open spec fn pull_down(s: StateView, e: Pos) -> StateView
    decreases e.1 + 1,
{
    if falls_into(s, e) {
        pull_down(fall_into(s, e), step(Direction::Up, e))
    } else {
        s
    }
}

/// The cascade that starts at `e`. If `e` does not show empty, nothing
/// happens. Otherwise the stack above `e` is pulled down by one cell, and the
/// cascade starts again at the cell below `e`.
pub open spec fn settle_column(s: StateView, e: Pos) -> StateView
    decreases HEIGHT - e.1,
{
    if s.block_at(e) is Empty {
        settle_column(pull_down(s, e), step(Direction::Down, e))
    } else {
        s
    }
}

/// The cascades that follow a move from `from` towards `to`, with `next_to`
/// one step further: at `from`, at `to`, below `to` and below `next_to`, in
/// this order.
pub open spec fn settle_after_move(s: StateView, from: Pos, to: Pos, next_to: Pos) -> StateView {
    settle_column(
        settle_column(settle_column(settle_column(s, from), to), step(Direction::Down, to)),
        step(Direction::Down, next_to),
    )
}

/// Nothing is about to fall: no cell that shows empty has a rock, a falling
/// ghost or a hero on air right above it.
pub open spec fn settled(s: StateView) -> bool {
    forall|e: Pos| !falls_into(s, e)
}

/// Where a hero shows, there is a first hero that stands there.
pub proof fn lemma_first_hero_exists(s: StateView, p: Pos)
    requires
        s.heroes.contains(p),
    ensures
        s.is_first_hero_at(s.first_hero_at(p), p),
{
    s.heroes.index_of_first_ensures(p);
    let i = s.heroes.index_of_first(p)->0;
    assert(s.is_first_hero_at(i, p));
}

/// One fall keeps the invariant, the number of heroes and the hazard counter.
pub proof fn lemma_fall_into_wf(s: StateView, e: Pos)
    requires
        s.wf(),
        falls_into(s, e),
    ensures
        fall_into(s, e).wf(),
        fall_into(s, e).heroes.len() == s.heroes.len(),
        fall_into(s, e).ghosts == s.ghosts,
        inside(e),
{
    let above = step(Direction::Up, e);
    let b = s.block_at(above);
    if b is Hero {
        lemma_first_hero_exists(s, above);
        lemma_move_hero_wf(s, s.first_hero_at(above), e);
    } else {
        lemma_modify_wf(s, above, Block::Empty);
        let t = s.modify(above, Block::Empty);
        lemma_modify_wf(t, e, b);
    }
}

/// Pulling a stack down keeps the invariant, the number of heroes and the
/// hazard counter.
pub proof fn lemma_pull_down_wf(s: StateView, e: Pos)
    requires
        s.wf(),
    ensures
        pull_down(s, e).wf(),
        pull_down(s, e).heroes.len() == s.heroes.len(),
        pull_down(s, e).ghosts == s.ghosts,
    decreases e.1 + 1,
{
    if falls_into(s, e) {
        lemma_fall_into_wf(s, e);
        lemma_pull_down_wf(fall_into(s, e), step(Direction::Up, e));
    }
}

/// A cascade keeps the invariant, the number of heroes and the hazard
/// counter: gravity moves ghosts, it never adds or removes one.
pub proof fn lemma_settle_column_wf(s: StateView, e: Pos)
    requires
        s.wf(),
    ensures
        settle_column(s, e).wf(),
        settle_column(s, e).heroes.len() == s.heroes.len(),
        settle_column(s, e).ghosts == s.ghosts,
    decreases HEIGHT - e.1,
{
    if s.block_at(e) is Empty {
        lemma_pull_down_wf(s, e);
        lemma_settle_column_wf(pull_down(s, e), step(Direction::Down, e));
    }
}

/// The four cascades after a move keep the invariant, the number of heroes
/// and the hazard counter.
pub proof fn lemma_settle_after_move_wf(s: StateView, from: Pos, to: Pos, next_to: Pos)
    requires
        s.wf(),
    ensures
        settle_after_move(s, from, to, next_to).wf(),
        settle_after_move(s, from, to, next_to).heroes.len() == s.heroes.len(),
        settle_after_move(s, from, to, next_to).ghosts == s.ghosts,
{
    lemma_settle_column_wf(s, from);
    let s1 = settle_column(s, from);
    lemma_settle_column_wf(s1, to);
    let s2 = settle_column(s1, to);
    lemma_settle_column_wf(s2, step(Direction::Down, to));
    let s3 = settle_column(s2, step(Direction::Down, to));
    lemma_settle_column_wf(s3, step(Direction::Down, next_to));
}

/// Gravity is idempotent: where nothing is about to fall, a cascade changes
/// nothing, wherever it starts.
pub proof fn lemma_settled_column_unchanged(s: StateView, e: Pos)
    requires
        settled(s),
    ensures
        pull_down(s, e) == s,
        settle_column(s, e) == s,
    decreases HEIGHT - e.1,
{
    assert(!falls_into(s, e));
    if s.block_at(e) is Empty {
        lemma_settled_column_unchanged(s, step(Direction::Down, e));
    }
}

/// Gravity is idempotent: where nothing is about to fall, the cascades that
/// follow a move change nothing, whatever the move's cells are.
pub proof fn lemma_settled_unchanged(s: StateView, from: Pos, to: Pos, next_to: Pos)
    requires
        settled(s),
    ensures
        settle_after_move(s, from, to, next_to) == s,
{
    lemma_settled_column_unchanged(s, from);
    lemma_settled_column_unchanged(s, to);
    lemma_settled_column_unchanged(s, step(Direction::Down, to));
    lemma_settled_column_unchanged(s, step(Direction::Down, next_to));
}

impl State {
    /// Lets what is right above `empty_location` drop into it, if that cell
    /// shows empty and something above it falls. Returns the cell that the
    /// fall left free.
    pub fn free_fall_step(&mut self, empty_location: &Point) -> (r: Option<Point>)
        requires
            old(self).wf(),
        ensures
            final(self).wf(),
            falls_into(old(self)@, pos_of(*empty_location)) ==> {
                &&& final(self)@ == fall_into(old(self)@, pos_of(*empty_location))
                &&& r is Some
                &&& pos_of(r->0) == step(Direction::Up, pos_of(*empty_location))
            },
            !falls_into(old(self)@, pos_of(*empty_location)) ==> r is None && final(self)@ == old(
                self,
            )@,
    {
        if !Block::is_empty(self.block_at(empty_location)) {
            return None;
        }
        let up = Direction::Up.move_point(empty_location);
        let block_up = self.block_at(&up);
        if Block::is_hero(block_up) {
            proof {
                lemma_fall_into_wf(self@, pos_of(*empty_location));
            }
            match self.hero_index_at(&up) {
                Some(hero_index) => {
                    proof {
                        lemma_first_hero_unique(self@, hero_index as int, pos_of(up));
                    }
                    self.move_hero(hero_index, *empty_location);
                    Some(up)
                },
                None => None,
            }
        } else if Block::is_fall(block_up) {
            proof {
                lemma_fall_into_wf(self@, pos_of(*empty_location));
                lemma_modify_wf(self@, pos_of(up), Block::Empty);
            }
            self.modify(&up, Block::Empty);
            self.modify(empty_location, block_up);
            Some(up)
        } else {
            None
        }
    }

    /// Runs the cascade that starts at `empty_location`.
    pub fn free_fall_column(&mut self, empty_location: &Point)
        requires
            old(self).wf(),
        ensures
            final(self).wf(),
            final(self)@ == settle_column(old(self)@, pos_of(*empty_location)),
        decreases HEIGHT - empty_location.1,
    {
        if !Block::is_empty(self.block_at(empty_location)) {
            return ;
        }
        let ghost start = self@;
        let ghost e = pos_of(*empty_location);
        let mut next_empty_location = self.free_fall_step(empty_location);
        while next_empty_location.is_some()
            invariant
                self.wf(),
                match next_empty_location {
                    Some(n) => n.1 >= -1 && pull_down(start, e) == pull_down(self@, pos_of(n)),
                    None => pull_down(start, e) == self@,
                },
            decreases
                    match next_empty_location {
                        Some(n) => n.1 + 2,
                        None => 0,
                    },
        {
            let here = next_empty_location.unwrap();
            next_empty_location = self.free_fall_step(&here);
        }
        self.free_fall_column(&Direction::Down.move_point(empty_location));
    }

    /// Runs the cascades that follow a move from `from` towards `to`, with
    /// `next_to` one step further.
    pub fn free_fall_after_move(&mut self, from: &Point, to: &Point, next_to: &Point)
        requires
            old(self).wf(),
            to.1 < i32::MAX,
            next_to.1 < i32::MAX,
        ensures
            final(self).wf(),
            final(self)@ == settle_after_move(
                old(self)@,
                pos_of(*from),
                pos_of(*to),
                pos_of(*next_to),
            ),
    {
        self.free_fall_column(from);
        self.free_fall_column(to);
        self.free_fall_column(&Direction::Down.move_point(to));
        self.free_fall_column(&Direction::Down.move_point(next_to));
    }
}

} // verus!
