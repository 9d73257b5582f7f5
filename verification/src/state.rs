//! A snapshot of the puzzle: the grid, where the heroes stand, and how many
//! ghosts are left.

use vstd::prelude::*;
use crate::block::{Block, ghostly};
use crate::direction::{Pos, pos_of};
use crate::stage::{
    Grid, Point, Stage, HEIGHT, WIDTH, grid_block_at, grid_ghosts, grid_set, grid_shaped,
    hero_free, inside, lemma_grid_ghosts_set, lemma_rows_ghosts_bound, row_ghosts, rows_ghosts,
};

verus! {

/// What a state is, as plain mathematical values.
pub struct StateView {
    /// The grid, without the heroes.
    pub grid: Grid,
    /// Where each hero stands; a hero is known by its index.
    pub heroes: Seq<Pos>,
    /// The hazard counter.
    pub ghosts: nat,
}

impl StateView {
    /// A hero can stand at `p`: the cell is in the grid and holds nothing
    /// but air or a stair.
    pub open spec fn standable(self, p: Pos) -> bool {
        inside(p) && (self.grid[p.1][p.0] is Empty || self.grid[p.1][p.0] is Stair)
    }

    /// The invariant of every state: the grid has its fixed shape and stores
    /// no hero, the hazard counter is the number of cells that hold a ghost,
    /// and every hero stands in the grid on air or on a stair.
    pub open spec fn wf(self) -> bool {
        &&& grid_shaped(self.grid)
        &&& hero_free(self.grid)
        &&& self.ghosts == grid_ghosts(self.grid)
        &&& forall|i: int| 0 <= i < self.heroes.len() ==> self.standable(#[trigger] self.heroes[i])
    }

    /// What shows at `p`: a hero where one stands on an empty cell, and
    /// the grid's own content everywhere else.
    pub open spec fn block_at(self, p: Pos) -> Block {
        let b = grid_block_at(self.grid, p);
        if b is Empty && self.heroes.contains(p) {
            Block::Hero
        } else {
            b
        }
    }

    /// Hero `i` stands at `p`, and no hero with a smaller index does.
    pub open spec fn is_first_hero_at(self, i: int, p: Pos) -> bool {
        &&& 0 <= i < self.heroes.len()
        &&& self.heroes[i] == p
        &&& forall|j: int| 0 <= j < i ==> self.heroes[j] != p
    }

    /// The smallest index of a hero that stands at `p`.
    pub open spec fn first_hero_at(self, p: Pos) -> int {
        choose|i: int| self.is_first_hero_at(i, p)
    }

    /// The state with cell `p` of the grid replaced by `b`.
    pub open spec fn modify(self, p: Pos, b: Block) -> StateView {
        StateView {
            grid: grid_set(self.grid, p, b),
            heroes: self.heroes,
            ghosts: grid_ghosts(grid_set(self.grid, p, b)),
        }
    }

    /// The state with hero `i` standing at `to`.
    pub open spec fn move_hero(self, i: int, to: Pos) -> StateView {
        StateView { grid: self.grid, heroes: self.heroes.update(i, to), ghosts: self.ghosts }
    }
}

/// At most one index is the first at which a hero stands at `p`.
pub proof fn lemma_first_hero_unique(s: StateView, i: int, p: Pos)
    requires
        s.is_first_hero_at(i, p),
    ensures
        s.first_hero_at(p) == i,
{
    let k = s.first_hero_at(p);
    assert(s.is_first_hero_at(k, p));
    if k < i {
        assert(s.heroes[k] != p);
    } else if i < k {
        assert(s.heroes[i] != p);
    }
}

/// Replacing a cell keeps the invariant, as long as no hero is stored and no
/// hero is left standing on anything but air or a stair.
pub proof fn lemma_modify_wf(s: StateView, p: Pos, b: Block)
    requires
        s.wf(),
        inside(p),
        !(b is Hero),
        b is Empty || b is Stair || !s.heroes.contains(p),
    ensures
        s.modify(p, b).wf(),
        s.modify(p, b).ghosts + (if ghostly(s.grid[p.1][p.0]) {
            1nat
        } else {
            0nat
        }) == s.ghosts + (if ghostly(b) {
            1nat
        } else {
            0nat
        }),
        s.modify(p, b).ghosts <= WIDTH * HEIGHT,
{
    let t = s.modify(p, b);
    lemma_grid_ghosts_set(s.grid, p, b);
    lemma_rows_ghosts_bound(t.grid, HEIGHT as int);
    assert forall|i: int| 0 <= i < t.heroes.len() implies t.standable(#[trigger] t.heroes[i]) by {
        assert(s.standable(s.heroes[i]));
        if s.heroes[i] == p {
            assert(s.heroes.contains(p));
        }
    }
}

/// Moving a hero to a cell on which one can stand keeps the invariant.
pub proof fn lemma_move_hero_wf(s: StateView, i: int, to: Pos)
    requires
        s.wf(),
        0 <= i < s.heroes.len(),
        s.standable(to),
    ensures
        s.move_hero(i, to).wf(),
{
    let t = s.move_hero(i, to);
    assert forall|j: int| 0 <= j < t.heroes.len() implies t.standable(#[trigger] t.heroes[j]) by {
        if j != i {
            assert(s.standable(s.heroes[j]));
        }
    }
}

/// What a state shows is the grid's own content at every position where no
/// hero stands, and a hero at exactly the empty cells on which one stands.
pub proof fn lemma_block_at_overlay(s: StateView, p: Pos)
    requires
        s.wf(),
    ensures
        !s.heroes.contains(p) ==> s.block_at(p) == grid_block_at(s.grid, p),
        s.block_at(p) is Hero <==> s.heroes.contains(p) && grid_block_at(s.grid, p) is Empty,
        !(s.block_at(p) is Hero) ==> s.block_at(p) == grid_block_at(s.grid, p),
{
    if inside(p) {
        assert(!(s.grid[p.1][p.0] is Hero));
    }
}

#[derive(Clone, PartialEq, Eq, Hash)]
pub struct State {
    stage: Stage,
    heroes: Vec<Point>,
    ghosts_count: usize,
}

impl View for State {
    type V = StateView;

    closed spec fn view(&self) -> StateView {
        StateView {
            grid: self.stage@,
            heroes: self.heroes@.map_values(|p: Point| pos_of(p)),
            ghosts: self.ghosts_count as nat,
        }
    }
}

impl State {
    /// The invariant of every state, see [`StateView::wf`].
    pub open spec fn wf(&self) -> bool {
        self@.wf()
    }

    /// A state of the given grid and heroes; the ghosts are counted.
    pub(crate) fn new(heroes: Vec<Point>, stage: Stage) -> (r: State)
        requires
            stage.wf(),
            forall|i: int|
                0 <= i < heroes.len() ==> {
                    let p = pos_of(#[trigger] heroes[i]);
                    inside(p) && (stage@[p.1][p.0] is Empty || stage@[p.1][p.0] is Stair)
                },
        ensures
            r.wf(),
            r@.grid == stage@,
            r@.heroes == heroes@.map_values(|p: Point| pos_of(p)),
    {
        let mut count: usize = 0;
        let mut y: usize = 0;
        while y < HEIGHT
            invariant
                0 <= y <= HEIGHT,
                count == rows_ghosts(stage@, y as int),
                count <= y * WIDTH,
            decreases HEIGHT - y,
        {
            let mut x: usize = 0;
            while x < WIDTH
                invariant
                    0 <= x <= WIDTH,
                    0 <= y < HEIGHT,
                    count == rows_ghosts(stage@, y as int) + row_ghosts(stage@[y as int], x as int),
                    count <= y * WIDTH + x,
                decreases WIDTH - x,
            {
                let block = stage.block_at(&(x as i32, y as i32));
                if Block::is_ghost(block) {
                    count += 1;
                }
                x += 1;
            }
            y += 1;
        }
        let r = State { stage, heroes, ghosts_count: count };
        assert forall|i: int| 0 <= i < r@.heroes.len() implies r@.standable(
            #[trigger] r@.heroes[i],
        ) by {
            assert(r@.heroes[i] == pos_of(heroes[i]));
        }
        r
    }

    /// The hazard counter: how many ghosts are left.
    pub fn ghosts_count(&self) -> (r: usize)
        ensures
            r == self@.ghosts,
    {
        self.ghosts_count
    }

    /// How many heroes there are.
    pub fn heroes_count(&self) -> (r: usize)
        ensures
            r == self@.heroes.len(),
    {
        self.heroes.len()
    }

    /// Where hero `hero_index` stands.
    pub fn hero(&self, hero_index: usize) -> (r: Point)
        requires
            hero_index < self@.heroes.len(),
        ensures
            pos_of(r) == self@.heroes[hero_index as int],
    {
        self.heroes[hero_index]
    }

    pub fn width(&self) -> (r: usize)
        ensures
            r == WIDTH,
    {
        self.stage.width()
    }

    pub fn height(&self) -> (r: usize)
        ensures
            r == HEIGHT,
    {
        self.stage.height()
    }

    /// The grid's own content at a point, whether or not a hero stands there.
    pub fn ground_at(&self, location: &Point) -> (r: Block)
        ensures
            r == grid_block_at(self@.grid, pos_of(*location)),
    {
        self.stage.block_at(location)
    }

    /// The index of the first hero that stands at `location`.
    pub fn hero_index_at(&self, location: &Point) -> (r: Option<usize>)
        ensures
            match r {
                Some(i) => self@.is_first_hero_at(i as int, pos_of(*location)),
                None => !self@.heroes.contains(pos_of(*location)),
            },
    {
        let mut i: usize = 0;
        while i < self.heroes.len()
            invariant
                0 <= i <= self.heroes.len(),
                forall|j: int| 0 <= j < i ==> self@.heroes[j] != pos_of(*location),
            decreases self.heroes.len() - i,
        {
            let p = self.heroes[i];
            assert(self@.heroes[i as int] == pos_of(p));
            if p.0 == location.0 && p.1 == location.1 {
                return Some(i);
            }
            i += 1;
        }
        None
    }

    /// What shows at a point: a hero where one stands on an empty cell, the
    /// grid's own content elsewhere, and a wall beyond the grid.
    pub fn block_at(&self, location: &Point) -> (r: Block)
        ensures
            r == self@.block_at(pos_of(*location)),
    {
        let block = self.stage.block_at(location);
        if matches!(block, Block::Empty) && self.hero_index_at(location).is_some() {
            Block::Hero
        } else {
            block
        }
    }

    /// Puts hero `hero_index` at `to`.
    pub(crate) fn move_hero(&mut self, hero_index: usize, to: Point)
        requires
            old(self).wf(),
            hero_index < old(self)@.heroes.len(),
            old(self)@.standable(pos_of(to)),
        ensures
            final(self)@ == old(self)@.move_hero(hero_index as int, pos_of(to)),
            final(self).wf(),
    {
        self.heroes[hero_index] = to;
        assert(self@.heroes =~= old(self)@.heroes.update(hero_index as int, pos_of(to)));
        proof {
            lemma_move_hero_wf(old(self)@, hero_index as int, pos_of(to));
        }
    }

    /// Replaces the cell at `location` by `block` and keeps the hazard
    /// counter in step.
    pub(crate) fn modify(&mut self, location: &Point, block: Block)
        requires
            old(self).wf(),
            inside(pos_of(*location)),
            !(block is Hero),
            block is Empty || block is Stair || !old(self)@.heroes.contains(pos_of(*location)),
        ensures
            final(self)@ == old(self)@.modify(pos_of(*location), block),
            final(self).wf(),
    {
        proof {
            lemma_modify_wf(old(self)@, pos_of(*location), block);
            lemma_grid_ghosts_set(old(self)@.grid, pos_of(*location), Block::Empty);
        }
        let previous = self.block_at(location);
        if Block::is_ghost(previous) {
            self.ghosts_count -= 1;
        }
        if Block::is_ghost(block) {
            self.ghosts_count += 1;
        }
        let _ = self.stage.set_block_at(location, block);
    }

    /// An independent copy: what is done to the copy leaves `self` alone.
    pub fn duplicate(&self) -> (r: State)
        ensures
            r@ == self@,
    {
        let mut heroes: Vec<Point> = Vec::new();
        let mut i: usize = 0;
        while i < self.heroes.len()
            invariant
                0 <= i <= self.heroes.len(),
                heroes@ == self.heroes@.subrange(0, i as int),
            decreases self.heroes.len() - i,
        {
            heroes.push(self.heroes[i]);
            assert(heroes@ =~= self.heroes@.subrange(0, i + 1));
            i += 1;
        }
        assert(heroes@ =~= self.heroes@);
        State { stage: self.copy_stage(), heroes, ghosts_count: self.ghosts_count }
    }

    /// A copy of the grid that shares nothing with this state.
    pub fn copy_stage(&self) -> (r: Stage)
        ensures
            r@ == self@.grid,
    {
        self.stage
    }
}

} // verus!
