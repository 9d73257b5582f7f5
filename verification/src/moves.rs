//! How one move of one hero is resolved, and which states one move reaches.

use vstd::prelude::*;
use crate::block::{Block, ghostly};
use crate::direction::{Direction, all_directions, pos_of, step};
use crate::gravity::{lemma_settle_after_move_wf, settle_after_move};
use crate::stage::grid_block_at;
use crate::state::{State, StateView, lemma_modify_wf, lemma_move_hero_wf};

verus! {

/// What a permitted move does to the grid before the hero steps.
#[derive(Clone, Copy, Debug, PartialEq, Eq, Structural)]
pub enum Effect {
    /// Nothing: the hero walks onto air or a stair.
    Walk,
    /// The target cell is emptied: sand is dug away, a ghost is eliminated.
    Clear,
    /// The rock in the target cell is pushed one cell further.
    Push,
}

/// Whether hero `hero_index` may move in direction `d`, and to what effect.
/// With `to` the cell next to the hero in that direction and `beyond` the
/// cell after it, what shows at `to` decides:
///
/// - air: the hero walks;
/// - sand: it is dug away;
/// - a stair: the hero walks, but it cannot climb up from a cell whose own
///   content is air;
/// - a rock: it is pushed, but only if `beyond` shows empty;
/// - a ghost, still or falling: it is eliminated;
/// - a wall, or another hero: the move is not permitted.
pub open spec fn classify(s: StateView, hero_index: int, d: Direction) -> Option<Effect> {
    let from = s.heroes[hero_index];
    let to = step(d, from);
    let beyond = step(d, to);
    match s.block_at(to) {
        Block::Empty => Some(Effect::Walk),
        Block::SandWall => Some(Effect::Clear),
        Block::Stair => if d is Up && grid_block_at(s.grid, from) is Empty {
            None
        } else {
            Some(Effect::Walk)
        },
        Block::Rock => if s.block_at(beyond) is Empty {
            Some(Effect::Push)
        } else {
            None
        },
        Block::StillGhost => Some(Effect::Clear),
        Block::FallingGhost => Some(Effect::Clear),
        Block::Wall => None,
        Block::Hero => None,
    }
}

/// The state after the cell writes of a move and the hero's step, before
/// anything falls.
pub open spec fn apply_effect(s: StateView, hero_index: int, d: Direction, effect: Effect)
    -> StateView {
    let to = step(d, s.heroes[hero_index]);
    let beyond = step(d, to);
    match effect {
        Effect::Walk => s.move_hero(hero_index, to),
        Effect::Clear => s.modify(to, Block::Empty).move_hero(hero_index, to),
        Effect::Push => s.modify(to, Block::Empty).modify(beyond, Block::Rock).move_hero(
            hero_index,
            to,
        ),
    }
}

/// The state that hero `hero_index` reaches by one move in direction `d`,
/// if the move is permitted: the move's effect, the hero's step, and then
/// the cascades at the cell that the hero left, at the cell that it
/// entered, below that cell and below the cell beyond it.
pub open spec fn successor(s: StateView, hero_index: int, d: Direction) -> Option<StateView> {
    let from = s.heroes[hero_index];
    let to = step(d, from);
    let beyond = step(d, to);
    match classify(s, hero_index, d) {
        Some(effect) => Some(settle_after_move(apply_effect(s, hero_index, d, effect), from, to, beyond)),
        None => None,
    }
}

/// The successors by the first `k` pairs of a hero and a direction. The
/// pairs are ordered by hero, and for each hero by direction.
pub open spec fn successors_upto(s: StateView, k: int) -> Seq<StateView>
    decreases k,
{
    if k <= 0 {
        Seq::empty()
    } else {
        let before = successors_upto(s, k - 1);
        match successor(s, (k - 1) / 4, all_directions()[(k - 1) % 4]) {
            Some(t) => before.push(t),
            None => before,
        }
    }
}

/// All states that one move reaches: for each hero in turn, and for each
/// direction in turn, the successor if the move is permitted.
pub open spec fn successors(s: StateView) -> Seq<StateView> {
    successors_upto(s, 4 * (s.heroes.len() as int))
}

/// One permitted move leads from `s` to `t`.
pub open spec fn is_move(s: StateView, t: StateView) -> bool {
    exists|hero_index: int, d: Direction|
        0 <= hero_index < s.heroes.len() && #[trigger] successor(s, hero_index, d) == Some(t)
}

/// What a state holds, if there is one.
pub open spec fn view_of(r: Option<State>) -> Option<StateView> {
    match r {
        Some(t) => Some(t@),
        None => None,
    }
}

/// The effect of a permitted move and the hero's step keep the invariant and
/// the number of heroes. The hazard counter drops by one where the target
/// showed a ghost, and stays as it is otherwise.
pub proof fn lemma_apply_effect_wf(s: StateView, hero_index: int, d: Direction)
    requires
        s.wf(),
        0 <= hero_index < s.heroes.len(),
        classify(s, hero_index, d) is Some,
    ensures
        ({
            let t = apply_effect(s, hero_index, d, classify(s, hero_index, d)->0);
            &&& t.wf()
            &&& t.heroes.len() == s.heroes.len()
            &&& t.ghosts + (if ghostly(s.block_at(step(d, s.heroes[hero_index]))) {
                1nat
            } else {
                0nat
            }) == s.ghosts
        }),
{
    let from = s.heroes[hero_index];
    let to = step(d, from);
    let beyond = step(d, to);
    assert(s.standable(from));
    match classify(s, hero_index, d)->0 {
        Effect::Walk => {
            lemma_move_hero_wf(s, hero_index, to);
        },
        Effect::Clear => {
            lemma_modify_wf(s, to, Block::Empty);
            lemma_move_hero_wf(s.modify(to, Block::Empty), hero_index, to);
        },
        Effect::Push => {
            lemma_modify_wf(s, to, Block::Empty);
            let s1 = s.modify(to, Block::Empty);
            lemma_modify_wf(s1, beyond, Block::Rock);
            let s2 = s1.modify(beyond, Block::Rock);
            lemma_move_hero_wf(s2, hero_index, to);
        },
    }
}

/// Every successor of a valid state is valid: its hazard counter is the
/// number of its ghosts, and its grid stores no hero. It has as many heroes,
/// and one ghost less if the move eliminated one.
pub proof fn lemma_successor_wf(s: StateView, hero_index: int, d: Direction)
    requires
        s.wf(),
        0 <= hero_index < s.heroes.len(),
        successor(s, hero_index, d) is Some,
    ensures
        ({
            let t = successor(s, hero_index, d)->0;
            &&& t.wf()
            &&& t.heroes.len() == s.heroes.len()
            &&& t.ghosts + (if ghostly(s.block_at(step(d, s.heroes[hero_index]))) {
                1nat
            } else {
                0nat
            }) == s.ghosts
        }),
{
    let from = s.heroes[hero_index];
    let to = step(d, from);
    let beyond = step(d, to);
    lemma_apply_effect_wf(s, hero_index, d);
    let applied = apply_effect(s, hero_index, d, classify(s, hero_index, d)->0);
    lemma_settle_after_move_wf(applied, from, to, beyond);
}

/// A move towards a wall is never permitted.
pub proof fn lemma_wall_blocks(s: StateView, hero_index: int, d: Direction)
    requires
        s.block_at(step(d, s.heroes[hero_index])) is Wall,
    ensures
        successor(s, hero_index, d) is None,
{
}

/// A rock cannot be pushed unless the cell behind it shows empty.
pub proof fn lemma_blocked_rock_blocks(s: StateView, hero_index: int, d: Direction)
    requires
        s.block_at(step(d, s.heroes[hero_index])) is Rock,
        !(s.block_at(step(d, step(d, s.heroes[hero_index]))) is Empty),
    ensures
        successor(s, hero_index, d) is None,
{
}

/// A state is among the successors by the first `k` pairs exactly if one of
/// these pairs leads to it.
pub proof fn lemma_successors_upto_contains(s: StateView, k: int, t: StateView)
    requires
        0 <= k,
    ensures
        successors_upto(s, k).contains(t) <==> exists|j: int|
            0 <= j < k && #[trigger] successor(s, j / 4, all_directions()[j % 4]) == Some(t),
    decreases k,
{
    if k > 0 {
        lemma_successors_upto_contains(s, k - 1, t);
        let before = successors_upto(s, k - 1);
        let last = successor(s, (k - 1) / 4, all_directions()[(k - 1) % 4]);
        if successors_upto(s, k).contains(t) {
            let i = choose|i: int|
                0 <= i < successors_upto(s, k).len() && successors_upto(s, k)[i] == t;
            if last is Some && i == before.len() {
                assert(successor(s, (k - 1) / 4, all_directions()[(k - 1) % 4]) == Some(t));
            } else {
                assert(before[i] == t);
                assert(before.contains(t));
            }
        }
        if exists|j: int|
            0 <= j < k && #[trigger] successor(s, j / 4, all_directions()[j % 4]) == Some(t) {
            let j = choose|j: int|
                0 <= j < k && #[trigger] successor(s, j / 4, all_directions()[j % 4]) == Some(t);
            if j == k - 1 {
                assert(successors_upto(s, k) == before.push(t));
                assert(before.push(t)[before.len() as int] == t);
            } else {
                assert(before.contains(t));
                let i = choose|i: int| 0 <= i < before.len() && before[i] == t;
                assert(successors_upto(s, k)[i] == t);
            }
        }
    }
}

/// The states that one move reaches are exactly the successors by some
/// hero and some direction.
pub proof fn lemma_successors_are_moves(s: StateView, t: StateView)
    ensures
        successors(s).contains(t) <==> is_move(s, t),
{
    let n = s.heroes.len() as int;
    lemma_successors_upto_contains(s, 4 * n, t);
    if successors(s).contains(t) {
        let j = choose|j: int|
            0 <= j < 4 * n && #[trigger] successor(s, j / 4, all_directions()[j % 4]) == Some(t);
        assert(0 <= j / 4 < n);
        assert(successor(s, j / 4, all_directions()[j % 4]) == Some(t));
    }
    if is_move(s, t) {
        let (i, d) = choose|i: int, d: Direction|
            0 <= i < s.heroes.len() && #[trigger] successor(s, i, d) == Some(t);
        let c: int = match d {
            Direction::Up => 0,
            Direction::Down => 1,
            Direction::Left => 2,
            Direction::Right => 3,
        };
        let j = 4 * i + c;
        assert(j / 4 == i && j % 4 == c);
        assert(all_directions()[c] == d);
        assert(successor(s, j / 4, all_directions()[j % 4]) == Some(t));
    }
}

impl State {
    /// Whether hero `hero_index` may move in `direction`, and to what effect.
    pub fn classify_move(&self, hero_index: usize, direction: Direction) -> (r: Option<Effect>)
        requires
            self.wf(),
            hero_index < self@.heroes.len(),
        ensures
            r == classify(self@, hero_index as int, direction),
    {
        let hero = self.hero(hero_index);
        assert(self@.standable(self@.heroes[hero_index as int]));
        let to = direction.move_point(&hero);
        let next_to = direction.move_point(&to);
        let hero_block = self.ground_at(&hero);
        let to_block = self.block_at(&to);
        let next_to_block = self.block_at(&next_to);
        match to_block {
            Block::Empty => Some(Effect::Walk),
            Block::SandWall => Some(Effect::Clear),
            Block::Stair => {
                if matches!(direction, Direction::Up) && matches!(hero_block, Block::Empty) {
                    None
                } else {
                    Some(Effect::Walk)
                }
            },
            Block::Rock => {
                if Block::is_empty(next_to_block) {
                    Some(Effect::Push)
                } else {
                    None
                }
            },
            Block::StillGhost => Some(Effect::Clear),
            Block::FallingGhost => Some(Effect::Clear),
            Block::Wall => None,
            Block::Hero => None,
        }
    }

    /// Carries out a permitted move on this state: the cell writes of its
    /// effect, the hero's step, and the cascades that follow.
    pub fn apply_modifications(&mut self, hero_index: usize, direction: Direction, effect: Effect)
        requires
            old(self).wf(),
            hero_index < old(self)@.heroes.len(),
            classify(old(self)@, hero_index as int, direction) == Some(effect),
        ensures
            final(self).wf(),
            Some(final(self)@) == successor(old(self)@, hero_index as int, direction),
    {
        let hero = self.hero(hero_index);
        assert(self@.standable(self@.heroes[hero_index as int]));
        let to = direction.move_point(&hero);
        let next_to = direction.move_point(&to);
        proof {
            lemma_apply_effect_wf(self@, hero_index as int, direction);
            lemma_modify_wf(self@, pos_of(to), Block::Empty);
        }
        match effect {
            Effect::Walk => {
                self.move_hero(hero_index, to);
            },
            Effect::Clear => {
                self.modify(&to, Block::Empty);
                self.move_hero(hero_index, to);
            },
            Effect::Push => {
                self.modify(&to, Block::Empty);
                self.modify(&next_to, Block::Rock);
                self.move_hero(hero_index, to);
            },
        }
        self.free_fall_after_move(&hero, &to, &next_to);
    }

    /// The state that hero `hero_index` reaches by one move in `direction`,
    /// or `None` if that move is not permitted. `self` is left as it is.
    pub fn next_state(&self, hero_index: usize, direction: Direction) -> (r: Option<State>)
        requires
            self.wf(),
            hero_index < self@.heroes.len(),
        ensures
            view_of(r) == successor(self@, hero_index as int, direction),
            r matches Some(t) ==> {
                &&& t.wf()
                &&& t@.heroes.len() == self@.heroes.len()
                &&& t@.ghosts + (if ghostly(
                    self@.block_at(step(direction, self@.heroes[hero_index as int])),
                ) {
                    1nat
                } else {
                    0nat
                }) == self@.ghosts
            },
            self@.block_at(step(direction, self@.heroes[hero_index as int])) is Wall ==> r is None,
            self@.block_at(step(direction, self@.heroes[hero_index as int])) is Rock && !(
            self@.block_at(step(direction, step(direction, self@.heroes[hero_index as int])))
                is Empty) ==> r is None,
    {
        match self.classify_move(hero_index, direction) {
            Some(effect) => {
                let mut ret = self.duplicate();
                ret.apply_modifications(hero_index, direction, effect);
                proof {
                    lemma_successor_wf(self@, hero_index as int, direction);
                }
                Some(ret)
            },
            None => None,
        }
    }

    /// All states that one move reaches: for each hero in turn, and for each
    /// of up, down, left and right in turn, the state after that move if it
    /// is permitted. Moves that are not permitted leave no trace.
    pub fn reachable_states_one_move(&self) -> (r: Vec<State>)
        requires
            self.wf(),
        ensures
            r@.map_values(|t: State| t@) == successors(self@),
            forall|i: int| 0 <= i < r.len() ==> (#[trigger] r[i]).wf(),
    {
        let directions = Direction::iterator();
        let mut found: Vec<State> = Vec::new();
        let mut hero_index: usize = 0;
        while hero_index < self.heroes_count()
            invariant
                self.wf(),
                directions@ == all_directions(),
                0 <= hero_index <= self@.heroes.len(),
                found@.map_values(|t: State| t@) == successors_upto(self@, 4 * hero_index),
                forall|i: int| 0 <= i < found.len() ==> (#[trigger] found[i]).wf(),
            decreases self@.heroes.len() - hero_index,
        {
            let mut k: usize = 0;
            while k < 4
                invariant
                    self.wf(),
                    directions@ == all_directions(),
                    0 <= hero_index < self@.heroes.len(),
                    0 <= k <= 4,
                    found@.map_values(|t: State| t@) == successors_upto(
                        self@,
                        4 * hero_index + k,
                    ),
                    forall|i: int| 0 <= i < found.len() ==> (#[trigger] found[i]).wf(),
                decreases 4 - k,
            {
                let ghost before = found@;
                let ghost j = 4 * hero_index + k;
                assert(j / 4 == hero_index && j % 4 == k);
                match self.next_state(hero_index, directions[k]) {
                    Some(t) => {
                        found.push(t);
                        assert(found@.map_values(|t: State| t@) =~= before.map_values(
                            |t: State| t@,
                        ).push(t@));
                    },
                    None => {},
                }
                k += 1;
            }
            hero_index += 1;
        }
        found
    }
}

} // verus!
