//! The search for a shortest sequence of moves that eliminates every ghost.

use vstd::prelude::*;
use crate::direction::Direction;
use crate::moves::{is_move, lemma_successor_wf, lemma_successors_are_moves, successor, successors};
use crate::state::{State, StateView};

verus! {

/// The goal of the puzzle: no ghost is left.
pub open spec fn solved(s: StateView) -> bool {
    s.ghosts == 0
}

/// Each state but the first is among the states that one move reaches from
/// the state before it.
pub open spec fn is_path(path: Seq<StateView>) -> bool {
    &&& path.len() >= 1
    &&& forall|k: int| 0 < k < path.len() ==> successors(path[k - 1]).contains(#[trigger] path[k])
}

/// A path of moves that starts at `start` and ends with no ghost left.
pub open spec fn is_solution(start: StateView, path: Seq<StateView>) -> bool {
    is_path(path) && path[0] == start && solved(path.last())
}

/// What the states of a path hold.
pub open spec fn views(path: Seq<State>) -> Seq<StateView> {
    path.map_values(|s: State| s@)
}

/// Every state on a path from a valid state is valid, has as many heroes as
/// the first, and has lost at most one ghost per move.
pub proof fn lemma_path_wf(path: Seq<StateView>, k: int)
    requires
        is_path(path),
        path[0].wf(),
        0 <= k < path.len(),
    ensures
        path[k].wf(),
        path[k].heroes.len() == path[0].heroes.len(),
        path[k].ghosts + k >= path[0].ghosts,
        k > 0 ==> is_move(path[k - 1], path[k]),
    decreases k,
{
    if k > 0 {
        lemma_path_wf(path, k - 1);
        let s = path[k - 1];
        let t = path[k];
        assert(successors(s).contains(t));
        lemma_successors_are_moves(s, t);
        let (i, d) = choose|i: int, d: Direction|
            0 <= i < s.heroes.len() && #[trigger] successor(s, i, d) == Some(t);
        lemma_successor_wf(s, i, d);
    }
}

/// A solution takes at least as many moves as there are ghosts at its
/// start, since one move eliminates at most one ghost.
pub proof fn lemma_solution_length(start: StateView, path: Seq<StateView>)
    requires
        start.wf(),
        is_solution(start, path),
    ensures
        path.len() - 1 >= start.ghosts,
{
    lemma_path_wf(path, path.len() - 1);
}

/// Whether the goal is reached: no ghost is left.
pub fn is_solved(state: &State) -> (r: bool)
    ensures
        r == solved(state@),
{
    state.ghosts_count() == 0
}

/// The estimate of the moves still needed that the search works with: none,
/// so that the search goes by the number of moves made alone.
pub fn no_estimate(state: &State) -> (r: usize)
    ensures
        r == 0,
{
    0
}

/// The states that one move reaches, each with the cost of that move, which
/// is one.
pub fn moves_with_cost(state: &State) -> (r: Vec<(State, usize)>)
    requires
        state.wf(),
    ensures
        r.len() == successors(state@).len(),
        forall|i: int|
            0 <= i < r.len() ==> {
                &&& (#[trigger] r[i]).0@ == successors(state@)[i]
                &&& r[i].0.wf()
                &&& r[i].1 == 1
            },
{
    let reached = state.reachable_states_one_move();
    let ghost all = reached@;
    assert(forall|i: int|
        0 <= i < all.len() ==> (#[trigger] all[i])@ == all.map_values(|t: State| t@)[i]);
    let mut out: Vec<(State, usize)> = Vec::new();
    for t in it: reached
        invariant
            it.seq() == all,
            out.len() == it.index(),
            forall|i: int|
                0 <= i < out.len() ==> {
                    &&& (#[trigger] out[i]).0 == all[i]
                    &&& out[i].1 == 1
                },
    {
        out.push((t, 1));
    }
    out
}

/// Calls `pathfinding::directed::astar::astar` with the moves of the puzzle
/// as edges of cost one, no estimate of the distance left, and "no ghost is
/// left" as the goal.
///
/// What is taken on trust: that the search returns, if it finds a path, a
/// shortest one among all paths from `start` to a goal, together with its
/// cost, which is the number of its moves; that the path begins with `start`
/// and that each of its further states is one that the moves handed to the
/// search lead to from the state before; and that the search reports no path
/// only when none exists.
#[verifier::external_body]
fn shortest_path(start: &State) -> (r: Option<(Vec<State>, usize)>)
    requires
        start.wf(),
    ensures
        match r {
            Some((path, cost)) => {
                &&& is_solution(start@, views(path@))
                &&& cost == path.len() - 1
                &&& forall|other: Seq<StateView>| #[trigger]
                    is_solution(start@, other) ==> path.len() <= other.len()
            },
            None => forall|other: Seq<StateView>| !#[trigger] is_solution(start@, other),
        },
{
    pathfinding::directed::astar::astar(
        start,
        |s: &State| moves_with_cost(s),
        |s: &State| no_estimate(s),
        |s: &State| is_solved(s),
    )
}

/// Looks for a shortest sequence of moves that eliminates every ghost.
///
/// The answer lists the states from `state` to the first one without
/// ghosts, each reached from the one before by one permitted move; no
/// sequence of fewer moves eliminates every ghost. The answer is `None` only
/// if no sequence of moves does.
pub fn solve_catrap(state: &State) -> (r: Option<Vec<State>>)
    requires
        state.wf(),
    ensures
        match r {
            Some(path) => {
                &&& is_solution(state@, views(path@))
                &&& forall|other: Seq<StateView>| #[trigger]
                    is_solution(state@, other) ==> path.len() <= other.len()
                &&& forall|k: int| 0 <= k < path.len() ==> (#[trigger] path[k]).wf()
                &&& forall|k: int|
                    0 < k < path.len() ==> is_move(path[k - 1]@, (#[trigger] path[k])@)
                &&& path.len() - 1 >= state@.ghosts
            },
            None => forall|other: Seq<StateView>| !#[trigger] is_solution(state@, other),
        },
{
    match shortest_path(state) {
        Some((path, _cost)) => {
            proof {
                let trail = views(path@);
                lemma_solution_length(state@, trail);
                assert forall|k: int| 0 <= k < path.len() implies (#[trigger] path[k]).wf() by {
                    lemma_path_wf(trail, k);
                }
                assert forall|k: int| 0 < k < path.len() implies is_move(
                    path[k - 1]@,
                    (#[trigger] path[k])@,
                ) by {
                    lemma_path_wf(trail, k);
                }
            }
            Some(path)
        },
        None => None,
    }
}

} // verus!
