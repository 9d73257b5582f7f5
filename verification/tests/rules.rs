use catrap::block::Block;
use catrap::direction::Direction;
use catrap::moves::Effect;
use catrap::solver::{is_solved, moves_with_cost, no_estimate, solve_catrap};
use catrap::state::State;

fn count_ghosts(state: &State) -> usize {
    let mut n = 0;
    for y in 0..12 {
        for x in 0..12 {
            if Block::is_ghost(state.ground_at(&(x, y))) {
                n += 1;
            }
        }
    }
    n
}

fn check_invariants(state: &State) {
    assert_eq!(state.ghosts_count(), count_ghosts(state));
    for y in 0..12 {
        for x in 0..12 {
            assert_ne!(state.ground_at(&(x, y)), Block::Hero);
            let hero_here = state.hero_index_at(&(x, y)).is_some();
            let ground = state.ground_at(&(x, y));
            let shown = state.block_at(&(x, y));
            if hero_here && ground == Block::Empty {
                assert_eq!(shown, Block::Hero);
            } else {
                assert_eq!(shown, ground);
            }
        }
    }
}

fn busy_level() -> State {
    State::from_lines(vec![
        "WWWWWWWWWWWW",
        "W  R F     W",
        "W @R*  G   W",
        "WWW =  WW@ W",
        "W   =F  R  W",
        "W G    *   W",
        "WWWWWWWWWWWW",
    ])
    .unwrap()
}

#[test]
fn invariants_hold_in_every_state_two_moves_away() {
    let start = busy_level();
    check_invariants(&start);
    assert_eq!(start.ghosts_count(), 4);
    for first in start.reachable_states_one_move() {
        check_invariants(&first);
        assert_eq!(first.heroes_count(), 2);
        assert!(first.ghosts_count() + 1 >= start.ghosts_count());
        for second in first.reachable_states_one_move() {
            check_invariants(&second);
            assert!(second.ghosts_count() + 2 >= start.ghosts_count());
        }
    }
}

#[test]
fn walls_block() {
    let state = State::from_lines(vec!["WWW", "W@W", "WWW"]).unwrap();
    for d in Direction::iterator() {
        assert_eq!(state.classify_move(0, d), None);
        assert!(state.next_state(0, d).is_none());
    }
    assert!(state.reachable_states_one_move().is_empty());
    // The rim of the grid counts as a wall too.
    let state = State::from_lines(vec!["@"]).unwrap();
    assert!(state.next_state(0, Direction::Up).is_none());
    assert!(state.next_state(0, Direction::Left).is_none());
}

#[test]
fn blocked_rock_blocks() {
    for beyond in ["W", "*", "F", "G", "R", "=", "@"] {
        let row = format!("W@R{}W", beyond);
        let state = State::from_lines(vec!["WWWWW", row.as_str(), "WWWWW"]).unwrap();
        assert_eq!(state.classify_move(0, Direction::Right), None);
        assert!(state.next_state(0, Direction::Right).is_none());
    }
    let state = State::from_lines(vec!["WWWWW", "W@R W", "WWWWW"]).unwrap();
    assert_eq!(state.classify_move(0, Direction::Right), Some(Effect::Push));
    let next = state.next_state(0, Direction::Right).unwrap();
    assert_eq!(next.hero(0), (2, 1));
    assert_eq!(next.block_at(&(3, 1)), Block::Rock);
    assert_eq!(next.block_at(&(1, 1)), Block::Empty);
}

#[test]
fn each_target_has_its_effect() {
    let cases = [
        (' ', Some(Effect::Walk)),
        ('*', Some(Effect::Clear)),
        ('=', Some(Effect::Walk)),
        ('G', Some(Effect::Clear)),
        ('F', Some(Effect::Clear)),
        ('W', None),
        ('@', None),
    ];
    for (glyph, effect) in cases {
        let row = format!("W@{} W", glyph);
        let state = State::from_lines(vec!["WWWWW", row.as_str(), "WWWWW"]).unwrap();
        assert_eq!(state.classify_move(0, Direction::Right), effect);
        assert_eq!(state.next_state(0, Direction::Right).is_some(), effect.is_some());
    }
}

#[test]
fn a_hero_stops_another_hero() {
    let state = State::from_lines(vec!["WWWW", "W@@W", "WWWW"]).unwrap();
    assert!(state.next_state(0, Direction::Right).is_none());
    assert!(state.next_state(1, Direction::Left).is_none());
}

#[test]
fn successors_come_hero_by_hero_and_direction_by_direction() {
    let state = State::from_lines(vec!["WWWWWWW", "W @ W@W", "WWWWW W", "WWWWWWW"]).unwrap();
    let reached = state.reachable_states_one_move();
    assert_eq!(reached.len(), 3);
    assert_eq!(reached[0].hero(0), (1, 1));
    assert_eq!(reached[1].hero(0), (3, 1));
    assert_eq!(reached[2].hero(1), (5, 2));
    let left = state.next_state(0, Direction::Left).unwrap();
    assert!(reached[0] == left);
    let costed = moves_with_cost(&state);
    assert_eq!(costed.len(), 3);
    for (i, (s, cost)) in costed.iter().enumerate() {
        assert!(*s == reached[i]);
        assert_eq!(*cost, 1);
    }
}

#[test]
fn cascade_changes_nothing_where_all_is_settled() {
    let start = State::from_lines(vec![
        "WWWWWWWWW",
        "W       W",
        "W @R F =W",
        "WWWWWWWWW",
    ])
    .unwrap();
    // A step up into the air is a move too: the hero drops back at once.
    let mut states = start.reachable_states_one_move();
    assert_eq!(states.len(), 3);
    assert!(states[0] == start);
    states.push(start);
    for state in states {
        let mut again = state.duplicate();
        for y in -1..13 {
            for x in -1..13 {
                assert_eq!(again.free_fall_step(&(x, y)), None);
                again.free_fall_column(&(x, y));
            }
        }
        again.free_fall_after_move(&(2, 2), &(3, 2), &(4, 2));
        assert!(again == state);
    }
}

#[test]
fn cascade_pulls_a_whole_stack_down() {
    let level = vec!["W W", "WRW", "WFW", "W@W", "W W", "W W", "W W", "WWW"];
    let mut state = State::from_lines(level.clone()).unwrap();
    assert_eq!(state.free_fall_step(&(1, 4)), Some((1, 3)));
    assert_eq!(state.hero(0), (1, 4));
    assert_eq!(state.block_at(&(1, 2)), Block::FallingGhost);
    // One step moves one thing; the cascade moves the whole stack, and it
    // goes on below until the stack rests.
    let mut state = State::from_lines(level).unwrap();
    state.free_fall_column(&(1, 4));
    assert_eq!(state.hero(0), (1, 6));
    assert_eq!(state.block_at(&(1, 5)), Block::FallingGhost);
    assert_eq!(state.block_at(&(1, 4)), Block::Rock);
    assert_eq!(state.block_at(&(1, 3)), Block::Empty);
    assert_eq!(state.block_at(&(1, 1)), Block::Empty);
    assert_eq!(state.ghosts_count(), 1);
}

#[test]
fn cascade_starts_only_at_an_empty_cell() {
    let mut state = State::from_lines(vec!["WRW", "W W", "W@W", "W W", "WWW"]).unwrap();
    let before = state.duplicate();
    // The hero's own cell does not show empty: nothing moves.
    state.free_fall_column(&(1, 2));
    assert!(state == before);
    // The rock drops by one cell, and the cascade ends at the hero.
    state.free_fall_column(&(1, 1));
    assert_eq!(state.block_at(&(1, 1)), Block::Rock);
    assert_eq!(state.block_at(&(1, 0)), Block::Empty);
    assert_eq!(state.hero(0), (1, 2));
}

#[test]
fn still_ghosts_sand_and_stairs_do_not_fall() {
    for glyph in ["G", "*", "=", "W"] {
        let top = format!("W{}W", glyph);
        let mut state = State::from_lines(vec![top.as_str(), "W W", "W W", "WWW"]).unwrap();
        let before = state.duplicate();
        state.free_fall_column(&(1, 1));
        assert!(state == before);
    }
}

#[test]
fn pushed_rock_falls_the_whole_way() {
    let state = State::from_lines(vec![
        "WWWWWW", "W@R  W", "WWW  W", "WWW  W", "WWW  W", "WWWWWW",
    ])
    .unwrap();
    let next = state.next_state(0, Direction::Right).unwrap();
    assert_eq!(next.block_at(&(3, 4)), Block::Rock);
    assert_eq!(next.block_at(&(3, 1)), Block::Empty);
    assert_eq!(next.block_at(&(3, 2)), Block::Empty);
    assert_eq!(next.block_at(&(3, 3)), Block::Empty);
    assert_eq!(next.hero(0), (2, 1));
}

#[test]
fn solver_goes_by_shortest_path() {
    let state = State::from_lines(vec![
        "WWWWWWWWW",
        "W@ G    W",
        "WWWW    W",
        "W       W",
        "WWWWWWWWW",
    ])
    .unwrap();
    let path = solve_catrap(&state).unwrap();
    assert_eq!(path.len(), 3);
    assert!(path[0] == state);
    assert_eq!(path[1].hero(0), (2, 1));
    assert_eq!(path[2].hero(0), (3, 1));
    assert_eq!(path[2].ghosts_count(), 0);
    assert!(is_solved(&path[2]));
    assert!(!is_solved(&path[1]));
    assert_eq!(no_estimate(&state), 0);
    for pair in path.windows(2) {
        assert!(pair[0].reachable_states_one_move().contains(&pair[1]));
    }
}

#[test]
fn solver_needs_a_move_for_each_ghost() {
    let state = State::from_lines(vec![
        "WWWWWWWWW",
        "W@ G    W",
        "WWWW    W",
        "WG      W",
        "WWWWWWWWW",
    ])
    .unwrap();
    assert_eq!(state.ghosts_count(), 2);
    let path = solve_catrap(&state).unwrap();
    assert!(path.len() - 1 >= 2);
    assert_eq!(path.last().unwrap().ghosts_count(), 0);
    let kills = path
        .windows(2)
        .filter(|p| p[1].ghosts_count() < p[0].ghosts_count())
        .count();
    assert_eq!(kills, 2);
    for pair in path.windows(2) {
        assert!(pair[1].ghosts_count() + 1 >= pair[0].ghosts_count());
    }
}

#[test]
fn solver_finds_nothing_where_the_ghost_is_walled_in() {
    let state = State::from_lines(vec!["WWWWW", "W@WGW", "WWWWW"]).unwrap();
    assert!(solve_catrap(&state).is_none());
}

#[test]
fn solved_level_needs_no_move() {
    let state = State::from_lines(vec!["WWW", "W@W", "WWW"]).unwrap();
    let path = solve_catrap(&state).unwrap();
    assert_eq!(path.len(), 1);
    assert!(path[0] == state);
}

#[test]
fn solver_digs_and_pushes() {
    let state = State::from_lines(vec![
        "WWWWWWW",
        "W@*R GW",
        "WWWWWWW",
    ])
    .unwrap();
    // The rock can be pushed once; after that the ghost lies behind it.
    assert!(solve_catrap(&state).is_none());
    let state = State::from_lines(vec![
        "WWWWWWW",
        "W@*R GW",
        "WWWW WW",
        "WWWWWWW",
    ])
    .unwrap();
    // Dig, push, walk over the fallen rock, eliminate.
    let path = solve_catrap(&state).unwrap();
    assert_eq!(path.len(), 5);
    assert_eq!(path[2].block_at(&(4, 2)), Block::Rock);
    assert_eq!(path.last().unwrap().hero(0), (5, 1));
    assert_eq!(path.last().unwrap().ghosts_count(), 0);
}
