use catrap::solver::solve_catrap;
use catrap::state::State;

#[test]
fn simple_test_only_right() {
    let strings = vec![
        "WWWWWWWWW",
        "W@ G    W",
        "WWWW    W",
        "W       W",
        "WWWWWWWWW",
    ];
    let state = State::from_lines(strings).unwrap();

    match solve_catrap(&state) {
        None => assert!(false),
        Some(states) => {
            states.iter().for_each(|s| println!("{}", s.dump()));
            assert!(!states.is_empty());
            assert_eq!(states.last().unwrap().ghosts_count(), 0);
        }
    }
}

#[test]
fn simple_test_two_ghosts() {
    let strings = vec![
        "WWWWWWWWW",
        "W@ G    W",
        "WWWW    W",
        "WG      W",
        "WWWWWWWWW",
    ];
    let state = State::from_lines(strings).unwrap();

    match solve_catrap(&state) {
        None => assert!(false),
        Some(states) => {
            states.iter().for_each(|s| println!("{}", s.dump()));
            assert_eq!(states.last().unwrap().ghosts_count(), 0);
        }
    }
}
