use catrap::amazonas::board::Board;
use catrap::amazonas::search::{find_board, find_board_minimize_trees};
use catrap::amazonas::threat::Number;

#[test]
fn first_step() {
    let b = Board::new(4);
    let next_step = b.fill_next_cell_with_possible();
    next_step.iter().for_each(|b| println!("{}", b.dump("")));
    assert_eq!(next_step.len(), 3);
}

#[test]
fn second_step() {
    let b = Board::new(4);
    let next_step = b.fill_next_cell_with_possible();
    next_step.iter().for_each(|b| {
        println!("{}", b.dump(""));
        let n = b.fill_next_cell_with_possible();
        n.iter().for_each(|b| println!("{}", b.dump("")));
    });
}

#[test]
fn from_lines_threatened() {
    let lines = vec![
        "T T T . ",
        "A . . x ",
        ". . . . ",
        ". . . . ",
    ];
    let board = Board::from_lines(lines).unwrap();
    println!("{}", board.dump(""));
    assert!(board
        .cell_is_threatened(&(2 as Number, 1 as Number))
        .is_some());
}

#[test]
fn from_lines_not_threatened() {
    let lines = vec![
        "T T T . ",
        ". . . x ",
        ". . . . ",
        ". . . . ",
    ];
    let board = Board::from_lines(lines).unwrap();
    println!("{}", board.dump(""));
    assert!(board
        .cell_is_threatened(&(2 as Number, 1 as Number))
        .is_none());
}

#[test]
fn find_board_test() {
    match find_board(8, 2) {
        Some(b) => println!("{}", b.dump("Encontrado ")),
        None => assert!(false),
    }
}

#[test]
fn find_board_minimize_trees_test() {
    let boards = find_board_minimize_trees(8);
    println!("{}", boards.unwrap().dump(""));
}

#[test]
fn check_jaime() {
    let lines = vec![
        ". A T . A . . .",
        ". . . . . . . A",
        ". . . . . . . .",
        "A T A . . . . .",
        ". . . . . . A .",
        ". . . . . . . .",
        ". A . . . . . .",
        ". . . . . A . .",
    ];
    let b = Board::from_lines(lines).unwrap();
    match b.find_threat() {
        Some(c) => {
            println!("Amenazada:{:?}", c);
            assert!(false);
        }
        _ => (),
    }
}
