use catrap::amazonas::board::Board;
use catrap::amazonas::search::{find_board, find_board_minimize_trees, search_from};
use catrap::amazonas::text::BoardError;
use catrap::amazonas::threat::is_threatened;

#[test]
fn threats_by_distance_work_in_every_direction() {
    let none = vec![];
    // Next to each other, also towards smaller coordinates.
    assert!(is_threatened(&(3, 3), &(2, 2), &none));
    assert!(is_threatened(&(2, 2), &(3, 3), &none));
    assert!(is_threatened(&(3, 3), &(3, 2), &none));
    // A knight's jump, in all eight directions.
    for (dx, dy) in [(1, 2), (2, 1), (-1, 2), (-2, 1), (1, -2), (2, -1), (-1, -2), (-2, -1)] {
        assert!(is_threatened(&(5, 5), &(5 + dx, 5 + dy), &none));
    }
    // Neither close, nor a jump, nor on a line.
    assert!(!is_threatened(&(5, 5), &(8, 6), &none));
    assert!(!is_threatened(&(5, 5), &(2, 4), &none));
    // A cell does not threaten itself.
    assert!(!is_threatened(&(5, 5), &(5, 5), &none));
}

#[test]
fn trees_block_lines_of_sight() {
    let none = vec![];
    assert!(is_threatened(&(0, 0), &(5, 0), &none));
    assert!(is_threatened(&(0, 0), &(0, 5), &none));
    assert!(is_threatened(&(0, 0), &(5, 5), &none));
    assert!(is_threatened(&(5, 0), &(0, 5), &none));
    assert!(!is_threatened(&(0, 0), &(5, 0), &vec![(3, 0)]));
    assert!(!is_threatened(&(5, 0), &(0, 0), &vec![(3, 0)]));
    assert!(!is_threatened(&(0, 0), &(0, 5), &vec![(0, 1)]));
    assert!(!is_threatened(&(0, 0), &(5, 5), &vec![(9, 9), (2, 2)]));
    assert!(!is_threatened(&(5, 0), &(0, 5), &vec![(3, 2)]));
    // A tree beside the line, or beyond its ends, blocks nothing.
    assert!(is_threatened(&(0, 0), &(5, 0), &vec![(3, 1), (6, 0)]));
    assert!(is_threatened(&(0, 0), &(5, 5), &vec![(2, 3), (2, -2)]));
    // A tree never shields from a neighbour or from a knight's jump.
    assert!(is_threatened(&(0, 0), &(1, 2), &vec![(0, 1), (1, 1)]));
}

#[test]
fn threats_hold_for_coordinates_far_apart() {
    let none = vec![];
    assert!(is_threatened(&(i32::MIN, 0), &(i32::MAX, 0), &none));
    assert!(!is_threatened(&(i32::MIN, 0), &(i32::MAX, 0), &vec![(0, 0)]));
    assert!(!is_threatened(&(i32::MIN, i32::MIN), &(i32::MAX, 0), &none));
}

#[test]
fn cells_are_filled_row_by_row() {
    let b = Board::new(2);
    assert_eq!(b.board_size(), 2);
    assert_eq!(b.next_cell_to_fill(), Some((0, 0)));
    assert_eq!(b.next_coordinates(&(0, 0)), Some((1, 0)));
    assert_eq!(b.next_coordinates(&(1, 0)), Some((0, 1)));
    assert_eq!(b.next_coordinates(&(1, 1)), None);
    let b = b.fill_next_cell_with_amazon();
    assert!(b.has_amazon(&(0, 0)));
    let b = b.fill_next_cell_with_tree();
    assert!(b.has_tree(&(1, 0)));
    let b = b.fill_next_cell_with_empty();
    assert_eq!(b.next_cell_to_fill(), Some((1, 1)));
    assert_eq!(b.amazons_count(), 1);
    assert_eq!(b.trees_count(), 1);
    assert_eq!(b.dump("> "), "> A T \n> . x \n\n\n");
    let b = b.fill_next_cell_with_empty();
    assert_eq!(b.next_cell_to_fill(), None);
    assert!(b.fill_next_cell_with_possible().is_empty());
    assert_eq!(b.dump(""), "A T \n. . \n\n\n");
    let copy = b.duplicate();
    assert!(copy == b);
}

#[test]
fn possible_fillings() {
    let b = Board::new(4);
    let next = b.fill_next_cell_with_possible();
    assert_eq!(next.len(), 3);
    assert!(next[0] == b.fill_next_cell_with_amazon());
    assert!(next[1] == b.fill_next_cell_with_tree());
    assert!(next[2] == b.fill_next_cell_with_empty());
    // Next to an amazon no amazon may stand.
    let after = next[0].fill_next_cell_with_possible();
    assert_eq!(after.len(), 2);
    assert_eq!(after[0].trees_count(), 1);
    assert_eq!(after[1].trees_count(), 0);
    // Large boards get no trees.
    let large = Board::new(12).fill_next_cell_with_possible();
    assert_eq!(large.len(), 2);
    assert_eq!(large[0].amazons_count(), 1);
    assert_eq!(large[1].amazons_count(), 0);
}

#[test]
fn reading_a_board() {
    let b = Board::from_lines(vec!["A T", ". x", "A A A"]).unwrap();
    assert_eq!(b.board_size(), 3);
    assert_eq!(b.amazons_count(), 1);
    assert_eq!(b.trees_count(), 1);
    assert_eq!(b.next_cell_to_fill(), Some((0, 1)));
    assert_eq!(b.dump(""), "A T . \nx . . \n. . . \n\n\n");
    let empty = Board::from_lines(vec![]).unwrap();
    assert_eq!(empty.board_size(), 0);
    assert_eq!(empty.dump("p"), "\n\n");
    let full = Board::from_lines(vec!["AT", ".."]).unwrap();
    assert_eq!(full.next_cell_to_fill(), None);
    assert_eq!(
        Board::from_lines(vec!["AT", "..."]).err(),
        Some(BoardError::TooManyCells)
    );
    assert_eq!(
        Board::from_lines(vec!["A"; 2]).err(),
        None
    );
    // What follows the mark does not count, not even too many cells.
    assert!(Board::from_lines(vec!["Ax........"]).is_ok());
    assert_eq!(
        Board::from_lines(vec!["ATx"]).err(),
        Some(BoardError::TooManyCells)
    );
}

#[test]
fn first_threat_is_reported() {
    let b = Board::from_lines(vec!["A . . A", ". . . .", ". . . .", "A . . ."]).unwrap();
    assert_eq!(b.cell_is_threatened(&(0, 1)), Some((0, 0)));
    assert_eq!(b.cell_is_threatened(&(3, 3)), Some((0, 0)));
    assert_eq!(b.cell_is_threatened(&(2, 2)), Some((0, 0)));
    assert_eq!(b.cell_is_threatened(&(2, 1)), Some((0, 0)));
    assert_eq!(b.cell_is_threatened(&(9, 1)), None);
    assert_eq!(b.find_threat(), Some(((0, 0), (3, 0))));
    let shielded = Board::from_lines(vec!["A T . A", "T . T .", ". . . .", "A . . ."]).unwrap();
    assert_eq!(shielded.find_threat(), None);
}

#[test]
fn found_boards_are_peaceful_and_complete() {
    for size in 0..7 {
        let mut found_before = false;
        for max_trees in 0..5 {
            match find_board(size, max_trees) {
                Some(b) => {
                    assert_eq!(b.board_size(), size);
                    assert_eq!(b.amazons_count(), size as usize);
                    assert!(b.trees_count() <= max_trees);
                    assert_eq!(b.find_threat(), None);
                    found_before = true;
                }
                // More trees allowed never lose a board.
                None => assert!(!found_before),
            }
        }
        assert_eq!(found_before, size != 2);
    }
}

#[test]
fn small_boards() {
    let b = find_board(0, 0).unwrap();
    assert_eq!(b.next_cell_to_fill(), Some((0, 0)));
    let b = find_board(1, 0).unwrap();
    assert_eq!(b.dump(""), "A \n\n\n");
    assert!(find_board(2, 4).is_none());
    assert!(find_board_minimize_trees(2).is_none());
    let b = find_board_minimize_trees(3).unwrap();
    assert_eq!(b.dump(""), "A T A \nT T . \nA x . \n\n\n");
    assert!(find_board(3, 2).is_none());
    let b = find_board_minimize_trees(4).unwrap();
    assert_eq!(b.trees_count(), 3);
    assert!(find_board(4, 2).is_none());
}

#[test]
fn search_leaves_the_board_alone_where_it_finds_nothing() {
    let mut b = Board::new(2);
    let before = b.duplicate();
    assert!(!search_from(&mut b, 4));
    assert!(b == before);
    let mut b = Board::new(4);
    assert!(search_from(&mut b, 3));
    assert!(b == find_board(4, 3).unwrap());
}
