use catrap::block::Block;
use catrap::direction::Direction;
use catrap::error::{ParseError, StageError};
use catrap::stage::{Stage, HEIGHT, WIDTH};
use catrap::state::State;

fn lines_of(text: &str) -> Vec<&str> {
    text.lines().collect()
}

#[test]
fn glyphs_map_both_ways() {
    let pairs = [
        ('W', Block::Wall),
        ('*', Block::SandWall),
        ('F', Block::FallingGhost),
        ('G', Block::StillGhost),
        ('R', Block::Rock),
        ('=', Block::Stair),
        (' ', Block::Empty),
        ('@', Block::Hero),
    ];
    for (glyph, block) in pairs {
        assert_eq!(Block::from_char(glyph), Ok(block));
        assert_eq!(block.to_char(), glyph);
    }
}

#[test]
fn unknown_glyph_is_reported() {
    assert_eq!(Block::from_char('?'), Err(ParseError::UnknownGlyph('?')));
    let r = State::from_lines(vec!["WWW", "W?W"]);
    assert_eq!(r.err(), Some(ParseError::UnknownGlyph('?')));
}

#[test]
fn glyph_beyond_the_grid_is_reported() {
    let r = State::from_lines(vec!["WWWWWWWWWWWWW"]);
    assert_eq!(r.err(), Some(ParseError::OutsideGrid(0, 12)));
    let mut rows = vec!["W"; 12];
    rows.push("");
    assert!(State::from_lines(rows.clone()).is_ok());
    rows.push("W");
    assert_eq!(
        State::from_lines(rows).err(),
        Some(ParseError::OutsideGrid(13, 0))
    );
}

#[test]
fn first_error_in_reading_order_wins() {
    let r = State::from_lines(vec!["WWWWWWWWWWWW?", "?"]);
    assert_eq!(r.err(), Some(ParseError::UnknownGlyph('?')));
    let r = State::from_lines(vec!["WWWWWWWWWWWWW", "?"]);
    assert_eq!(r.err(), Some(ParseError::OutsideGrid(0, 12)));
}

#[test]
fn block_predicates() {
    assert!(Block::is_empty(Block::Empty));
    assert!(!Block::is_empty(Block::Hero));
    assert!(Block::is_fall(Block::Rock));
    assert!(Block::is_fall(Block::FallingGhost));
    assert!(Block::is_fall(Block::Hero));
    assert!(!Block::is_fall(Block::StillGhost));
    assert!(!Block::is_fall(Block::Stair));
    assert!(Block::is_ghost(Block::StillGhost));
    assert!(Block::is_ghost(Block::FallingGhost));
    assert!(!Block::is_ghost(Block::Rock));
    assert!(Block::is_hero(Block::Hero));
    assert!(!Block::is_hero(Block::Empty));
    assert_eq!(Block::default(), Block::Wall);
}

#[test]
fn directions() {
    assert_eq!(Direction::Up.move_point(&(3, 3)), (3, 2));
    assert_eq!(Direction::Down.move_point(&(3, 3)), (3, 4));
    assert_eq!(Direction::Left.move_point(&(3, 3)), (2, 3));
    assert_eq!(Direction::Right.move_point(&(3, 3)), (4, 3));
    assert!(Direction::Left.is_horizontal());
    assert!(Direction::Right.is_horizontal());
    assert!(!Direction::Up.is_horizontal());
    assert!(!Direction::Down.is_horizontal());
    assert_eq!(
        Direction::iterator(),
        [
            Direction::Up,
            Direction::Down,
            Direction::Left,
            Direction::Right
        ]
    );
}

#[test]
fn stage_reads_walls_beyond_its_bounds() {
    let mut stage = Stage::new();
    assert_eq!(stage.width(), WIDTH);
    assert_eq!(stage.height(), HEIGHT);
    assert_eq!(stage.set_block_at(&(2, 5), Block::Rock), Ok(()));
    assert_eq!(stage.block_at(&(2, 5)), Block::Rock);
    assert_eq!(stage.block_at(&(5, 2)), Block::Wall);
    assert_eq!(stage.set_block_at(&(0, 0), Block::Empty), Ok(()));
    assert_eq!(stage.block_at(&(-1, 0)), Block::Wall);
    assert_eq!(stage.block_at(&(0, -1)), Block::Wall);
    assert_eq!(stage.block_at(&(12, 0)), Block::Wall);
    assert_eq!(stage.block_at(&(0, 12)), Block::Wall);
    assert!(stage.outside(&(12, 11)));
    assert!(!stage.outside(&(11, 11)));
}

#[test]
fn stage_refuses_hero_and_points_beyond() {
    let mut stage = Stage::new();
    let before = stage;
    assert_eq!(
        stage.set_block_at(&(1, 1), Block::Hero),
        Err(StageError::HeroNotStorable)
    );
    assert_eq!(
        stage.set_block_at(&(12, 1), Block::Rock),
        Err(StageError::OutOfBounds)
    );
    assert_eq!(
        stage.set_block_at(&(-1, 1), Block::Hero),
        Err(StageError::HeroNotStorable)
    );
    assert!(stage == before);
}

#[test]
fn heroes_are_an_overlay() {
    let state = State::from_lines(vec!["WWWWW", "W@ GW", "WWWWW"]).unwrap();
    assert_eq!(state.heroes_count(), 1);
    assert_eq!(state.hero(0), (1, 1));
    assert_eq!(state.hero_index_at(&(1, 1)), Some(0));
    assert_eq!(state.hero_index_at(&(2, 1)), None);
    assert_eq!(state.block_at(&(1, 1)), Block::Hero);
    assert_eq!(state.ground_at(&(1, 1)), Block::Empty);
    for y in -1..13 {
        for x in -1..13 {
            if (x, y) != (1, 1) {
                assert_eq!(state.block_at(&(x, y)), state.ground_at(&(x, y)));
                assert_ne!(state.ground_at(&(x, y)), Block::Hero);
            }
        }
    }
    assert_eq!(state.copy_stage().block_at(&(1, 1)), Block::Empty);
    assert_eq!(state.width(), 12);
    assert_eq!(state.height(), 12);
}

#[test]
fn hero_on_a_stair_shows_the_stair() {
    let state = State::from_lines(vec!["W W", "W@W", "W=W", "WWW"]).unwrap();
    let state = state.next_state(0, Direction::Down).unwrap();
    assert_eq!(state.hero(0), (1, 2));
    assert_eq!(state.block_at(&(1, 2)), Block::Stair);
    assert_eq!(state.ground_at(&(1, 2)), Block::Stair);
    let text = state.dump();
    assert_eq!(lines_of(&text)[2], "W@WWWWWWWWWW");
    // Standing on a stair, the hero may step up; the stair then carries it.
    let up = state.next_state(0, Direction::Up).unwrap();
    assert_eq!(up.hero(0), (1, 1));
    assert_eq!(up.block_at(&(1, 1)), Block::Hero);
}

#[test]
fn dump_draws_the_whole_grid() {
    let state = State::from_lines(vec!["W*FGR= @"]).unwrap();
    let text = state.dump();
    let mut expected = String::new();
    expected.push_str("W*FGR= @WWWW\n");
    for _ in 1..12 {
        expected.push_str("WWWWWWWWWWWW\n");
    }
    expected.push_str("\n\n");
    assert_eq!(text, expected);
}

#[test]
fn round_trip_keeps_grid_heroes_and_counter() {
    let level = vec![
        "WWWWWWWWW",
        "W @R  G W",
        "W F* =@ W",
        "WWWW WWWW",
    ];
    let state = State::from_lines(level).unwrap();
    let text = state.dump();
    let again = State::from_lines(lines_of(&text)).unwrap();
    assert!(again == state);
    assert_eq!(again.ghosts_count(), 2);
    assert_eq!(again.hero(0), (2, 1));
    assert_eq!(again.hero(1), (6, 2));
    assert_eq!(again.dump(), text);
}

#[test]
fn round_trip_loses_the_stair_under_a_hero() {
    let state = State::from_lines(vec!["W W", "W@W", "W=W", "WWW"]).unwrap();
    let state = state.next_state(0, Direction::Down).unwrap();
    let text = state.dump();
    let again = State::from_lines(lines_of(&text)).unwrap();
    assert_eq!(again.hero(0), state.hero(0));
    assert_eq!(again.ground_at(&(1, 2)), Block::Empty);
    assert_eq!(state.ground_at(&(1, 2)), Block::Stair);
    assert_eq!(again.ghosts_count(), state.ghosts_count());
}

#[test]
fn duplicate_is_equal_and_independent() {
    let state = State::from_lines(vec!["WWWWW", "W@ GW", "WWWWW"]).unwrap();
    let mut copy = state.duplicate();
    assert!(copy == state);
    copy.free_fall_column(&(2, 1));
    assert!(copy == state);
    let moved = state.next_state(0, Direction::Right).unwrap();
    assert!(moved != state);
    assert_eq!(state.hero(0), (1, 1));
}
