use snake::geometry::Direction;
use snake::input::{resolve_heading, PressedKeys};

const ALL: [Direction; 4] = [Direction::Left, Direction::Right, Direction::Up, Direction::Down];

fn keys(left: bool, right: bool, down: bool, up: bool) -> PressedKeys {
    PressedKeys { left, right, down, up }
}

fn only(d: Direction) -> PressedKeys {
    keys(
        d == Direction::Left,
        d == Direction::Right,
        d == Direction::Down,
        d == Direction::Up,
    )
}

#[test]
fn no_key_keeps_the_heading() {
    for d in ALL {
        assert_eq!(keys(false, false, false, false).candidate(d), d);
        assert_eq!(resolve_heading(d, keys(false, false, false, false)), d);
    }
}

#[test]
fn left_wins_over_every_other_key() {
    assert_eq!(keys(true, true, true, true).candidate(Direction::Up), Direction::Left);
    assert_eq!(keys(true, false, true, false).candidate(Direction::Up), Direction::Left);
    assert_eq!(resolve_heading(Direction::Up, keys(true, true, true, true)), Direction::Left);
}

#[test]
fn right_wins_over_down_and_up() {
    assert_eq!(keys(false, true, true, true).candidate(Direction::Down), Direction::Right);
    assert_eq!(resolve_heading(Direction::Down, keys(false, true, true, true)), Direction::Right);
}

#[test]
fn down_wins_over_up() {
    assert_eq!(keys(false, false, true, true).candidate(Direction::Left), Direction::Down);
    assert_eq!(resolve_heading(Direction::Left, keys(false, false, true, true)), Direction::Down);
}

#[test]
fn up_alone_turns_up() {
    assert_eq!(keys(false, false, false, true).candidate(Direction::Left), Direction::Up);
    assert_eq!(resolve_heading(Direction::Right, keys(false, false, false, true)), Direction::Up);
}

#[test]
fn reversal_is_rejected_for_every_heading() {
    for d in ALL {
        assert_eq!(resolve_heading(d, only(d.opposite())), d);
    }
}

#[test]
fn the_key_of_the_current_heading_keeps_it() {
    for d in ALL {
        assert_eq!(resolve_heading(d, only(d)), d);
    }
}

#[test]
fn a_quarter_turn_is_taken() {
    assert_eq!(resolve_heading(Direction::Up, only(Direction::Left)), Direction::Left);
    assert_eq!(resolve_heading(Direction::Up, only(Direction::Right)), Direction::Right);
    assert_eq!(resolve_heading(Direction::Left, only(Direction::Down)), Direction::Down);
    assert_eq!(resolve_heading(Direction::Right, only(Direction::Up)), Direction::Up);
}

#[test]
fn a_rejected_reversal_hides_the_keys_of_lower_rank() {
    // Left is asked for first; heading right it is a reversal, and up is never looked at.
    assert_eq!(resolve_heading(Direction::Right, keys(true, false, false, true)), Direction::Right);
    // Heading right with left and right both held down: left is asked for and rejected.
    assert_eq!(resolve_heading(Direction::Right, keys(true, true, false, false)), Direction::Right);
}

#[test]
fn the_resolved_heading_is_never_the_opposite() {
    for d in ALL {
        for bits in 0..16u8 {
            let k = keys(bits & 1 != 0, bits & 2 != 0, bits & 4 != 0, bits & 8 != 0);
            assert_ne!(resolve_heading(d, k), d.opposite());
        }
    }
}
