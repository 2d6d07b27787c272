use snake::geometry::{wrap, Arena, Direction, Position, ARENA_HEIGHT, ARENA_WIDTH};

fn ten_by_ten() -> Arena {
    Arena::new(10, 10).unwrap()
}

#[test]
fn opposite_swaps_left_and_right() {
    assert_eq!(Direction::Left.opposite(), Direction::Right);
    assert_eq!(Direction::Right.opposite(), Direction::Left);
}

#[test]
fn opposite_swaps_up_and_down() {
    assert_eq!(Direction::Up.opposite(), Direction::Down);
    assert_eq!(Direction::Down.opposite(), Direction::Up);
}

#[test]
fn opposite_twice_is_the_same_heading() {
    for d in [Direction::Left, Direction::Right, Direction::Up, Direction::Down] {
        assert_eq!(d.opposite().opposite(), d);
        assert_ne!(d.opposite(), d);
    }
}

#[test]
fn wrap_below_zero_gives_the_last_coordinate() {
    assert_eq!(wrap(-1, 10), 9);
    assert_eq!(wrap(-7, 10), 9);
    assert_eq!(wrap(-1, 1), 0);
}

#[test]
fn wrap_at_or_above_the_bound_gives_zero() {
    assert_eq!(wrap(10, 10), 0);
    assert_eq!(wrap(25, 10), 0);
    assert_eq!(wrap(1, 1), 0);
}

#[test]
fn wrap_inside_leaves_the_coordinate() {
    for c in 0..10 {
        assert_eq!(wrap(c, 10), c);
    }
}

#[test]
fn default_arena_is_ten_by_ten() {
    assert_eq!(ARENA_WIDTH, 10);
    assert_eq!(ARENA_HEIGHT, 10);
    assert_eq!(Arena::default(), Arena { width: 10, height: 10 });
}

#[test]
fn arena_new_rejects_a_side_that_is_not_positive() {
    assert_eq!(Arena::new(0, 10), None);
    assert_eq!(Arena::new(10, 0), None);
    assert_eq!(Arena::new(-3, 4), None);
    assert_eq!(Arena::new(1, 1), Some(Arena { width: 1, height: 1 }));
    assert_eq!(Arena::new(7, 4), Some(Arena { width: 7, height: 4 }));
}

#[test]
fn arena_holds_exactly_its_cells() {
    let arena = Arena::new(7, 4).unwrap();
    assert!(arena.holds(Position { x: 0, y: 0 }));
    assert!(arena.holds(Position { x: 6, y: 3 }));
    assert!(!arena.holds(Position { x: 7, y: 3 }));
    assert!(!arena.holds(Position { x: 6, y: 4 }));
    assert!(!arena.holds(Position { x: -1, y: 0 }));
    assert!(!arena.holds(Position { x: 0, y: -1 }));
}

#[test]
fn advance_off_the_left_edge_wraps_to_the_right_edge() {
    let arena = ten_by_ten();
    for y in 0..10 {
        assert_eq!(
            arena.advance(Position { x: 0, y }, Direction::Left),
            Position { x: 9, y }
        );
    }
}

#[test]
fn advance_off_the_right_edge_wraps_to_the_left_edge() {
    let arena = ten_by_ten();
    for y in 0..10 {
        assert_eq!(
            arena.advance(Position { x: 9, y }, Direction::Right),
            Position { x: 0, y }
        );
    }
}

#[test]
fn advance_off_the_top_edge_wraps_to_the_bottom_edge() {
    let arena = ten_by_ten();
    for x in 0..10 {
        assert_eq!(
            arena.advance(Position { x, y: 9 }, Direction::Up),
            Position { x, y: 0 }
        );
    }
}

#[test]
fn advance_off_the_bottom_edge_wraps_to_the_top_edge() {
    let arena = ten_by_ten();
    for x in 0..10 {
        assert_eq!(
            arena.advance(Position { x, y: 0 }, Direction::Down),
            Position { x, y: 9 }
        );
    }
}

#[test]
fn advance_wraps_by_the_side_of_its_own_axis() {
    let arena = Arena::new(7, 4).unwrap();
    assert_eq!(arena.advance(Position { x: 0, y: 2 }, Direction::Left), Position { x: 6, y: 2 });
    assert_eq!(arena.advance(Position { x: 6, y: 2 }, Direction::Right), Position { x: 0, y: 2 });
    assert_eq!(arena.advance(Position { x: 5, y: 3 }, Direction::Up), Position { x: 5, y: 0 });
    assert_eq!(arena.advance(Position { x: 5, y: 0 }, Direction::Down), Position { x: 5, y: 3 });
}

#[test]
fn advance_inside_moves_by_one_cell() {
    let arena = ten_by_ten();
    let p = Position { x: 4, y: 6 };
    assert_eq!(arena.advance(p, Direction::Left), Position { x: 3, y: 6 });
    assert_eq!(arena.advance(p, Direction::Right), Position { x: 5, y: 6 });
    assert_eq!(arena.advance(p, Direction::Up), Position { x: 4, y: 7 });
    assert_eq!(arena.advance(p, Direction::Down), Position { x: 4, y: 5 });
}

#[test]
fn advance_stays_on_the_grid_from_every_cell() {
    let arena = Arena::new(3, 5).unwrap();
    for x in 0..3 {
        for y in 0..5 {
            for d in [Direction::Left, Direction::Right, Direction::Up, Direction::Down] {
                assert!(arena.holds(arena.advance(Position { x, y }, d)));
            }
        }
    }
}

#[test]
fn advance_on_a_grid_of_one_cell_stays_in_it() {
    let arena = Arena::new(1, 1).unwrap();
    let only = Position { x: 0, y: 0 };
    for d in [Direction::Left, Direction::Right, Direction::Up, Direction::Down] {
        assert_eq!(arena.advance(only, d), only);
    }
}
