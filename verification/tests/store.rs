use snake::geometry::Position;
use snake::store::{Entity, EntityStore, Kind, Tag};

fn at(x: i32, y: i32) -> Position {
    Position { x, y }
}

#[test]
fn a_new_store_is_empty() {
    let store = EntityStore::new();
    assert_eq!(store.len(), 0);
    assert!(!store.contains(0));
    assert_eq!(store.get(0), None);
    assert_eq!(store.query(Tag::Food), Vec::<u64>::new());
}

#[test]
fn spawn_hands_out_identifiers_in_increasing_order() {
    let mut store = EntityStore::new();
    assert_eq!(store.spawn(Kind::Head, at(3, 3)), 0);
    assert_eq!(store.spawn(Kind::Body, at(3, 2)), 1);
    assert_eq!(store.spawn(Kind::Food, at(5, 5)), 2);
    assert_eq!(store.len(), 3);
}

#[test]
fn get_returns_what_was_spawned() {
    let mut store = EntityStore::new();
    let head = store.spawn(Kind::Head, at(3, 3));
    let food = store.spawn(Kind::Food, at(5, 6));
    assert_eq!(store.get(head), Some(Entity { kind: Kind::Head, position: at(3, 3) }));
    assert_eq!(store.get(food), Some(Entity { kind: Kind::Food, position: at(5, 6) }));
    assert_eq!(store.get_position(food), Some(at(5, 6)));
    assert_eq!(store.get(7), None);
    assert_eq!(store.get_position(7), None);
}

#[test]
fn set_position_moves_a_live_entity_and_keeps_its_kind() {
    let mut store = EntityStore::new();
    let head = store.spawn(Kind::Head, at(3, 3));
    let body = store.spawn(Kind::Body, at(3, 2));
    assert!(store.set_position(head, at(3, 4)));
    assert_eq!(store.get(head), Some(Entity { kind: Kind::Head, position: at(3, 4) }));
    assert_eq!(store.get(body), Some(Entity { kind: Kind::Body, position: at(3, 2) }));
}

#[test]
fn set_position_of_a_dead_identifier_changes_nothing() {
    let mut store = EntityStore::new();
    let head = store.spawn(Kind::Head, at(3, 3));
    assert!(!store.set_position(9, at(1, 1)));
    assert_eq!(store.len(), 1);
    assert_eq!(store.get_position(head), Some(at(3, 3)));
}

#[test]
fn despawn_takes_the_entity_out() {
    let mut store = EntityStore::new();
    let a = store.spawn(Kind::Food, at(1, 1));
    let b = store.spawn(Kind::Food, at(2, 2));
    let c = store.spawn(Kind::Food, at(3, 3));
    assert!(store.despawn(b));
    assert_eq!(store.len(), 2);
    assert!(store.contains(a));
    assert!(!store.contains(b));
    assert!(store.contains(c));
    assert_eq!(store.get_position(a), Some(at(1, 1)));
    assert_eq!(store.get_position(c), Some(at(3, 3)));
}

#[test]
fn despawn_of_a_dead_identifier_tells_so() {
    let mut store = EntityStore::new();
    let a = store.spawn(Kind::Food, at(1, 1));
    assert!(store.despawn(a));
    assert!(!store.despawn(a));
    assert!(!store.despawn(42));
    assert_eq!(store.len(), 0);
}

#[test]
fn identifiers_do_not_come_back() {
    let mut store = EntityStore::new();
    let a = store.spawn(Kind::Food, at(1, 1));
    let b = store.spawn(Kind::Food, at(2, 2));
    store.despawn(a);
    store.despawn(b);
    assert_eq!(store.spawn(Kind::Food, at(4, 4)), 2);
    assert!(!store.contains(a));
    assert!(!store.contains(b));
}

#[test]
fn query_finds_the_entities_that_carry_a_tag_in_order() {
    let mut store = EntityStore::new();
    let head = store.spawn(Kind::Head, at(3, 3));
    let food_a = store.spawn(Kind::Food, at(0, 0));
    let body_a = store.spawn(Kind::Body, at(3, 2));
    let food_b = store.spawn(Kind::Food, at(9, 9));
    let body_b = store.spawn(Kind::Body, at(3, 1));
    assert_eq!(store.query(Tag::SnakeHead), vec![head]);
    assert_eq!(store.query(Tag::SnakeSegment), vec![head, body_a, body_b]);
    assert_eq!(store.query(Tag::Food), vec![food_a, food_b]);
    store.despawn(food_a);
    store.despawn(body_a);
    assert_eq!(store.query(Tag::SnakeSegment), vec![head, body_b]);
    assert_eq!(store.query(Tag::Food), vec![food_b]);
}

#[test]
fn kinds_carry_their_tags() {
    assert!(Kind::Head.has(Tag::SnakeHead));
    assert!(Kind::Head.has(Tag::SnakeSegment));
    assert!(!Kind::Head.has(Tag::Food));
    assert!(!Kind::Body.has(Tag::SnakeHead));
    assert!(Kind::Body.has(Tag::SnakeSegment));
    assert!(!Kind::Body.has(Tag::Food));
    assert!(!Kind::Food.has(Tag::SnakeHead));
    assert!(!Kind::Food.has(Tag::SnakeSegment));
    assert!(Kind::Food.has(Tag::Food));
}

#[test]
fn kinds_have_their_extents() {
    assert_eq!(Kind::Head.extent(), 80);
    assert_eq!(Kind::Body.extent(), 65);
    assert_eq!(Kind::Food.extent(), 80);
}

#[test]
fn a_store_has_room_as_long_as_identifiers_are_left() {
    let mut store = EntityStore::new();
    assert!(store.has_room(0));
    assert!(store.has_room(1));
    assert!(store.has_room(u64::MAX));
    store.spawn(Kind::Food, at(0, 0));
    assert!(store.has_room(u64::MAX - 1));
    assert!(!store.has_room(u64::MAX));
}
