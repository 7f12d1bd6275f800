use vim_snake::entity::{
    Entity, EntityTable, Role, Size, FOOD_EXTENT, HEAD_EXTENT, SEGMENT_EXTENT,
};
use vim_snake::grid::{Direction, Position};
use vim_snake::heading::SnakeHead;

fn at(x: i32, y: i32) -> Position {
    Position { x, y }
}

#[test]
fn square_has_equal_sides() {
    assert_eq!(Size::square(80), Size { width: 80, height: 80 });
    assert_eq!(Size::square(0), Size { width: 0, height: 0 });
    assert_eq!(Size::square(65).width, Size::square(65).height);
}

#[test]
fn extents_are_in_hundredths_of_a_cell() {
    assert_eq!(HEAD_EXTENT, 80);
    assert_eq!(SEGMENT_EXTENT, 65);
    assert_eq!(FOOD_EXTENT, 80);
}

#[test]
fn head_record_holds_its_headings() {
    let h = SnakeHead::heading(Direction::Up);
    let e = Entity::head(at(10, 20), h);
    assert_eq!(e.position, at(10, 20));
    assert_eq!(e.size, Size::square(80));
    assert_eq!(e.role, Role::Head(h));
}

#[test]
fn segment_record_is_smaller() {
    let e = Entity::segment(at(10, 19));
    assert_eq!(e, Entity { position: at(10, 19), size: Size::square(65), role: Role::Segment });
}

#[test]
fn food_record() {
    let e = Entity::food(at(3, 4));
    assert_eq!(e, Entity { position: at(3, 4), size: Size::square(80), role: Role::Food });
}

#[test]
fn new_table_is_empty() {
    let t = EntityTable::new();
    assert_eq!(t.slot_count(), 0);
    assert_eq!(t.get(0), None);
}

#[test]
fn spawn_hands_out_ascending_identifiers() {
    let mut t = EntityTable::new();
    assert_eq!(t.spawn(Entity::food(at(1, 1))), 0);
    assert_eq!(t.spawn(Entity::food(at(2, 2))), 1);
    assert_eq!(t.spawn(Entity::food(at(3, 3))), 2);
    assert_eq!(t.slot_count(), 3);
    assert_eq!(t.get(1), Some(Entity::food(at(2, 2))));
}

#[test]
fn spawn_never_hands_an_identifier_out_twice() {
    let mut t = EntityTable::new();
    for i in 0..4 {
        t.spawn(Entity::food(at(i, i)));
    }
    t.despawn(2);
    t.despawn(1);
    assert_eq!(t.spawn(Entity::segment(at(9, 9))), 4);
    assert_eq!(t.spawn(Entity::segment(at(8, 8))), 5);
    t.despawn(5);
    assert_eq!(t.spawn(Entity::segment(at(7, 7))), 6);
    assert_eq!(t.get(1), None);
    assert_eq!(t.get(2), None);
    assert_eq!(t.get(5), None);
    assert_eq!(t.get(3), Some(Entity::food(at(3, 3))));
    assert_eq!(t.get(4), Some(Entity::segment(at(9, 9))));
    assert_eq!(t.slot_count(), 7);
}

#[test]
fn despawn_removes_only_the_named_entity() {
    let mut t = EntityTable::new();
    t.spawn(Entity::food(at(1, 1)));
    t.spawn(Entity::food(at(2, 2)));
    t.despawn(0);
    assert_eq!(t.get(0), None);
    assert_eq!(t.get(1), Some(Entity::food(at(2, 2))));
}

#[test]
fn despawn_of_an_unknown_identifier_is_ignored() {
    let mut t = EntityTable::new();
    t.spawn(Entity::food(at(1, 1)));
    let before = t.clone();
    t.despawn(5);
    assert_eq!(t, before);
}

#[test]
fn replace_changes_a_live_record() {
    let mut t = EntityTable::new();
    t.spawn(Entity::segment(at(1, 1)));
    t.replace(0, Entity::segment(at(1, 2)));
    assert_eq!(t.get(0), Some(Entity::segment(at(1, 2))));
}

#[test]
fn replace_ignores_a_dead_identifier() {
    let mut t = EntityTable::new();
    t.spawn(Entity::segment(at(1, 1)));
    t.spawn(Entity::segment(at(2, 2)));
    t.despawn(0);
    let before = t.clone();
    t.replace(0, Entity::food(at(5, 5)));
    t.replace(7, Entity::food(at(5, 5)));
    assert_eq!(t, before);
}

#[test]
fn clear_destroys_everything() {
    let mut t = EntityTable::new();
    t.spawn(Entity::food(at(1, 1)));
    t.spawn(Entity::food(at(2, 2)));
    t.clear();
    assert_eq!(t.get(0), None);
    assert_eq!(t.get(1), None);
}

#[test]
fn clear_keeps_the_identifiers_taken() {
    let mut t = EntityTable::new();
    t.spawn(Entity::food(at(1, 1)));
    t.spawn(Entity::food(at(2, 2)));
    t.clear();
    assert_eq!(t.slot_count(), 2);
    assert_eq!(t.spawn(Entity::food(at(3, 3))), 2);
    assert_eq!(t.get(2), Some(Entity::food(at(3, 3))));
    t.clear();
    t.clear();
    assert_eq!(t.spawn(Entity::food(at(4, 4))), 3);
}
