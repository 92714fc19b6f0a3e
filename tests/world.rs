use ecs_store::column::{BorrowState, Column, EcsError};
use ecs_store::dynamic_components::{revive_named, run, Component, HEALTH, NAME};
use ecs_store::world::{ColumnHandle, World};

fn health(h: i32) -> Component {
    Component::Health(h)
}

fn name(s: &str) -> Component {
    Component::Name(s.to_string())
}

fn take(r: Option<Result<ColumnHandle, EcsError>>) -> ColumnHandle {
    match r {
        Some(Ok(h)) => h,
        _ => panic!("expected a handle"),
    }
}

fn scenario() -> World<Component> {
    let mut world = World::new();
    let icarus = world.new_entity();
    let prometheus = world.new_entity();
    let zeus = world.new_entity();
    assert_eq!(world.add_component_to_entity(icarus, HEALTH, health(-10)), Ok(()));
    assert_eq!(world.add_component_to_entity(icarus, NAME, name("Icarus")), Ok(()));
    assert_eq!(world.add_component_to_entity(prometheus, HEALTH, health(100)), Ok(()));
    assert_eq!(world.add_component_to_entity(prometheus, NAME, name("Prometheus")), Ok(()));
    assert_eq!(world.add_component_to_entity(zeus, NAME, name("Zeus")), Ok(()));
    world
}

#[test]
fn new_entity_counts_up() {
    let mut world: World<i32> = World::new();
    assert_eq!(world.entity_count(), 0);
    assert_eq!(world.new_entity(), 0);
    assert_eq!(world.new_entity(), 1);
    assert_eq!(world.new_entity(), 2);
    assert_eq!(world.entity_count(), 3);
}

#[test]
fn columns_track_entity_count() {
    let mut world: World<i32> = World::new();
    let e0 = world.new_entity();
    assert_eq!(world.add_component_to_entity(e0, 7, 5), Ok(()));
    for _ in 0..4 {
        world.new_entity();
    }
    assert_eq!(world.entity_count(), 5);
    let h = take(world.borrow_component_vec(7));
    assert_eq!(world.get(&h, 0), Some(&5));
    for e in 1..5 {
        assert_eq!(world.get(&h, e), None);
    }
    let all = world.join(&vec![h]);
    assert_eq!(all, vec![0]);
}

#[test]
fn unattached_kind_has_no_column() {
    let mut world: World<i32> = World::new();
    assert!(world.borrow_component_vec_mut(3).is_none());
    let e = world.new_entity();
    assert_eq!(world.add_component_to_entity(e, 1, 10), Ok(()));
    world.new_entity();
    assert!(world.borrow_component_vec_mut(3).is_none());
    assert!(world.borrow_component_vec(3).is_none());
}

#[test]
fn attach_then_read_round_trip() {
    let mut world: World<i32> = World::new();
    world.new_entity();
    let e = world.new_entity();
    assert_eq!(world.add_component_to_entity(e, 4, 42), Ok(()));
    let h = take(world.borrow_component_vec_mut(4));
    assert_eq!(world.get(&h, e), Some(&42));
    assert_eq!(world.get(&h, 0), None);
}

#[test]
fn reattach_overwrites() {
    let mut world: World<i32> = World::new();
    let e = world.new_entity();
    assert_eq!(world.add_component_to_entity(e, 4, 1), Ok(()));
    assert_eq!(world.add_component_to_entity(e, 4, 2), Ok(()));
    let h = take(world.borrow_component_vec(4));
    assert_eq!(world.get(&h, e), Some(&2));
}

#[test]
fn new_entity_after_columns_gets_absent_slots() {
    let mut world: World<i32> = World::new();
    let e0 = world.new_entity();
    assert_eq!(world.add_component_to_entity(e0, 1, 10), Ok(()));
    assert_eq!(world.add_component_to_entity(e0, 2, 20), Ok(()));
    let e1 = world.new_entity();
    assert_eq!(e1, 1);
    let a = take(world.borrow_component_vec(1));
    let b = take(world.borrow_component_vec(2));
    assert_eq!(world.get(&a, e1), None);
    assert_eq!(world.get(&b, e1), None);
    assert_eq!(world.get(&a, e0), Some(&10));
    assert_eq!(world.get(&b, e0), Some(&20));
}

#[test]
fn join_yields_entities_with_both() {
    let mut world: World<i32> = World::new();
    for _ in 0..5 {
        world.new_entity();
    }
    for e in [0usize, 2, 3] {
        assert_eq!(world.add_component_to_entity(e, 1, e as i32), Ok(()));
    }
    for e in [1usize, 3, 2] {
        assert_eq!(world.add_component_to_entity(e, 2, 10 * e as i32), Ok(()));
    }
    let a = take(world.borrow_component_vec(1));
    let b = take(world.borrow_component_vec(2));
    assert_eq!(world.join(&vec![a, b]), vec![2, 3]);
}

#[test]
fn join_health_and_name_scenario() {
    let mut world = scenario();
    let h = take(world.borrow_component_vec_mut(HEALTH));
    let n = take(world.borrow_component_vec_mut(NAME));
    let handles = vec![h, n];
    let joined = world.join(&handles);
    assert_eq!(joined, vec![0, 1]);
    let mut pairs: Vec<(i32, String)> = Vec::new();
    for e in joined {
        match (world.get(&handles[0], e), world.get(&handles[1], e)) {
            (Some(Component::Health(x)), Some(Component::Name(s))) => pairs.push((*x, s.clone())),
            _ => panic!("joined entity lacks a component"),
        }
    }
    assert_eq!(pairs, vec![(-10, "Icarus".to_string()), (100, "Prometheus".to_string())]);
}

#[test]
fn two_mutable_handles_same_column_conflict() {
    let mut world = scenario();
    let h = take(world.borrow_component_vec_mut(HEALTH));
    assert!(matches!(
        world.borrow_component_vec_mut(HEALTH),
        Some(Err(EcsError::BorrowConflict))
    ));
    let n = world.borrow_component_vec_mut(NAME);
    assert!(matches!(n, Some(Ok(_))));
    world.release(h);
    assert!(matches!(world.borrow_component_vec_mut(HEALTH), Some(Ok(_))));
}

#[test]
fn shared_handles_coexist_and_block_writers() {
    let mut world = scenario();
    let a = take(world.borrow_component_vec(NAME));
    let b = take(world.borrow_component_vec(NAME));
    assert!(!a.is_exclusive());
    assert_eq!(b.kind(), NAME);
    assert!(matches!(
        world.borrow_component_vec_mut(NAME),
        Some(Err(EcsError::BorrowConflict))
    ));
    world.release(a);
    assert!(matches!(
        world.borrow_component_vec_mut(NAME),
        Some(Err(EcsError::BorrowConflict))
    ));
    world.release(b);
    let w = take(world.borrow_component_vec_mut(NAME));
    assert!(w.is_exclusive());
    assert!(matches!(
        world.borrow_component_vec(NAME),
        Some(Err(EcsError::BorrowConflict))
    ));
}

#[test]
fn borrow_and_release_leaves_contents() {
    let mut world = scenario();
    let h = take(world.borrow_component_vec_mut(HEALTH));
    world.release(h);
    let h = take(world.borrow_component_vec(HEALTH));
    assert_eq!(world.entity_count(), 3);
    assert_eq!(world.get(&h, 0), Some(&health(-10)));
    assert_eq!(world.get(&h, 1), Some(&health(100)));
    assert_eq!(world.get(&h, 2), None);
}

#[test]
fn attach_out_of_range_entity() {
    let mut world: World<i32> = World::new();
    assert_eq!(world.add_component_to_entity(0, 1, 5), Err(EcsError::EntityOutOfRange));
    world.new_entity();
    assert_eq!(world.add_component_to_entity(1, 1, 5), Err(EcsError::EntityOutOfRange));
    assert!(world.borrow_component_vec(1).is_none());
}

#[test]
fn attach_to_borrowed_column_conflicts() {
    let mut world: World<i32> = World::new();
    let e = world.new_entity();
    assert_eq!(world.add_component_to_entity(e, 1, 5), Ok(()));
    let h = take(world.borrow_component_vec(1));
    assert_eq!(world.add_component_to_entity(e, 1, 6), Err(EcsError::BorrowConflict));
    world.release(h);
    assert_eq!(world.add_component_to_entity(e, 1, 6), Ok(()));
}

#[test]
fn set_through_exclusive_handle() {
    let mut world: World<i32> = World::new();
    world.new_entity();
    let e = world.new_entity();
    assert_eq!(world.add_component_to_entity(e, 1, 5), Ok(()));
    let h = take(world.borrow_component_vec_mut(1));
    world.set(&h, 0, Some(9));
    world.set(&h, e, None);
    assert_eq!(world.get(&h, 0), Some(&9));
    assert_eq!(world.get(&h, e), None);
    assert_eq!(world.join(&vec![h]), vec![0]);
}

#[test]
fn revive_named_restores_only_the_named() {
    let mut world = scenario();
    let p = world.new_entity();
    assert_eq!(world.add_component_to_entity(p, HEALTH, health(0)), Ok(()));
    assert_eq!(world.add_component_to_entity(p, NAME, name("Perseus")), Ok(()));
    let h = take(world.borrow_component_vec_mut(HEALTH));
    let n = take(world.borrow_component_vec(NAME));
    let handles = vec![h, n];
    revive_named(&mut world, &handles, &"Perseus".to_string());
    assert_eq!(world.get(&handles[0], 0), Some(&health(-10)));
    assert_eq!(world.get(&handles[0], 1), Some(&health(100)));
    assert_eq!(world.get(&handles[0], 2), None);
    assert_eq!(world.get(&handles[0], 3), Some(&health(100)));
}

#[test]
fn run_revives_perseus() {
    let mut world = run();
    assert_eq!(world.entity_count(), 4);
    let h = take(world.borrow_component_vec(HEALTH));
    assert_eq!(world.get(&h, 0), Some(&health(-10)));
    assert_eq!(world.get(&h, 1), Some(&health(100)));
    assert_eq!(world.get(&h, 2), None);
    assert_eq!(world.get(&h, 3), Some(&health(100)));
}

#[test]
fn column_erased_operations() {
    let mut c: Column<i32> = Column::new(3, 2);
    assert_eq!(c.len(), 2);
    assert!(c.type_matches(3));
    assert!(!c.type_matches(4));
    assert_eq!(c.kind(), 3);
    c.grow_by_one();
    assert_eq!(c.len(), 3);
    assert_eq!(c.get(2), None);
    c.set(1, Some(8));
    assert!(c.is_present(1));
    assert!(!c.is_present(0));
    assert_eq!(c.get(1), Some(&8));
}

#[test]
fn column_borrow_rules() {
    let mut c: Column<i32> = Column::new(3, 1);
    assert_eq!(c.borrow_mut(4), Err(EcsError::TypeMismatch));
    assert_eq!(c.borrow(4), Err(EcsError::TypeMismatch));
    assert_eq!(c.borrow_state(), BorrowState::Free);
    assert_eq!(c.borrow_mut(3), Ok(()));
    assert_eq!(c.borrow_state(), BorrowState::Exclusive);
    assert_eq!(c.borrow_mut(3), Err(EcsError::BorrowConflict));
    assert_eq!(c.borrow(3), Err(EcsError::BorrowConflict));
    c.release();
    assert_eq!(c.borrow(3), Ok(()));
    assert_eq!(c.borrow(3), Ok(()));
    assert_eq!(c.borrow_state(), BorrowState::Shared(2));
    assert_eq!(c.borrow_mut(3), Err(EcsError::BorrowConflict));
    c.release();
    assert_eq!(c.borrow_state(), BorrowState::Shared(1));
    c.release();
    assert_eq!(c.borrow_state(), BorrowState::Free);
}
