use ecs_engine::registry::TypeRegistry;
use ecs_engine::storage::ComponentHolder;
use ecs_engine::system::{ComponentEvent, ComponentEventKind, ALL_COMPONENTS, ECS_MAX_COMPONENTS};
use ecs_engine::world::World;

const A: usize = 0;
const B: usize = 1;

fn detach_all_count(world: &World, e: usize) -> usize {
    world
        .delivered_events()
        .iter()
        .filter(|ev| ev.entity_id == e && ev.component_id == ALL_COMPONENTS)
        .count()
}

#[test]
fn type_ids_are_stable_and_distinct() {
    let mut reg = TypeRegistry::new(ECS_MAX_COMPONENTS);
    let a = reg.id_of(0xA);
    let b = reg.id_of(0xB);
    assert_eq!(a, 0);
    assert_eq!(b, 1);
    assert_eq!(reg.id_of(0xA), a);
    assert_eq!(reg.id_of(0xB), b);
    assert_ne!(a, b);
    assert_eq!(reg.len(), 2);
    assert_eq!(reg.lookup(0xB), Some(1));
    assert_eq!(reg.lookup(0xC), None);
}

#[test]
fn entity_ids_are_recycled() {
    let mut world = World::new();
    let e0 = world.create_entity();
    let e1 = world.create_entity();
    let e2 = world.create_entity();
    assert_eq!((e0, e1, e2), (0, 1, 2));
    world.remove_entity(&1);
    assert!(world.is_alive(&1));
    world.update();
    assert!(!world.is_alive(&1));
    assert!(world.is_alive(&0) && world.is_alive(&2));
    let e = world.create_entity();
    assert_eq!(e, 1);
    assert!(world.is_alive(&1));
    assert!(world.is_alive(&0) && world.is_alive(&2));
    assert_eq!(world.create_entity(), 3);
}

#[test]
fn membership_follows_masks() {
    let mut world = World::new();
    world.register_system(7, &vec![A, B]);
    let mut store_a: ComponentHolder<i32> = ComponentHolder::new(A);
    let mut store_b: ComponentHolder<u8> = ComponentHolder::new(B);
    let e = world.create_entity();
    world.add_component(&mut store_a, &e, 5);
    world.update();
    assert!(!world.get_system_base(7).unwrap().contains_entity(e));
    world.add_component(&mut store_b, &e, 9);
    world.update();
    assert!(world.get_system_base(7).unwrap().contains_entity(e));
    assert_eq!(world.get_system_base(7).unwrap().len_entities(), 1);
    world.remove_component(&e, A);
    assert!(world.has_component(&e, A));
    world.update();
    assert!(!world.has_component(&e, A));
    assert!(!world.get_system_base(7).unwrap().contains_entity(e));
}

#[test]
fn membership_waits_for_flush() {
    let mut world = World::new();
    world.register_system(1, &vec![A]);
    let mut store: ComponentHolder<i32> = ComponentHolder::new(A);
    let e = world.create_entity();
    world.add_component(&mut store, &e, 1);
    assert_eq!(world.get_system_base(1).unwrap().len_entities(), 0);
    world.update();
    assert_eq!(world.get_system_base(1).unwrap().len_entities(), 1);
}

#[test]
fn removal_is_deferred_to_next_update() {
    let mut world = World::new();
    world.register_system(1, &vec![A]);
    let mut store: ComponentHolder<i32> = ComponentHolder::new(A);
    let mut entities = Vec::new();
    for i in 0..3 {
        let e = world.create_entity();
        world.add_component(&mut store, &e, i);
        entities.push(e);
    }
    world.update();
    let before = world.get_system_base(1).unwrap().len_entities();
    assert_eq!(before, 3);
    let members: Vec<usize> = world.get_system_base(1).unwrap().iter_entities().clone();
    for e in members.iter() {
        world.remove_entity(e);
        assert_eq!(world.get_system_base(1).unwrap().len_entities(), before);
    }
    world.update();
    assert_eq!(world.get_system_base(1).unwrap().len_entities(), 0);
}

#[test]
fn destruction_sends_one_detach_all_event() {
    let mut world = World::new();
    world.register_system(10, &vec![A]);
    world.register_system(11, &vec![B]);
    let mut store_a: ComponentHolder<i32> = ComponentHolder::new(A);
    let mut store_b: ComponentHolder<i32> = ComponentHolder::new(B);
    let e = world.create_entity();
    world.add_component(&mut store_a, &e, 1);
    world.add_component(&mut store_b, &e, 2);
    world.update();
    assert!(world.get_system_base(10).unwrap().contains_entity(e));
    assert!(world.get_system_base(11).unwrap().contains_entity(e));
    world.remove_entity(&e);
    world.update();
    assert!(!world.get_system_base(10).unwrap().contains_entity(e));
    assert!(!world.get_system_base(11).unwrap().contains_entity(e));
    assert_eq!(detach_all_count(&world, e), 1);
    assert_eq!(world.delivered_events().len(), 1);
    assert_eq!(
        world.delivered_events()[0],
        ComponentEvent { component_id: ALL_COMPONENTS, entity_id: e, kind: ComponentEventKind::Detached }
    );
}

#[test]
fn flush_delivers_detachments_then_attachments_then_destructions() {
    let mut world = World::new();
    let mut store_a: ComponentHolder<i32> = ComponentHolder::new(A);
    let mut store_b: ComponentHolder<i32> = ComponentHolder::new(B);
    let e = world.create_entity();
    let f = world.create_entity();
    world.add_component(&mut store_a, &e, 1);
    world.update();
    world.remove_entity(&f);
    world.add_component(&mut store_b, &e, 2);
    world.remove_component(&e, A);
    world.update();
    let kinds: Vec<(usize, usize, ComponentEventKind)> = world
        .delivered_events()
        .iter()
        .map(|ev| (ev.entity_id, ev.component_id, ev.kind))
        .collect();
    assert_eq!(
        kinds,
        vec![
            (e, A, ComponentEventKind::Detached),
            (e, B, ComponentEventKind::Attached),
            (f, ALL_COMPONENTS, ComponentEventKind::Detached),
        ]
    );
}

#[test]
fn components_are_read_and_written_through_the_world() {
    let mut world = World::new();
    let mut store: ComponentHolder<i64> = ComponentHolder::new(A);
    let e = world.create_entity();
    assert!(world.get_component(&store, &e).is_none());
    world.add_component(&mut store, &e, 40);
    assert_eq!(world.get_component(&store, &e), Some(&40));
    if let Some(v) = world.get_component_mut(&mut store, &e) {
        *v += 2;
    }
    assert_eq!(world.get_component(&store, &e), Some(&42));
    assert_eq!(*store.get_component(&e), 42);
    let other = world.create_entity();
    assert!(world.get_component_mut(&mut store, &other).is_none());
}

#[test]
fn removing_an_absent_component_queues_nothing() {
    let mut world = World::new();
    world.register_system(1, &vec![]);
    let e = world.create_entity();
    world.remove_component(&e, B);
    world.update();
    assert!(world.delivered_events().is_empty());
}

#[test]
fn reset_empties_the_world() {
    let mut world = World::new();
    world.register_system(1, &vec![A]);
    let mut store: ComponentHolder<i32> = ComponentHolder::new(A);
    let e = world.create_entity();
    let f = world.create_entity();
    world.add_component(&mut store, &e, 1);
    world.update();
    world.remove_entity(&f);
    world.reset();
    assert!(!world.is_alive(&e) && !world.is_alive(&f));
    assert_eq!(world.len_entities(), 0);
    assert!(!world.has_component(&e, A));
    assert_eq!(world.get_system_base(1).unwrap().len_entities(), 0);
    assert_eq!(detach_all_count(&world, e), 1);
    assert_eq!(world.create_entity(), 0);
}

#[test]
fn store_slots_start_with_default_values() {
    let mut store: ComponentHolder<u32> = ComponentHolder::new(3);
    assert!(!store.is_init());
    store.init();
    assert!(store.is_init());
    assert_eq!(*store.get_component(&9999), 0);
    store.add_component(&5, 11);
    assert_eq!(*store.get_component(&5), 11);
    *store.get_component_mut(&5) = 12;
    assert_eq!(*store.get_component(&5), 12);
    assert_eq!(store.id(), 3);
}

#[test]
fn a_system_registered_later_picks_up_matching_entities() {
    let mut world = World::new();
    let mut store: ComponentHolder<i32> = ComponentHolder::new(A);
    world.register_system(4, &vec![A]);
    let e = world.create_entity();
    let f = world.create_entity();
    world.add_component(&mut store, &e, 1);
    world.update();
    assert_eq!(world.get_system_base(4).unwrap().len_entities(), 1);
    world.register_system(4, &vec![A]);
    assert_eq!(world.get_system_base(4).unwrap().iter_entities().clone(), vec![e]);
    world.register_system(6, &vec![A, B]);
    assert_eq!(world.get_system_base(6).unwrap().len_entities(), 0);
    assert_eq!(world.find_system(4), Some(0));
    assert!(world.get_system_base(5).is_none());
    assert!(world.is_alive(&f));
}

#[test]
fn detaching_an_unrequired_component_keeps_membership() {
    let mut world = World::new();
    world.register_system(1, &vec![A]);
    let mut store_a: ComponentHolder<i32> = ComponentHolder::new(A);
    let mut store_b: ComponentHolder<i32> = ComponentHolder::new(B);
    let e = world.create_entity();
    world.add_component(&mut store_a, &e, 1);
    world.add_component(&mut store_b, &e, 2);
    world.update();
    assert!(world.get_system_base(1).unwrap().contains_entity(e));
    world.remove_component(&e, B);
    world.update();
    assert!(world.is_alive(&e) && world.has_component(&e, A) && !world.has_component(&e, B));
    assert!(world.get_system_base(1).unwrap().contains_entity(e));
    world.remove_component(&e, A);
    world.update();
    assert!(!world.get_system_base(1).unwrap().contains_entity(e));
}

#[test]
fn repeated_detachment_is_delivered_once() {
    let mut world = World::new();
    let mut store: ComponentHolder<i32> = ComponentHolder::new(A);
    let e = world.create_entity();
    world.add_component(&mut store, &e, 1);
    world.update();
    world.remove_component(&e, A);
    world.remove_component(&e, A);
    world.update();
    assert_eq!(
        world.delivered_events().clone(),
        vec![ComponentEvent { component_id: A, entity_id: e, kind: ComponentEventKind::Detached }]
    );
    assert_eq!(ALL_COMPONENTS, usize::MAX);
}

#[test]
fn removing_a_dead_entity_changes_nothing() {
    let mut world = World::new();
    let e = world.create_entity();
    world.remove_entity(&e);
    world.remove_entity(&e);
    world.remove_entity(&12);
    world.update();
    assert_eq!(detach_all_count(&world, e), 1);
    assert_eq!(world.delivered_events().len(), 1);
    assert_eq!(world.create_entity(), e);
    assert_eq!(world.create_entity(), 1);
}

#[test]
fn system_with_several_members_loses_only_the_destroyed_one() {
    let mut world = World::new();
    world.register_system(3, &vec![A]);
    let mut store: ComponentHolder<i32> = ComponentHolder::new(A);
    let e = world.create_entity();
    let f = world.create_entity();
    world.add_component(&mut store, &e, 1);
    world.add_component(&mut store, &f, 2);
    world.update();
    world.remove_entity(&e);
    world.update();
    let system = world.get_system_base(3).unwrap();
    assert_eq!(system.iter_entities().clone(), vec![f]);
    assert_eq!(system.id(), 3);
}
