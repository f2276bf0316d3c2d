use ecs_engine::scheduler::SystemHolder;
use ecs_engine::states::{refresh_systems, StateDispatcher, StateWithSystems};
use ecs_engine::world::World;

const GRAPHICS: usize = 0;
const INPUT: usize = 1;
const PHYSICS: usize = 2;

fn setup() -> (World, SystemHolder) {
    let mut world = World::new();
    let mut holder = SystemHolder::new();
    holder.add_system(&mut world, GRAPHICS, &vec![0]);
    holder.add_system(&mut world, INPUT, &vec![1]);
    holder.add_system(&mut world, PHYSICS, &vec![2]);
    (world, holder)
}

#[test]
fn transition_diffs_system_masks() {
    let (mut world, mut holder) = setup();
    let s1 = StateWithSystems::new(1, &vec![GRAPHICS, INPUT]);
    let s2 = StateWithSystems::new(2, &vec![GRAPHICS, PHYSICS]);
    let (enabled, disabled) = refresh_systems(&mut holder, &mut world, None, &s1);
    assert_eq!(enabled, vec![GRAPHICS, INPUT]);
    assert!(disabled.is_empty());
    assert_eq!(holder.active_systems(), vec![GRAPHICS, INPUT]);
    let (enabled, disabled) = refresh_systems(&mut holder, &mut world, Some(&s1), &s2);
    assert_eq!(enabled, vec![PHYSICS]);
    assert_eq!(disabled, vec![INPUT]);
    assert_eq!(holder.active_systems(), vec![GRAPHICS, PHYSICS]);
}

#[test]
fn stack_enters_and_leaves_states() {
    let (mut world, mut holder) = setup();
    let mut states = StateDispatcher::new();
    assert_eq!(states.top_state_id(), None);
    states.enqueue_state(StateWithSystems::new(1, &vec![GRAPHICS, INPUT, PHYSICS]));
    assert_eq!(states.apply_pending(&mut holder, &mut world), Some((None, 1)));
    assert_eq!(states.apply_pending(&mut holder, &mut world), None);
    assert_eq!(holder.active_systems(), vec![GRAPHICS, INPUT, PHYSICS]);
    states.enqueue_state(StateWithSystems::new(2, &vec![GRAPHICS]));
    assert_eq!(states.apply_pending(&mut holder, &mut world), Some((Some(1), 2)));
    assert_eq!(states.top_state_id(), Some(2));
    assert_eq!(states.top_previous_state_id(), Some(1));
    assert_eq!(holder.active_systems(), vec![GRAPHICS]);
    assert_eq!(states.finish_top(&mut holder, &mut world), (2, Some(1)));
    assert_eq!(holder.active_systems(), vec![GRAPHICS, INPUT, PHYSICS]);
    assert_eq!(states.finish_top(&mut holder, &mut world), (1, None));
    assert_eq!(states.len(), 0);
    assert_eq!(states.top_state_id(), None);
}

#[test]
fn disabled_system_keeps_following_components() {
    let (mut world, mut holder) = setup();
    let mut store = ecs_engine::storage::ComponentHolder::<u8>::new(1);
    holder.enable_system(&mut world, INPUT as u64);
    holder.disable_system(&mut world, INPUT as u64);
    assert!(holder.active_systems().is_empty());
    let e = world.create_entity();
    world.add_component(&mut store, &e, 1);
    let run = holder.update(&mut world);
    assert!(run.is_empty());
    assert!(world.get_system_base(INPUT).unwrap().contains_entity(e));
    holder.enable_system(&mut world, INPUT as u64);
    assert_eq!(holder.update(&mut world), vec![INPUT]);
}

#[test]
fn run_order_is_registration_order() {
    let (mut world, mut holder) = setup();
    holder.enable_system(&mut world, PHYSICS as u64);
    holder.enable_system(&mut world, GRAPHICS as u64);
    holder.enable_system(&mut world, 42);
    assert_eq!(holder.active_systems(), vec![GRAPHICS, PHYSICS]);
}
