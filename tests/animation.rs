use ecs_engine::animation::Animation;
use ecs_engine::components::{
    compute_animation_depending_on_moving, AnimationComponent, HealthComponent,
    LifetimeComponent, PlayerInput, ShotComponent, ShotType, Spritesheet,
    SpritesheetOrientation, State,
};

fn three_frames(delay: u64) -> Animation {
    Animation::new(0).frames(3).time(delay).count(1).clone()
}

#[test]
fn animation_steps_after_its_delay() {
    let mut a = three_frames(80);
    a.start();
    assert_eq!(a.update(0, 0), (true, 0));
    assert_eq!(a.get_offset(), 0);
    assert_eq!(a.update(0, 80), (true, 0));
    assert_eq!(a.get_offset(), 1);
    assert_eq!(a.update(0, 100), (true, 0));
    assert_eq!(a.get_offset(), 1);
    a.update(0, 160);
    assert_eq!(a.get_offset(), 2);
    assert!(!a.is_done());
    a.update(0, 240);
    assert_eq!(a.get_offset(), 2);
    assert!(a.is_done());
    assert_eq!(a.update(0, 300), (false, 0));
}

#[test]
fn stopped_animation_does_not_move() {
    let mut a = three_frames(0);
    assert!(!a.is_started());
    assert_eq!(a.update(0, 1000), (false, 0));
    assert_eq!(a.get_offset(), 0);
}

#[test]
fn reversed_animation_counts_down() {
    let mut a = three_frames(0).reverse().offset(2).clone();
    a.start();
    a.update(0, 1);
    assert_eq!(a.get_offset(), 1);
    a.update(0, 2);
    assert_eq!(a.get_offset(), 0);
    a.update(0, 3);
    assert_eq!(a.get_offset(), 0);
    assert!(a.is_done());
    a.reset();
    assert_eq!(a.get_offset(), 2);
    assert!(!a.is_done());
}

#[test]
fn chained_animation_takes_over() {
    let first = Animation::new(1).frames(1).count(1).clone();
    let second = Animation::new(4).frames(3).count(1).offset(1).clone();
    let mut a = first.clone().then(&second).clone();
    assert!(a.has_next());
    a.start();
    a.update(0, 0);
    assert_eq!(a.get_origin(), 4);
    assert_eq!(a.get_offset(), 1);
    assert_eq!(a.update(0, 1), (true, 1));
    assert_eq!(a.get_offset(), 2);
    a.pause();
    assert_eq!(a.update(0, 2), (false, 0));
}

#[test]
fn animation_component_switches_when_current_is_done() {
    let mut c = AnimationComponent::new();
    c.set(vec![three_frames(0), Animation::new(1).frames(3).count(1).clone()]);
    c.next(0);
    assert_eq!(c.current, 0);
    c.update(0);
    assert_eq!(c.get_offset(), 1);
    c.next(1);
    assert_eq!(c.next, Some(1));
    assert_eq!(c.all[1].get_offset(), 1);
    c.update(1);
    c.update(2);
    assert_eq!(c.current, 0);
    c.update(3);
    assert_eq!(c.current, 1);
    assert_eq!(c.get_origin(), 1);
    assert_eq!(c.next, None);
}

#[test]
fn player_input_slots() {
    assert_eq!(PlayerInput::try_from(&0), Ok(PlayerInput::LEFT));
    assert_eq!(PlayerInput::try_from(&4), Ok(PlayerInput::SHOOT));
    assert_eq!(PlayerInput::try_from(&5), Err(()));
}

#[test]
fn movement_animation_choice() {
    assert_eq!(compute_animation_depending_on_moving(State::Stand, State::Stand), None);
    assert_eq!(compute_animation_depending_on_moving(State::Stand, State::MoveRight), Some(2));
    assert_eq!(compute_animation_depending_on_moving(State::Stand, State::MoveLeft), Some(0));
    assert_eq!(compute_animation_depending_on_moving(State::MoveRight, State::Stand), Some(3));
    assert_eq!(compute_animation_depending_on_moving(State::MoveLeft, State::Stand), Some(1));
    assert_eq!(compute_animation_depending_on_moving(State::MoveRight, State::MoveLeft), Some(5));
    assert_eq!(compute_animation_depending_on_moving(State::MoveLeft, State::MoveRight), Some(4));
}

#[test]
fn component_constructors_and_defaults() {
    assert_eq!(HealthComponent::new(3).health_points, 3);
    assert_eq!(HealthComponent::default().health_points, 0);
    assert_eq!(LifetimeComponent::new(7).life_timer_end, 7);
    assert!(LifetimeComponent::new(7).expired(8));
    assert!(!LifetimeComponent::new(7).expired(7));
    let shot = ShotComponent::default();
    assert_eq!(shot.shot_type, ShotType::PLAYER);
    assert_eq!(ShotComponent::new(ShotType::ENEMY, 2).damages, 2);
    let sheet = Spritesheet::new(3, 2, SpritesheetOrientation::HORIZONTAL, 16, 16);
    assert_eq!((sheet.num_width, sheet.num_height, sheet.width), (3, 2, 16));
    assert_eq!(AnimationComponent::default().all.len(), 0);
}
