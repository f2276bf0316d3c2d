//! Component types of the game built on the engine, and the animation
//! component's logic.

use crate::animation::Animation;
use crate::system::EntityId;
use vstd::prelude::*;

verus! {

pub struct HealthComponent {
    pub health_points: i64,
}

impl HealthComponent {
    pub fn new(health_points: i64) -> (r: Self)
        ensures
            r.health_points == health_points,
    {
        HealthComponent { health_points }
    }
}

impl Default for HealthComponent {
    fn default() -> (r: Self)
        ensures
            r.health_points == 0,
    {
        HealthComponent::new(0)
    }
}

/// Published when an entity dies.
pub struct DeathEvent {
    pub entity: EntityId,
}

pub struct LifetimeComponent {
    /// When the entity expires, in milliseconds.
    pub life_timer_end: u64,
}

impl LifetimeComponent {
    pub fn new(life_timer_end: u64) -> (r: Self)
        ensures
            r.life_timer_end == life_timer_end,
    {
        LifetimeComponent { life_timer_end }
    }

    /// Whether the entity has outlived its lifetime at time `now_ms`.
    pub fn expired(&self, now_ms: u64) -> (r: bool)
        ensures
            r == (now_ms > self.life_timer_end),
    {
        now_ms > self.life_timer_end
    }
}

impl Default for LifetimeComponent {
    fn default() -> (r: Self)
        ensures
            r.life_timer_end == 0,
    {
        LifetimeComponent::new(0)
    }
}

#[allow(non_camel_case_types)]
#[derive(Clone, Copy, PartialEq, Eq, Debug, Structural)]
pub enum ShotType {
    PLAYER,
    ENEMY,
}

pub struct ShotComponent {
    pub shot_type: ShotType,
    pub damages: i32,
}

impl ShotComponent {
    pub fn new(shot_type: ShotType, damages: i32) -> (r: Self)
        ensures
            r.shot_type == shot_type,
            r.damages == damages,
    {
        ShotComponent { shot_type, damages }
    }
}

impl Default for ShotComponent {
    fn default() -> (r: Self)
        ensures
            r.shot_type == ShotType::PLAYER,
            r.damages == 0,
    {
        ShotComponent::new(ShotType::PLAYER, 0)
    }
}

#[allow(non_camel_case_types)]
#[derive(Clone, Copy, PartialEq, Eq, Debug, Structural)]
pub enum SpawnerType {
    CIRCLE,
    POINT,
    LINEAR,
}

#[allow(non_camel_case_types)]
#[derive(Clone, Copy, PartialEq, Eq, Debug, Hash, Structural)]
pub enum SpritesheetOrientation {
    HORIZONTAL,
    VERTICAL,
}

/// A sprite sheet: how many sprites it holds across and down, laid out in
/// which direction, and the size of one sprite.
pub struct Spritesheet {
    pub num_width: usize,
    pub num_height: usize,
    pub orientation: SpritesheetOrientation,
    pub width: u32,
    pub height: u32,
}

impl Spritesheet {
    pub fn new(
        num_width: usize,
        num_height: usize,
        orientation: SpritesheetOrientation,
        width: u32,
        height: u32,
    ) -> (r: Self)
        ensures
            r.num_width == num_width,
            r.num_height == num_height,
            r.orientation == orientation,
            r.width == width,
            r.height == height,
    {
        Spritesheet { num_width, num_height, orientation, width, height }
    }
}

/// How a moving entity is moving.
#[derive(Clone, Copy, PartialEq, Eq, Debug, Structural)]
pub enum State {
    MoveRight,
    MoveLeft,
    Stand,
}

/// The player's commands, in the order of their input slots; `LAST` counts
/// them.
#[allow(non_camel_case_types)]
#[derive(Clone, Copy, PartialEq, Eq, Debug, Structural)]
pub enum PlayerInput {
    LEFT,
    RIGHT,
    UP,
    DOWN,
    SHOOT,
    LAST,
}

/// Number of input slots.
pub const PLAYER_INPUTS: usize = 5;

impl PlayerInput {
    /// The command of input slot `v`, if there is one.
    pub fn try_from(v: &usize) -> (r: Result<PlayerInput, ()>)
        ensures
            *v == 0 ==> r == Ok::<PlayerInput, ()>(PlayerInput::LEFT),
            *v == 1 ==> r == Ok::<PlayerInput, ()>(PlayerInput::RIGHT),
            *v == 2 ==> r == Ok::<PlayerInput, ()>(PlayerInput::UP),
            *v == 3 ==> r == Ok::<PlayerInput, ()>(PlayerInput::DOWN),
            *v == 4 ==> r == Ok::<PlayerInput, ()>(PlayerInput::SHOOT),
            *v >= PLAYER_INPUTS ==> r == Err::<PlayerInput, ()>(()),
    {
        match *v {
            0 => Ok(PlayerInput::LEFT),
            1 => Ok(PlayerInput::RIGHT),
            2 => Ok(PlayerInput::UP),
            3 => Ok(PlayerInput::DOWN),
            4 => Ok(PlayerInput::SHOOT),
            _ => Err(()),
        }
    }
}

/// Where a spawner stands: alternating between symmetric positions, fixed,
/// or drawn at random.
#[derive(Clone, Copy, PartialEq, Eq, Debug, Structural)]
pub enum SpawnerPositionProperty {
    AlternateSymetric,
    Fixed,
    Random,
}

/// The movement patterns enemies can follow.
#[derive(Clone, Copy, PartialEq, Eq, Debug, Structural)]
pub enum TrajectoryType {
    BasicCircle,
    BasicLinear,
    BasicDiagonalLeft,
    BasicDiagonalRight,
    ReverseDiagonalLeft,
    ReverseDiagonalRight,
    CenteredCircle,
}

/// Which animation of a moving entity's set plays when it goes from
/// `last_state` to `state`: none when the state is unchanged; from standing,
/// 2 to move right and 0 to move left; to standing, 3 from the right and 1
/// from the left; 5 from right to left and 4 from left to right.
pub open spec fn movement_animation(last_state: State, state: State) -> Option<usize> {
    if state == last_state {
        None
    } else if last_state == State::Stand {
        Some(if state == State::MoveRight { 2 } else { 0 })
    } else if state == State::Stand {
        Some(if last_state == State::MoveRight { 3 } else { 1 })
    } else {
        Some(if last_state == State::MoveRight { 5 } else { 4 })
    }
}

pub fn compute_animation_depending_on_moving(last_state: State, state: State) -> (r: Option<usize>)
    ensures
        r == movement_animation(last_state, state),
{
    if state == last_state {
        return None;
    }
    let next: usize;
    if last_state == State::Stand {
        next = if state == State::MoveRight {
            2
        } else {
            0
        };
    } else {
        if state == State::Stand {
            next = if last_state == State::MoveRight {
                3
            } else {
                1
            };
        } else {
            next = if last_state == State::MoveRight {
                5
            } else {
                4
            };
        }
    }
    Some(next)
}

/// A set of animations, the one playing, and the one queued to follow it.
pub struct AnimationComponent {
    pub all: Vec<Animation>,
    pub current: usize,
    pub next: Option<usize>,
}

impl AnimationComponent {
    pub open spec fn wf(&self) -> bool {
        &&& self.current < self.all@.len()
        &&& self.next matches Some(n) ==> n < self.all@.len()
    }

    pub fn new() -> (r: Self)
        ensures
            r.all@ == Seq::<Animation>::empty(),
            r.current == 0,
            r.next is None,
    {
        AnimationComponent { all: Vec::new(), current: 0, next: None }
    }

    pub fn set(&mut self, animations: Vec<Animation>)
        ensures
            final(self).all@ == animations@,
            final(self).current == old(self).current,
            final(self).next == old(self).next,
    {
        self.all = animations;
    }

    /// Advances the current animation at time `now_ms`, first switching to
    /// the queued one if the current one is over.
    pub fn update(&mut self, now_ms: u64) -> (r: (bool, u16))
        requires
            old(self).wf(),
            forall|k: int| 0 <= k < old(self).all@.len() ==> (#[trigger] old(self).all@[k]).depth() <= u16::MAX as nat,
        ensures
            ({
                let switch = old(self).next is Some && old(self).all@[old(self).current as int].done();
                let cur = if switch { old(self).next->0 } else { old(self).current };
                let (a, res) = old(self).all@[cur as int].updated(0, now_ms);
                &&& final(self).current == cur
                &&& final(self).next == if switch { None } else { old(self).next }
                &&& final(self).all@ == old(self).all@.update(cur as int, a)
                &&& r == res
            }),
    {
        if self.next.is_some() && self.all[self.current].is_done() {
            self.current = self.next.take().unwrap();
        }
        let cur = self.current;
        self.all[cur].update(0, now_ms)
    }

    /// Plays animation `next`: at once if the current one is not running;
    /// otherwise it is queued, reset and started from the frame now shown.
    pub fn next(&mut self, next: usize)
        requires
            old(self).wf(),
            next < old(self).all@.len(),
        ensures
            !old(self).all@[old(self).current as int].started_spec() ==> {
                &&& final(self).current == next
                &&& final(self).next == old(self).next
                &&& final(self).all@ == old(self).all@.update(
                    next as int,
                    old(self).all@[next as int].with_started(true),
                )
            },
            old(self).all@[old(self).current as int].started_spec() ==> {
                &&& final(self).current == old(self).current
                &&& final(self).next == Some(next)
                &&& final(self).all@ == old(self).all@.update(
                    next as int,
                    old(self).all@[next as int].reset_spec().with_current_offset(
                        old(self).all@[old(self).current as int].shown_offset(),
                    ).with_started(true),
                )
            },
    {
        if !self.all[self.current].is_started() {
            self.current = next;
            self.all[next].start();
        } else {
            self.next = Some(next);
            let last_offset = self.all[self.current].get_offset();
            let animation = &mut self.all[next];
            animation.reset();
            animation.current_offset(last_offset);
            animation.start();
        }
    }

    pub fn get_origin(&self) -> (r: usize)
        requires
            self.wf(),
        ensures
            r == self.all@[self.current as int].shown_origin(),
    {
        self.all[self.current].get_origin()
    }

    pub fn get_offset(&self) -> (r: usize)
        requires
            self.wf(),
        ensures
            r == self.all@[self.current as int].shown_offset(),
    {
        self.all[self.current].get_offset()
    }
}

impl Default for AnimationComponent {
    fn default() -> (r: Self)
        ensures
            r.all@ == Seq::<Animation>::empty(),
            r.current == 0,
            r.next is None,
    {
        AnimationComponent::new()
    }
}

} // verus!
