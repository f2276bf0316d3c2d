//! Sprite-sheet animations: a run of frames stepped at a fixed delay, a given
//! number of times, optionally followed by another animation.
//!
//! Time is given by the caller, in milliseconds.

use vstd::prelude::*;

verus! {

pub struct Animation {
    pub origin: usize,
    pub offset: usize,
    pub offset_start: usize,
    pub frames: usize,
    pub step: i16,
    pub delay_ms: u64,
    pub start_ms: u64,
    pub count: i32,
    pub count_start: i32,
    pub started: bool,
    pub next: Option<Box<Animation>>,
}

/// Where the next step of an animation would land.
#[derive(PartialEq, Eq, Structural)]
pub enum AnimationOutOfBound {
    Within,
    Top,
    Bottom,
}

impl Clone for Animation {
    fn clone(&self) -> (r: Self)
        ensures
            r == *self,
        decreases self,
    {
        let next = match &self.next {
            None => None,
            Some(b) => Some(Box::new((**b).clone())),
        };
        Animation {
            origin: self.origin,
            offset: self.offset,
            offset_start: self.offset_start,
            frames: self.frames,
            step: self.step,
            delay_ms: self.delay_ms,
            start_ms: self.start_ms,
            count: self.count,
            count_start: self.count_start,
            started: self.started,
            next,
        }
    }
}

impl Animation {
    pub open spec fn origin_spec(&self) -> usize {
        self.origin
    }

    pub open spec fn offset_spec(&self) -> usize {
        self.offset
    }

    pub open spec fn offset_start_spec(&self) -> usize {
        self.offset_start
    }

    pub open spec fn frames_spec(&self) -> usize {
        self.frames
    }

    /// +1 to step forward through the frames, -1 backward.
    pub open spec fn step_spec(&self) -> i16 {
        self.step
    }

    pub open spec fn delay_spec(&self) -> u64 {
        self.delay_ms
    }

    /// When the current frame was entered, in milliseconds.
    pub open spec fn start_ms_spec(&self) -> u64 {
        self.start_ms
    }

    /// Runs left before this animation is over (0: over).
    pub open spec fn count_spec(&self) -> i32 {
        self.count
    }

    pub open spec fn count_start_spec(&self) -> i32 {
        self.count_start
    }

    pub open spec fn started_spec(&self) -> bool {
        self.started
    }

    pub open spec fn next_spec(&self) -> Option<Box<Animation>> {
        self.next
    }

    /// The same animation with another frame count.
    pub open spec fn with_frames(self, frames: usize) -> Animation {
        Animation { frames, ..self }
    }

    /// The same animation with another delay between frames.
    pub open spec fn with_delay(self, delay_ms: u64) -> Animation {
        Animation { delay_ms, ..self }
    }

    /// The same animation with `count` runs, now and for every reset.
    pub open spec fn with_count(self, count: i32) -> Animation {
        Animation { count, count_start: count, ..self }
    }

    /// The same animation with another step.
    pub open spec fn with_step(self, step: i16) -> Animation {
        Animation { step, ..self }
    }

    /// The same animation on another sprite-sheet row.
    pub open spec fn with_origin(self, origin: usize) -> Animation {
        Animation { origin, ..self }
    }

    /// The same animation followed by `next`.
    pub open spec fn with_next(self, next: Option<Box<Animation>>) -> Animation {
        Animation { next, ..self }
    }

    /// The same animation on frame `offset`, now and for every reset.
    pub open spec fn with_offset(self, offset: usize) -> Animation {
        Animation { offset, offset_start: offset, ..self }
    }

    /// The same animation on frame `offset` for now.
    pub open spec fn with_current_offset(self, offset: usize) -> Animation {
        Animation { offset, ..self }
    }

    /// Number of animations chained after this one.
    pub open spec fn depth(&self) -> nat
        decreases self,
    {
        match self.next_spec() {
            None => 0,
            Some(b) => 1 + b.depth(),
        }
    }

    /// The frame shown: this animation's, or once it is over, the next one's.
    pub open spec fn shown_offset(&self) -> usize
        decreases self,
    {
        if self.count_spec() == 0 && self.next_spec() is Some {
            self.next_spec()->0.shown_offset()
        } else {
            self.offset_spec()
        }
    }

    /// The sprite-sheet row shown, chosen as `shown_offset`.
    pub open spec fn shown_origin(&self) -> usize
        decreases self,
    {
        if self.count_spec() == 0 && self.next_spec() is Some {
            self.next_spec()->0.shown_origin()
        } else {
            self.origin_spec()
        }
    }

    /// This animation and all that follow it are over.
    pub open spec fn done(&self) -> bool
        decreases self,
    {
        self.count_spec() == 0 && match self.next_spec() {
            None => true,
            Some(b) => b.done(),
        }
    }

    /// A stopped animation on sprite-sheet row `origin`: no frame, no delay,
    /// no run, stepping forward.
    pub fn new(origin: usize) -> (r: Self)
        ensures
            r.origin_spec() == origin,
            r.offset_spec() == 0,
            r.offset_start_spec() == 0,
            r.frames_spec() == 0,
            r.step_spec() == 1,
            r.delay_spec() == 0,
            r.start_ms_spec() == 0,
            r.count_spec() == 0,
            r.count_start_spec() == 0,
            !r.started_spec(),
            r.next_spec() is None,
    {
        Animation {
            origin,
            offset: 0,
            offset_start: 0,
            frames: 0,
            step: 1,
            delay_ms: 0,
            start_ms: 0,
            count: 0,
            count_start: 0,
            started: false,
            next: None,
        }
    }

    pub fn has_next(&self) -> (r: bool)
        ensures
            r == self.next_spec() is Some,
    {
        self.next.is_some()
    }

    pub fn frames(&mut self, frames: usize) -> (r: &mut Self)
        ensures
            *r == old(self).with_frames(frames),
            *final(self) == *final(r),
    {
        self.frames = frames;
        self
    }

    pub fn time(&mut self, delay_ms: u64) -> (r: &mut Self)
        ensures
            *r == old(self).with_delay(delay_ms),
            *final(self) == *final(r),
    {
        self.delay_ms = delay_ms;
        self
    }

    /// Sets the number of runs, now and for every reset.
    pub fn count(&mut self, count: i32) -> (r: &mut Self)
        ensures
            *r == old(self).with_count(count),
            *final(self) == *final(r),
    {
        self.count = count;
        self.count_start = count;
        self
    }

    pub fn is_started(&self) -> (r: bool)
        ensures
            r == self.started_spec(),
    {
        self.started
    }

    /// The animation with its run count and frame back to their starting
    /// values, and the same for every animation after it.
    pub open spec fn reset_spec(self) -> Animation
        decreases self,
    {
        self.reset_fields(
            match self.next_spec() {
                None => None,
                Some(b) => Some(Box::new(b.reset_spec())),
            },
        )
    }

    pub open spec fn reset_fields(self, next: Option<Box<Animation>>) -> Animation {
        Animation { count: self.count_start, offset: self.offset_start, next, ..self }
    }

    pub fn reset(&mut self)
        ensures
            *final(self) == old(self).reset_spec(),
        decreases old(self).depth(),
    {
        self.count = self.count_start;
        self.offset = self.offset_start;
        match &mut self.next {
            None => {},
            Some(b) => {
                b.reset();
            },
        }
        proof {
            assert(*self == old(self).reset_fields(
                match old(self).next_spec() {
                    None => None,
                    Some(b) => Some(Box::new(b.reset_spec())),
                },
            ));
        }
    }

    /// Steps backward instead of forward, or the converse.
    pub fn reverse(&mut self) -> (r: &mut Self)
        requires
            old(self).step_spec() > i16::MIN,
        ensures
            *r == old(self).with_step((-old(self).step_spec()) as i16),
            *final(self) == *final(r),
    {
        self.step = -self.step;
        self
    }

    pub fn origin(&mut self, origin: usize) -> (r: &mut Self)
        ensures
            *r == old(self).with_origin(origin),
            *final(self) == *final(r),
    {
        self.origin = origin;
        self
    }

    /// Chains a copy of `next` after this animation.
    pub fn then(&mut self, next: &Animation) -> (r: &mut Self)
        ensures
            *r == old(self).with_next(Some(Box::new(*next))),
            *final(self) == *final(r),
    {
        self.next = Some(Box::new(next.clone()));
        self
    }

    /// Sets the frame, now and for every reset.
    pub fn offset(&mut self, offset: usize) -> (r: &mut Self)
        ensures
            *r == old(self).with_offset(offset),
            *final(self) == *final(r),
    {
        self.offset = offset;
        self.offset_start = offset;
        self
    }

    /// Sets the current frame only.
    pub fn current_offset(&mut self, offset: usize)
        ensures
            *final(self) == old(self).with_current_offset(offset),
    {
        self.offset = offset;
    }

    /// The frame shown.
    pub fn get_offset(&self) -> (r: usize)
        ensures
            r == self.shown_offset(),
        decreases self,
    {
        match &self.next {
            Some(b) => {
                if self.count == 0 {
                    b.get_offset()
                } else {
                    self.offset
                }
            },
            None => self.offset,
        }
    }

    /// The sprite-sheet row shown.
    pub fn get_origin(&self) -> (r: usize)
        ensures
            r == self.shown_origin(),
        decreases self,
    {
        match &self.next {
            Some(b) => {
                if self.count == 0 {
                    b.get_origin()
                } else {
                    self.origin
                }
            },
            None => self.origin,
        }
    }

    /// The animation with its started flag, and those of the animations
    /// after it, set to `started`.
    pub open spec fn with_started(self, started: bool) -> Animation
        decreases self,
    {
        self.started_fields(
            started,
            match self.next_spec() {
                None => None,
                Some(b) => Some(Box::new(b.with_started(started))),
            },
        )
    }

    pub open spec fn started_fields(self, started: bool, next: Option<Box<Animation>>) -> Animation {
        Animation { started, next, ..self }
    }

    fn set_started(&mut self, started: bool)
        ensures
            *final(self) == old(self).with_started(started),
        decreases old(self).depth(),
    {
        self.started = started;
        match &mut self.next {
            None => {},
            Some(b) => {
                b.set_started(started);
            },
        }
        proof {
            assert(*self == old(self).started_fields(
                started,
                match old(self).next_spec() {
                    None => None,
                    Some(b) => Some(Box::new(b.with_started(started))),
                },
            ));
        }
    }

    /// Starts this animation and the ones after it.
    pub fn start(&mut self) -> (r: &mut Self)
        ensures
            *r == old(self).with_started(true),
            *final(self) == *final(r),
    {
        self.set_started(true);
        self
    }

    /// Pauses this animation and the ones after it.
    pub fn pause(&mut self) -> (r: &mut Self)
        ensures
            *r == old(self).with_started(false),
            *final(self) == *final(r),
    {
        self.set_started(false);
        self
    }

    /// Whether this animation and all that follow it are over.
    pub fn is_done(&self) -> (r: bool)
        ensures
            r == self.done(),
        decreases self,
    {
        if self.count != 0 {
            false
        } else {
            match &self.next {
                None => true,
                Some(b) => b.is_done(),
            }
        }
    }

    /// Where one step from the shown frame would land: past the last frame
    /// (`Top`), before the first (`Bottom`), or on a frame.
    pub open spec fn bound_spec(&self) -> AnimationOutOfBound {
        let next_step = self.shown_offset() as int + self.step_spec() as int;
        if next_step >= self.frames_spec() as int {
            AnimationOutOfBound::Top
        } else if next_step < 0 {
            AnimationOutOfBound::Bottom
        } else {
            AnimationOutOfBound::Within
        }
    }

    pub fn next_step_out_of_bounds(&self) -> (r: AnimationOutOfBound)
        ensures
            r == self.bound_spec(),
    {
        let next_step: i128 = self.get_offset() as i128 + self.step as i128;
        if next_step >= self.frames as i128 {
            AnimationOutOfBound::Top
        } else if next_step < 0 {
            AnimationOutOfBound::Bottom
        } else {
            AnimationOutOfBound::Within
        }
    }

    /// The same animation after a step to frame `offset` at time `now_ms`,
    /// with `count` runs left.
    pub open spec fn with_progress(self, offset: usize, count: i32, now_ms: u64) -> Animation {
        Animation { offset, count, start_ms: now_ms, ..self }
    }

    /// One run fewer (a run count at its minimum stays there).
    pub open spec fn one_run_less(count: i32) -> i32 {
        if count == i32::MIN {
            count
        } else {
            (count - 1) as i32
        }
    }

    /// The animation one step further at time `now_ms`: past the last frame
    /// it stays on the last frame and a run ends; before the first it stays
    /// on the first and a run ends; otherwise it moves by its step.
    pub open spec fn stepped(self, now_ms: u64) -> Animation {
        match self.bound_spec() {
            AnimationOutOfBound::Top => self.with_progress(
                if self.frames_spec() == 0 {
                    0
                } else {
                    (self.frames_spec() - 1) as usize
                },
                Self::one_run_less(self.count_spec()),
                now_ms,
            ),
            AnimationOutOfBound::Bottom => self.with_progress(
                0,
                Self::one_run_less(self.count_spec()),
                now_ms,
            ),
            AnimationOutOfBound::Within => self.with_progress(
                (self.shown_offset() as int + self.step_spec() as int) as usize,
                self.count_spec(),
                now_ms,
            ),
        }
    }

    /// The animation, and what `update` returns, after an update at time
    /// `now_ms`: a stopped animation does nothing and reports it; one that is
    /// over hands the update to the next animation (one level deeper);
    /// otherwise it steps once its delay has passed since its last step, and
    /// reports that it runs at level `i`.
    pub open spec fn updated(self, i: u16, now_ms: u64) -> (Animation, (bool, u16))
        decreases self,
    {
        if !self.started_spec() {
            (self, (false, i))
        } else if self.count_spec() == 0 {
            match self.next_spec() {
                Some(b) => {
                    let (nb, r) = b.updated((i + 1) as u16, now_ms);
                    (self.with_next(Some(Box::new(nb))), r)
                },
                None => (self, (false, i)),
            }
        } else if now_ms >= self.start_ms_spec() && now_ms - self.start_ms_spec()
            >= self.delay_spec() {
            (self.stepped(now_ms), (true, i))
        } else {
            (self, (true, i))
        }
    }

    /// Advances the animation at time `now_ms`; `i` is the level of this
    /// animation in its chain. Returns whether an animation is running, and
    /// at which level.
    pub fn update(&mut self, i: u16, now_ms: u64) -> (r: (bool, u16))
        requires
            i as nat + old(self).depth() <= u16::MAX as nat,
        ensures
            (*final(self), r) == old(self).updated(i, now_ms),
        decreases old(self).depth(),
    {
        if !self.started {
            return (false, i);
        }
        if self.count == 0 {
            match &mut self.next {
                Some(b) => {
                    let r = b.update(i + 1, now_ms);
                    return r;
                },
                None => {
                    return (false, i);
                },
            }
        }
        let off = self.get_offset();
        if now_ms >= self.start_ms && now_ms - self.start_ms >= self.delay_ms {
            let next_index: usize;
            match self.next_step_out_of_bounds() {
                AnimationOutOfBound::Top => {
                    self.count = if self.count == i32::MIN {
                        self.count
                    } else {
                        self.count - 1
                    };
                    next_index = if self.frames == 0 {
                        0
                    } else {
                        self.frames - 1
                    };
                },
                AnimationOutOfBound::Bottom => {
                    self.count = if self.count == i32::MIN {
                        self.count
                    } else {
                        self.count - 1
                    };
                    next_index = 0;
                },
                AnimationOutOfBound::Within => {
                    next_index = (off as i128 + self.step as i128) as usize;
                },
            }
            self.offset = next_index;
            self.start_ms = now_ms;
            proof {
                assert(*self == old(self).stepped(now_ms));
            }
        }
        (true, i)
    }
}

} // verus!
