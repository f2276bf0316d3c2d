//! The state stack: mutually exclusive application states, each requiring a
//! set of systems. Entering or leaving a state enables the systems the new
//! state needs and the old one did not, and disables the converse; systems
//! both need are left alone.
//!
//! The states' own behaviour (enter, leave, update, input) belongs to the
//! application, which keeps each state under its identifier and calls it as
//! the dispatcher's results say.

use crate::bitset::{bits_of, bit_len, difference_of};
use crate::scheduler::SystemHolder;
use crate::world::World;
use fixedbitset::FixedBitSet;
use vstd::prelude::*;

verus! {

/// Largest number of systems a state can require, and of stacked states.
pub const STATES_MAX_SYSTEMS: usize = 100;

/// The run flags after a transition from a state requiring `prev` to one
/// requiring `next`: systems only `next` needs are enabled, systems only
/// `prev` needs are disabled, the others keep their flag.
pub open spec fn refreshed_flags(
    ids: Seq<usize>,
    flags: Seq<bool>,
    prev: Set<usize>,
    next: Set<usize>,
) -> Seq<bool> {
    Seq::new(
        flags.len(),
        |k: int|
            if prev.contains(ids[k]) && !next.contains(ids[k]) {
                false
            } else if next.contains(ids[k]) && !prev.contains(ids[k]) {
                true
            } else {
                flags[k]
            },
    )
}

/// A state's identifier and the systems it requires.
pub struct StateWithSystems {
    mask: FixedBitSet,
    id: usize,
}

impl StateWithSystems {
    pub closed spec fn systems(&self) -> Set<usize> {
        bits_of(self.mask)
    }

    pub closed spec fn id_spec(&self) -> usize {
        self.id
    }

    /// State `id`, requiring the listed systems.
    pub fn new(id: usize, systems: &Vec<usize>) -> (r: Self)
        requires
            forall|i: int| 0 <= i < systems@.len() ==> systems@[i] < STATES_MAX_SYSTEMS,
        ensures
            r.systems() == systems@.to_set(),
            r.id_spec() == id,
    {
        let mut mask = FixedBitSet::with_capacity(STATES_MAX_SYSTEMS);
        let mut i: usize = 0;
        while i < systems.len()
            invariant
                i <= systems@.len(),
                forall|k: int| 0 <= k < systems@.len() ==> systems@[k] < STATES_MAX_SYSTEMS,
                bit_len(mask) == STATES_MAX_SYSTEMS as nat,
                bits_of(mask) == systems@.take(i as int).to_set(),
            decreases systems@.len() - i,
        {
            mask.set(systems[i], true);
            proof {
                assert(systems@.take(i as int + 1) == systems@.take(i as int).push(systems@[i as int]));
                systems@.take(i as int).lemma_push_to_set_commute(systems@[i as int]);
            }
            i = i + 1;
        }
        proof {
            assert(systems@.take(systems@.len() as int) == systems@);
        }
        StateWithSystems { mask, id }
    }

    pub fn id(&self) -> (r: usize)
        ensures
            r == self.id_spec(),
    {
        self.id
    }
}

/// Enables, then disables, the listed systems; returns nothing but changes
/// the flags of the registered ones.
fn switch_systems(
    systems: &mut SystemHolder,
    world: &mut World,
    enable: &Vec<usize>,
    disable: &Vec<usize>,
)
    requires
        old(systems).wf(),
        forall|x: usize| enable@.contains(x) ==> !disable@.contains(x),
    ensures
        *final(world) == *old(world),
        final(systems).wf(),
        final(systems).ids() == old(systems).ids(),
        final(systems).flags().len() == old(systems).flags().len(),
        forall|k: int|
            0 <= k < old(systems).flags().len() ==> #[trigger] final(systems).flags()[k] == if disable@.contains(
                old(systems).ids()[k],
            ) {
                false
            } else if enable@.contains(old(systems).ids()[k]) {
                true
            } else {
                old(systems).flags()[k]
            },
{
    let ghost ids = old(systems).ids();
    let ghost f0 = old(systems).flags();
    let mut j: usize = 0;
    while j < enable.len()
        invariant
            j <= enable@.len(),
            systems.wf(),
            *world == *old(world),
            systems.ids() == ids,
            systems.flags().len() == f0.len(),
            forall|k: int|
                0 <= k < f0.len() ==> #[trigger] systems.flags()[k] == if enable@.take(j as int).contains(ids[k]) {
                    true
                } else {
                    f0[k]
                },
        decreases enable@.len() - j,
    {
        let x = enable[j];
        let ghost before = systems.flags();
        systems.enable_system(world, x as u64);
        proof {
            assert(enable@.take(j as int + 1) == enable@.take(j as int).push(x));
            assert forall|k: int| 0 <= k < f0.len() implies #[trigger] systems.flags()[k] == if enable@.take(j as int + 1).contains(ids[k]) {
                true
            } else {
                f0[k]
            } by {
                vstd::seq_lib::lemma_seq_contains_after_push(enable@.take(j as int), x, ids[k]);
                if ids.contains(x) {
                    let p = ids.index_of(x);
                    assert(ids[p] == x);
                    if ids[k] == x {
                        assert(k == p);
                    }
                }
            }
        }
        j = j + 1;
    }
    let ghost f1 = systems.flags();
    proof {
        assert(enable@.take(enable@.len() as int) == enable@);
    }
    j = 0;
    while j < disable.len()
        invariant
            j <= disable@.len(),
            systems.wf(),
            *world == *old(world),
            systems.ids() == ids,
            systems.flags().len() == f0.len(),
            f1.len() == f0.len(),
            forall|k: int|
                0 <= k < f0.len() ==> #[trigger] systems.flags()[k] == if disable@.take(j as int).contains(ids[k]) {
                    false
                } else {
                    f1[k]
                },
        decreases disable@.len() - j,
    {
        let x = disable[j];
        systems.disable_system(world, x as u64);
        proof {
            assert(disable@.take(j as int + 1) == disable@.take(j as int).push(x));
            assert forall|k: int| 0 <= k < f0.len() implies #[trigger] systems.flags()[k] == if disable@.take(j as int + 1).contains(ids[k]) {
                false
            } else {
                f1[k]
            } by {
                vstd::seq_lib::lemma_seq_contains_after_push(disable@.take(j as int), x, ids[k]);
                if ids.contains(x) {
                    let p = ids.index_of(x);
                    assert(ids[p] == x);
                    if ids[k] == x {
                        assert(k == p);
                    }
                }
            }
        }
        j = j + 1;
    }
    proof {
        assert(disable@.take(disable@.len() as int) == disable@);
    }
}

/// Moves the run flags from a state requiring `last` (none when `None`) to
/// one requiring `next`. Returns the systems enabled and the systems
/// disabled, each in increasing order.
pub fn refresh_systems(
    systems: &mut SystemHolder,
    world: &mut World,
    last: Option<&StateWithSystems>,
    next: &StateWithSystems,
) -> (r: (Vec<usize>, Vec<usize>))
    requires
        old(systems).wf(),
    ensures
        *final(world) == *old(world),
        final(systems).wf(),
        final(systems).ids() == old(systems).ids(),
        ({
            let prev = match last {
                Some(s) => s.systems(),
                None => Set::<usize>::empty(),
            };
            &&& r.0@.to_set() == next.systems().difference(prev)
            &&& r.1@.to_set() == prev.difference(next.systems())
            &&& final(systems).flags() == refreshed_flags(
                old(systems).ids(),
                old(systems).flags(),
                prev,
                next.systems(),
            )
        }),
{
    let empty = FixedBitSet::with_capacity(STATES_MAX_SYSTEMS);
    let prev_mask = match last {
        Some(s) => &s.mask,
        None => &empty,
    };
    let enable = difference_of(&next.mask, prev_mask);
    let disable = difference_of(prev_mask, &next.mask);
    let ghost prev = bits_of(*prev_mask);
    proof {
        assert forall|x: usize| enable@.contains(x) implies !disable@.contains(x) by {
            assert(enable@.to_set().contains(x));
            if disable@.contains(x) {
                assert(disable@.to_set().contains(x));
            }
        }
    }
    switch_systems(systems, world, &enable, &disable);
    proof {
        let ids = old(systems).ids();
        let expected = refreshed_flags(ids, old(systems).flags(), prev, next.systems());
        assert forall|k: int| 0 <= k < expected.len() implies systems.flags()[k] == expected[k] by {
            assert(disable@.contains(ids[k]) == disable@.to_set().contains(ids[k]));
            assert(enable@.contains(ids[k]) == enable@.to_set().contains(ids[k]));
        }
        assert(systems.flags() =~= expected);
    }
    (enable, disable)
}

/// The systems the top of `stack` requires, or none on an empty stack.
pub open spec fn top_systems(stack: Seq<StateWithSystems>) -> Set<usize> {
    if stack.len() == 0 {
        Set::empty()
    } else {
        stack.last().systems()
    }
}

/// The identifier of the top of `stack`, if any.
pub open spec fn top_id(stack: Seq<StateWithSystems>) -> Option<usize> {
    if stack.len() == 0 {
        None
    } else {
        Some(stack.last().id_spec())
    }
}

/// The stack of states, and the state waiting to be entered.
pub struct StateDispatcher {
    states: Vec<StateWithSystems>,
    next_state: Option<StateWithSystems>,
}

impl StateDispatcher {
    pub closed spec fn stack(&self) -> Seq<StateWithSystems> {
        self.states@
    }

    pub closed spec fn pending(&self) -> Option<StateWithSystems> {
        self.next_state
    }

    pub fn new() -> (r: Self)
        ensures
            r.stack() == Seq::<StateWithSystems>::empty(),
            r.pending() is None,
    {
        StateDispatcher { states: Vec::new(), next_state: None }
    }

    /// Number of stacked states.
    pub fn len(&self) -> (r: usize)
        ensures
            r == self.stack().len(),
    {
        self.states.len()
    }

    /// Asks for `next_state` to be entered at the next update; a later
    /// request replaces an earlier one.
    pub fn enqueue_state(&mut self, next_state: StateWithSystems)
        ensures
            final(self).stack() == old(self).stack(),
            final(self).pending() == Some(next_state),
    {
        self.next_state = Some(next_state);
    }

    /// The current state, the one that receives updates and input.
    pub fn top_state_id(&self) -> (r: Option<usize>)
        ensures
            r == top_id(self.stack()),
    {
        if self.states.len() == 0 {
            None
        } else {
            Some(self.states[self.states.len() - 1].id())
        }
    }

    /// The state under the current one, if any.
    pub fn top_previous_state_id(&self) -> (r: Option<usize>)
        ensures
            r == if self.stack().len() < 2 {
                None
            } else {
                Some(self.stack()[self.stack().len() - 2].id_spec())
            },
    {
        if self.states.len() < 2 {
            None
        } else {
            Some(self.states[self.states.len() - 2].id())
        }
    }

    /// Enters the pending state, if there is one: it goes on top of the
    /// stack, and the systems move from what the former top required to what
    /// it requires. Returns the former top (to be paused, kept on the stack)
    /// and the entered state (to be entered for the first time).
    pub fn apply_pending(&mut self, systems: &mut SystemHolder, world: &mut World) -> (r: Option<
        (Option<usize>, usize),
    >)
        requires
            old(systems).wf(),
            old(self).stack().len() < STATES_MAX_SYSTEMS,
        ensures
            *final(world) == *old(world),
            final(systems).wf(),
            final(systems).ids() == old(systems).ids(),
            final(self).pending() is None,
            old(self).pending() is None ==> r is None && final(self).stack() == old(self).stack()
                && final(systems).flags() == old(systems).flags(),
            old(self).pending() matches Some(n) ==> {
                &&& r == Some((top_id(old(self).stack()), n.id_spec()))
                &&& final(self).stack() == old(self).stack().push(n)
                &&& final(systems).flags() == refreshed_flags(
                    old(systems).ids(),
                    old(systems).flags(),
                    top_systems(old(self).stack()),
                    n.systems(),
                )
            },
    {
        let pending = self.next_state.take();
        match pending {
            None => None,
            Some(next) => {
                let last_id = self.top_state_id();
                self.states.push(next);
                let n = self.states.len();
                let entered = self.states[n - 1].id();
                if n >= 2 {
                    refresh_systems(systems, world, Some(&self.states[n - 2]), &self.states[n - 1]);
                } else {
                    refresh_systems(systems, world, None, &self.states[n - 1]);
                }
                proof {
                    assert(self.stack().drop_last() == old(self).stack());
                }
                Some((last_id, entered))
            },
        }
    }

    /// Leaves the current state for good, after it reported it is done: it
    /// is popped, and the systems move from what it required to what the
    /// state under it requires (they stay as they are when none is left).
    /// Returns the state left and the state resumed, if any; with none left,
    /// the application is over.
    pub fn finish_top(&mut self, systems: &mut SystemHolder, world: &mut World) -> (r: (
        usize,
        Option<usize>,
    ))
        requires
            old(systems).wf(),
            old(self).stack().len() > 0,
        ensures
            *final(world) == *old(world),
            final(systems).wf(),
            final(systems).ids() == old(systems).ids(),
            final(self).pending() == old(self).pending(),
            r.0 == old(self).stack().last().id_spec(),
            final(self).stack() == old(self).stack().drop_last(),
            r.1 == top_id(final(self).stack()),
            final(self).stack().len() == 0 ==> final(systems).flags() == old(systems).flags(),
            final(self).stack().len() > 0 ==> final(systems).flags() == refreshed_flags(
                old(systems).ids(),
                old(systems).flags(),
                old(self).stack().last().systems(),
                final(self).stack().last().systems(),
            ),
    {
        let n = self.states.len();
        let left = self.states[n - 1].id();
        if n >= 2 {
            refresh_systems(systems, world, Some(&self.states[n - 1]), &self.states[n - 2]);
        }
        self.states.pop();
        let resumed = self.top_state_id();
        (left, resumed)
    }
}

/// A transition never toggles a system both states require: it is neither
/// enabled nor disabled, and keeps its run flag.
pub proof fn lemma_shared_system_untouched(
    ids: Seq<usize>,
    flags: Seq<bool>,
    prev: Set<usize>,
    next: Set<usize>,
    k: int,
)
    requires
        0 <= k < flags.len(),
        prev.contains(ids[k]),
        next.contains(ids[k]),
    ensures
        !next.difference(prev).contains(ids[k]),
        !prev.difference(next).contains(ids[k]),
        refreshed_flags(ids, flags, prev, next)[k] == flags[k],
{
}

} // verus!
