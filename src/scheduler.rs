//! The scheduler: the systems known to the game, in registration order, and
//! which of them run each tick. Disabling a system only takes it off the run
//! list; its member set keeps following component events.

use crate::ids::contains_id;
use crate::system::{ComponentId, ECS_MAX_COMPONENTS};
use crate::world::World;
use vstd::prelude::*;

verus! {

/// The identifiers of `ids` whose flag in `active` is set, in order.
pub open spec fn active_in_order(ids: Seq<usize>, active: Seq<bool>) -> Seq<usize>
    decreases ids.len(),
{
    if ids.len() == 0 {
        Seq::empty()
    } else {
        let rest = active_in_order(ids.drop_last(), active);
        let k = ids.len() - 1;
        if active[k] {
            rest.push(ids[k])
        } else {
            rest
        }
    }
}

pub struct SystemHolder {
    registered: Vec<usize>,
    active: Vec<bool>,
}

impl SystemHolder {
    /// System identifiers, in registration order.
    pub closed spec fn ids(&self) -> Seq<usize> {
        self.registered@
    }

    /// Whether each registered system is on the run list.
    pub closed spec fn flags(&self) -> Seq<bool> {
        self.active@
    }

    pub open spec fn wf(&self) -> bool {
        &&& self.ids().no_duplicates()
        &&& self.ids().len() == self.flags().len()
    }

    /// Whether system `id` is registered and enabled.
    pub open spec fn is_enabled(&self, id: usize) -> bool {
        exists|k: int| 0 <= k < self.ids().len() && self.ids()[k] == id && self.flags()[k]
    }

    /// The systems that run each tick, in registration order.
    pub open spec fn run_order(&self) -> Seq<usize> {
        active_in_order(self.ids(), self.flags())
    }

    pub fn new() -> (r: Self)
        ensures
            r.wf(),
            r.ids() == Seq::<usize>::empty(),
    {
        SystemHolder { registered: Vec::new(), active: Vec::new() }
    }

    /// Registers system `system_id`, requiring the listed components, with
    /// `world` (where its member set lives), and adds it to this holder,
    /// disabled. A system registered again keeps its place and its flag in
    /// this holder, and gets a fresh record in `world`.
    pub fn add_system(&mut self, world: &mut World, system_id: usize, components: &Vec<ComponentId>)
        requires
            old(self).wf(),
            old(world).wf(),
            forall|i: int| 0 <= i < components@.len() ==> components@[i] < ECS_MAX_COMPONENTS,
        ensures
            final(self).wf(),
            final(world).wf(),
            crate::world::system_registered(*old(world), *final(world), system_id, components@),
            old(self).ids().contains(system_id) ==> final(self).ids() == old(self).ids()
                && final(self).flags() == old(self).flags(),
            !old(self).ids().contains(system_id) ==> final(self).ids() == old(self).ids().push(
                system_id,
            ) && final(self).flags() == old(self).flags().push(false),
    {
        world.register_system(system_id, components);
        if !contains_id(&self.registered, system_id) {
            self.registered.push(system_id);
            self.active.push(false);
            proof {
                crate::ids::lemma_push_keeps_no_duplicates(old(self).ids(), system_id);
            }
        }
    }

    fn position(&self, system_id: usize) -> (r: Option<usize>)
        requires
            self.wf(),
        ensures
            r is None <==> !self.ids().contains(system_id),
            r matches Some(k) ==> k < self.ids().len() && self.ids()[k as int] == system_id,
    {
        let mut k: usize = 0;
        while k < self.registered.len()
            invariant
                k <= self.registered@.len(),
                forall|j: int| 0 <= j < k ==> self.registered@[j] != system_id,
            decreases self.registered@.len() - k,
        {
            if self.registered[k] == system_id {
                return Some(k);
            }
            k = k + 1;
        }
        None
    }

    /// Puts system `system_id` on the run list, if it is registered.
    pub fn enable_system(&mut self, _world: &mut World, system_id: u64)
        requires
            old(self).wf(),
        ensures
            *final(_world) == *old(_world),
            final(self).wf(),
            final(self).ids() == old(self).ids(),
            final(self).flags() == if old(self).ids().contains(system_id as usize) {
                old(self).flags().update(old(self).ids().index_of(system_id as usize), true)
            } else {
                old(self).flags()
            },
    {
        self.set_flag(system_id as usize, true);
    }

    /// Takes system `system_id` off the run list; it keeps following
    /// component events.
    pub fn disable_system(&mut self, _world: &mut World, system_id: u64)
        requires
            old(self).wf(),
        ensures
            *final(_world) == *old(_world),
            final(self).wf(),
            final(self).ids() == old(self).ids(),
            final(self).flags() == if old(self).ids().contains(system_id as usize) {
                old(self).flags().update(old(self).ids().index_of(system_id as usize), false)
            } else {
                old(self).flags()
            },
    {
        self.set_flag(system_id as usize, false);
    }

    fn set_flag(&mut self, system_id: usize, enabled: bool)
        requires
            old(self).wf(),
        ensures
            final(self).wf(),
            final(self).ids() == old(self).ids(),
            final(self).flags() == if old(self).ids().contains(system_id) {
                old(self).flags().update(old(self).ids().index_of(system_id), enabled)
            } else {
                old(self).flags()
            },
    {
        match self.position(system_id) {
            Some(k) => {
                proof {
                    old(self).ids().index_of_first_ensures(system_id);
                    let j = old(self).ids().index_of(system_id);
                    assert(j == k as int);
                }
                self.active.set(k, enabled);
            },
            None => {},
        }
    }

    /// The systems to run this tick, in registration order.
    pub fn active_systems(&self) -> (r: Vec<usize>)
        requires
            self.wf(),
        ensures
            r@ == self.run_order(),
    {
        let mut out: Vec<usize> = Vec::new();
        let mut k: usize = 0;
        while k < self.registered.len()
            invariant
                k <= self.registered@.len(),
                self.wf(),
                out@ == active_in_order(self.ids().take(k as int), self.flags()),
            decreases self.registered@.len() - k,
        {
            proof {
                let t = self.ids().take(k as int + 1);
                assert(t.drop_last() == self.ids().take(k as int));
            }
            if self.active[k] {
                out.push(self.registered[k]);
            }
            k = k + 1;
        }
        proof {
            assert(self.ids().take(self.ids().len() as int) == self.ids());
        }
        out
    }

    /// Start of a tick: flushes `world`, then returns the systems to run,
    /// each once, in registration order.
    pub fn update(&mut self, world: &mut World) -> (r: Vec<usize>)
        requires
            old(self).wf(),
            old(world).wf(),
        ensures
            *final(self) == *old(self),
            final(world).wf(),
            crate::world::flush_post(*old(world), *final(world)),
            r@ == old(self).run_order(),
    {
        world.update();
        self.active_systems()
    }
}

} // verus!
