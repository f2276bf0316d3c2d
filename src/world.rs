//! The entity directory: live entities, recycled identifiers, per-entity
//! component masks, deferred removals, and the systems whose member sets
//! follow the masks.

use crate::bitset::{bits_of, bit_len};
use crate::ids::{contains_id, insert_id, remove_id};
use crate::storage::ComponentHolder;
use crate::system::{
    after_event, components_set, ComponentEvent, ComponentEventKind, ComponentId, EntityId,
    System, ALL_COMPONENTS, ECS_MAX_COMPONENTS, ECS_MAX_ENTITIES,
};
use fixedbitset::FixedBitSet;
use vstd::prelude::*;

verus! {

pub struct World {
    entities: Vec<EntityId>,
    dead_entities: Vec<EntityId>,
    entities_remove_queue: Vec<EntityId>,
    masks: Vec<FixedBitSet>,
    events: Vec<ComponentEvent>,
    components_remove_queue: Vec<(EntityId, ComponentId)>,
    systems: Vec<System>,
    delivered: Vec<ComponentEvent>,
}

/// The attach event that adding component `c` to `e` queues.
pub open spec fn attach_event(e: EntityId, c: ComponentId) -> ComponentEvent {
    ComponentEvent { component_id: c, entity_id: e, kind: ComponentEventKind::Attached }
}

/// The detach event of one component.
pub open spec fn detach_event(e: EntityId, c: ComponentId) -> ComponentEvent {
    ComponentEvent { component_id: c, entity_id: e, kind: ComponentEventKind::Detached }
}

/// The single event that announces the destruction of an entity.
pub open spec fn detach_all_event(e: EntityId) -> ComponentEvent {
    detach_event(e, ALL_COMPONENTS)
}

/// Whether some system in `systems` has identifier `id`.
pub open spec fn has_system(systems: Seq<System>, id: usize) -> bool {
    exists|i: int| 0 <= i < systems.len() && (#[trigger] systems[i]).id_spec() == id
}

/// Where the system with identifier `id` stands in `systems`, or the length
/// of `systems` when there is none.
pub open spec fn system_slot(systems: Seq<System>, id: usize) -> int {
    if has_system(systems, id) {
        choose|i: int| 0 <= i < systems.len() && (#[trigger] systems[i]).id_spec() == id
    } else {
        systems.len() as int
    }
}

/// Entities that a queued detachment of one of the `required` components
/// names: those a system requiring them drops.
pub open spec fn detached_for(pairs: Seq<(EntityId, ComponentId)>, required: Set<ComponentId>) -> Set<
    EntityId,
> {
    Set::new(|e: EntityId| exists|c: ComponentId| pairs.contains((e, c)) && required.contains(c))
}

/// Components of `e` whose detachment is queued.
pub open spec fn detached_components(pairs: Seq<(EntityId, ComponentId)>, e: EntityId) -> Set<
    ComponentId,
> {
    Set::new(|c: ComponentId| pairs.contains((e, c)))
}

/// Entities that some attach event names.
pub open spec fn attached_entities(events: Seq<ComponentEvent>) -> Set<EntityId> {
    Set::new(|e: EntityId| exists|j: int| 0 <= j < events.len() && events[j].entity_id == e)
}

/// The queued removals that concern live entities, in queue order: the
/// entities a flush destroys, and the identifiers it frees.
pub open spec fn removed_entities(queue: Seq<EntityId>, live: Seq<EntityId>) -> Seq<EntityId> {
    queue.filter(|e: EntityId| live.contains(e))
}

/// The detach events of queued detachments, in queue order.
pub open spec fn detach_events(pairs: Seq<(EntityId, ComponentId)>) -> Seq<ComponentEvent> {
    pairs.map_values(|p: (EntityId, ComponentId)| detach_event(p.0, p.1))
}

/// One detach-all event per destroyed entity, in order.
pub open spec fn destruction_events(removed: Seq<EntityId>) -> Seq<ComponentEvent> {
    removed.map_values(|e: EntityId| detach_all_event(e))
}

/// `w1` is `w0` with system `id` registered, requiring the components of
/// `components`: in the place of the earlier system of that identifier, or
/// else appended; its members are the live entities that have those
/// components. Nothing else changes.
pub open spec fn system_registered(w0: World, w1: World, id: usize, components: Seq<ComponentId>) -> bool {
    let k = system_slot(w0.systems(), id);
    &&& w1.systems().len() == w0.systems().len() + if has_system(w0.systems(), id) {
        0int
    } else {
        1int
    }
    &&& w1.systems()[k].id_spec() == id
    &&& w1.systems()[k].required() == components_set(components)
    &&& w1.systems()[k].members().to_set() == matching_entities(
        w0.live(),
        components_set(components),
        |x: EntityId| w0.mask(x),
    )
    &&& forall|i: int|
        0 <= i < w0.systems().len() && i != k ==> #[trigger] w1.systems()[i] == w0.systems()[i]
    &&& w1.live() == w0.live()
    &&& w1.free() == w0.free()
    &&& w1.removal_queue() == w0.removal_queue()
    &&& w1.detach_queue() == w0.detach_queue()
    &&& w1.attach_queue() == w0.attach_queue()
    &&& w1.delivered() == w0.delivered()
    &&& forall|e: EntityId| #[trigger] w1.mask(e) == w0.mask(e)
}

/// The entities of `live` whose mask (given by `masks`) holds every
/// component of `required`.
pub open spec fn matching_entities(
    live: Seq<EntityId>,
    required: Set<ComponentId>,
    masks: spec_fn(EntityId) -> Set<ComponentId>,
) -> Set<EntityId> {
    Set::new(|x: EntityId| live.contains(x) && required.subset_of(masks(x)))
}

/// `new` is what system `old` becomes once it has seen `event`, delivered
/// while the entity's mask is `entity_mask`.
pub open spec fn system_after_event(
    new: System,
    old: System,
    event: ComponentEvent,
    entity_mask: Set<ComponentId>,
) -> bool {
    &&& new.wf()
    &&& new.required() == old.required()
    &&& new.id_spec() == old.id_spec()
    &&& new.members().to_set() == after_event(
        old.members().to_set(),
        old.required(),
        event,
        entity_mask,
    )
}

/// `w1` is `w0` after a flush: live entities, freed identifiers, masks,
/// system members and delivered events as the flush steps make them, and
/// every queue empty.
pub open spec fn flush_post(w0: World, w1: World) -> bool {
    &&& w1.live().to_set() == w0.live().to_set().difference(w0.removal_queue().to_set())
    &&& w1.free() == w0.free() + removed_entities(w0.removal_queue(), w0.live())
    &&& forall|e: EntityId| #[trigger] w1.mask(e) == w0.flushed_mask(e)
    &&& w1.removal_queue() == Seq::<EntityId>::empty()
    &&& w1.detach_queue() == Seq::<(EntityId, ComponentId)>::empty()
    &&& w1.attach_queue() == Seq::<ComponentEvent>::empty()
    &&& w1.systems().len() == w0.systems().len()
    &&& forall|i: int|
        0 <= i < w0.systems().len() ==> {
            &&& (#[trigger] w1.systems()[i]).required() == w0.systems()[i].required()
            &&& w1.systems()[i].id_spec() == w0.systems()[i].id_spec()
            &&& w1.systems()[i].members().to_set() == w0.flushed_members(i)
        }
    &&& w1.delivered() == w0.flushed_events()
}

impl World {
    /// Live entities.
    pub closed spec fn live(&self) -> Seq<EntityId> {
        self.entities@
    }

    /// Identifiers freed by destroyed entities; the last one is reused first.
    pub closed spec fn free(&self) -> Seq<EntityId> {
        self.dead_entities@
    }

    /// Entities queued for removal at the next flush.
    pub closed spec fn removal_queue(&self) -> Seq<EntityId> {
        self.entities_remove_queue@
    }

    /// (entity, component) pairs queued for detachment at the next flush.
    pub closed spec fn detach_queue(&self) -> Seq<(EntityId, ComponentId)> {
        self.components_remove_queue@
    }

    /// Attach events waiting for the next flush.
    pub closed spec fn attach_queue(&self) -> Seq<ComponentEvent> {
        self.events@
    }

    /// The component mask of entity `e`.
    pub closed spec fn mask(&self, e: EntityId) -> Set<ComponentId> {
        if e < self.masks@.len() {
            bits_of(self.masks@[e as int])
        } else {
            Set::empty()
        }
    }

    pub closed spec fn mask_len(&self, e: EntityId) -> nat {
        if e < self.masks@.len() {
            bit_len(self.masks@[e as int])
        } else {
            0
        }
    }

    pub closed spec fn masks_count(&self) -> nat {
        self.masks@.len()
    }

    /// Registered systems, in registration order.
    pub closed spec fn systems(&self) -> Seq<System> {
        self.systems@
    }

    /// The events delivered to the systems by the last flush or reset.
    pub closed spec fn delivered(&self) -> Seq<ComponentEvent> {
        self.delivered@
    }

    /// The mask of `e` once the queued detachments are applied.
    pub open spec fn mask_after_detach(&self, e: EntityId) -> Set<ComponentId> {
        self.mask(e).difference(detached_components(self.detach_queue(), e))
    }

    /// Members of system `i` after the detach and attach steps of a flush:
    /// those named by a queued detachment of a required component leave, and
    /// those named by an attach event join when they then have every required
    /// component.
    pub open spec fn members_after_events(&self, i: int) -> Set<EntityId> {
        let s = self.systems()[i];
        s.members().to_set().difference(detached_for(self.detach_queue(), s.required())).union(
            Set::new(
                |e: EntityId|
                    attached_entities(self.attach_queue()).contains(e) && s.required().subset_of(
                        self.mask_after_detach(e),
                    ),
            ),
        )
    }

    /// Members of system `i` after a flush.
    pub open spec fn flushed_members(&self, i: int) -> Set<EntityId> {
        self.members_after_events(i).difference(self.removal_queue().to_set())
    }

    /// The mask of `e` after a flush.
    pub open spec fn flushed_mask(&self, e: EntityId) -> Set<ComponentId> {
        if self.removal_queue().contains(e) {
            Set::empty()
        } else {
            self.mask_after_detach(e)
        }
    }

    /// The events a flush delivers, in order: detachments, then attachments,
    /// then one detach-all per destroyed entity.
    pub open spec fn flushed_events(&self) -> Seq<ComponentEvent> {
        detach_events(self.detach_queue()) + self.attach_queue() + destruction_events(
            removed_entities(self.removal_queue(), self.live()),
        )
    }

    pub open spec fn is_alive_spec(&self, e: EntityId) -> bool {
        self.live().contains(e)
    }

    /// Number of identifiers handed out since the last reset.
    pub open spec fn allocated(&self) -> nat {
        self.live().len() + self.free().len()
    }

    pub open spec fn ids_wf(&self) -> bool {
        &&& self.live().no_duplicates()
        &&& self.free().no_duplicates()
        &&& self.removal_queue().no_duplicates()
        &&& self.detach_queue().no_duplicates()
        &&& self.allocated() <= ECS_MAX_ENTITIES
        &&& forall|e: EntityId|
            #![trigger self.live().contains(e)]
            #![trigger self.free().contains(e)]
            (self.live().contains(e) || self.free().contains(e)) <==> (e as nat) < self.allocated()
        &&& forall|e: EntityId| !(#[trigger] self.live().contains(e) && self.free().contains(e))
    }

    pub open spec fn masks_wf(&self) -> bool {
        &&& self.masks_count() == ECS_MAX_ENTITIES
        &&& forall|e: EntityId| #[trigger]
            self.live().contains(e) ==> self.mask_len(e) == ECS_MAX_COMPONENTS as nat
        &&& forall|e: EntityId|
            e < ECS_MAX_ENTITIES && !self.live().contains(e) ==> #[trigger] self.mask(e)
                == Set::<ComponentId>::empty()
        &&& forall|e: EntityId, c: ComponentId| #[trigger]
            self.mask(e).contains(c) ==> c < ECS_MAX_COMPONENTS
    }

    pub open spec fn queues_wf(&self) -> bool {
        &&& forall|i: int|
            0 <= i < self.attach_queue().len() ==> {
                let ev = #[trigger] self.attach_queue()[i];
                &&& ev.kind == ComponentEventKind::Attached
                &&& ev.component_id < ECS_MAX_COMPONENTS
                &&& self.live().contains(ev.entity_id)
            }
        &&& forall|i: int|
            0 <= i < self.detach_queue().len() ==> {
                let p = #[trigger] self.detach_queue()[i];
                &&& p.1 < ECS_MAX_COMPONENTS
                &&& self.live().contains(p.0)
            }
    }

    /// Every member of a system is alive and has all the components the
    /// system requires; conversely an alive entity that has them (the system
    /// requiring at least one component) is a member or has an attach event
    /// waiting for the next flush.
    pub open spec fn members_wf(&self) -> bool {
        &&& forall|i: int| 0 <= i < self.systems().len() ==> #[trigger] self.systems()[i].wf()
        &&& forall|i: int, j: int|
            0 <= i < self.systems().len() && 0 <= j < self.systems().len() && i != j
                ==> #[trigger] self.systems()[i].id_spec() != #[trigger] self.systems()[j].id_spec()
        &&& forall|i: int, e: EntityId|
            0 <= i < self.systems().len() && #[trigger] self.systems()[i].is_member(e) ==> {
                &&& self.live().contains(e)
                &&& self.systems()[i].required().subset_of(self.mask(e))
            }
        &&& forall|i: int, e: EntityId|
            0 <= i < self.systems().len() && self.live().contains(e) && self.systems()[i].required()
                != Set::<ComponentId>::empty() && self.systems()[i].required().subset_of(self.mask(e))
                ==> #[trigger] self.systems()[i].is_member(e) || attached_entities(
                self.attach_queue(),
            ).contains(e)
    }

    pub open spec fn wf(&self) -> bool {
        &&& self.ids_wf()
        &&& self.masks_wf()
        &&& self.queues_wf()
        &&& self.members_wf()
    }

    /// An empty world: no entity, no system, nothing queued.
    pub fn new() -> (r: World)
        ensures
            r.wf(),
            r.live() == Seq::<EntityId>::empty(),
            r.free() == Seq::<EntityId>::empty(),
            r.removal_queue() == Seq::<EntityId>::empty(),
            r.detach_queue() == Seq::<(EntityId, ComponentId)>::empty(),
            r.attach_queue() == Seq::<ComponentEvent>::empty(),
            r.systems() == Seq::<System>::empty(),
            r.delivered() == Seq::<ComponentEvent>::empty(),
    {
        let mut masks: Vec<FixedBitSet> = Vec::with_capacity(ECS_MAX_ENTITIES);
        while masks.len() < ECS_MAX_ENTITIES
            invariant
                masks@.len() <= ECS_MAX_ENTITIES,
                forall|i: int| 0 <= i < masks@.len() ==> #[trigger] bits_of(masks@[i])
                    == Set::<ComponentId>::empty(),
            decreases ECS_MAX_ENTITIES - masks@.len(),
        {
            masks.push(FixedBitSet::with_capacity(0));
        }
        let r = World {
            entities: Vec::new(),
            dead_entities: Vec::new(),
            entities_remove_queue: Vec::new(),
            masks,
            events: Vec::new(),
            components_remove_queue: Vec::new(),
            systems: Vec::new(),
            delivered: Vec::new(),
        };
        proof {
            assert forall|e: EntityId|
                e < ECS_MAX_ENTITIES && !r.live().contains(e) implies #[trigger] r.mask(e)
                == Set::<ComponentId>::empty() by {
                assert(bits_of(masks@[e as int]) == Set::<ComponentId>::empty());
            }
        }
        r
    }

    /// Whether `id` is a live entity. Entities queued for removal stay alive
    /// until the next flush.
    pub fn is_alive(&self, id: &EntityId) -> (r: bool)
        ensures
            r == self.is_alive_spec(*id),
    {
        contains_id(&self.entities, *id)
    }

    /// Number of live entities.
    pub fn len_entities(&self) -> (r: usize)
        ensures
            r == self.live().len(),
    {
        self.entities.len()
    }

    /// Whether entity `entity_id` has component `component_id`.
    pub fn has_component(&self, entity_id: &EntityId, component_id: ComponentId) -> (r: bool)
        requires
            self.wf(),
            *entity_id < ECS_MAX_ENTITIES,
        ensures
            r == self.mask(*entity_id).contains(component_id),
    {
        self.masks[*entity_id].contains(component_id)
    }

    /// Queues entity `id` for removal at the next flush; nothing else changes
    /// until then, in particular no system loses a member.
    pub fn remove_entity(&mut self, id: &EntityId)
        requires
            old(self).wf(),
        ensures
            final(self).wf(),
            final(self).removal_queue().to_set() == old(self).removal_queue().to_set().insert(*id),
            final(self).live() == old(self).live(),
            final(self).free() == old(self).free(),
            final(self).detach_queue() == old(self).detach_queue(),
            final(self).attach_queue() == old(self).attach_queue(),
            final(self).systems() == old(self).systems(),
            final(self).delivered() == old(self).delivered(),
            forall|e: EntityId| #[trigger] final(self).mask(e) == old(self).mask(e),
    {
        insert_id(&mut self.entities_remove_queue, *id);
        proof {
            assert(self.masks@ == old(self).masks@);
            assert(self.systems@ == old(self).systems@);
            assert(self.live() == old(self).live());
            assert(self.systems() == old(self).systems());
            assert forall|e: EntityId|
                #[trigger] self.mask(e) == old(self).mask(e) && self.mask_len(e) == old(
                    self,
                ).mask_len(e) by {}
            assert(self.ids_wf());
            assert(self.masks_wf());
            assert(self.queues_wf());
            assert(self.members_wf());
        }
    }


    /// A new live entity: the most recently freed identifier if there is
    /// one, else the next identifier never used. Its mask is empty.
    pub fn create_entity(&mut self) -> (id: EntityId)
        requires
            old(self).wf(),
            old(self).live().len() < ECS_MAX_ENTITIES,
        ensures
            final(self).wf(),
            !old(self).is_alive_spec(id),
            id < ECS_MAX_ENTITIES,
            old(self).free().len() > 0 ==> id == old(self).free().last() && final(self).free()
                == old(self).free().drop_last(),
            old(self).free().len() == 0 ==> id == old(self).live().len() && final(self).free()
                == old(self).free(),
            final(self).live() == old(self).live().push(id),
            final(self).mask(id) == Set::<ComponentId>::empty(),
            forall|e: EntityId| e != id ==> #[trigger] final(self).mask(e) == old(self).mask(e),
            final(self).removal_queue() == old(self).removal_queue(),
            final(self).detach_queue() == old(self).detach_queue(),
            final(self).attach_queue() == old(self).attach_queue(),
            final(self).systems() == old(self).systems(),
            final(self).delivered() == old(self).delivered(),
    {
        let id: EntityId;
        if self.dead_entities.len() == 0 {
            id = self.entities.len();
        } else {
            id = self.dead_entities.pop().unwrap();
            proof {
                assert(old(self).free().contains(id));
            }
        }
        self.masks.set(id, FixedBitSet::with_capacity(ECS_MAX_COMPONENTS));
        self.entities.push(id);
        proof {
            let o = old(self);
            assert(!o.live().contains(id));
            crate::ids::lemma_push_keeps_no_duplicates(o.live(), id);
            assert(self.live() == o.live().push(id));
            if o.free().len() > 0 {
                assert(self.free() == o.free().drop_last());
                assert forall|a: int, b: int|
                    0 <= a < self.free().len() && 0 <= b < self.free().len() && a
                        != b implies self.free()[a] != self.free()[b] by {
                    assert(self.free()[a] == o.free()[a]);
                    assert(self.free()[b] == o.free()[b]);
                }
                assert forall|e: EntityId| self.free().contains(e) implies o.free().contains(e)
                    && e != id by {
                    let k = choose|k: int| 0 <= k < self.free().len() && self.free()[k] == e;
                    assert(o.free()[k] == e);
                    assert(o.free()[o.free().len() - 1] == id);
                }
                assert forall|e: EntityId| o.free().contains(e) && e != id implies self.free().contains(e) by {
                    let k = choose|k: int| 0 <= k < o.free().len() && o.free()[k] == e;
                    assert(k != o.free().len() - 1);
                    assert(self.free()[k] == e);
                }
            }
            assert forall|e: EntityId| e != id implies #[trigger] self.mask(e) == o.mask(e)
                && self.mask_len(e) == o.mask_len(e) by {
                if e < ECS_MAX_ENTITIES {
                    assert(self.masks@[e as int] == o.masks@[e as int]);
                }
            }
            assert(self.mask(id) == Set::<ComponentId>::empty());
            assert(self.systems() == o.systems());
            assert forall|e: EntityId| #[trigger]
                self.live().contains(e) <==> (o.live().contains(e) || e == id) by {
                if o.live().contains(e) {
                    let k = choose|k: int| 0 <= k < o.live().len() && o.live()[k] == e;
                    assert(self.live()[k] == e);
                }
                if e == id {
                    assert(self.live()[o.live().len() as int] == e);
                }
                if self.live().contains(e) && e != id {
                    let k = choose|k: int| 0 <= k < self.live().len() && self.live()[k] == e;
                    assert(o.live()[k] == e);
                }
            }
            if o.free().len() > 0 {
                assert(self.allocated() == o.allocated());
                assert(forall|e: EntityId| #[trigger]
                    self.free().contains(e) <==> (o.free().contains(e) && e != id));
            } else {
                assert(self.free() == o.free());
                assert(self.allocated() == o.allocated() + 1);
            }
            assert forall|e: EntityId|
                (self.live().contains(e) || self.free().contains(e)) <==> (e as nat)
                    < self.allocated() by {
                if o.live().contains(e) || o.free().contains(e) {
                }
            }
            assert forall|e: EntityId| !(self.live().contains(e) && self.free().contains(e)) by {
                if o.live().contains(e) || o.free().contains(e) {
                }
            }
            assert(self.allocated() <= ECS_MAX_ENTITIES);
            assert forall|i: int, x: EntityId|
                0 <= i < self.systems().len() && self.live().contains(x)
                    && self.systems()[i].required() != Set::<ComponentId>::empty()
                    && self.systems()[i].required().subset_of(self.mask(x)) implies #[trigger]
                self.systems()[i].is_member(x) || attached_entities(self.attach_queue()).contains(x) by {
                let r = self.systems()[i].required();
                if x == id {
                    if !(exists|c: ComponentId| r.contains(c)) {
                        assert(r =~= Set::<ComponentId>::empty());
                    }
                    let c = choose|c: ComponentId| r.contains(c);
                    assert(!self.mask(x).contains(c));
                } else {
                    assert(o.live().contains(x));
                    assert(self.mask(x) == o.mask(x));
                    assert(o.systems()[i] == self.systems()[i]);
                    assert(o.mask(x) == o.mask(x));
                    assert(o.systems()[i].is_member(x) || attached_entities(o.attach_queue()).contains(x));
                }
            }
            assert(self.ids_wf());
            assert(self.masks_wf());
            assert(self.queues_wf());
            assert(self.members_wf());
        }
        id
    }

    /// Attaches `component` to `entity_id`: stores it in `store` (allocating
    /// the store on first use), enables the store's component bit in the
    /// entity's mask and queues an attach event for the next flush.
    pub fn add_component<T: Default>(
        &mut self,
        store: &mut ComponentHolder<T>,
        entity_id: &EntityId,
        component: T,
    )
        requires
            old(self).wf(),
            old(store).wf(),
            old(self).is_alive_spec(*entity_id),
        ensures
            final(self).wf(),
            final(store).wf(),
            final(store).is_init_spec(),
            final(store).component_id() == old(store).component_id(),
            final(store).slots()[*entity_id as int] == component,
            old(store).is_init_spec() ==> final(store).slots() == old(store).slots().update(
                *entity_id as int,
                component,
            ),
            final(self).mask(*entity_id) == old(self).mask(*entity_id).insert(
                old(store).component_id(),
            ),
            forall|e: EntityId|
                e != *entity_id ==> #[trigger] final(self).mask(e) == old(self).mask(e),
            final(self).attach_queue() == old(self).attach_queue().push(
                attach_event(*entity_id, old(store).component_id()),
            ),
            final(self).live() == old(self).live(),
            final(self).free() == old(self).free(),
            final(self).removal_queue() == old(self).removal_queue(),
            final(self).detach_queue() == old(self).detach_queue(),
            final(self).systems() == old(self).systems(),
            final(self).delivered() == old(self).delivered(),
    {
        let e = *entity_id;
        proof {
            assert(old(self).live().contains(e));
        }
        if !store.is_init() {
            store.init();
        }
        store.add_component(entity_id, component);
        let component_id = store.id();
        self.masks[e].set(component_id, true);
        self.events.push(
            ComponentEvent {
                component_id,
                entity_id: e,
                kind: ComponentEventKind::Attached,
            },
        );
        proof {
            let o = old(self);
            assert forall|x: EntityId| x != e implies #[trigger] self.mask(x) == o.mask(x)
                && self.mask_len(x) == o.mask_len(x) by {
                if x < ECS_MAX_ENTITIES {
                    assert(self.masks@[x as int] == o.masks@[x as int]);
                }
            }
            assert(self.mask(e) == o.mask(e).insert(component_id));
            assert(self.mask_len(e) == o.mask_len(e));
            assert(self.live() == o.live());
            assert(self.systems() == o.systems());
            assert(self.attach_queue() == o.attach_queue().push(attach_event(e, component_id)));
            assert forall|x: EntityId, c: ComponentId| #[trigger]
                self.mask(x).contains(c) implies c < ECS_MAX_COMPONENTS by {
                if x != e || c != component_id {
                    assert(o.mask(x).contains(c));
                }
            }
            assert forall|i: int, x: EntityId|
                0 <= i < self.systems().len() && #[trigger] self.systems()[i].is_member(
                    x,
                ) implies self.systems()[i].required().subset_of(self.mask(x)) by {
                assert(o.systems()[i].required().subset_of(o.mask(x)));
            }
            assert forall|y: EntityId| #[trigger] attached_entities(o.attach_queue()).contains(y) || y == e
                implies attached_entities(self.attach_queue()).contains(y) by {
                if y == e {
                    assert(self.attach_queue()[o.attach_queue().len() as int].entity_id == e);
                } else {
                    let j = choose|j: int| 0 <= j < o.attach_queue().len() && o.attach_queue()[j].entity_id == y;
                    assert(self.attach_queue()[j] == o.attach_queue()[j]);
                }
            }
            assert forall|i: int, x: EntityId|
                0 <= i < self.systems().len() && self.live().contains(x)
                    && self.systems()[i].required() != Set::<ComponentId>::empty()
                    && self.systems()[i].required().subset_of(self.mask(x)) implies #[trigger]
                self.systems()[i].is_member(x) || attached_entities(self.attach_queue()).contains(x) by {
                if x != e {
                    assert(self.mask(x) == o.mask(x));
                    assert(o.systems()[i] == self.systems()[i]);
                    assert(o.mask(x) == o.mask(x));
                    assert(o.systems()[i].is_member(x) || attached_entities(o.attach_queue()).contains(x));
                } else {
                    assert(attached_entities(o.attach_queue()).contains(x) || x == e);
                }
            }
            assert(self.ids_wf());
            assert(self.masks_wf());
            assert(self.queues_wf());
            assert(self.members_wf());
        }
    }

    /// Queues the detachment of component `component_id` from `entity_id`
    /// for the next flush, if the entity has that component now.
    pub fn remove_component(&mut self, entity_id: &EntityId, component_id: ComponentId)
        requires
            old(self).wf(),
            *entity_id < ECS_MAX_ENTITIES,
        ensures
            final(self).wf(),
            final(self).detach_queue().to_set() == if old(self).mask(*entity_id).contains(
                component_id,
            ) {
                old(self).detach_queue().to_set().insert((*entity_id, component_id))
            } else {
                old(self).detach_queue().to_set()
            },
            final(self).live() == old(self).live(),
            final(self).free() == old(self).free(),
            final(self).removal_queue() == old(self).removal_queue(),
            final(self).attach_queue() == old(self).attach_queue(),
            final(self).systems() == old(self).systems(),
            final(self).delivered() == old(self).delivered(),
            forall|e: EntityId| #[trigger] final(self).mask(e) == old(self).mask(e),
    {
        if self.has_component(entity_id, component_id) {
            let pair = (*entity_id, component_id);
            let mut i: usize = 0;
            let mut found = false;
            while i < self.components_remove_queue.len()
                invariant
                    i <= self.components_remove_queue@.len(),
                    !found ==> forall|j: int| 0 <= j < i ==> self.components_remove_queue@[j] != pair,
                    found ==> self.components_remove_queue@.contains(pair),
                decreases self.components_remove_queue@.len() - i,
            {
                if self.components_remove_queue[i].0 == pair.0
                    && self.components_remove_queue[i].1 == pair.1 {
                    found = true;
                }
                i = i + 1;
            }
            if !found {
                self.components_remove_queue.push(pair);
                proof {
                    let q = old(self).detach_queue();
                    q.lemma_push_to_set_commute(pair);
                    assert forall|a: int, b: int|
                        0 <= a < self.detach_queue().len() && 0 <= b < self.detach_queue().len()
                            && a != b implies self.detach_queue()[a] != self.detach_queue()[b] by {
                        if a < q.len() && b < q.len() {
                            assert(self.detach_queue()[a] == q[a]);
                            assert(self.detach_queue()[b] == q[b]);
                        } else if a == q.len() {
                            assert(self.detach_queue()[b] == q[b]);
                        } else {
                            assert(self.detach_queue()[a] == q[a]);
                        }
                    }
                }
            } else {
                proof {
                    assert(old(self).detach_queue().to_set().contains(pair));
                    assert(old(self).detach_queue().to_set().insert(pair) =~= old(
                        self,
                    ).detach_queue().to_set());
                }
            }
            proof {
                assert(old(self).live().contains(*entity_id));
            }
        }
        proof {
            let o = old(self);
            assert(self.masks@ == o.masks@);
            assert(self.live() == o.live());
            assert(self.systems() == o.systems());
            assert forall|e: EntityId|
                #[trigger] self.mask(e) == o.mask(e) && self.mask_len(e) == o.mask_len(e) by {}
            assert(self.ids_wf());
            assert(self.masks_wf());
            assert(self.queues_wf());
            assert(self.members_wf());
        }
    }

    /// The value of the component of `store`'s type attached to `entity_id`,
    /// or `None` when the entity does not have that component. `store` must
    /// be the one the component was added through: allocated as soon as any
    /// entity has its component.
    pub fn get_component<'a, T: Default>(
        &self,
        store: &'a ComponentHolder<T>,
        entity_id: &EntityId,
    ) -> (r: Option<&'a T>)
        requires
            self.wf(),
            store.wf(),
            *entity_id < ECS_MAX_ENTITIES,
            store.is_init_spec() || !self.mask(*entity_id).contains(store.component_id()),
        ensures
            r is Some <==> self.mask(*entity_id).contains(store.component_id()),
            r matches Some(v) ==> *v == store.slots()[*entity_id as int],
    {
        if !self.has_component(entity_id, store.id()) {
            None
        } else if !store.is_init() {
            None
        } else {
            Some(store.get_component(entity_id))
        }
    }

    /// The component of `store`'s type attached to `entity_id`, for writing,
    /// or `None` when the entity does not have that component.
    pub fn get_component_mut<'a, T: Default>(
        &self,
        store: &'a mut ComponentHolder<T>,
        entity_id: &EntityId,
    ) -> (r: Option<&'a mut T>)
        requires
            self.wf(),
            old(store).wf(),
            *entity_id < ECS_MAX_ENTITIES,
            old(store).is_init_spec() || !self.mask(*entity_id).contains(old(store).component_id()),
        ensures
            r is Some <==> self.mask(*entity_id).contains(old(store).component_id()),
            r is None ==> *final(store) == *old(store),
            r matches Some(v) ==> *v == old(store).slots()[*entity_id as int]
                && final(store).slots() == old(store).slots().update(*entity_id as int, *final(v)),
            final(store).is_init_spec() == old(store).is_init_spec(),
            final(store).component_id() == old(store).component_id(),
    {
        if !self.has_component(entity_id, store.id()) {
            None
        } else if !store.is_init() {
            None
        } else {
            Some(store.get_component_mut(entity_id))
        }
    }

    /// Where the system with identifier `system_id` stands, if registered.
    pub fn find_system(&self, system_id: usize) -> (r: Option<usize>)
        requires
            self.wf(),
        ensures
            r is None <==> !has_system(self.systems(), system_id),
            r matches Some(i) ==> i == system_slot(self.systems(), system_id),
    {
        let mut i: usize = 0;
        while i < self.systems.len()
            invariant
                i <= self.systems@.len(),
                self.wf(),
                forall|j: int| 0 <= j < i ==> (#[trigger] self.systems@[j]).id_spec() != system_id,
            decreases self.systems@.len() - i,
        {
            if self.systems[i].id() == system_id {
                proof {
                    assert(has_system(self.systems(), system_id));
                    let k = system_slot(self.systems(), system_id);
                    assert(self.systems()[k].id_spec() == system_id);
                    if k != i {
                        assert(self.systems()[i as int].id_spec() != self.systems()[k].id_spec());
                    }
                }
                return Some(i);
            }
            i = i + 1;
        }
        None
    }

    /// Registers a system with identifier `system_id` that requires the
    /// listed components; it replaces an earlier system of that identifier.
    /// Its members start as the live entities that already have those
    /// components (none in a world without entities), and follow the events
    /// delivered from then on.
    pub fn register_system(&mut self, system_id: usize, components: &Vec<ComponentId>)
        requires
            old(self).wf(),
            forall|i: int| 0 <= i < components@.len() ==> components@[i] < ECS_MAX_COMPONENTS,
        ensures
            final(self).wf(),
            system_registered(*old(self), *final(self), system_id, components@),
    {
        let mut system = System::new(system_id, components);
        let ghost req = components_set(components@);
        let ghost masks = |x: EntityId| old(self).mask(x);
        let mut j: usize = 0;
        while j < self.entities.len()
            invariant
                j <= self.entities@.len(),
                *self == *old(self),
                old(self).wf(),
                masks == (|x: EntityId| old(self).mask(x)),
                system.wf(),
                system.required() == req,
                system.id_spec() == system_id,
                system.members().to_set() == matching_entities(
                    self.live().take(j as int),
                    req,
                    masks,
                ),
            decreases self.entities@.len() - j,
        {
            let e = self.entities[j];
            proof {
                assert(self.live().contains(e));
                assert(self.live().take(j as int + 1) == self.live().take(j as int).push(e));
            }
            system.enroll_if_matching(e, &self.masks[e]);
            proof {
                assert forall|x: EntityId| #[trigger] self.live().take(j as int + 1).contains(x) <==> (self.live().take(j as int).contains(x) || x == e) by {
                    vstd::seq_lib::lemma_seq_contains_after_push(self.live().take(j as int), e, x);
                }
                assert(self.mask(e) == bits_of(self.masks@[e as int]));
                assert(system.members().to_set() =~= matching_entities(
                    self.live().take(j as int + 1),
                    req,
                    masks,
                ));
            }
            j = j + 1;
        }
        proof {
            assert(self.live().take(self.live().len() as int) == self.live());
        }
        match self.find_system(system_id) {
            Some(i) => {
                self.systems.set(i, system);
            },
            None => {
                self.systems.push(system);
            },
        }
        proof {
            let o = old(self);
            let k = system_slot(o.systems(), system_id);
            assert(self.masks@ == o.masks@);
            assert(self.live() == o.live());
            assert forall|e: EntityId|
                #[trigger] self.mask(e) == o.mask(e) && self.mask_len(e) == o.mask_len(e) by {}
            assert forall|i: int| 0 <= i < self.systems().len() && i != k implies #[trigger]
                self.systems()[i] == o.systems()[i] by {}
            assert forall|i: int, j: int|
                0 <= i < self.systems().len() && 0 <= j < self.systems().len() && i
                    != j implies #[trigger] self.systems()[i].id_spec()
                    != #[trigger] self.systems()[j].id_spec() by {
                if i != k && j != k {
                    assert(o.systems()[i].id_spec() != o.systems()[j].id_spec());
                } else if i == k {
                    assert(self.systems()[j] == o.systems()[j]);
                    if o.systems()[j].id_spec() == system_id {
                        assert(has_system(o.systems(), system_id));
                    }
                } else {
                    assert(self.systems()[i] == o.systems()[i]);
                    if o.systems()[i].id_spec() == system_id {
                        assert(has_system(o.systems(), system_id));
                    }
                }
            }
            assert forall|i: int, x: EntityId|
                0 <= i < self.systems().len() && #[trigger] self.systems()[i].is_member(
                    x,
                ) implies self.live().contains(x) && self.systems()[i].required().subset_of(
                self.mask(x),
            ) by {
                if i != k {
                    assert(self.systems()[i] == o.systems()[i]);
                } else {
                    assert(self.systems()[k].members().to_set().contains(x));
                }
            }
            assert forall|i: int, x: EntityId|
                0 <= i < self.systems().len() && self.live().contains(x)
                    && self.systems()[i].required() != Set::<ComponentId>::empty()
                    && self.systems()[i].required().subset_of(self.mask(x)) implies #[trigger]
                self.systems()[i].is_member(x) || attached_entities(self.attach_queue()).contains(x) by {
                if i != k {
                    assert(self.systems()[i] == o.systems()[i]);
                    assert(o.mask(x) == o.mask(x));
                    assert(o.systems()[i].is_member(x) || attached_entities(o.attach_queue()).contains(x));
                } else {
                    assert(self.systems()[k].members().to_set().contains(x));
                }
            }
            assert(self.ids_wf());
            assert(self.masks_wf());
            assert(self.queues_wf());
            assert(self.members_wf());
        }
    }

    /// The system with identifier `system_id`, if registered; its member set
    /// can be read from there.
    pub fn get_system_base(&self, system_id: usize) -> (r: Option<&System>)
        requires
            self.wf(),
        ensures
            r is None <==> !has_system(self.systems(), system_id),
            r matches Some(s) ==> *s == self.systems()[system_slot(self.systems(), system_id)],
    {
        match self.find_system(system_id) {
            Some(i) => Some(&self.systems[i]),
            None => None,
        }
    }

    /// Delivers `event` to every system, in registration order, and records
    /// it among the delivered events.
    fn notify(&mut self, event: ComponentEvent)
        requires
            event.entity_id < ECS_MAX_ENTITIES,
            old(self).masks@.len() == ECS_MAX_ENTITIES,
            forall|i: int| 0 <= i < old(self).systems().len() ==> #[trigger] old(self).systems()[i].wf(),
        ensures
            final(self).systems().len() == old(self).systems().len(),
            forall|i: int|
                0 <= i < old(self).systems().len() ==> system_after_event(
                    #[trigger] final(self).systems()[i],
                    old(self).systems()[i],
                    event,
                    old(self).mask(event.entity_id),
                ),
            final(self).delivered() == old(self).delivered().push(event),
            final(self).entities == old(self).entities,
            final(self).dead_entities == old(self).dead_entities,
            final(self).entities_remove_queue == old(self).entities_remove_queue,
            final(self).masks == old(self).masks,
            final(self).events == old(self).events,
            final(self).components_remove_queue == old(self).components_remove_queue,
    {
        let e = event.entity_id;
        let mut i: usize = 0;
        while i < self.systems.len()
            invariant
                e == event.entity_id,
                e < ECS_MAX_ENTITIES,
                self.masks@.len() == ECS_MAX_ENTITIES,
                i <= self.systems@.len(),
                self.systems@.len() == old(self).systems@.len(),
                forall|j: int|
                    0 <= j < i ==> system_after_event(
                        #[trigger] self.systems@[j],
                        old(self).systems@[j],
                        event,
                        old(self).mask(e),
                    ),
                forall|j: int| i <= j < self.systems@.len() ==> #[trigger] self.systems@[j] == old(self).systems@[j],
                forall|j: int| 0 <= j < old(self).systems().len() ==> #[trigger] old(self).systems()[j].wf(),
                self.delivered == old(self).delivered,
                self.entities == old(self).entities,
                self.dead_entities == old(self).dead_entities,
                self.entities_remove_queue == old(self).entities_remove_queue,
                self.masks == old(self).masks,
                self.events == old(self).events,
                self.components_remove_queue == old(self).components_remove_queue,
            decreases self.systems@.len() - i,
        {
            proof {
                assert(self.systems@[i as int] == old(self).systems()[i as int]);
            }
            self.systems[i].on_event(&event, &self.masks[e]);
            i = i + 1;
        }
        self.delivered.push(event);
    }

    /// First step of a flush: applies the queued detachments, each followed
    /// by its detach event.
    fn flush_detachments(&mut self)
        requires
            old(self).wf(),
        ensures
            final(self).masks@.len() == ECS_MAX_ENTITIES,
            forall|e: EntityId| #[trigger] final(self).mask(e) == old(self).mask_after_detach(e),
            forall|e: EntityId| #[trigger] final(self).mask_len(e) == old(self).mask_len(e),
            final(self).detach_queue() == Seq::<(EntityId, ComponentId)>::empty(),
            final(self).systems().len() == old(self).systems().len(),
            forall|i: int|
                0 <= i < old(self).systems().len() ==> {
                    &&& (#[trigger] final(self).systems()[i]).wf()
                    &&& final(self).systems()[i].required() == old(self).systems()[i].required()
                    &&& final(self).systems()[i].id_spec() == old(self).systems()[i].id_spec()
                    &&& final(self).systems()[i].members().to_set() == old(
                        self,
                    ).systems()[i].members().to_set().difference(
                        detached_for(old(self).detach_queue(), old(self).systems()[i].required()),
                    )
                },
            final(self).delivered() == old(self).delivered() + detach_events(
                old(self).detach_queue(),
            ),
            final(self).entities == old(self).entities,
            final(self).dead_entities == old(self).dead_entities,
            final(self).entities_remove_queue == old(self).entities_remove_queue,
            final(self).events == old(self).events,
    {
        let mut pairs: Vec<(EntityId, ComponentId)> = Vec::new();
        std::mem::swap(&mut pairs, &mut self.components_remove_queue);
        let ghost q = pairs@;
        let mut k: usize = 0;
        while k < pairs.len()
            invariant
                pairs@ == q,
                q == old(self).detach_queue(),
                0 <= k <= q.len(),
                old(self).wf(),
                self.components_remove_queue@ == Seq::<(EntityId, ComponentId)>::empty(),
                self.entities == old(self).entities,
                self.dead_entities == old(self).dead_entities,
                self.entities_remove_queue == old(self).entities_remove_queue,
                self.events == old(self).events,
                self.masks@.len() == ECS_MAX_ENTITIES,
                forall|e: EntityId| #[trigger]
                    self.mask(e) == old(self).mask(e).difference(
                        detached_components(q.take(k as int), e),
                    ),
                forall|e: EntityId| #[trigger] self.mask_len(e) == old(self).mask_len(e),
                self.systems().len() == old(self).systems().len(),
                forall|i: int|
                    0 <= i < old(self).systems().len() ==> {
                        &&& (#[trigger] self.systems()[i]).wf()
                        &&& self.systems()[i].required() == old(self).systems()[i].required()
                        &&& self.systems()[i].id_spec() == old(self).systems()[i].id_spec()
                        &&& self.systems()[i].members().to_set() == old(
                            self,
                        ).systems()[i].members().to_set().difference(
                            detached_for(q.take(k as int), old(self).systems()[i].required()),
                        )
                    },
                self.delivered() == old(self).delivered() + detach_events(q.take(k as int)),
            decreases q.len() - k,
        {
            let (e, c) = pairs[k];
            proof {
                assert(q[k as int] == (e, c));
                assert(old(self).live().contains(e));
                assert(c < ECS_MAX_COMPONENTS);
                assert(self.mask_len(e) == ECS_MAX_COMPONENTS as nat);
            }
            let ghost before = *self;
            self.masks[e].set(c, false);
            proof {
                assert forall|x: EntityId|
                    #[trigger] self.mask(x) == (if x == e {
                        before.mask(x).remove(c)
                    } else {
                        before.mask(x)
                    }) && self.mask_len(x) == before.mask_len(x) by {
                    if x < ECS_MAX_ENTITIES && x != e {
                        assert(self.masks@[x as int] == before.masks@[x as int]);
                    }
                }
            }
            let ghost middle = *self;
            self.notify(
                ComponentEvent { component_id: c, entity_id: e, kind: ComponentEventKind::Detached },
            );
            proof {
                let t0 = q.take(k as int);
                let t1 = q.take(k as int + 1);
                assert(t1 == t0.push((e, c)));
                assert forall|x: EntityId| #[trigger]
                    self.mask(x) == old(self).mask(x).difference(detached_components(t1, x)) by {
                    assert(self.mask(x) == middle.mask(x));
                    assert forall|y: ComponentId|
                        t1.contains((x, y)) <==> (t0.contains((x, y)) || (x == e && y == c)) by {
                        vstd::seq_lib::lemma_seq_contains_after_push(t0, (e, c), (x, y));
                    }
                    assert(self.mask(x) =~= old(self).mask(x).difference(
                        detached_components(t1, x),
                    ));
                }
                assert forall|x: EntityId| #[trigger] self.mask_len(x) == old(self).mask_len(x) by {
                    assert(self.mask_len(x) == middle.mask_len(x));
                    assert(middle.mask(x) == middle.mask(x));
                    assert(before.mask_len(x) == old(self).mask_len(x));
                }
                assert forall|x: EntityId, r: Set<ComponentId>|
                    #[trigger] detached_for(t1, r).contains(x) <==> (detached_for(t0, r).contains(x) || (x
                        == e && r.contains(c))) by {
                    if detached_for(t1, r).contains(x) {
                        let y = choose|y: ComponentId| t1.contains((x, y)) && r.contains(y);
                        vstd::seq_lib::lemma_seq_contains_after_push(t0, (e, c), (x, y));
                    }
                    if detached_for(t0, r).contains(x) {
                        let y = choose|y: ComponentId| t0.contains((x, y)) && r.contains(y);
                        vstd::seq_lib::lemma_seq_contains_after_push(t0, (e, c), (x, y));
                        assert(t1.contains((x, y)));
                    }
                    if x == e && r.contains(c) {
                        vstd::seq_lib::lemma_seq_contains_after_push(t0, (e, c), (e, c));
                        assert(t1.contains((x, c)));
                    }
                }
                assert forall|i: int| 0 <= i < old(self).systems().len() implies {
                    &&& (#[trigger] self.systems()[i]).wf()
                    &&& self.systems()[i].required() == old(self).systems()[i].required()
                    &&& self.systems()[i].id_spec() == old(self).systems()[i].id_spec()
                    &&& self.systems()[i].members().to_set() == old(
                        self,
                    ).systems()[i].members().to_set().difference(detached_for(t1, old(self).systems()[i].required()))
                } by {
                    let r = old(self).systems()[i].required();
                    assert(system_after_event(
                        self.systems()[i],
                        middle.systems()[i],
                        detach_event(e, c),
                        middle.mask(e),
                    ));
                    assert(c != ALL_COMPONENTS);
                    assert(self.systems()[i].members().to_set() =~= old(
                        self,
                    ).systems()[i].members().to_set().difference(detached_for(t1, r)));
                }
                t0.lemma_push_map_commute(
                    |p: (EntityId, ComponentId)| detach_event(p.0, p.1),
                    (e, c),
                );
                assert(detach_events(t1) == detach_events(t0).push(detach_event(e, c)));
                assert(self.delivered() =~= old(self).delivered() + detach_events(t1));
            }
            k = k + 1;
        }
        proof {
            assert(q.take(q.len() as int) == q);
        }
    }

    /// Second step of a flush: delivers the queued attach events.
    fn flush_attachments(&mut self)
        requires
            old(self).masks@.len() == ECS_MAX_ENTITIES,
            forall|i: int| 0 <= i < old(self).systems().len() ==> #[trigger] old(self).systems()[i].wf(),
            forall|j: int|
                0 <= j < old(self).attach_queue().len() ==> {
                    &&& (#[trigger] old(self).attach_queue()[j]).kind == ComponentEventKind::Attached
                    &&& old(self).attach_queue()[j].entity_id < ECS_MAX_ENTITIES
                },
        ensures
            final(self).masks == old(self).masks,
            final(self).attach_queue() == Seq::<ComponentEvent>::empty(),
            final(self).systems().len() == old(self).systems().len(),
            forall|i: int|
                0 <= i < old(self).systems().len() ==> {
                    &&& (#[trigger] final(self).systems()[i]).wf()
                    &&& final(self).systems()[i].required() == old(self).systems()[i].required()
                    &&& final(self).systems()[i].id_spec() == old(self).systems()[i].id_spec()
                    &&& final(self).systems()[i].members().to_set() == old(
                        self,
                    ).systems()[i].members().to_set().union(
                        Set::new(
                            |e: EntityId|
                                attached_entities(old(self).attach_queue()).contains(e) && old(
                                    self,
                                ).systems()[i].required().subset_of(old(self).mask(e)),
                        ),
                    )
                },
            final(self).delivered() == old(self).delivered() + old(self).attach_queue(),
            final(self).entities == old(self).entities,
            final(self).dead_entities == old(self).dead_entities,
            final(self).entities_remove_queue == old(self).entities_remove_queue,
            final(self).components_remove_queue == old(self).components_remove_queue,
    {
        let mut events: Vec<ComponentEvent> = Vec::new();
        std::mem::swap(&mut events, &mut self.events);
        let ghost q = events@;
        let mut k: usize = 0;
        while k < events.len()
            invariant
                events@ == q,
                q == old(self).attach_queue(),
                0 <= k <= q.len(),
                forall|j: int|
                    0 <= j < q.len() ==> {
                        &&& (#[trigger] q[j]).kind == ComponentEventKind::Attached
                        &&& q[j].entity_id < ECS_MAX_ENTITIES
                    },
                self.events@ == Seq::<ComponentEvent>::empty(),
                self.masks == old(self).masks,
                self.masks@.len() == ECS_MAX_ENTITIES,
                self.entities == old(self).entities,
                self.dead_entities == old(self).dead_entities,
                self.entities_remove_queue == old(self).entities_remove_queue,
                self.components_remove_queue == old(self).components_remove_queue,
                self.systems().len() == old(self).systems().len(),
                forall|i: int|
                    0 <= i < old(self).systems().len() ==> {
                        &&& (#[trigger] self.systems()[i]).wf()
                        &&& self.systems()[i].required() == old(self).systems()[i].required()
                        &&& self.systems()[i].id_spec() == old(self).systems()[i].id_spec()
                        &&& self.systems()[i].members().to_set() == old(
                            self,
                        ).systems()[i].members().to_set().union(
                            Set::new(
                                |e: EntityId|
                                    attached_entities(q.take(k as int)).contains(e) && old(
                                        self,
                                    ).systems()[i].required().subset_of(old(self).mask(e)),
                            ),
                        )
                    },
                self.delivered() == old(self).delivered() + q.take(k as int),
            decreases q.len() - k,
        {
            let event = events[k];
            let ghost before = *self;
            proof {
                assert(q[k as int] == event);
            }
            self.notify(event);
            proof {
                let t0 = q.take(k as int);
                let t1 = q.take(k as int + 1);
                let e = event.entity_id;
                assert(t1 == t0.push(event));
                assert forall|x: EntityId|
                    attached_entities(t1).contains(x) <==> (attached_entities(t0).contains(x) || x
                        == e) by {
                    if attached_entities(t0).contains(x) {
                        let j = choose|j: int| 0 <= j < t0.len() && t0[j].entity_id == x;
                        assert(t1[j] == t0[j]);
                    }
                    if x == e {
                        assert(t1[k as int] == event);
                    }
                    if attached_entities(t1).contains(x) && x != e {
                        let j = choose|j: int| 0 <= j < t1.len() && t1[j].entity_id == x;
                        assert(j < k);
                        assert(t0[j] == t1[j]);
                    }
                }
                assert forall|i: int| 0 <= i < old(self).systems().len() implies {
                    &&& (#[trigger] self.systems()[i]).wf()
                    &&& self.systems()[i].required() == old(self).systems()[i].required()
                    &&& self.systems()[i].id_spec() == old(self).systems()[i].id_spec()
                    &&& self.systems()[i].members().to_set() == old(
                        self,
                    ).systems()[i].members().to_set().union(
                        Set::new(
                            |x: EntityId|
                                attached_entities(t1).contains(x) && old(
                                    self,
                                ).systems()[i].required().subset_of(old(self).mask(x)),
                        ),
                    )
                } by {
                    assert(system_after_event(
                        self.systems()[i],
                        before.systems()[i],
                        event,
                        before.mask(e),
                    ));
                    assert(before.mask(e) == old(self).mask(e));
                    assert(self.systems()[i].members().to_set() =~= old(
                        self,
                    ).systems()[i].members().to_set().union(
                        Set::new(
                            |x: EntityId|
                                attached_entities(t1).contains(x) && old(
                                    self,
                                ).systems()[i].required().subset_of(old(self).mask(x)),
                        ),
                    ));
                }
                assert(self.delivered() =~= old(self).delivered() + t1);
            }
            k = k + 1;
        }
        proof {
            assert(q.take(q.len() as int) == q);
        }
    }

    /// Last step of a flush: destroys the live entities queued for removal,
    /// in queue order. Each one's identifier is freed, its mask cleared, and a
    /// single detach-all event is delivered for it.
    fn flush_removals(&mut self)
        requires
            old(self).masks@.len() == ECS_MAX_ENTITIES,
            old(self).live().no_duplicates(),
            old(self).free().no_duplicates(),
            old(self).removal_queue().no_duplicates(),
            forall|e: EntityId| !(#[trigger] old(self).live().contains(e) && old(self).free().contains(e)),
            forall|e: EntityId| #[trigger] old(self).live().contains(e) ==> e < ECS_MAX_ENTITIES,
            forall|i: int| 0 <= i < old(self).systems().len() ==> #[trigger] old(self).systems()[i].wf(),
            forall|i: int, e: EntityId|
                0 <= i < old(self).systems().len() && #[trigger] old(self).systems()[i].is_member(e)
                    ==> old(self).live().contains(e),
        ensures
            final(self).masks@.len() == ECS_MAX_ENTITIES,
            final(self).live().no_duplicates(),
            final(self).free().no_duplicates(),
            final(self).live().to_set() == old(self).live().to_set().difference(
                old(self).removal_queue().to_set(),
            ),
            final(self).live().len() + final(self).free().len() == old(self).live().len() + old(
                self,
            ).free().len(),
            final(self).free() == old(self).free() + removed_entities(
                old(self).removal_queue(),
                old(self).live(),
            ),
            forall|x: EntityId| #[trigger]
                final(self).free().contains(x) <==> old(self).free().contains(x) || (old(
                    self,
                ).removal_queue().contains(x) && old(self).live().contains(x)),
            forall|e: EntityId|
                #[trigger] final(self).mask(e) == if old(self).removal_queue().contains(e) && old(
                    self,
                ).live().contains(e) {
                    Set::<ComponentId>::empty()
                } else {
                    old(self).mask(e)
                },
            forall|e: EntityId|
                !old(self).removal_queue().contains(e) ==> #[trigger] final(self).mask_len(e)
                    == old(self).mask_len(e),
            final(self).removal_queue() == Seq::<EntityId>::empty(),
            final(self).systems().len() == old(self).systems().len(),
            forall|i: int|
                0 <= i < old(self).systems().len() ==> {
                    &&& (#[trigger] final(self).systems()[i]).wf()
                    &&& final(self).systems()[i].required() == old(self).systems()[i].required()
                    &&& final(self).systems()[i].id_spec() == old(self).systems()[i].id_spec()
                    &&& final(self).systems()[i].members().to_set() == old(
                        self,
                    ).systems()[i].members().to_set().difference(
                        old(self).removal_queue().to_set(),
                    )
                },
            final(self).delivered() == old(self).delivered() + destruction_events(
                removed_entities(old(self).removal_queue(), old(self).live()),
            ),
            final(self).events == old(self).events,
            final(self).components_remove_queue == old(self).components_remove_queue,
    {
        let mut queue: Vec<EntityId> = Vec::new();
        std::mem::swap(&mut queue, &mut self.entities_remove_queue);
        let ghost q = queue@;
        let ghost live0 = old(self).live();
        let ghost pred = |e: EntityId| live0.contains(e);
        let mut k: usize = 0;
        while k < queue.len()
            invariant
                queue@ == q,
                q == old(self).removal_queue(),
                q.no_duplicates(),
                live0 == old(self).live(),
                pred == (|e: EntityId| live0.contains(e)),
                0 <= k <= q.len(),
                forall|e: EntityId| !(#[trigger] live0.contains(e) && old(self).free().contains(e)),
                forall|e: EntityId| #[trigger] live0.contains(e) ==> e < ECS_MAX_ENTITIES,
                self.entities_remove_queue@ == Seq::<EntityId>::empty(),
                self.events == old(self).events,
                self.components_remove_queue == old(self).components_remove_queue,
                self.masks@.len() == ECS_MAX_ENTITIES,
                self.live().no_duplicates(),
                self.free().no_duplicates(),
                self.live().to_set() == live0.to_set().difference(q.take(k as int).to_set()),
                self.live().len() + self.free().len() == live0.len() + old(self).free().len(),
                self.free() == old(self).free() + q.take(k as int).filter(pred),
                forall|x: EntityId| #[trigger]
                    self.free().contains(x) <==> old(self).free().contains(x) || (q.take(
                        k as int,
                    ).contains(x) && live0.contains(x)),
                forall|e: EntityId|
                    #[trigger] self.mask(e) == if q.take(k as int).contains(e) && live0.contains(e) {
                        Set::<ComponentId>::empty()
                    } else {
                        old(self).mask(e)
                    },
                forall|e: EntityId|
                    !q.take(k as int).contains(e) ==> #[trigger] self.mask_len(e) == old(
                        self,
                    ).mask_len(e),
                self.systems().len() == old(self).systems().len(),
                forall|i: int|
                    0 <= i < old(self).systems().len() ==> {
                        &&& (#[trigger] self.systems()[i]).wf()
                        &&& self.systems()[i].required() == old(self).systems()[i].required()
                        &&& self.systems()[i].id_spec() == old(self).systems()[i].id_spec()
                        &&& self.systems()[i].members().to_set() == old(
                            self,
                        ).systems()[i].members().to_set().difference(q.take(k as int).to_set())
                    },
                forall|i: int, e: EntityId|
                    0 <= i < old(self).systems().len() && #[trigger] old(self).systems()[i].is_member(e)
                        ==> live0.contains(e),
                self.delivered() == old(self).delivered() + destruction_events(
                    q.take(k as int).filter(pred),
                ),
            decreases q.len() - k,
        {
            let id = queue[k];
            let ghost t0 = q.take(k as int);
            let ghost t1 = q.take(k as int + 1);
            proof {
                assert(q[k as int] == id);
                assert(t1 == t0.push(id));
                t0.lemma_push_to_set_commute(id);
                t0.lemma_filter_push(id, pred);
                assert(!t0.contains(id)) by {
                    if t0.contains(id) {
                        let j = choose|j: int| 0 <= j < t0.len() && t0[j] == id;
                        assert(q[j] == id);
                    }
                }
                assert(self.live().to_set().contains(id) <==> live0.contains(id)) by {
                    if live0.contains(id) {
                        assert(live0.to_set().contains(id));
                    }
                    if self.live().to_set().contains(id) {
                        assert(live0.to_set().contains(id));
                    }
                }
            }
            let ghost before = *self;
            if contains_id(&self.entities, id) {
                remove_id(&mut self.entities, id);
                proof {
                    assert(!self.free().contains(id));
                    crate::ids::lemma_push_keeps_no_duplicates(self.free(), id);
                }
                self.dead_entities.push(id);
                self.masks[id].clear();
                let ghost middle = *self;
                proof {
                    assert forall|x: EntityId|
                        #[trigger] middle.mask(x) == (if x == id {
                            Set::<ComponentId>::empty()
                        } else {
                            before.mask(x)
                        }) by {
                        if x < ECS_MAX_ENTITIES && x != id {
                            assert(middle.masks@[x as int] == before.masks@[x as int]);
                        }
                    }
                    assert forall|x: EntityId|
                        #[trigger] middle.mask_len(x) == before.mask_len(x) by {
                        if x < ECS_MAX_ENTITIES && x != id {
                            assert(middle.masks@[x as int] == before.masks@[x as int]);
                        }
                    }
                }
                self.notify(
                    ComponentEvent {
                        component_id: ALL_COMPONENTS,
                        entity_id: id,
                        kind: ComponentEventKind::Detached,
                    },
                );
                proof {
                    assert(self.live().to_set() =~= live0.to_set().difference(t1.to_set()));
                    assert(self.free() == before.free().push(id));
                    assert(self.free() =~= old(self).free() + t1.filter(pred));
                    assert forall|x: EntityId| #[trigger]
                        self.free().contains(x) <==> old(self).free().contains(x) || (
                        t1.contains(x) && live0.contains(x)) by {
                        vstd::seq_lib::lemma_seq_contains_after_push(before.free(), id, x);
                        vstd::seq_lib::lemma_seq_contains_after_push(t0, id, x);
                        assert(before.free().contains(x) <==> old(self).free().contains(x) || (
                            t0.contains(x) && live0.contains(x)));
                    }
                    assert forall|x: EntityId|
                        #[trigger] self.mask(x) == if t1.contains(x) && live0.contains(x) {
                            Set::<ComponentId>::empty()
                        } else {
                            old(self).mask(x)
                        } by {
                        vstd::seq_lib::lemma_seq_contains_after_push(t0, id, x);
                        assert(self.mask(x) == middle.mask(x));
                    }
                    assert forall|x: EntityId|
                        !t1.contains(x) implies #[trigger] self.mask_len(x) == old(self).mask_len(x) by {
                        vstd::seq_lib::lemma_seq_contains_after_push(t0, id, x);
                        assert(self.mask_len(x) == middle.mask_len(x));
                        assert(middle.mask(x) == middle.mask(x));
                    }
                    assert forall|i: int| 0 <= i < old(self).systems().len() implies {
                        &&& (#[trigger] self.systems()[i]).wf()
                        &&& self.systems()[i].required() == old(self).systems()[i].required()
                        &&& self.systems()[i].id_spec() == old(self).systems()[i].id_spec()
                        &&& self.systems()[i].members().to_set() == old(
                            self,
                        ).systems()[i].members().to_set().difference(t1.to_set())
                    } by {
                        assert(system_after_event(
                            self.systems()[i],
                            middle.systems()[i],
                            detach_all_event(id),
                            middle.mask(id),
                        ));
                        assert(self.systems()[i].members().to_set() =~= old(
                            self,
                        ).systems()[i].members().to_set().difference(t1.to_set()));
                    }
                    t0.filter(pred).lemma_push_map_commute(|e: EntityId| detach_all_event(e), id);
                    assert(self.delivered() =~= old(self).delivered() + destruction_events(
                        t1.filter(pred),
                    ));
                }
            } else {
                proof {
                    assert(!live0.contains(id));
                    assert(self.live().to_set() =~= live0.to_set().difference(t1.to_set()));
                    assert forall|x: EntityId| #[trigger]
                        self.free().contains(x) <==> old(self).free().contains(x) || (
                        t1.contains(x) && live0.contains(x)) by {
                        vstd::seq_lib::lemma_seq_contains_after_push(t0, id, x);
                    }
                    assert forall|x: EntityId|
                        #[trigger] self.mask(x) == if t1.contains(x) && live0.contains(x) {
                            Set::<ComponentId>::empty()
                        } else {
                            old(self).mask(x)
                        } by {
                        vstd::seq_lib::lemma_seq_contains_after_push(t0, id, x);
                    }
                    assert forall|x: EntityId|
                        !t1.contains(x) implies #[trigger] self.mask_len(x) == old(self).mask_len(x) by {
                        vstd::seq_lib::lemma_seq_contains_after_push(t0, id, x);
                    }
                    assert forall|i: int| 0 <= i < old(self).systems().len() implies {
                        &&& (#[trigger] self.systems()[i]).wf()
                        &&& self.systems()[i].required() == old(self).systems()[i].required()
                        &&& self.systems()[i].id_spec() == old(self).systems()[i].id_spec()
                        &&& self.systems()[i].members().to_set() == old(
                            self,
                        ).systems()[i].members().to_set().difference(t1.to_set())
                    } by {
                        assert(!old(self).systems()[i].is_member(id));
                        assert(self.systems()[i].members().to_set() =~= old(
                            self,
                        ).systems()[i].members().to_set().difference(t1.to_set()));
                    }
                }
            }
            k = k + 1;
        }
        proof {
            assert(q.take(q.len() as int) == q);
        }
    }

    /// The flush point of a tick. In order: applies the queued component
    /// detachments (each with its detach event), delivers the queued attach
    /// events, then destroys the live entities queued for removal (each
    /// freeing its identifier, clearing its mask and delivering one
    /// detach-all event). Systems therefore see a detachment before the
    /// identifier can be handed out again.
    pub fn update(&mut self)
        requires
            old(self).wf(),
        ensures
            final(self).wf(),
            flush_post(*old(self), *final(self)),
    {
        self.delivered = Vec::new();
        let ghost s0 = *self;
        proof {
            assert(s0.delivered() == Seq::<ComponentEvent>::empty());
            assert(s0.systems() == old(self).systems());
            assert(s0.live() == old(self).live());
            assert(s0.masks@ == old(self).masks@);
            assert forall|e: EntityId|
                #[trigger] s0.mask(e) == old(self).mask(e) && s0.mask_len(e) == old(self).mask_len(
                    e,
                ) by {}
            assert(s0.wf());
        }
        self.flush_detachments();
        let ghost s1 = *self;
        proof {
            assert forall|j: int| 0 <= j < s1.attach_queue().len() implies {
                &&& (#[trigger] s1.attach_queue()[j]).kind == ComponentEventKind::Attached
                &&& s1.attach_queue()[j].entity_id < ECS_MAX_ENTITIES
            } by {
                assert(s1.attach_queue()[j] == s0.attach_queue()[j]);
                assert(s0.live().contains(s0.attach_queue()[j].entity_id));
            }
            assert forall|i: int| 0 <= i < s1.systems().len() implies #[trigger] s1.systems()[i].wf() by {
                assert(s1.systems()[i].wf());
            }
        }
        self.flush_attachments();
        let ghost s2 = *self;
        proof {
            assert(s2.live() == s0.live());
            assert(s2.free() == s0.free());
            assert(s2.removal_queue() == s0.removal_queue());
            assert forall|e: EntityId| #[trigger] s2.live().contains(e) implies e
                < ECS_MAX_ENTITIES by {
                assert(s0.live().contains(e));
            }
            assert forall|e: EntityId| !(#[trigger] s2.live().contains(e) && s2.free().contains(e)) by {
                assert(s0.live().contains(e) == s2.live().contains(e));
            }
            assert forall|i: int| 0 <= i < s2.systems().len() implies #[trigger] s2.systems()[i].wf() by {}
            assert forall|i: int, e: EntityId|
                0 <= i < s2.systems().len() && #[trigger] s2.systems()[i].is_member(
                    e,
                ) implies s2.live().contains(e) by {
                assert(s2.systems()[i].members().to_set().contains(e));
                if s1.systems()[i].members().to_set().contains(e) {
                    assert(s0.systems()[i].members().to_set().contains(e));
                    assert(s0.systems()[i].is_member(e));
                } else {
                    assert(attached_entities(s1.attach_queue()).contains(e));
                    let j = choose|j: int|
                        0 <= j < s1.attach_queue().len() && s1.attach_queue()[j].entity_id == e;
                    assert(s0.attach_queue()[j] == s1.attach_queue()[j]);
                }
            }
        }
        self.flush_removals();
        proof {
            let o = old(self);
            let q = o.removal_queue();
            // masks
            assert forall|e: EntityId| #[trigger] self.mask(e) == o.flushed_mask(e) by {
                assert(s2.mask(e) == s1.mask(e));
                assert(s1.mask(e) == s0.mask_after_detach(e));
                assert(s0.mask_after_detach(e) == o.mask_after_detach(e));
                if q.contains(e) && !o.live().contains(e) {
                    if e < ECS_MAX_ENTITIES {
                        assert(o.mask(e) == Set::<ComponentId>::empty());
                    }
                    assert(o.mask(e) == Set::<ComponentId>::empty());
                    assert(o.mask_after_detach(e) =~= Set::<ComponentId>::empty());
                }
            }
            // members
            assert forall|i: int| 0 <= i < o.systems().len() implies {
                &&& (#[trigger] self.systems()[i]).required() == o.systems()[i].required()
                &&& self.systems()[i].id_spec() == o.systems()[i].id_spec()
                &&& self.systems()[i].members().to_set() == o.flushed_members(i)
            } by {
                assert forall|e: EntityId|
                    s1.mask(e) == o.mask_after_detach(e) by {}
                assert(s2.systems()[i].members().to_set() =~= o.members_after_events(i));
            }
            // delivered
            assert(self.delivered() =~= o.flushed_events());
            // well-formedness
            assert forall|e: EntityId| #[trigger]
                self.live().contains(e) <==> (o.live().contains(e) && !q.contains(e)) by {
                assert(self.live().to_set().contains(e) == self.live().contains(e));
                assert(o.live().to_set().contains(e) == o.live().contains(e));
                assert(q.to_set().contains(e) == q.contains(e));
            }
            assert(self.allocated() == o.allocated());
            assert forall|e: EntityId|
                (self.live().contains(e) || self.free().contains(e)) <==> (e as nat)
                    < self.allocated() by {
                if o.live().contains(e) || o.free().contains(e) {
                }
            }
            assert forall|e: EntityId| !(self.live().contains(e) && self.free().contains(e)) by {
                if o.live().contains(e) || o.free().contains(e) {
                }
            }
            assert(self.ids_wf());
            assert forall|e: EntityId| #[trigger]
                self.live().contains(e) implies self.mask_len(e) == ECS_MAX_COMPONENTS as nat by {
                assert(s2.mask_len(e) == s1.mask_len(e));
            }
            assert forall|e: EntityId|
                e < ECS_MAX_ENTITIES && !self.live().contains(e) implies #[trigger] self.mask(e)
                == Set::<ComponentId>::empty() by {
                if !q.contains(e) {
                    assert(!o.live().contains(e));
                    assert(o.mask(e) == Set::<ComponentId>::empty());
                    assert(o.mask_after_detach(e) =~= Set::<ComponentId>::empty());
                }
            }
            assert forall|e: EntityId, c: ComponentId| #[trigger]
                self.mask(e).contains(c) implies c < ECS_MAX_COMPONENTS by {
                assert(o.mask(e).contains(c));
            }
            assert(self.masks_wf());
            assert(self.queues_wf());
            assert forall|i: int, j: int|
                0 <= i < self.systems().len() && 0 <= j < self.systems().len() && i
                    != j implies #[trigger] self.systems()[i].id_spec()
                    != #[trigger] self.systems()[j].id_spec() by {
                assert(o.systems()[i].id_spec() != o.systems()[j].id_spec());
            }
            assert forall|i: int, e: EntityId|
                0 <= i < self.systems().len() && #[trigger] self.systems()[i].is_member(
                    e,
                ) implies self.live().contains(e) && self.systems()[i].required().subset_of(
                self.mask(e),
            ) by {
                assert(self.systems()[i].members().to_set().contains(e));
                assert(o.flushed_members(i).contains(e));
                assert(!q.contains(e));
                assert(self.mask(e) == o.mask_after_detach(e));
                let r = o.systems()[i].required();
                if o.systems()[i].members().to_set().contains(e) && !detached_for(
                    o.detach_queue(), r,
                ).contains(e) {
                    assert(o.systems()[i].is_member(e));
                    assert(o.live().contains(e));
                    assert forall|c: ComponentId| r.contains(c) implies o.mask_after_detach(e).contains(c) by {
                        if o.detach_queue().contains((e, c)) {
                            assert(detached_for(o.detach_queue(), r).contains(e));
                        }
                    }
                } else {
                    assert(attached_entities(o.attach_queue()).contains(e));
                    let j = choose|j: int|
                        0 <= j < o.attach_queue().len() && o.attach_queue()[j].entity_id == e;
                    assert(o.live().contains(o.attach_queue()[j].entity_id));
                }
            }
            assert forall|i: int, e: EntityId|
                0 <= i < self.systems().len() && self.live().contains(e)
                    && self.systems()[i].required() != Set::<ComponentId>::empty()
                    && self.systems()[i].required().subset_of(self.mask(e)) implies #[trigger]
                self.systems()[i].is_member(e) || attached_entities(self.attach_queue()).contains(e) by {
                let r = o.systems()[i].required();
                assert(o.live().contains(e) && !q.contains(e));
                assert(self.mask(e) == o.mask_after_detach(e));
                assert(r.subset_of(o.mask(e)));
                assert(o.systems()[i] == o.systems()[i]);
                assert(o.mask(e) == o.mask(e));
                if attached_entities(o.attach_queue()).contains(e) {
                    assert(o.members_after_events(i).contains(e));
                } else {
                    assert(o.systems()[i].is_member(e));
                    assert(o.systems()[i].members().to_set().contains(e));
                    assert(!detached_for(o.detach_queue(), r).contains(e)) by {
                        if detached_for(o.detach_queue(), r).contains(e) {
                            let c = choose|c: ComponentId| o.detach_queue().contains((e, c)) && r.contains(c);
                            assert(detached_components(o.detach_queue(), e).contains(c));
                            assert(!o.mask_after_detach(e).contains(c));
                        }
                    }
                    assert(o.members_after_events(i).contains(e));
                }
                assert(o.flushed_members(i).contains(e));
                assert(self.systems()[i].members().to_set().contains(e));
            }
            assert(self.members_wf());
        }
    }

    /// Empties the world in one pass: every live entity's mask is cleared,
    /// with one detach-all event each, and all queues, live entities and
    /// freed identifiers are dropped. Registered systems stay, with no member.
    pub fn reset(&mut self)
        requires
            old(self).wf(),
        ensures
            final(self).wf(),
            final(self).live() == Seq::<EntityId>::empty(),
            final(self).free() == Seq::<EntityId>::empty(),
            final(self).removal_queue() == Seq::<EntityId>::empty(),
            final(self).detach_queue() == Seq::<(EntityId, ComponentId)>::empty(),
            final(self).attach_queue() == Seq::<ComponentEvent>::empty(),
            forall|e: EntityId| #[trigger] final(self).mask(e) == Set::<ComponentId>::empty(),
            final(self).systems().len() == old(self).systems().len(),
            forall|i: int|
                0 <= i < old(self).systems().len() ==> {
                    &&& (#[trigger] final(self).systems()[i]).required() == old(
                        self,
                    ).systems()[i].required()
                    &&& final(self).systems()[i].id_spec() == old(self).systems()[i].id_spec()
                    &&& final(self).systems()[i].members() == Seq::<EntityId>::empty()
                },
            final(self).delivered() == destruction_events(old(self).live()),
    {
        self.delivered = Vec::new();
        self.entities_remove_queue = Vec::new();
        self.events = Vec::new();
        self.components_remove_queue = Vec::new();
        let ghost live0 = old(self).live();
        let mut k: usize = 0;
        while k < self.entities.len()
            invariant
                self.entities@ == live0,
                live0 == old(self).live(),
                old(self).wf(),
                self.entities_remove_queue@ == Seq::<EntityId>::empty(),
                self.events@ == Seq::<ComponentEvent>::empty(),
                self.components_remove_queue@ == Seq::<(EntityId, ComponentId)>::empty(),
                0 <= k <= live0.len(),
                self.masks@.len() == ECS_MAX_ENTITIES,
                forall|e: EntityId|
                    #[trigger] self.mask(e) == if live0.take(k as int).contains(e) {
                        Set::<ComponentId>::empty()
                    } else {
                        old(self).mask(e)
                    },
                self.systems().len() == old(self).systems().len(),
                forall|i: int|
                    0 <= i < old(self).systems().len() ==> {
                        &&& (#[trigger] self.systems()[i]).wf()
                        &&& self.systems()[i].required() == old(self).systems()[i].required()
                        &&& self.systems()[i].id_spec() == old(self).systems()[i].id_spec()
                        &&& self.systems()[i].members().to_set() == old(
                            self,
                        ).systems()[i].members().to_set().difference(
                            live0.take(k as int).to_set(),
                        )
                    },
                self.delivered() == destruction_events(live0.take(k as int)),
            decreases live0.len() - k,
        {
            let id = self.entities[k];
            let ghost t0 = live0.take(k as int);
            let ghost t1 = live0.take(k as int + 1);
            proof {
                assert(live0[k as int] == id);
                assert(live0.contains(id));
                assert(t1 == t0.push(id));
                t0.lemma_push_to_set_commute(id);
            }
            let ghost before = *self;
            self.masks[id].clear();
            let ghost middle = *self;
            proof {
                assert forall|x: EntityId|
                    #[trigger] middle.mask(x) == (if x == id {
                        Set::<ComponentId>::empty()
                    } else {
                        before.mask(x)
                    }) by {
                    if x < ECS_MAX_ENTITIES && x != id {
                        assert(middle.masks@[x as int] == before.masks@[x as int]);
                    }
                }
            }
            self.notify(
                ComponentEvent {
                    component_id: ALL_COMPONENTS,
                    entity_id: id,
                    kind: ComponentEventKind::Detached,
                },
            );
            proof {
                assert forall|x: EntityId|
                    #[trigger] self.mask(x) == if t1.contains(x) {
                        Set::<ComponentId>::empty()
                    } else {
                        old(self).mask(x)
                    } by {
                    vstd::seq_lib::lemma_seq_contains_after_push(t0, id, x);
                    assert(self.mask(x) == middle.mask(x));
                }
                assert forall|i: int| 0 <= i < old(self).systems().len() implies {
                    &&& (#[trigger] self.systems()[i]).wf()
                    &&& self.systems()[i].required() == old(self).systems()[i].required()
                    &&& self.systems()[i].id_spec() == old(self).systems()[i].id_spec()
                    &&& self.systems()[i].members().to_set() == old(
                        self,
                    ).systems()[i].members().to_set().difference(t1.to_set())
                } by {
                    assert(system_after_event(
                        self.systems()[i],
                        middle.systems()[i],
                        detach_all_event(id),
                        middle.mask(id),
                    ));
                    assert(self.systems()[i].members().to_set() =~= old(
                        self,
                    ).systems()[i].members().to_set().difference(t1.to_set()));
                }
                t0.lemma_push_map_commute(|e: EntityId| detach_all_event(e), id);
                assert(self.delivered() =~= destruction_events(t1));
            }
            k = k + 1;
        }
        let ghost after_loop = *self;
        self.entities = Vec::new();
        self.dead_entities = Vec::new();
        proof {
            let o = old(self);
            assert(live0.take(live0.len() as int) == live0);
            assert(self.masks@ == after_loop.masks@);
            assert forall|e: EntityId| #[trigger] self.mask(e) == Set::<ComponentId>::empty() by {
                assert(self.mask(e) == after_loop.mask(e));
                if !live0.contains(e) && e < ECS_MAX_ENTITIES {
                    assert(o.mask(e) == Set::<ComponentId>::empty());
                }
            }
            assert(self.live() == Seq::<EntityId>::empty());
            assert(self.free() == Seq::<EntityId>::empty());
            assert(self.removal_queue() == Seq::<EntityId>::empty());
            assert(self.detach_queue() == Seq::<(EntityId, ComponentId)>::empty());
            assert(self.allocated() == 0);
            assert forall|i: int| 0 <= i < o.systems().len() implies #[trigger]
                self.systems()[i].members() == Seq::<EntityId>::empty() by {
                let m = self.systems()[i].members();
                if m.len() > 0 {
                    let e = m[0];
                    assert(m.to_set().contains(e));
                    assert(o.systems()[i].members().to_set().contains(e));
                    assert(o.systems()[i].is_member(e));
                    assert(live0.to_set().contains(e));
                }
            }
            assert forall|i: int, j: int|
                0 <= i < self.systems().len() && 0 <= j < self.systems().len() && i
                    != j implies #[trigger] self.systems()[i].id_spec()
                    != #[trigger] self.systems()[j].id_spec() by {
                assert(o.systems()[i].id_spec() != o.systems()[j].id_spec());
            }
            assert(self.ids_wf());
            assert(self.masks_wf());
            assert(self.queues_wf());
            assert(self.members_wf());
        }
    }

    /// The events delivered to the systems by the last flush or reset, in
    /// delivery order.
    pub fn delivered_events(&self) -> (r: &Vec<ComponentEvent>)
        ensures
            r@ == self.delivered(),
    {
        &self.delivered
    }
}

} // verus!
