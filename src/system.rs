//! Systems as the matcher sees them: a required component mask and the set of
//! entities that currently meet it, kept up to date by component events.

use crate::bitset::{bits_of, bit_len};
use crate::ids::{contains_id, insert_id, remove_id};
use fixedbitset::FixedBitSet;
use vstd::prelude::*;

verus! {

/// Largest number of distinct component types.
pub const ECS_MAX_COMPONENTS: usize = 100;

/// Largest number of entities alive at once; entity identifiers stay below it.
pub const ECS_MAX_ENTITIES: usize = 10000;

/// Component identifier of a detach event that removes every component of an
/// entity at once (the entity is being destroyed).
pub const ALL_COMPONENTS: usize = usize::MAX;

pub type EntityId = usize;

pub type ComponentId = usize;

#[derive(Clone, Copy, PartialEq, Eq, Debug, Structural)]
pub enum ComponentEventKind {
    Attached,
    Detached,
}

/// A component was attached to, or detached from, an entity.
#[derive(Clone, Copy, PartialEq, Eq, Debug, Structural)]
pub struct ComponentEvent {
    pub component_id: ComponentId,
    pub entity_id: EntityId,
    pub kind: ComponentEventKind,
}

/// Members of a system after it has seen `event`, given the mask that the
/// entity has when the event is delivered: an attach admits the entity when
/// its mask holds every required component; a detach drops it when the
/// component is one the system requires, or when it stands for all of them.
pub open spec fn after_event(
    members: Set<EntityId>,
    required: Set<ComponentId>,
    event: ComponentEvent,
    entity_mask: Set<ComponentId>,
) -> Set<EntityId> {
    match event.kind {
        ComponentEventKind::Attached => if required.subset_of(entity_mask) {
            members.insert(event.entity_id)
        } else {
            members
        },
        ComponentEventKind::Detached => if event.component_id == ALL_COMPONENTS || required.contains(
            event.component_id,
        ) {
            members.remove(event.entity_id)
        } else {
            members
        },
    }
}

/// The component bits that a list of component identifiers names.
pub open spec fn components_set(components: Seq<ComponentId>) -> Set<ComponentId> {
    components.to_set()
}

pub struct System {
    mask: FixedBitSet,
    entities: Vec<EntityId>,
    id: usize,
}

impl System {
    /// Components that an entity must have to be a member.
    pub closed spec fn required(&self) -> Set<ComponentId> {
        bits_of(self.mask)
    }

    /// Current members, in the order they joined.
    pub closed spec fn members(&self) -> Seq<EntityId> {
        self.entities@
    }

    pub closed spec fn id_spec(&self) -> usize {
        self.id
    }

    pub open spec fn wf(&self) -> bool {
        &&& self.members().no_duplicates()
        &&& forall|c: ComponentId| #[trigger]
            self.required().contains(c) ==> c < ECS_MAX_COMPONENTS
    }

    pub open spec fn is_member(&self, e: EntityId) -> bool {
        self.members().contains(e)
    }

    /// A system with identifier `id` that requires the listed components and
    /// has no member yet.
    pub fn new(id: usize, components: &Vec<ComponentId>) -> (r: System)
        requires
            forall|i: int| 0 <= i < components@.len() ==> components@[i] < ECS_MAX_COMPONENTS,
        ensures
            r.wf(),
            r.required() == components_set(components@),
            r.members() == Seq::<EntityId>::empty(),
            r.id_spec() == id,
    {
        let mut mask = FixedBitSet::with_capacity(ECS_MAX_COMPONENTS);
        let mut i: usize = 0;
        while i < components.len()
            invariant
                i <= components@.len(),
                forall|k: int| 0 <= k < components@.len() ==> components@[k] < ECS_MAX_COMPONENTS,
                bit_len(mask) == ECS_MAX_COMPONENTS as nat,
                bits_of(mask) == components@.take(i as int).to_set(),
            decreases components@.len() - i,
        {
            mask.set(components[i], true);
            proof {
                assert(components@.take(i as int + 1) == components@.take(i as int).push(
                    components@[i as int],
                ));
                components@.take(i as int).lemma_push_to_set_commute(components@[i as int]);
            }
            i = i + 1;
        }
        proof {
            assert(components@.take(components@.len() as int) == components@);
            assert forall|c: ComponentId| #[trigger] bits_of(mask).contains(c) implies c
                < ECS_MAX_COMPONENTS by {
                let k = choose|k: int| 0 <= k < components@.len() && components@[k] == c;
            }
        }
        System { mask, entities: Vec::new(), id }
    }

    pub fn id(&self) -> (r: usize)
        ensures
            r == self.id_spec(),
    {
        self.id
    }

    /// The current members.
    pub fn iter_entities(&self) -> (r: &Vec<EntityId>)
        ensures
            r@ == self.members(),
    {
        &self.entities
    }

    /// The number of current members.
    pub fn len_entities(&self) -> (r: usize)
        ensures
            r == self.members().len(),
    {
        self.entities.len()
    }

    /// Whether `e` is a member.
    pub fn contains_entity(&self, e: EntityId) -> (r: bool)
        ensures
            r == self.is_member(e),
    {
        contains_id(&self.entities, e)
    }

    /// Whether an entity with component mask `entity_mask` meets the
    /// requirement.
    pub fn matches(&self, entity_mask: &FixedBitSet) -> (r: bool)
        ensures
            r == self.required().subset_of(bits_of(*entity_mask)),
    {
        self.mask.is_subset(entity_mask)
    }

    /// Adds `e` to the members if `entity_mask` holds every required
    /// component.
    pub(crate) fn enroll_if_matching(&mut self, e: EntityId, entity_mask: &FixedBitSet)
        requires
            old(self).wf(),
        ensures
            final(self).wf(),
            final(self).required() == old(self).required(),
            final(self).id_spec() == old(self).id_spec(),
            final(self).members().to_set() == if old(self).required().subset_of(bits_of(*entity_mask)) {
                old(self).members().to_set().insert(e)
            } else {
                old(self).members().to_set()
            },
    {
        if self.matches(entity_mask) {
            insert_id(&mut self.entities, e);
        }
        proof {
            assert(self.required() == old(self).required());
        }
    }

    /// Reacts to a component event, `entity_mask` being the entity's mask
    /// when the event is delivered.
    pub fn on_event(&mut self, event: &ComponentEvent, entity_mask: &FixedBitSet)
        requires
            old(self).wf(),
        ensures
            final(self).wf(),
            final(self).required() == old(self).required(),
            final(self).id_spec() == old(self).id_spec(),
            final(self).members().to_set() == after_event(
                old(self).members().to_set(),
                old(self).required(),
                *event,
                bits_of(*entity_mask),
            ),
    {
        let e = event.entity_id;
        match event.kind {
            ComponentEventKind::Attached => {
                if self.matches(entity_mask) {
                    insert_id(&mut self.entities, e);
                }
            },
            ComponentEventKind::Detached => {
                if event.component_id == ALL_COMPONENTS || self.mask.contains(event.component_id) {
                    remove_id(&mut self.entities, e);
                }
            },
        }
        proof {
            assert(self.required() == old(self).required());
        }
    }
}

} // verus!
