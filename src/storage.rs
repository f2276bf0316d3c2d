//! Dense per-type component storage, indexed directly by entity identifier.

use crate::system::{ComponentId, EntityId, ECS_MAX_COMPONENTS, ECS_MAX_ENTITIES};
use vstd::prelude::*;

verus! {

/// The values of one component type, one slot per possible entity. The slots
/// are allocated (and filled with default values) on first use; a slot keeps
/// its value until it is overwritten, whether or not the entity still has the
/// component.
pub struct ComponentHolder<T> {
    components: Vec<T>,
    init: bool,
    id: ComponentId,
}

impl<T: Default> ComponentHolder<T> {
    pub closed spec fn slots(&self) -> Seq<T> {
        self.components@
    }

    pub closed spec fn is_init_spec(&self) -> bool {
        self.init
    }

    /// The component type identifier this store holds values for.
    pub closed spec fn component_id(&self) -> ComponentId {
        self.id
    }

    pub open spec fn wf(&self) -> bool {
        &&& self.is_init_spec() ==> self.slots().len() == ECS_MAX_ENTITIES
        &&& !self.is_init_spec() ==> self.slots().len() == 0
        &&& self.component_id() < ECS_MAX_COMPONENTS
    }

    /// An empty store for component type `id`, not yet allocated.
    pub fn new(id: ComponentId) -> (r: Self)
        requires
            id < ECS_MAX_COMPONENTS,
        ensures
            r.wf(),
            !r.is_init_spec(),
            r.component_id() == id,
    {
        ComponentHolder { components: Vec::new(), init: false, id }
    }

    pub fn id(&self) -> (r: ComponentId)
        ensures
            r == self.component_id(),
    {
        self.id
    }

    pub fn is_init(&self) -> (r: bool)
        ensures
            r == self.is_init_spec(),
    {
        self.init
    }

    /// Allocates every slot, filled with the default value.
    pub fn init(&mut self)
        requires
            old(self).wf(),
        ensures
            final(self).wf(),
            final(self).is_init_spec(),
            final(self).component_id() == old(self).component_id(),
    {
        let mut components: Vec<T> = Vec::with_capacity(ECS_MAX_ENTITIES);
        while components.len() < ECS_MAX_ENTITIES
            invariant
                components@.len() <= ECS_MAX_ENTITIES,
            decreases ECS_MAX_ENTITIES - components@.len(),
        {
            components.push(T::default());
        }
        self.components = components;
        self.init = true;
    }

    /// Stores `component` in the slot of `entity_id`.
    pub fn add_component(&mut self, entity_id: &EntityId, component: T)
        requires
            old(self).wf(),
            old(self).is_init_spec(),
            *entity_id < ECS_MAX_ENTITIES,
        ensures
            final(self).wf(),
            final(self).is_init_spec(),
            final(self).component_id() == old(self).component_id(),
            final(self).slots() == old(self).slots().update(*entity_id as int, component),
    {
        self.components.set(*entity_id, component);
    }

    /// The value in the slot of `entity_id`.
    pub fn get_component(&self, entity_id: &EntityId) -> (r: &T)
        requires
            self.wf(),
            self.is_init_spec(),
            *entity_id < ECS_MAX_ENTITIES,
        ensures
            *r == self.slots()[*entity_id as int],
    {
        &self.components[*entity_id]
    }

    /// The slot of `entity_id`, for writing.
    pub fn get_component_mut(&mut self, entity_id: &EntityId) -> (r: &mut T)
        requires
            old(self).wf(),
            old(self).is_init_spec(),
            *entity_id < ECS_MAX_ENTITIES,
        ensures
            *r == old(self).slots()[*entity_id as int],
            final(self).slots() == old(self).slots().update(*entity_id as int, *final(r)),
            final(self).is_init_spec(),
            final(self).component_id() == old(self).component_id(),
    {
        &mut self.components[*entity_id]
    }
}

} // verus!
