//! A scene: the entities with their components, and the resources that
//! belong to them.

use vstd::prelude::*;

use crate::archetypes::EntityComponents;
use crate::components::{ComponentAddModifier, ComponentRemoveModifier, ComponentSet};
use crate::entity::Entity;
use crate::kind::KindId;
use crate::resources::{ResourceStorageModifier, Resources};
use crate::spawner::EntitySpawner;

verus! {

/// The entities of a scene and its two resource stores: `resources` for
/// values that any thread may touch, `unsend` for values that stay on the
/// main thread.
pub struct Scene<V, R, U> {
    pub resources: Resources<R>,
    pub unsend: Resources<U>,
    pub entities: EntityComponents<V>,
}

impl<V, R, U> Scene<V, R, U> {
    /// The invariant of the scene: that of its archetype set.
    pub open spec fn wf(&self) -> bool {
        self.entities.wf()
    }

    /// An empty scene.
    #[inline]
    pub fn new() -> (r: Self)
        ensures
            r.wf(),
            r.entities.canonical(),
            r.entities.tables@.len() == 0,
            r.entities.entities@.len() == 0,
            r.resources@ == Map::<u64, R>::empty(),
            r.unsend@ == Map::<u64, U>::empty(),
    {
        Self { resources: Resources::new(), unsend: Resources::new(), entities: EntityComponents::new() }
    }

    /// A handle to the allocator of the scene's entities.
    #[inline]
    pub fn spawner(&self) -> (r: EntitySpawner)
        ensures
            r == self.entities.spawner,
    {
        self.entities.spawner()
    }

    /// Reserves an entity and activates it.
    pub fn spawn_entity(&mut self) -> (entity: Entity)
        requires
            old(self).wf(),
        ensures
            final(self).wf(),
            final(self).resources == old(self).resources,
            final(self).unsend == old(self).unsend,
            old(self).entities.canonical() ==> final(self).entities.canonical(),
            !entity.generation.invalid_spec(),
            final(self).entities.is_activation_of(&old(self).entities, entity),
    {
        self.entities.spawn_entity()
    }

    /// Deletes `entity` with all its components.
    pub fn delete_entity(&mut self, entity: Entity)
        requires
            old(self).wf(),
        ensures
            final(self).wf(),
            final(self).resources == old(self).resources,
            final(self).unsend == old(self).unsend,
            old(self).entities.canonical() ==> final(self).entities.canonical(),
            final(self).entities.is_deletion_of(&old(self).entities, entity),
    {
        self.entities.delete_entity(entity);
    }

    /// Adds `components` to `entity`.
    pub fn add_component(&mut self, entity: &Entity, components: ComponentSet<V>)
        requires
            old(self).wf(),
            components.wf(),
        ensures
            final(self).wf(),
            final(self).resources == old(self).resources,
            final(self).unsend == old(self).unsend,
            final(self).entities.is_add_of(&old(self).entities, *entity, &components),
            old(self).entities.canonical() ==> final(self).entities.canonical(),
    {
        self.entities.add_components(entity, components);
    }

    /// Adds components that arrive apart from their description.
    #[inline]
    pub fn add_component_untyped(
        &mut self,
        entity: &Entity,
        components: ComponentSet<V>,
        modifier: ComponentAddModifier,
    )
        requires
            old(self).wf(),
            components.wf(),
            modifier.describes(&components),
        ensures
            final(self).wf(),
            final(self).resources == old(self).resources,
            final(self).unsend == old(self).unsend,
            final(self).entities.is_add_of(&old(self).entities, *entity, &components),
            old(self).entities.canonical() ==> final(self).entities.canonical(),
    {
        self.entities.add_component_untyped(entity, components, modifier);
    }

    /// Removes the components of `kinds` from `entity`.
    pub fn remove_components(&mut self, entity: &Entity, kinds: &[KindId])
        requires
            old(self).wf(),
        ensures
            final(self).wf(),
            final(self).resources == old(self).resources,
            final(self).unsend == old(self).unsend,
            final(self).entities.is_remove_of(&old(self).entities, *entity, kinds@),
            old(self).entities.canonical() ==> final(self).entities.canonical(),
    {
        self.entities.remove_component(entity, kinds);
    }

    /// Removes the components that `modifier` names from `entity`.
    #[inline]
    pub fn remove_components_untyped(&mut self, entity: Entity, modifier: ComponentRemoveModifier)
        requires
            old(self).wf(),
        ensures
            final(self).wf(),
            final(self).resources == old(self).resources,
            final(self).unsend == old(self).unsend,
            final(self).entities.is_remove_of(&old(self).entities, entity, modifier.kinds@),
            old(self).entities.canonical() ==> final(self).entities.canonical(),
    {
        self.entities.remove_components_untyped(&entity, modifier);
    }

    /// Stores `res` under `kind`; a resource that was there is replaced.
    #[inline]
    pub fn insert_resource(&mut self, kind: KindId, res: R)
        ensures
            final(self).resources@ == old(self).resources@.insert(kind.0, res),
            final(self).unsend == old(self).unsend,
            final(self).entities == old(self).entities,
    {
        self.resources.insert_resource(kind, res);
    }

    /// Stores a resource that arrives apart from its description.
    #[inline]
    pub fn insert_resource_untyped(&mut self, resource: R, modifier: ResourceStorageModifier)
        ensures
            final(self).resources@ == old(self).resources@.insert(modifier.0.0, resource),
            final(self).unsend == old(self).unsend,
            final(self).entities == old(self).entities,
    {
        self.resources.insert_resource_untyped(resource, modifier);
    }

    /// Shared access to the resource under `kind`.
    #[inline]
    pub fn get_resource_ref(&self, kind: KindId) -> (r: Option<&R>)
        ensures
            r is Some == self.resources@.contains_key(kind.0),
            r matches Some(v) ==> *v == self.resources@[kind.0],
    {
        self.resources.get_resource(kind)
    }

    /// Exclusive access to the resource under `kind`.
    #[inline]
    pub fn get_resource_mut(&mut self, kind: KindId) -> (r: Option<&mut R>)
        ensures
            r is Some == old(self).resources@.contains_key(kind.0),
            r matches Some(v) ==> *v == old(self).resources@[kind.0] && final(self).resources@
                == old(self).resources@.insert(kind.0, *final(v)),
            r is None ==> final(self).resources@ == old(self).resources@,
            final(self).unsend == old(self).unsend,
            final(self).entities == old(self).entities,
    {
        self.resources.get_resource_mut(kind)
    }

    /// Removes the resource under `kind`, if there is one.
    #[inline]
    pub fn remove_resource_untyped(&mut self, kind: KindId)
        ensures
            final(self).resources@ == old(self).resources@.remove(kind.0),
            final(self).unsend == old(self).unsend,
            final(self).entities == old(self).entities,
    {
        self.resources.remove_resource_untyped(kind);
    }

    /// Stores `res` under `kind` among the resources of the main thread.
    #[inline]
    pub fn insert_nosend_resource(&mut self, kind: KindId, res: U)
        ensures
            final(self).unsend@ == old(self).unsend@.insert(kind.0, res),
            final(self).resources == old(self).resources,
            final(self).entities == old(self).entities,
    {
        self.unsend.insert_resource(kind, res);
    }

    /// Shared access to the main thread's resource under `kind`.
    #[inline]
    pub fn get_nosend_resource_ref(&self, kind: KindId) -> (r: Option<&U>)
        ensures
            r is Some == self.unsend@.contains_key(kind.0),
            r matches Some(v) ==> *v == self.unsend@[kind.0],
    {
        self.unsend.get_resource(kind)
    }

    /// Exclusive access to the main thread's resource under `kind`.
    #[inline]
    pub fn get_nosend_resource_mut(&mut self, kind: KindId) -> (r: Option<&mut U>)
        ensures
            r is Some == old(self).unsend@.contains_key(kind.0),
            r matches Some(v) ==> *v == old(self).unsend@[kind.0] && final(self).unsend@ == old(
                self,
            ).unsend@.insert(kind.0, *final(v)),
            r is None ==> final(self).unsend@ == old(self).unsend@,
            final(self).resources == old(self).resources,
            final(self).entities == old(self).entities,
    {
        self.unsend.get_resource_mut(kind)
    }
}

} // verus!
