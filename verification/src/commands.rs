//! Deferred commands: changes to entities, components and resources that
//! systems request from any thread and that the world applies later.

use crossbeam_channel::{Receiver, Sender};
use vstd::prelude::*;

use crate::channel::{drain, send, unbounded};
use crate::components::{ComponentAddModifier, ComponentRemoveModifier, ComponentSet};
use crate::entity::Entity;
use crate::kind::KindId;
use crate::resources::ResourceStorageModifier;
use crate::spawner::EntitySpawner;

verus! {

/// The commands on entities.
#[derive(Debug)]
pub enum EntityCommands {
    SpawnEntity(Entity),
    DeleteEntity(Entity),
}

/// The commands on components.
#[derive(Debug)]
pub enum ComponentCommands<V> {
    AddComponent { entity: Entity, components: ComponentSet<V>, producer: ComponentAddModifier },
    RemoveComponent { entity: Entity, modifier: ComponentRemoveModifier },
}

/// The commands on resources.
#[derive(Debug)]
pub enum ResourceCommands<R> {
    AddResource { resource: R, producer: ResourceStorageModifier },
    RemoveResource { type_id: KindId },
}

/// Holds the three command queues and hands out senders to them.
#[verifier::reject_recursive_types(V)]
#[verifier::reject_recursive_types(R)]
pub struct CommandCenter<V, R> {
    entity_sender: Sender<EntityCommands>,
    entity_receiver: Receiver<EntityCommands>,
    component_sender: Sender<ComponentCommands<V>>,
    component_receiver: Receiver<ComponentCommands<V>>,
    resource_sender: Sender<ResourceCommands<R>>,
    resource_receiver: Receiver<ResourceCommands<R>>,
}

impl<V, R> CommandCenter<V, R> {
    /// A command center with empty queues.
    #[inline]
    pub fn new() -> Self {
        let (entity_tx, entity_rx) = unbounded();
        let (component_tx, component_rx) = unbounded();
        let (resource_tx, resource_rx) = unbounded();
        Self {
            entity_sender: entity_tx,
            entity_receiver: entity_rx,
            component_sender: component_tx,
            component_receiver: component_rx,
            resource_sender: resource_tx,
            resource_receiver: resource_rx,
        }
    }

    /// The sending halves of the three queues: for the commands on
    /// entities, on components and on resources.
    pub closed spec fn senders(&self) -> (
        Sender<EntityCommands>,
        Sender<ComponentCommands<V>>,
        Sender<ResourceCommands<R>>,
    ) {
        (self.entity_sender, self.component_sender, self.resource_sender)
    }

    /// A handle whose commands arrive in the queues of this center and whose
    /// entities come from `spawner`.
    #[inline]
    pub fn commands(&self, spawner: EntitySpawner) -> (r: Commands<V, R>)
        ensures
            r.senders() == self.senders(),
            r.allocator() == spawner,
    {
        Commands {
            entity_sender: self.entity_sender.clone(),
            spawner,
            component_sender: self.component_sender.clone(),
            resource_sender: self.resource_sender.clone(),
        }
    }

    /// The commands on entities that are in the queue, in their order.
    #[inline]
    pub fn entity_commands(&self) -> Vec<EntityCommands> {
        drain(&self.entity_receiver)
    }

    /// The commands on components that are in the queue, in their order.
    #[inline]
    pub fn component_commands(&self) -> Vec<ComponentCommands<V>> {
        drain(&self.component_receiver)
    }

    /// The commands on resources that are in the queue, in their order.
    #[inline]
    pub fn resource_commands(&self) -> Vec<ResourceCommands<R>> {
        drain(&self.resource_receiver)
    }
}

/// Sends commands. The commands take effect when the world applies them.
#[verifier::reject_recursive_types(V)]
#[verifier::reject_recursive_types(R)]
pub struct Commands<V, R> {
    entity_sender: Sender<EntityCommands>,
    spawner: EntitySpawner,
    component_sender: Sender<ComponentCommands<V>>,
    resource_sender: Sender<ResourceCommands<R>>,
}

impl<V, R> Commands<V, R> {
    /// The sending halves of the queues that the commands go to: for the
    /// commands on entities, on components and on resources.
    pub closed spec fn senders(&self) -> (
        Sender<EntityCommands>,
        Sender<ComponentCommands<V>>,
        Sender<ResourceCommands<R>>,
    ) {
        (self.entity_sender, self.component_sender, self.resource_sender)
    }

    /// The allocator that the handle reserves entities from.
    pub closed spec fn allocator(&self) -> EntitySpawner {
        self.spawner
    }

    /// Reserves an entity and requests its activation. The entity can be
    /// named in further commands at once; it is live when the commands were
    /// applied.
    #[inline]
    pub fn reserve_entity(&self) -> (entity: Entity)
        ensures
            !entity.generation.invalid_spec(),
    {
        let entity = self.spawner.reserve();
        send(&self.entity_sender, EntityCommands::SpawnEntity(entity));
        entity
    }

    /// Requests the deletion of `entity` with all its components.
    #[inline]
    pub fn delete_entity(&self, entity: Entity) {
        send(&self.entity_sender, EntityCommands::DeleteEntity(entity));
    }

    /// Requests that `component` be added to `entity`.
    #[inline]
    pub fn add_component(&self, entity: &Entity, component: ComponentSet<V>) {
        let producer = ComponentAddModifier::new(component.types());
        send(
            &self.component_sender,
            ComponentCommands::AddComponent { entity: *entity, components: component, producer },
        );
    }

    /// Requests that the components of `kinds` be removed from `entity`.
    #[inline]
    pub fn remove_component(&self, entity: &Entity, kinds: Vec<KindId>) {
        send(
            &self.component_sender,
            ComponentCommands::RemoveComponent {
                entity: *entity,
                modifier: ComponentRemoveModifier::new(kinds),
            },
        );
    }

    /// Requests that `resource` be stored under `kind`.
    #[inline]
    pub fn add_resource(&self, kind: KindId, resource: R) {
        send(
            &self.resource_sender,
            ResourceCommands::AddResource { resource, producer: ResourceStorageModifier::new(kind) },
        );
    }

    /// Requests that the resource under `kind` be removed.
    #[inline]
    pub fn remove_resource(&self, kind: KindId) {
        send(&self.resource_sender, ResourceCommands::RemoveResource { type_id: kind });
    }
}

} // verus!
