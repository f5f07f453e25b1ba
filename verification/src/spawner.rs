//! The entity allocator: a counter of positions and a free list of deleted
//! entities, both shared by every handle to the allocator.

use crossbeam_channel::{Receiver, Sender};
use std::sync::atomic::{AtomicU32, Ordering};
use std::sync::Arc;
use vstd::prelude::*;

use crate::channel::{send, try_receive, unbounded};
use crate::entity::{Entity, Generation};

verus! {

/// Allows entities to be reserved from any thread. Every clone hands out
/// from the same counter and the same free list.
#[derive(Debug)]
pub struct EntitySpawner {
    latest_entity: Arc<AtomicU32>,
    input: Sender<Entity>,
    output: Receiver<Entity>,
}

impl Clone for EntitySpawner {
    /// Another handle to the same counter and the same free list.
    fn clone(&self) -> (r: Self)
        ensures
            r == *self,
    {
        Self {
            latest_entity: self.latest_entity.clone(),
            input: self.input.clone(),
            output: self.output.clone(),
        }
    }
}

/// The entity that comes back into use in place of the freed `entity`: the
/// same position, under the generation that follows.
pub open spec fn recycled_spec(entity: Entity) -> Entity {
    Entity {
        position: entity.position,
        generation: Generation(
            if entity.generation.invalid_spec() {
                (entity.generation.0 - crate::entity::INVALID) as u32
            } else {
                entity.generation.0
            },
        ).next_spec(),
    }
}

/// The freed `entity` as it is stored on the free list: marked as not in use.
pub open spec fn freed_spec(entity: Entity) -> Entity {
    Entity {
        position: entity.position,
        generation: Generation(
            if entity.generation.invalid_spec() {
                entity.generation.0
            } else {
                (entity.generation.0 + crate::entity::INVALID) as u32
            },
        ),
    }
}

/// Brings a freed entity back into use under its next generation.
pub fn recycled(entity: Entity) -> (r: Entity)
    ensures
        r == recycled_spec(entity),
        !r.generation.invalid_spec(),
{
    let mut ent = entity;
    ent.generation.set_valid();
    ent.generation.inc();
    ent
}

/// Marks an entity as not in use, as the free list stores it.
pub fn freed(entity: Entity) -> (r: Entity)
    ensures
        r == freed_spec(entity),
        r.generation.invalid_spec(),
{
    let mut ent = entity;
    ent.generation.set_invalid();
    ent
}

impl EntitySpawner {
    #[inline]
    pub fn new() -> Self {
        let (tx, rx) = unbounded();
        Self { latest_entity: Arc::new(AtomicU32::new(0)), input: tx, output: rx }
    }

    /// Reserves an entity: a deleted one under its next generation, or one
    /// at a new position under generation zero. Which one depends on what
    /// other handles have freed and reserved; whichever it is, its generation
    /// is valid. The entity is not active until the archetype set activates
    /// it.
    pub fn reserve(&self) -> (r: Entity)
        ensures
            !r.generation.invalid_spec(),
    {
        match try_receive(&self.output) {
            Some(ent) => recycled(ent),
            None => {
                let position = self.latest_entity.fetch_add(1, Ordering::Relaxed);
                Entity::new(position, Generation::new())
            },
        }
    }

    /// Adds `entity` to the free list.
    pub fn free(&self, entity: Entity) {
        send(&self.input, freed(entity));
    }
}

} // verus!
