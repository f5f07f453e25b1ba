//! The world: the current scene, the resources that outlive scenes, and the
//! queues of deferred commands.

use vstd::prelude::*;

use crate::archetypes::EntityComponents;
use crate::commands::{
    CommandCenter, Commands, ComponentCommands, EntityCommands, ResourceCommands,
};
use crate::kind::KindId;
use crate::resources::Resources;
use crate::scene::Scene;
use crate::seqs::reversed;

verus! {

/// Everything that systems work on.
#[verifier::reject_recursive_types(V)]
#[verifier::reject_recursive_types(R)]
pub struct World<V, R, U> {
    pub commands: CommandCenter<V, R>,
    pub global_resources: Resources<R>,
    pub global_nosend: Resources<U>,
    pub current_scene: Scene<V, R, U>,
}

impl<V, R, U> World<V, R, U> {
    /// The invariant of the world: that of its scene.
    pub open spec fn wf(&self) -> bool {
        self.current_scene.wf()
    }

    /// The archetype set of the current scene.
    pub open spec fn set(&self) -> EntityComponents<V> {
        self.current_scene.entities
    }

    /// A world with an empty scene, no resources and no commands.
    pub fn new() -> (r: Self)
        ensures
            r.wf(),
            r.set().canonical(),
            r.global_resources@ == Map::<u64, R>::empty(),
            r.global_nosend@ == Map::<u64, U>::empty(),
    {
        Self {
            commands: CommandCenter::new(),
            global_resources: Resources::new(),
            global_nosend: Resources::new(),
            current_scene: Scene::new(),
        }
    }

    #[inline]
    pub fn current_scene(&self) -> (r: &Scene<V, R, U>)
        ensures
            *r == self.current_scene,
    {
        &self.current_scene
    }

    #[inline]
    pub fn current_scene_mut(&mut self) -> (r: &mut Scene<V, R, U>)
        ensures
            *r == old(self).current_scene,
            final(self).current_scene == *final(r),
            final(self).global_resources == old(self).global_resources,
            final(self).global_nosend == old(self).global_nosend,
            final(self).commands == old(self).commands,
    {
        &mut self.current_scene
    }

    #[inline]
    pub fn global_resources(&self) -> (r: &Resources<R>)
        ensures
            *r == self.global_resources,
    {
        &self.global_resources
    }

    #[inline]
    pub fn global_nosend(&self) -> (r: &Resources<U>)
        ensures
            *r == self.global_nosend,
    {
        &self.global_nosend
    }

    /// A handle that sends commands to this world: its commands arrive in
    /// the queues of the world, and its entities come from the allocator of
    /// the current scene.
    #[inline]
    pub fn commands(&self) -> (r: Commands<V, R>)
        ensures
            r.senders() == self.commands.senders(),
            r.allocator() == self.current_scene.entities.spawner,
    {
        self.commands.commands(self.current_scene.spawner())
    }

    /// Stores `res` under `kind` among the global resources.
    #[inline]
    pub fn insert_resource(&mut self, kind: KindId, res: R)
        ensures
            final(self).global_resources@ == old(self).global_resources@.insert(kind.0, res),
            final(self).global_nosend == old(self).global_nosend,
            final(self).current_scene == old(self).current_scene,
    {
        self.global_resources.insert_resource(kind, res);
    }

    /// Shared access to the global resource under `kind`.
    #[inline]
    pub fn get_resource_ref(&self, kind: KindId) -> (r: Option<&R>)
        ensures
            r is Some == self.global_resources@.contains_key(kind.0),
            r matches Some(v) ==> *v == self.global_resources@[kind.0],
    {
        self.global_resources.get_resource(kind)
    }

    /// Exclusive access to the global resource under `kind`.
    #[inline]
    pub fn get_resource_mut(&mut self, kind: KindId) -> (r: Option<&mut R>)
        ensures
            r is Some == old(self).global_resources@.contains_key(kind.0),
            r matches Some(v) ==> *v == old(self).global_resources@[kind.0]
                && final(self).global_resources@ == old(self).global_resources@.insert(
                kind.0,
                *final(v),
            ),
            r is None ==> final(self).global_resources@ == old(self).global_resources@,
            final(self).global_nosend == old(self).global_nosend,
            final(self).current_scene == old(self).current_scene,
    {
        self.global_resources.get_resource_mut(kind)
    }

    /// Stores `res` under `kind` among the global resources of the main
    /// thread.
    #[inline]
    pub fn insert_nosend_resource(&mut self, kind: KindId, res: U)
        ensures
            final(self).global_nosend@ == old(self).global_nosend@.insert(kind.0, res),
            final(self).global_resources == old(self).global_resources,
            final(self).current_scene == old(self).current_scene,
    {
        self.global_nosend.insert_resource(kind, res);
    }

    /// Shared access to the main thread's global resource under `kind`.
    #[inline]
    pub fn get_nosend_resource_ref(&self, kind: KindId) -> (r: Option<&U>)
        ensures
            r is Some == self.global_nosend@.contains_key(kind.0),
            r matches Some(v) ==> *v == self.global_nosend@[kind.0],
    {
        self.global_nosend.get_resource(kind)
    }

    /// Exclusive access to the main thread's global resource under `kind`.
    #[inline]
    pub fn get_nosend_resource_mut(&mut self, kind: KindId) -> (r: Option<&mut U>)
        ensures
            r is Some == old(self).global_nosend@.contains_key(kind.0),
            r matches Some(v) ==> *v == old(self).global_nosend@[kind.0]
                && final(self).global_nosend@ == old(self).global_nosend@.insert(
                kind.0,
                *final(v),
            ),
            r is None ==> final(self).global_nosend@ == old(self).global_nosend@,
            final(self).global_resources == old(self).global_resources,
            final(self).current_scene == old(self).current_scene,
    {
        self.global_nosend.get_resource_mut(kind)
    }

    /// Applies the commands that are in the queues: first those on
    /// entities, then those on components, then those on resources. Which
    /// commands these are depends on what was sent from other threads;
    /// whatever they are, the world is what the commands of three lists,
    /// applied one after the other, make of it.
    #[inline]
    pub fn apply_commands(&mut self)
        requires
            old(self).wf(),
        ensures
            final(self).wf(),
            old(self).set().canonical() ==> final(self).set().canonical(),
            final(self).global_resources == old(self).global_resources,
            final(self).global_nosend == old(self).global_nosend,
            final(self).current_scene.unsend == old(self).current_scene.unsend,
            exists|
                on_entities: Seq<EntityCommands>,
                on_components: Seq<ComponentCommands<V>>,
                on_resources: Seq<ResourceCommands<R>>,
                first: Seq<EntityComponents<V>>,
                second: Seq<EntityComponents<V>>,
            | #[trigger]
                commands_applied(
                    old(self),
                    final(self),
                    on_entities,
                    on_components,
                    on_resources,
                    first,
                    second,
                ),
    {
        let ghost start = self.set();
        let cmds = self.commands.entity_commands();
        let ghost on_entities = cmds@;
        self.apply_entity_commands(cmds);
        let ghost middle = self.set();
        let ghost first = choose|trace: Seq<EntityComponents<V>>|
            entity_run(trace, on_entities) && trace[0] == start && trace[on_entities.len() as int]
                == middle;
        let cmds = self.commands.component_commands();
        let ghost on_components = cmds@;
        self.apply_component_commands(cmds);
        let ghost second = choose|trace: Seq<EntityComponents<V>>|
            component_run(trace, on_components) && trace[0] == middle
                && trace[on_components.len() as int] == self.set();
        let cmds = self.commands.resource_commands();
        let ghost on_resources = cmds@;
        self.apply_resource_commands(cmds);
        assert(commands_applied(
            old(self),
            self,
            on_entities,
            on_components,
            on_resources,
            first,
            second,
        ));
    }

    /// Applies one command on entities.
    pub fn apply_entity_command(&mut self, cmd: EntityCommands)
        requires
            old(self).wf(),
        ensures
            final(self).wf(),
            old(self).set().canonical() ==> final(self).set().canonical(),
            final(self).global_resources == old(self).global_resources,
            final(self).global_nosend == old(self).global_nosend,
            final(self).current_scene.resources == old(self).current_scene.resources,
            final(self).current_scene.unsend == old(self).current_scene.unsend,
            entity_step(&old(self).set(), &final(self).set(), cmd),
    {
        match cmd {
            EntityCommands::SpawnEntity(entity) => {
                self.current_scene.entities.activate_entity(entity);
            },
            EntityCommands::DeleteEntity(entity) => {
                self.current_scene.entities.delete_entity(entity);
            },
        }
    }

    /// Applies commands on entities, in their order.
    pub fn apply_entity_commands(&mut self, cmds: Vec<EntityCommands>)
        requires
            old(self).wf(),
        ensures
            final(self).wf(),
            old(self).set().canonical() ==> final(self).set().canonical(),
            final(self).global_resources == old(self).global_resources,
            final(self).global_nosend == old(self).global_nosend,
            final(self).current_scene.resources == old(self).current_scene.resources,
            final(self).current_scene.unsend == old(self).current_scene.unsend,
            exists|trace: Seq<EntityComponents<V>>|
                entity_run(trace, cmds@) && trace[0] == old(self).set() && trace[cmds@.len() as int]
                    == final(self).set(),
    {
        let ghost n = cmds@.len() as int;
        let mut pending = reversed(cmds);
        let ghost mut trace: Seq<EntityComponents<V>> = seq![self.set()];
        let ghost mut k: int = 0;
        while pending.len() > 0
            invariant
                self.wf(),
                old(self).set().canonical() ==> self.set().canonical(),
                self.global_resources == old(self).global_resources,
                self.global_nosend == old(self).global_nosend,
                self.current_scene.resources == old(self).current_scene.resources,
                self.current_scene.unsend == old(self).current_scene.unsend,
                0 <= k <= n,
                n == cmds@.len(),
                pending@.len() == n - k,
                forall|m: int| 0 <= m < n - k ==> #[trigger] pending@[m] == cmds@[n - 1 - m],
                trace.len() == k + 1,
                trace[0] == old(self).set(),
                trace[k] == self.set(),
                forall|i: int|
                    0 <= i < k ==> entity_step(&#[trigger] trace[i], &trace[i + 1], cmds@[i]),
            decreases pending@.len(),
        {
            let cmd = pending.pop().unwrap();
            self.apply_entity_command(cmd);
            proof {
                let before = trace;
                trace = before.push(self.set());
                assert forall|i: int| 0 <= i < k + 1 implies entity_step(
                    &#[trigger] trace[i],
                    &trace[i + 1],
                    cmds@[i],
                ) by {
                    if i < k {
                        assert(trace[i] == before[i] && trace[i + 1] == before[i + 1]);
                    }
                }
                k = k + 1;
            }
        }
        assert(entity_run(trace, cmds@));
    }

    /// Applies one command on components. A command to add components that
    /// cannot be attached, or that do not go with their description, is
    /// dropped.
    pub fn apply_component_command(&mut self, cmd: ComponentCommands<V>)
        requires
            old(self).wf(),
        ensures
            final(self).wf(),
            old(self).set().canonical() ==> final(self).set().canonical(),
            final(self).global_resources == old(self).global_resources,
            final(self).global_nosend == old(self).global_nosend,
            final(self).current_scene.resources == old(self).current_scene.resources,
            final(self).current_scene.unsend == old(self).current_scene.unsend,
            component_step(&old(self).set(), &final(self).set(), cmd),
    {
        match cmd {
            ComponentCommands::AddComponent { entity, components, producer } => {
                if components.validate() && producer.matches(&components) {
                    self.current_scene.add_component_untyped(&entity, components, producer);
                }
            },
            ComponentCommands::RemoveComponent { entity, modifier } => {
                self.current_scene.remove_components_untyped(entity, modifier);
            },
        }
    }

    /// Applies commands on components, in their order.
    pub fn apply_component_commands(&mut self, cmds: Vec<ComponentCommands<V>>)
        requires
            old(self).wf(),
        ensures
            final(self).wf(),
            old(self).set().canonical() ==> final(self).set().canonical(),
            final(self).global_resources == old(self).global_resources,
            final(self).global_nosend == old(self).global_nosend,
            final(self).current_scene.resources == old(self).current_scene.resources,
            final(self).current_scene.unsend == old(self).current_scene.unsend,
            exists|trace: Seq<EntityComponents<V>>|
                component_run(trace, cmds@) && trace[0] == old(self).set()
                    && trace[cmds@.len() as int] == final(self).set(),
    {
        let ghost n = cmds@.len() as int;
        let mut pending = reversed(cmds);
        let ghost mut trace: Seq<EntityComponents<V>> = seq![self.set()];
        let ghost mut k: int = 0;
        while pending.len() > 0
            invariant
                self.wf(),
                old(self).set().canonical() ==> self.set().canonical(),
                self.global_resources == old(self).global_resources,
                self.global_nosend == old(self).global_nosend,
                self.current_scene.resources == old(self).current_scene.resources,
                self.current_scene.unsend == old(self).current_scene.unsend,
                0 <= k <= n,
                n == cmds@.len(),
                pending@.len() == n - k,
                forall|m: int| 0 <= m < n - k ==> #[trigger] pending@[m] == cmds@[n - 1 - m],
                trace.len() == k + 1,
                trace[0] == old(self).set(),
                trace[k] == self.set(),
                forall|i: int|
                    0 <= i < k ==> component_step(&#[trigger] trace[i], &trace[i + 1], cmds@[i]),
            decreases pending@.len(),
        {
            let cmd = pending.pop().unwrap();
            self.apply_component_command(cmd);
            proof {
                let before = trace;
                trace = before.push(self.set());
                assert forall|i: int| 0 <= i < k + 1 implies component_step(
                    &#[trigger] trace[i],
                    &trace[i + 1],
                    cmds@[i],
                ) by {
                    if i < k {
                        assert(trace[i] == before[i] && trace[i + 1] == before[i + 1]);
                    }
                }
                k = k + 1;
            }
        }
        assert(component_run(trace, cmds@));
    }

    /// Applies one command on resources, to the resources of the scene.
    pub fn apply_resource_command(&mut self, cmd: ResourceCommands<R>)
        ensures
            final(self).global_resources == old(self).global_resources,
            final(self).global_nosend == old(self).global_nosend,
            final(self).current_scene.entities == old(self).current_scene.entities,
            final(self).current_scene.unsend == old(self).current_scene.unsend,
            final(self).current_scene.resources@ == resource_step(
                old(self).current_scene.resources@,
                cmd,
            ),
    {
        match cmd {
            ResourceCommands::AddResource { resource, producer } => {
                self.current_scene.insert_resource_untyped(resource, producer);
            },
            ResourceCommands::RemoveResource { type_id } => {
                self.current_scene.remove_resource_untyped(type_id);
            },
        }
    }

    /// Applies commands on resources, in their order.
    pub fn apply_resource_commands(&mut self, cmds: Vec<ResourceCommands<R>>)
        ensures
            final(self).global_resources == old(self).global_resources,
            final(self).global_nosend == old(self).global_nosend,
            final(self).current_scene.entities == old(self).current_scene.entities,
            final(self).current_scene.unsend == old(self).current_scene.unsend,
            final(self).current_scene.resources@ == resources_after(
                old(self).current_scene.resources@,
                cmds@,
            ),
    {
        let ghost n = cmds@.len() as int;
        let mut pending = reversed(cmds);
        let ghost mut k: int = 0;
        proof {
            assert(cmds@.take(0) == Seq::<ResourceCommands<R>>::empty());
        }
        while pending.len() > 0
            invariant
                self.global_resources == old(self).global_resources,
                self.global_nosend == old(self).global_nosend,
                self.current_scene.entities == old(self).current_scene.entities,
                self.current_scene.unsend == old(self).current_scene.unsend,
                0 <= k <= n,
                n == cmds@.len(),
                pending@.len() == n - k,
                forall|m: int| 0 <= m < n - k ==> #[trigger] pending@[m] == cmds@[n - 1 - m],
                self.current_scene.resources@ == resources_after(
                    old(self).current_scene.resources@,
                    cmds@.take(k),
                ),
            decreases pending@.len(),
        {
            let cmd = pending.pop().unwrap();
            proof {
                assert(cmds@.take(k + 1).drop_last() == cmds@.take(k));
                assert(cmds@.take(k + 1).last() == cmd);
            }
            self.apply_resource_command(cmd);
            proof {
                k = k + 1;
            }
        }
        proof {
            assert(cmds@.take(k) == cmds@);
        }
    }
}

/// `post` is what applying commands makes of `pre`: the archetype set goes
/// through `first` as the commands `on_entities` are applied, from there
/// through `second` as the commands `on_components` are applied, and the
/// resources of the scene are those after the commands `on_resources`.
pub open spec fn commands_applied<V, R, U>(
    pre: &World<V, R, U>,
    post: &World<V, R, U>,
    on_entities: Seq<EntityCommands>,
    on_components: Seq<ComponentCommands<V>>,
    on_resources: Seq<ResourceCommands<R>>,
    first: Seq<EntityComponents<V>>,
    second: Seq<EntityComponents<V>>,
) -> bool {
    &&& entity_run(first, on_entities)
    &&& first[0] == pre.set()
    &&& component_run(second, on_components)
    &&& second[0] == first[on_entities.len() as int]
    &&& second[on_components.len() as int] == post.set()
    &&& post.current_scene.resources@ == resources_after(
        pre.current_scene.resources@,
        on_resources,
    )
}

/// `post` is `pre` after the command `cmd` on entities.
pub open spec fn entity_step<V>(
    pre: &EntityComponents<V>,
    post: &EntityComponents<V>,
    cmd: EntityCommands,
) -> bool {
    match cmd {
        EntityCommands::SpawnEntity(entity) => post.is_activation_of(pre, entity),
        EntityCommands::DeleteEntity(entity) => post.is_deletion_of(pre, entity),
    }
}

/// `post` is `pre` after the command `cmd` on components. A command to add
/// components that cannot be attached, or that do not go with their
/// description, changes nothing.
pub open spec fn component_step<V>(
    pre: &EntityComponents<V>,
    post: &EntityComponents<V>,
    cmd: ComponentCommands<V>,
) -> bool {
    match cmd {
        ComponentCommands::AddComponent { entity, components, producer } => {
            if components.wf() && producer.describes(&components) {
                post.is_add_of(pre, entity, &components)
            } else {
                post.tables@ == pre.tables@ && post.entities@ == pre.entities@
            }
        },
        ComponentCommands::RemoveComponent { entity, modifier } => post.is_remove_of(
            pre,
            entity,
            modifier.kinds@,
        ),
    }
}

/// The resources after the command `cmd`.
pub open spec fn resource_step<R>(pre: Map<u64, R>, cmd: ResourceCommands<R>) -> Map<u64, R> {
    match cmd {
        ResourceCommands::AddResource { resource, producer } => pre.insert(producer.0.0, resource),
        ResourceCommands::RemoveResource { type_id } => pre.remove(type_id.0),
    }
}

/// The resources after the commands `cmds`, applied in their order.
pub open spec fn resources_after<R>(pre: Map<u64, R>, cmds: Seq<ResourceCommands<R>>) -> Map<
    u64,
    R,
>
    decreases cmds.len(),
{
    if cmds.len() == 0 {
        pre
    } else {
        resource_step(resources_after(pre, cmds.drop_last()), cmds.last())
    }
}

/// `trace` is what the archetype set goes through as the commands `cmds`
/// are applied in their order: one state before each command and one after
/// the last.
pub open spec fn entity_run<V>(trace: Seq<EntityComponents<V>>, cmds: Seq<EntityCommands>) -> bool {
    &&& trace.len() == cmds.len() + 1
    &&& forall|i: int|
        0 <= i < cmds.len() ==> entity_step(&#[trigger] trace[i], &trace[i + 1], cmds[i])
}

/// `trace` is what the archetype set goes through as the commands `cmds`
/// are applied in their order.
pub open spec fn component_run<V>(
    trace: Seq<EntityComponents<V>>,
    cmds: Seq<ComponentCommands<V>>,
) -> bool {
    &&& trace.len() == cmds.len() + 1
    &&& forall|i: int|
        0 <= i < cmds.len() ==> component_step(&#[trigger] trace[i], &trace[i + 1], cmds[i])
}

} // verus!
