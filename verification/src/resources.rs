//! The resource store: at most one value per kind.

use std::collections::HashMap;
use vstd::prelude::*;

use crate::kind::KindId;

verus! {

broadcast use vstd::std_specs::hash::group_hash_axioms;

/// Exclusive access to the value under `key`: `HashMap::get_mut`. Trusted:
/// the result is there exactly if the key is, it starts out as the value
/// under the key, and what is written through it is what the map holds
/// under the key afterwards; nothing else changes.
#[verifier::external_body]
fn map_get_mut<V>(map: &mut HashMap<u64, V>, key: u64) -> (r: Option<&mut V>)
    ensures
        r is Some == old(map)@.contains_key(key),
        r matches Some(v) ==> *v == old(map)@[key] && final(map)@ == old(map)@.insert(
            key,
            *final(v),
        ),
        r is None ==> final(map)@ == old(map)@,
{
    map.get_mut(&key)
}

/// Names the kind under which a resource that travels apart from its
/// description, as in a queue of deferred commands, is stored.
#[derive(Debug, Clone, Copy)]
pub struct ResourceStorageModifier(pub KindId);

impl ResourceStorageModifier {
    #[inline]
    pub fn new(kind: KindId) -> (r: Self)
        ensures
            r.0 == kind,
    {
        Self(kind)
    }
}

/// A store of singletons: one value per kind at most.
pub struct Resources<V> {
    pub resources: HashMap<u64, V>,
}

impl<V> View for Resources<V> {
    type V = Map<u64, V>;

    /// What the store holds, by the number of the kind.
    open spec fn view(&self) -> Map<u64, V> {
        self.resources@
    }
}

impl<V> Resources<V> {
    /// An empty store.
    pub fn new() -> (r: Self)
        ensures
            r@ == Map::<u64, V>::empty(),
    {
        Self { resources: HashMap::new() }
    }

    /// Stores `res` under `kind`. A value that was there is replaced.
    pub fn insert_resource(&mut self, kind: KindId, res: V)
        ensures
            final(self)@ == old(self)@.insert(kind.0, res),
    {
        let _ = self.resources.insert(kind.0, res);
    }

    /// Whether a value is stored under `kind`.
    pub fn contains_resource(&self, kind: KindId) -> (r: bool)
        ensures
            r == self@.contains_key(kind.0),
    {
        self.resources.contains_key(&kind.0)
    }

    /// Shared access to the value under `kind`.
    pub fn get_resource(&self, kind: KindId) -> (r: Option<&V>)
        ensures
            r is Some == self@.contains_key(kind.0),
            r matches Some(v) ==> *v == self@[kind.0],
    {
        self.resources.get(&kind.0)
    }

    /// Exclusive access to the value under `kind`.
    pub fn get_resource_mut(&mut self, kind: KindId) -> (r: Option<&mut V>)
        ensures
            r is Some == old(self)@.contains_key(kind.0),
            r matches Some(v) ==> *v == old(self)@[kind.0] && final(self)@ == old(self)@.insert(
                kind.0,
                *final(v),
            ),
            r is None ==> final(self)@ == old(self)@,
    {
        map_get_mut(&mut self.resources, kind.0)
    }

    /// Stores a resource that arrives apart from its description.
    pub fn insert_resource_untyped(&mut self, resource: V, modifier: ResourceStorageModifier)
        ensures
            final(self)@ == old(self)@.insert(modifier.0.0, resource),
    {
        self.insert_resource(modifier.0, resource);
    }

    /// Removes the value under `kind`. Nothing happens if there is none.
    #[inline]
    pub fn remove_resource_untyped(&mut self, kind: KindId)
        ensures
            final(self)@ == old(self)@.remove(kind.0),
    {
        let _ = self.resources.remove(&kind.0);
    }
}

} // verus!
