//! One column of a table.

use vstd::prelude::*;

use crate::kind::KindId;
use crate::seqs::{swap_removed, upserted};

verus! {

/// A column: the components of one kind, one per slot of the table.
#[derive(Debug)]
pub struct Row<V> {
    pub kind: KindId,
    pub components: Vec<V>,
}

impl<V> Row<V> {
    /// An empty column of `kind`.
    pub fn new(kind: KindId) -> (r: Self)
        ensures
            r.kind == kind,
            r.components@ == Seq::<V>::empty(),
    {
        Self { kind, components: Vec::new() }
    }

    /// An empty column of the same kind.
    pub fn clone_empty(&self) -> (r: Self)
        ensures
            r.kind == self.kind,
            r.components@ == Seq::<V>::empty(),
    {
        Self::new(self.kind)
    }

    #[inline]
    pub fn tid(&self) -> (r: KindId)
        ensures
            r == self.kind,
    {
        self.kind
    }

    /// The number of slots that hold a component.
    #[inline]
    pub fn len(&self) -> (r: usize)
        ensures
            r == self.components@.len(),
    {
        self.components.len()
    }

    /// Appends a component.
    pub fn push(&mut self, component: V)
        ensures
            final(self).kind == old(self).kind,
            final(self).components@ == old(self).components@.push(component),
    {
        self.components.push(component);
    }

    /// Overwrites the component at `position`.
    pub fn update(&mut self, position: usize, component: V)
        requires
            position < old(self).components@.len(),
        ensures
            final(self).kind == old(self).kind,
            final(self).components@ == old(self).components@.update(position as int, component),
    {
        self.components[position] = component;
    }

    /// Overwrites the component at `position`, or appends it where `position`
    /// is the first free slot.
    pub fn push_or_update(&mut self, position: usize, component: V)
        requires
            position <= old(self).components@.len(),
        ensures
            final(self).kind == old(self).kind,
            final(self).components@ == upserted(old(self).components@, position as int, component),
    {
        if position < self.components.len() {
            self.components[position] = component;
        } else {
            self.components.push(component);
        }
    }

    /// Exclusive access to the components.
    #[inline]
    pub fn get_mut(&mut self) -> (r: &mut Vec<V>)
        ensures
            *r == old(self).components,
            final(self).kind == old(self).kind,
            final(self).components == *final(r),
    {
        &mut self.components
    }

    /// Removes the component at `position`; the last component takes its
    /// place.
    #[inline]
    pub fn swap_remove(&mut self, position: usize)
        requires
            position < old(self).components@.len(),
        ensures
            final(self).kind == old(self).kind,
            final(self).components@ == swap_removed(old(self).components@, position as int),
    {
        let _ = self.components.swap_remove(position);
    }

    /// Removes the component at `position` as `swap_remove` does and appends
    /// it to `dst`, a column of the same kind.
    #[inline]
    pub fn move_push_entity(&mut self, dst: &mut Self, position: usize)
        requires
            position < old(self).components@.len(),
            old(self).kind == old(dst).kind,
        ensures
            final(self).kind == old(self).kind,
            final(dst).kind == old(dst).kind,
            final(self).components@ == swap_removed(old(self).components@, position as int),
            final(dst).components@ == old(dst).components@.push(
                old(self).components@[position as int],
            ),
    {
        let removed = self.components.swap_remove(position);
        dst.components.push(removed);
    }

    /// Shared access to the components, slot by slot.
    #[inline]
    pub fn get_access_ref(&self) -> (r: &[V])
        ensures
            r@ == self.components@,
    {
        self.components.as_slice()
    }

    /// Exclusive access to the components, slot by slot. The number of slots
    /// cannot change through it.
    #[inline]
    pub fn get_access_mut(&mut self) -> (r: &mut [V])
        ensures
            r@ == old(self).components@,
            final(self).kind == old(self).kind,
            final(self).components@ == final(r)@,
    {
        self.components.as_mut_slice()
    }
}

} // verus!
