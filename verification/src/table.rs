//! The storage of one archetype: one column per kind and the entities that
//! own the slots.

use vstd::prelude::*;

use crate::components::{Apply, ComponentSet};
use crate::entity::Entity;
use crate::kind::{all_distinct, contains_kind, kinds_within, kinds_without, same_kinds, KindId};
use crate::row::Row;
use crate::seqs::{lemma_index_of_unique, lemma_pushed, lemma_swap_removed, swap_removed};
use crate::table_id::{table_id_of, TableId, MAX_KINDS};

verus! {

/// The kinds of `rows`, in the order of the rows.
pub open spec fn kinds_of<V>(rows: Seq<Row<V>>) -> Seq<KindId> {
    Seq::new(rows.len(), |i: int| rows[i].kind)
}

/// A table holds the entities of one archetype. Slot `i` of every column
/// belongs to the entity at `entities[i]`.
pub struct Table<V> {
    pub id: TableId,
    pub rows: Vec<Row<V>>,
    pub entities: Vec<Entity>,
}

impl<V> Table<V> {
    /// The kinds of the table's columns, in the order of the columns.
    pub open spec fn kinds(&self) -> Seq<KindId> {
        kinds_of(self.rows@)
    }

    /// Whether the table has a column of `kind`.
    pub open spec fn has_kind(&self, kind: KindId) -> bool {
        self.kinds().contains(kind)
    }

    /// The components of `kind`, slot by slot.
    pub open spec fn column(&self, kind: KindId) -> Seq<V> {
        self.rows@[self.kinds().index_of(kind)].components@
    }

    /// Whether `entity` owns a slot.
    pub open spec fn contains(&self, entity: Entity) -> bool {
        self.entities@.contains(entity)
    }

    /// The slot that `entity` owns.
    pub open spec fn slot_of(&self, entity: Entity) -> int {
        self.entities@.index_of(entity)
    }

    /// The component of `kind` that `entity` carries.
    pub open spec fn value(&self, entity: Entity, kind: KindId) -> V {
        self.column(kind)[self.slot_of(entity)]
    }

    /// No kind has two columns and no entity two slots.
    pub open spec fn distinct(&self) -> bool {
        &&& self.kinds().no_duplicates()
        &&& self.entities@.no_duplicates()
    }

    /// Table homogeneity: every column has one component per entity.
    pub open spec fn wf(&self) -> bool {
        &&& self.distinct()
        &&& forall|i: int|
            0 <= i < self.rows@.len() ==> (#[trigger] self.rows@[i]).components@.len()
                == self.entities@.len()
    }

    /// The state between moving `entity` in from a smaller archetype and
    /// supplying the components it did not have there: `entity` owns the last
    /// slot, and a column either has that slot or ends just before it.
    pub open spec fn wf_pending(&self, entity: Entity) -> bool {
        &&& self.distinct()
        &&& self.entities@.len() > 0
        &&& self.entities@.last() == entity
        &&& forall|i: int|
            0 <= i < self.rows@.len() ==> {
                let n = (#[trigger] self.rows@[i]).components@.len();
                n == self.entities@.len() || n == self.entities@.len() - 1
            }
    }

    /// Whether the id is the one that the table's kinds have.
    pub open spec fn canonical(&self) -> bool {
        self.id == table_id_of(self.kinds())
    }

    /// An empty table with one column for each of `kinds`, which must be
    /// distinct.
    pub fn new(kinds: &[KindId]) -> (r: Self)
        requires
            kinds@.no_duplicates(),
            0 < kinds@.len() <= MAX_KINDS,
        ensures
            r.kinds() == kinds@,
            r.entities@ == Seq::<Entity>::empty(),
            r.id == table_id_of(kinds@),
            !r.id.invalid_spec(),
            r.wf(),
            r.canonical(),
    {
        let mut rows: Vec<Row<V>> = Vec::new();
        let mut i: usize = 0;
        while i < kinds.len()
            invariant
                i <= kinds.len(),
                rows@.len() == i,
                forall|j: int| 0 <= j < i ==> rows@[j].kind == kinds@[j],
                forall|j: int| 0 <= j < i ==> (#[trigger] rows@[j]).components@.len() == 0,
            decreases kinds.len() - i,
        {
            rows.push(Row::new(kinds[i]));
            i += 1;
        }
        let r = Self { id: TableId::from_uniques(kinds), rows, entities: Vec::new() };
        assert(r.kinds() == kinds@);
        r
    }

    /// A table without columns and entities under the id "no archetype". It
    /// stands in for a table that is taken out of a list for a moment.
    pub fn vacant() -> (r: Self)
        ensures
            r.id.invalid_spec(),
            r.rows@.len() == 0,
            r.entities@.len() == 0,
    {
        Self { id: TableId::invalid(), rows: Vec::new(), entities: Vec::new() }
    }

    /// A builder for a table with id `id` that starts with an empty copy of
    /// every column of this table.
    pub fn get_extendable_precomputed(&self, id: TableId) -> (r: ExtendableTable<V>)
        ensures
            r.id == id,
            r.kinds() == self.kinds(),
            r.entities@ == Seq::<Entity>::empty(),
            r.empty(),
    {
        let mut rows: Vec<Row<V>> = Vec::new();
        let mut i: usize = 0;
        while i < self.rows.len()
            invariant
                i <= self.rows.len(),
                rows@.len() == i,
                forall|j: int| 0 <= j < i ==> rows@[j].kind == self.rows@[j].kind,
                forall|j: int| 0 <= j < i ==> (#[trigger] rows@[j]).components@.len() == 0,
            decreases self.rows.len() - i,
        {
            rows.push(self.rows[i].clone_empty());
            i += 1;
        }
        let r = ExtendableTable { id, rows, entities: Vec::new() };
        assert(r.kinds() == self.kinds());
        r
    }

    /// The number of entities.
    #[inline]
    pub fn len(&self) -> (r: usize)
        ensures
            r == self.entities@.len(),
    {
        self.entities.len()
    }

    #[inline]
    pub fn is_empty(&self) -> (r: bool)
        ensures
            r == (self.entities@.len() == 0),
    {
        self.len() == 0
    }

    #[inline]
    pub fn id(&self) -> (r: TableId)
        ensures
            r == self.id,
    {
        self.id
    }

    /// The kinds of the columns, in the order of the columns.
    pub fn types(&self) -> (r: Vec<KindId>)
        ensures
            r@ == self.kinds(),
    {
        let mut out: Vec<KindId> = Vec::new();
        let mut i: usize = 0;
        while i < self.rows.len()
            invariant
                i <= self.rows.len(),
                out@.len() == i,
                forall|j: int| 0 <= j < i ==> out@[j] == self.rows@[j].kind,
            decreases self.rows.len() - i,
        {
            out.push(self.rows[i].tid());
            i += 1;
        }
        assert(out@ == self.kinds());
        out
    }

    /// The index of the column of `kind`, if the table has one.
    pub fn find_row(&self, kind: KindId) -> (r: Option<usize>)
        ensures
            r is Some == self.has_kind(kind),
            r matches Some(i) ==> i < self.rows@.len() && self.rows@[i as int].kind == kind && (
            self.kinds().no_duplicates() ==> i == self.kinds().index_of(kind)),
    {
        let mut i: usize = 0;
        while i < self.rows.len()
            invariant
                i <= self.rows.len(),
                forall|j: int| 0 <= j < i ==> self.kinds()[j] != kind,
            decreases self.rows.len() - i,
        {
            if self.rows[i].tid() == kind {
                proof {
                    assert(self.kinds()[i as int] == kind);
                    if self.kinds().no_duplicates() {
                        lemma_index_of_unique(self.kinds(), i as int);
                    }
                }
                return Some(i);
            }
            i += 1;
        }
        None
    }

    /// Whether the table has a column of `kind`.
    #[inline]
    pub fn contains_one(&self, kind: KindId) -> (r: bool)
        ensures
            r == self.has_kind(kind),
    {
        self.find_row(kind).is_some()
    }

    /// Whether the table has a column for every kind of `types`.
    pub fn contains_all(&self, types: &[KindId]) -> (r: bool)
        ensures
            r == kinds_within(types@, self.kinds()),
    {
        let mut i: usize = 0;
        while i < types.len()
            invariant
                i <= types.len(),
                forall|j: int| 0 <= j < i ==> self.has_kind(types@[j]),
            decreases types.len() - i,
        {
            if !self.contains_one(types[i]) {
                assert(types@.contains(types@[i as int]));
                return false;
            }
            i += 1;
        }
        true
    }

    /// Whether the table's columns are of exactly the kinds of `types`, which
    /// must be distinct.
    pub fn has_exactly(&self, types: &[KindId]) -> (r: bool)
        requires
            types@.no_duplicates(),
            self.kinds().no_duplicates(),
        ensures
            r == same_kinds(types@, self.kinds()),
    {
        let within = self.contains_all(types);
        proof {
            if within && types.len() == self.rows.len() {
                crate::kind::lemma_within_same_len(types@, self.kinds());
            }
            if same_kinds(types@, self.kinds()) {
                crate::table_id::lemma_table_id_same_kinds(types@, self.kinds());
            }
        }
        within && types.len() == self.rows.len()
    }

    /// An update of `entity` with `components` can go ahead: the table is
    /// homogeneous up to columns that end just before the last slot, which
    /// then is the slot of `entity` and is supplied by `components`.
    pub open spec fn accepts_upsert(&self, entity: Entity, components: &ComponentSet<V>) -> bool {
        &&& self.distinct()
        &&& self.contains(entity)
        &&& components.kinds().no_duplicates()
        &&& kinds_within(components.kinds(), self.kinds())
        &&& forall|i: int|
            0 <= i < self.rows@.len() ==> {
                let n = (#[trigger] self.rows@[i]).components@.len();
                n == self.entities@.len() || (n == self.entities@.len() - 1 && self.slot_of(entity)
                    == n && components.has(self.rows@[i].kind))
            }
    }

    /// `self` is `pre` without `entity`: its slot was taken out of every
    /// column as a swap-remove does.
    pub open spec fn is_removal(&self, pre: &Table<V>, entity: Entity) -> bool {
        &&& self.id == pre.id
        &&& self.kinds() == pre.kinds()
        &&& self.rows@.len() == pre.rows@.len()
        &&& self.entities@ == swap_removed(pre.entities@, pre.slot_of(entity))
        &&& forall|i: int|
            0 <= i < pre.rows@.len() ==> (#[trigger] self.rows@[i]).components@ == swap_removed(
                pre.rows@[i].components@,
                pre.slot_of(entity),
            )
    }

    /// `self` is `pre` with `entity` in a new last slot, which holds what
    /// `entity` had in `src` for the kinds both tables have. Columns of other
    /// kinds are as they were.
    pub open spec fn is_arrival(&self, pre: &Table<V>, src: &Table<V>, entity: Entity) -> bool {
        &&& self.id == pre.id
        &&& self.kinds() == pre.kinds()
        &&& self.rows@.len() == pre.rows@.len()
        &&& self.entities@ == pre.entities@.push(entity)
        &&& forall|i: int|
            0 <= i < pre.rows@.len() ==> (#[trigger] self.rows@[i]).components@ == (
            if src.has_kind(pre.rows@[i].kind) {
                pre.rows@[i].components@.push(src.value(entity, pre.rows@[i].kind))
            } else {
                pre.rows@[i].components@
            })
    }

    /// Appends `entity` with `components`, which must be of exactly the
    /// table's kinds. The entity must not be in the table yet.
    pub fn push(&mut self, entity: Entity, components: ComponentSet<V>)
        requires
            old(self).wf(),
            !old(self).contains(entity),
            components.kinds().no_duplicates(),
            same_kinds(components.kinds(), old(self).kinds()),
        ensures
            final(self).wf(),
            final(self).id == old(self).id,
            final(self).kinds() == old(self).kinds(),
            final(self).entities@ == old(self).entities@.push(entity),
            forall|i: int|
                0 <= i < old(self).rows@.len() ==> (#[trigger] final(self).rows@[i]).components@
                    == old(self).rows@[i].components@.push(
                    components.value_of(old(self).rows@[i].kind),
                ),
            forall|e: Entity| final(self).contains(e) <==> (old(self).contains(e) || e == entity),
            forall|k: KindId|
                old(self).has_kind(k) ==> #[trigger] final(self).value(entity, k)
                    == components.value_of(k),
            forall|e: Entity, k: KindId|
                old(self).contains(e) && old(self).has_kind(k) ==> #[trigger] final(self).value(e, k)
                    == old(self).value(e, k),
    {
        proof {
            assert forall|i: int| 0 <= i < self.rows@.len() implies components.has(
                (#[trigger] self.rows@[i]).kind,
            ) by {
                assert(self.kinds()[i] == self.rows@[i].kind);
            }
        }
        components.push_to_table(self, entity);
        proof {
            lemma_pushed(old(self).entities@, entity);
            assert forall|k: KindId| old(self).has_kind(k) implies #[trigger] final(self).value(
                entity,
                k,
            ) == components.value_of(k) by {
                let i = old(self).kinds().index_of(k);
                assert(old(self).kinds()[i] == k);
            }
            assert forall|e: Entity, k: KindId|
                old(self).contains(e) && old(self).has_kind(k) implies #[trigger] final(self).value(
                e,
                k,
            ) == old(self).value(e, k) by {
                let i = old(self).kinds().index_of(k);
                assert(old(self).kinds()[i] == k);
            }
        }
    }

    /// Overwrites the components of `entity` with `components`, which must
    /// be of exactly the table's kinds.
    pub fn update(&mut self, entity: &Entity, components: ComponentSet<V>)
        requires
            old(self).wf(),
            old(self).contains(*entity),
            components.kinds().no_duplicates(),
            same_kinds(components.kinds(), old(self).kinds()),
        ensures
            final(self).wf(),
            components.entered(
                old(self),
                final(self),
                Apply::Update,
                old(self).slot_of(*entity),
            ),
            forall|k: KindId|
                old(self).has_kind(k) ==> #[trigger] final(self).value(*entity, k)
                    == components.value_of(k),
            forall|e: Entity, k: KindId|
                old(self).contains(e) && e != *entity && old(self).has_kind(k)
                    ==> #[trigger] final(self).value(e, k) == old(self).value(e, k),
    {
        self.update_partial(entity, components);
    }

    /// Overwrites the components of `entity` for the kinds of `components`,
    /// all of which the table must have.
    pub fn update_partial(&mut self, entity: &Entity, components: ComponentSet<V>)
        requires
            old(self).wf(),
            old(self).contains(*entity),
            components.kinds().no_duplicates(),
            kinds_within(components.kinds(), old(self).kinds()),
        ensures
            final(self).wf(),
            components.entered(
                old(self),
                final(self),
                Apply::Update,
                old(self).slot_of(*entity),
            ),
            forall|k: KindId|
                components.has(k) ==> #[trigger] final(self).value(*entity, k)
                    == components.value_of(k),
            forall|k: KindId|
                old(self).has_kind(k) && !components.has(k) ==> #[trigger] final(self).value(
                    *entity,
                    k,
                ) == old(self).value(*entity, k),
            forall|e: Entity, k: KindId|
                old(self).contains(e) && e != *entity && old(self).has_kind(k)
                    ==> #[trigger] final(self).value(e, k) == old(self).value(e, k),
    {
        let position = self.get_entity_position(entity);
        components.update_rows(self, position);
        proof {
            let ghost pre = *old(self);
            assert forall|e: Entity, k: KindId|
                pre.contains(e) && pre.has_kind(k) implies #[trigger] final(self).value(e, k) == (
                if e == *entity && components.has(k) {
                    components.value_of(k)
                } else {
                    pre.value(e, k)
                }) by {
                let i = pre.kinds().index_of(k);
                assert(pre.kinds()[i] == k);
                let j = pre.entities@.index_of(e);
                assert(pre.entities@[j] == e);
            }
        }
    }

    /// Completes or overwrites the components of `entity`: for each kind of
    /// `components` the slot of `entity` is overwritten, or appended where
    /// the column does not have it yet.
    pub fn push_missing_or_update(&mut self, entity: &Entity, components: ComponentSet<V>)
        requires
            old(self).accepts_upsert(*entity, &components),
        ensures
            final(self).wf(),
            components.entered(
                old(self),
                final(self),
                Apply::Upsert,
                old(self).slot_of(*entity),
            ),
            forall|k: KindId|
                components.has(k) ==> #[trigger] final(self).value(*entity, k)
                    == components.value_of(k),
            forall|k: KindId|
                old(self).has_kind(k) && !components.has(k) ==> #[trigger] final(self).value(
                    *entity,
                    k,
                ) == old(self).value(*entity, k),
            forall|e: Entity, k: KindId|
                old(self).contains(e) && e != *entity && old(self).has_kind(k)
                    ==> #[trigger] final(self).value(e, k) == old(self).value(e, k),
    {
        let position = self.get_entity_position(entity);
        components.push_or_update(self, position);
        proof {
            let ghost pre = *old(self);
            assert forall|e: Entity, k: KindId|
                pre.contains(e) && pre.has_kind(k) implies #[trigger] final(self).value(e, k) == (
                if e == *entity && components.has(k) {
                    components.value_of(k)
                } else {
                    pre.value(e, k)
                }) by {
                let i = pre.kinds().index_of(k);
                assert(pre.kinds()[i] == k);
                let j = pre.entities@.index_of(e);
                assert(pre.entities@[j] == e);
                lemma_index_of_unique(pre.entities@, j);
            }
        }
    }

    /// Removes `entity`, which must be in the table, and all its components.
    /// The entity of the last slot takes over the slot.
    pub fn delete_entity(&mut self, entity: Entity)
        requires
            old(self).wf(),
            old(self).contains(entity),
        ensures
            final(self).wf(),
            final(self).is_removal(old(self), entity),
            forall|e: Entity| final(self).contains(e) <==> (old(self).contains(e) && e != entity),
            forall|e: Entity, k: KindId|
                old(self).contains(e) && e != entity && old(self).has_kind(k)
                    ==> #[trigger] final(self).value(e, k) == old(self).value(e, k),
    {
        let position = self.get_entity_position(&entity);
        let mut i: usize = 0;
        while i < self.rows.len()
            invariant
                i <= self.rows@.len(),
                old(self).wf(),
                position == old(self).slot_of(entity),
                position < old(self).entities@.len(),
                self.id == old(self).id,
                self.entities@ == old(self).entities@,
                self.rows@.len() == old(self).rows@.len(),
                forall|j: int|
                    0 <= j < self.rows@.len() ==> (#[trigger] self.rows@[j]).kind == old(
                        self,
                    ).rows@[j].kind,
                forall|j: int|
                    0 <= j < i ==> (#[trigger] self.rows@[j]).components@ == swap_removed(
                        old(self).rows@[j].components@,
                        position as int,
                    ),
                forall|j: int|
                    i <= j < self.rows@.len() ==> (#[trigger] self.rows@[j]).components@ == old(
                        self,
                    ).rows@[j].components@,
            decreases self.rows@.len() - i,
        {
            self.rows[i].swap_remove(position);
            i += 1;
        }
        let _ = self.entities.swap_remove(position);
        proof {
            assert(self.kinds() == old(self).kinds());
            lemma_removal(old(self), final(self), entity);
        }
    }

    /// Moves `entity` and its components to `dst`, which must have a column
    /// for every kind of this table. Columns that only `dst` has do not get
    /// the new slot here: `push_missing_or_update` supplies it.
    pub fn move_entity_up(&mut self, dst: &mut Self, entity: &Entity)
        requires
            old(self).wf(),
            old(dst).wf(),
            old(self).contains(*entity),
            !old(dst).contains(*entity),
            kinds_within(old(self).kinds(), old(dst).kinds()),
        ensures
            final(self).wf(),
            final(self).is_removal(old(self), *entity),
            forall|e: Entity| final(self).contains(e) <==> (old(self).contains(e) && e != *entity),
            forall|e: Entity, k: KindId|
                old(self).contains(e) && e != *entity && old(self).has_kind(k)
                    ==> #[trigger] final(self).value(e, k) == old(self).value(e, k),
            final(dst).is_arrival(old(dst), old(self), *entity),
            final(dst).distinct(),
            forall|e: Entity| final(dst).contains(e) <==> (old(dst).contains(e) || e == *entity),
            final(dst).slot_of(*entity) == old(dst).entities@.len(),
            forall|k: KindId|
                old(self).has_kind(k) ==> #[trigger] final(dst).value(*entity, k) == old(
                    self,
                ).value(*entity, k),
            forall|e: Entity, k: KindId|
                old(dst).contains(e) && old(dst).has_kind(k) ==> #[trigger] final(dst).value(e, k)
                    == old(dst).value(e, k),
    {
        self.move_entity(dst, entity);
    }

    /// Moves `entity` to `dst` with the components whose kinds `dst` has
    /// and drops the others.
    pub fn move_entity_down(&mut self, dst: &mut Self, entity: &Entity)
        requires
            old(self).wf(),
            old(dst).wf(),
            old(self).contains(*entity),
            !old(dst).contains(*entity),
        ensures
            final(self).wf(),
            final(self).is_removal(old(self), *entity),
            forall|e: Entity| final(self).contains(e) <==> (old(self).contains(e) && e != *entity),
            forall|e: Entity, k: KindId|
                old(self).contains(e) && e != *entity && old(self).has_kind(k)
                    ==> #[trigger] final(self).value(e, k) == old(self).value(e, k),
            final(dst).is_arrival(old(dst), old(self), *entity),
            final(dst).distinct(),
            kinds_within(old(dst).kinds(), old(self).kinds()) ==> final(dst).wf(),
            forall|e: Entity| final(dst).contains(e) <==> (old(dst).contains(e) || e == *entity),
            final(dst).slot_of(*entity) == old(dst).entities@.len(),
            forall|k: KindId|
                old(self).has_kind(k) && old(dst).has_kind(k) ==> #[trigger] final(dst).value(
                    *entity,
                    k,
                ) == old(self).value(*entity, k),
            forall|e: Entity, k: KindId|
                old(dst).contains(e) && old(dst).has_kind(k) ==> #[trigger] final(dst).value(e, k)
                    == old(dst).value(e, k),
    {
        self.move_entity(dst, entity);
    }

    /// Takes `entity` out of this table and appends it to `dst`; each
    /// component goes to the column of its kind in `dst`, or is dropped where
    /// `dst` has none.
    fn move_entity(&mut self, dst: &mut Self, entity: &Entity)
        requires
            old(self).wf(),
            old(dst).wf(),
            old(self).contains(*entity),
            !old(dst).contains(*entity),
        ensures
            final(self).wf(),
            final(self).is_removal(old(self), *entity),
            forall|e: Entity| final(self).contains(e) <==> (old(self).contains(e) && e != *entity),
            forall|e: Entity, k: KindId|
                old(self).contains(e) && e != *entity && old(self).has_kind(k)
                    ==> #[trigger] final(self).value(e, k) == old(self).value(e, k),
            final(dst).is_arrival(old(dst), old(self), *entity),
            final(dst).distinct(),
            kinds_within(old(dst).kinds(), old(self).kinds()) ==> final(dst).wf(),
            forall|e: Entity| final(dst).contains(e) <==> (old(dst).contains(e) || e == *entity),
            final(dst).slot_of(*entity) == old(dst).entities@.len(),
            forall|k: KindId|
                old(self).has_kind(k) && old(dst).has_kind(k) ==> #[trigger] final(dst).value(
                    *entity,
                    k,
                ) == old(self).value(*entity, k),
            forall|e: Entity, k: KindId|
                old(dst).contains(e) && old(dst).has_kind(k) ==> #[trigger] final(dst).value(e, k)
                    == old(dst).value(e, k),
    {
        let position = self.get_entity_position(entity);
        let mut i: usize = 0;
        while i < self.rows.len()
            invariant
                i <= self.rows@.len(),
                old(self).wf(),
                old(dst).wf(),
                position == old(self).slot_of(*entity),
                position < old(self).entities@.len(),
                self.id == old(self).id,
                self.entities@ == old(self).entities@,
                self.rows@.len() == old(self).rows@.len(),
                forall|j: int|
                    0 <= j < self.rows@.len() ==> (#[trigger] self.rows@[j]).kind == old(
                        self,
                    ).rows@[j].kind,
                forall|j: int|
                    0 <= j < i ==> (#[trigger] self.rows@[j]).components@ == swap_removed(
                        old(self).rows@[j].components@,
                        position as int,
                    ),
                forall|j: int|
                    i <= j < self.rows@.len() ==> (#[trigger] self.rows@[j]).components@ == old(
                        self,
                    ).rows@[j].components@,
                dst.id == old(dst).id,
                dst.entities@ == old(dst).entities@,
                dst.rows@.len() == old(dst).rows@.len(),
                forall|j: int|
                    0 <= j < dst.rows@.len() ==> (#[trigger] dst.rows@[j]).kind == old(
                        dst,
                    ).rows@[j].kind,
                forall|j: int|
                    0 <= j < dst.rows@.len() ==> (#[trigger] dst.rows@[j]).components@ == (
                    if old(self).has_kind(old(dst).rows@[j].kind) && old(self).kinds().index_of(
                        old(dst).rows@[j].kind,
                    ) < i {
                        old(dst).rows@[j].components@.push(
                            old(self).value(*entity, old(dst).rows@[j].kind),
                        )
                    } else {
                        old(dst).rows@[j].components@
                    }),
            decreases self.rows@.len() - i,
        {
            let kind = self.rows[i].tid();
            let ghost dst_before = *dst;
            proof {
                assert(old(self).kinds()[i as int] == kind);
                lemma_index_of_unique(old(self).kinds(), i as int);
                assert(dst.kinds() == old(dst).kinds());
            }
            match dst.find_row(kind) {
                Some(j) => {
                    self.rows[i].move_push_entity(&mut dst.rows[j], position);
                    proof {
                        assert forall|m: int| 0 <= m < dst.rows@.len() && m != j implies dst.rows@[m]
                            == dst_before.rows@[m] by {}
                        assert forall|m: int| 0 <= m < dst.rows@.len() && m != j implies old(
                            dst,
                        ).rows@[m].kind != kind by {
                            assert(old(dst).kinds()[m] != old(dst).kinds()[j as int]);
                        }
                    }
                },
                None => {
                    // the destination has no column of this kind: the component is dropped
                    self.rows[i].swap_remove(position);
                    proof {
                        assert forall|m: int| 0 <= m < dst.rows@.len() implies old(
                            dst,
                        ).rows@[m].kind != kind by {
                            assert(old(dst).kinds()[m] == old(dst).rows@[m].kind);
                        }
                    }
                },
            }
            i += 1;
        }
        let _ = self.entities.swap_remove(position);
        dst.entities.push(*entity);
        proof {
            assert(self.kinds() == old(self).kinds());
            assert(dst.kinds() == old(dst).kinds());
            lemma_removal(old(self), final(self), *entity);
            assert forall|j: int| 0 <= j < old(dst).rows@.len() implies (
            #[trigger] final(dst).rows@[j]).components@ == (if old(self).has_kind(
                old(dst).rows@[j].kind,
            ) {
                old(dst).rows@[j].components@.push(
                    old(self).value(*entity, old(dst).rows@[j].kind),
                )
            } else {
                old(dst).rows@[j].components@
            }) by {
                let k = old(dst).rows@[j].kind;
                if old(self).has_kind(k) {
                    let m = old(self).kinds().index_of(k);
                    assert(old(self).kinds()[m] == k);
                }
            }
            lemma_arrival(old(dst), final(dst), old(self), *entity);
        }
    }

    /// Shared access to the column of `kind`, if the table has one.
    pub fn try_get_row_ref(&self, kind: KindId) -> (r: Result<&[V], ()>)
        ensures
            r is Ok == self.has_kind(kind),
            r matches Ok(row) ==> self.kinds().no_duplicates() ==> row@ == self.column(kind),
    {
        match self.find_row(kind) {
            Some(i) => Ok(self.rows[i].get_access_ref()),
            None => Err(()),
        }
    }

    /// Exclusive access to the column of `kind`, if the table has one. What
    /// is written through it is what the column holds afterwards; nothing
    /// else changes.
    pub fn try_get_row_mut(&mut self, kind: KindId) -> (r: Result<&mut [V], ()>)
        requires
            old(self).kinds().no_duplicates(),
        ensures
            r is Ok == old(self).has_kind(kind),
            r matches Ok(row) ==> {
                let i = old(self).kinds().index_of(kind);
                &&& row@ == old(self).column(kind)
                &&& final(self).id == old(self).id
                &&& final(self).entities == old(self).entities
                &&& final(self).rows@.len() == old(self).rows@.len()
                &&& final(self).rows@[i].kind == kind
                &&& final(self).rows@[i].components@ == final(row)@
                &&& forall|j: int|
                    0 <= j < old(self).rows@.len() && j != i ==> final(self).rows@[j] == old(
                        self,
                    ).rows@[j]
            },
            r is Err ==> *final(self) == *old(self),
    {
        match self.find_row(kind) {
            Some(i) => Ok(self.rows[i].get_access_mut()),
            None => Err(()),
        }
    }

    /// Whether the table is homogeneous and names no kind and no entity
    /// twice.
    pub fn validate(&self) -> (r: bool)
        ensures
            r == self.wf(),
    {
        let types = self.types();
        if !all_distinct(types.as_slice()) {
            return false;
        }
        let mut i: usize = 0;
        while i < self.rows.len()
            invariant
                i <= self.rows@.len(),
                forall|j: int|
                    0 <= j < i ==> (#[trigger] self.rows@[j]).components@.len()
                        == self.entities@.len(),
            decreases self.rows@.len() - i,
        {
            if self.rows[i].len() != self.entities.len() {
                return false;
            }
            i += 1;
        }
        let mut a: usize = 0;
        while a < self.entities.len()
            invariant
                a <= self.entities@.len(),
                forall|x: int, y: int|
                    0 <= x < y < self.entities@.len() && x < a ==> self.entities@[x]
                        != self.entities@[y],
            decreases self.entities@.len() - a,
        {
            let mut b: usize = a + 1;
            while b < self.entities.len()
                invariant
                    a < b <= self.entities@.len(),
                    forall|y: int| a < y < b ==> self.entities@[a as int] != self.entities@[y],
                decreases self.entities@.len() - b,
            {
                if self.entities[a] == self.entities[b] {
                    return false;
                }
                b += 1;
            }
            a += 1;
        }
        true
    }

    /// The slot of `entity`, which must be in the table.
    #[inline]
    pub fn get_entity_position(&self, entity: &Entity) -> (r: usize)
        requires
            self.contains(*entity),
        ensures
            r < self.entities@.len(),
            self.entities@[r as int] == *entity,
            self.entities@.no_duplicates() ==> r == self.slot_of(*entity),
    {
        let mut i: usize = 0;
        while i < self.entities.len()
            invariant
                i <= self.entities.len(),
                self.contains(*entity),
                forall|j: int| 0 <= j < i ==> self.entities@[j] != *entity,
            decreases self.entities.len() - i,
        {
            if self.entities[i] == *entity {
                proof {
                    if self.entities@.no_duplicates() {
                        lemma_index_of_unique(self.entities@, i as int);
                    }
                }
                return i;
            }
            i += 1;
        }
        proof {
            let j = self.entities@.index_of(*entity);
            assert(self.entities@[j] == *entity);
        }
        0
    }

    /// The slot of `entity`, if it is in the table.
    pub fn find_entity(&self, entity: &Entity) -> (r: Option<usize>)
        ensures
            r is Some == self.contains(*entity),
            r matches Some(i) ==> i < self.entities@.len() && self.entities@[i as int] == *entity
                && (self.entities@.no_duplicates() ==> i == self.slot_of(*entity)),
    {
        let mut i: usize = 0;
        while i < self.entities.len()
            invariant
                i <= self.entities.len(),
                forall|j: int| 0 <= j < i ==> self.entities@[j] != *entity,
            decreases self.entities.len() - i,
        {
            if self.entities[i] == *entity {
                proof {
                    if self.entities@.no_duplicates() {
                        lemma_index_of_unique(self.entities@, i as int);
                    }
                }
                return Some(i);
            }
            i += 1;
        }
        None
    }
}

/// What taking `entity` out of a table means for the entities that stay.
pub proof fn lemma_removal<V>(pre: &Table<V>, post: &Table<V>, entity: Entity)
    requires
        pre.wf(),
        pre.contains(entity),
        post.is_removal(pre, entity),
    ensures
        post.wf(),
        forall|e: Entity| post.contains(e) <==> (pre.contains(e) && e != entity),
        forall|e: Entity, k: KindId|
            pre.contains(e) && e != entity && pre.has_kind(k) ==> #[trigger] post.value(e, k)
                == pre.value(e, k),
{
    let p = pre.slot_of(entity);
    assert(pre.entities@[p] == entity);
    lemma_swap_removed(pre.entities@, p);
    assert forall|e: Entity, k: KindId|
        pre.contains(e) && e != entity && pre.has_kind(k) implies #[trigger] post.value(e, k)
        == pre.value(e, k) by {
        let i = pre.kinds().index_of(k);
        assert(pre.kinds()[i] == k);
        let j = pre.entities@.index_of(e);
        assert(pre.entities@[j] == e);
        assert(post.entities@.index_of(e) == if e == pre.entities@.last() { p } else { j });
        lemma_index_of_unique(pre.entities@, pre.entities@.len() - 1);
    }
}

/// What the arrival of `entity` from `src` means for a table.
pub proof fn lemma_arrival<V>(pre: &Table<V>, post: &Table<V>, src: &Table<V>, entity: Entity)
    requires
        pre.wf(),
        src.kinds().no_duplicates(),
        !pre.contains(entity),
        post.is_arrival(pre, src, entity),
    ensures
        post.distinct(),
        kinds_within(pre.kinds(), src.kinds()) ==> post.wf(),
        forall|e: Entity| post.contains(e) <==> (pre.contains(e) || e == entity),
        post.slot_of(entity) == pre.entities@.len(),
        forall|k: KindId|
            src.has_kind(k) && pre.has_kind(k) ==> #[trigger] post.value(entity, k) == src.value(
                entity,
                k,
            ),
        forall|e: Entity, k: KindId|
            pre.contains(e) && pre.has_kind(k) ==> #[trigger] post.value(e, k) == pre.value(e, k),
{
    lemma_pushed(pre.entities@, entity);
    if kinds_within(pre.kinds(), src.kinds()) {
        assert forall|i: int| 0 <= i < post.rows@.len() implies (
        #[trigger] post.rows@[i]).components@.len() == post.entities@.len() by {
            assert(pre.kinds()[i] == pre.rows@[i].kind);
            assert(pre.kinds().contains(pre.rows@[i].kind));
        }
    }
    assert forall|k: KindId| src.has_kind(k) && pre.has_kind(k) implies #[trigger] post.value(
        entity,
        k,
    ) == src.value(entity, k) by {
        let i = pre.kinds().index_of(k);
        assert(pre.kinds()[i] == k);
    }
    assert forall|e: Entity, k: KindId|
        pre.contains(e) && pre.has_kind(k) implies #[trigger] post.value(e, k) == pre.value(
        e,
        k,
    ) by {
        let i = pre.kinds().index_of(k);
        assert(pre.kinds()[i] == k);
        let j = pre.entities@.index_of(e);
        assert(pre.entities@[j] == e);
    }
}

/// A table under construction: columns can still be added and removed.
pub struct ExtendableTable<V> {
    pub id: TableId,
    pub rows: Vec<Row<V>>,
    pub entities: Vec<Entity>,
}

impl<V> ExtendableTable<V> {
    /// The kinds of the columns, in the order of the columns.
    pub open spec fn kinds(&self) -> Seq<KindId> {
        kinds_of(self.rows@)
    }

    /// No column holds a component and no entity is listed.
    pub open spec fn empty(&self) -> bool {
        &&& self.entities@.len() == 0
        &&& forall|i: int|
            0 <= i < self.rows@.len() ==> (#[trigger] self.rows@[i]).components@.len() == 0
    }

    /// Whether the id is the one that the kinds of the columns have.
    pub open spec fn check_spec(&self) -> bool {
        &&& 0 < self.rows@.len() <= MAX_KINDS
        &&& self.kinds().no_duplicates()
        &&& self.id == table_id_of(self.kinds())
    }

    /// Adds an empty column for each kind of `kinds` that has none yet.
    pub fn extend_rows(&mut self, kinds: &[KindId])
        requires
            kinds@.no_duplicates(),
        ensures
            final(self).id == old(self).id,
            final(self).entities == old(self).entities,
            final(self).kinds() == old(self).kinds() + kinds_without(kinds@, old(self).kinds()),
            forall|i: int|
                0 <= i < old(self).rows@.len() ==> final(self).rows@[i] == old(self).rows@[i],
            old(self).empty() ==> final(self).empty(),
            old(self).kinds().no_duplicates() ==> final(self).kinds().no_duplicates(),
            forall|k: KindId|
                final(self).kinds().contains(k) <==> (old(self).kinds().contains(k)
                    || kinds@.contains(k)),
    {
        let ghost base = old(self).kinds();
        let ghost keep = |k: KindId| !base.contains(k);
        let mut i: usize = 0;
        while i < kinds.len()
            invariant
                i <= kinds.len(),
                kinds@.no_duplicates(),
                base == old(self).kinds(),
                keep == |k: KindId| !base.contains(k),
                self.id == old(self).id,
                self.entities == old(self).entities,
                self.rows@.len() >= old(self).rows@.len(),
                self.kinds() == base + kinds@.take(i as int).filter(keep),
                forall|j: int|
                    0 <= j < old(self).rows@.len() ==> self.rows@[j] == old(self).rows@[j],
                forall|j: int|
                    old(self).rows@.len() <= j < self.rows@.len() ==> (
                    #[trigger] self.rows@[j]).components@.len() == 0,
                forall|j: int|
                    old(self).rows@.len() <= j < self.rows@.len() ==> kinds@.take(
                        i as int,
                    ).contains(#[trigger] self.kinds()[j]) && !base.contains(self.kinds()[j]),
                forall|j: int|
                    0 <= j < i && !base.contains(kinds@[j]) ==> self.kinds().contains(
                        #[trigger] kinds@[j],
                    ),
                base.no_duplicates() ==> self.kinds().no_duplicates(),
            decreases kinds.len() - i,
        {
            let kind = kinds[i];
            let ghost before = self.kinds();
            proof {
                reveal(Seq::filter);
                assert(kinds@.take(i + 1).drop_last() == kinds@.take(i as int));
                assert(kinds@.take(i + 1).last() == kind);
            }
            if !self.has_row(kind) {
                self.rows.push(Row::new(kind));
                proof {
                    assert(self.kinds() == before.push(kind));
                    assert(!base.contains(kind)) by {
                        if base.contains(kind) {
                            let m = base.index_of(kind);
                            assert(before[m] == kind);
                        }
                    }
                    assert(self.kinds() == base + kinds@.take(i + 1).filter(keep));
                    assert forall|j: int|
                        old(self).rows@.len() <= j < self.rows@.len() implies kinds@.take(
                        i + 1,
                    ).contains(#[trigger] self.kinds()[j]) && !base.contains(self.kinds()[j]) by {
                        if j < before.len() {
                            assert(self.kinds()[j] == before[j]);
                            let m = kinds@.take(i as int).index_of(before[j]);
                            assert(kinds@.take(i + 1)[m] == before[j]);
                        } else {
                            assert(kinds@.take(i + 1)[i as int] == kind);
                        }
                    }
                    assert forall|j: int| 0 <= j <= i && !base.contains(kinds@[j]) implies self.kinds().contains(
                        #[trigger] kinds@[j],
                    ) by {
                        if j < i {
                            let m = before.index_of(kinds@[j]);
                            assert(self.kinds()[m] == kinds@[j]);
                        } else {
                            assert(self.kinds()[before.len() as int] == kind);
                        }
                    }
                    if base.no_duplicates() {
                        assert(before.no_duplicates());
                        assert(!before.contains(kind));
                        lemma_pushed(before, kind);
                    }
                }
            } else {
                proof {
                    assert(kinds@.take(i + 1).filter(keep) == kinds@.take(i as int).filter(keep)) by {
                        if !base.contains(kind) {
                            // the column was added for an earlier occurrence, but kinds are distinct
                            let m = before.index_of(kind);
                            assert(before[m] == kind);
                            assert(m >= base.len()) by {
                                if m < base.len() {
                                    assert(base[m] == kind);
                                }
                            }
                            assert(kinds@.take(i as int).contains(self.kinds()[m]));
                            let q = kinds@.take(i as int).index_of(kind);
                            assert(kinds@[q] == kind);
                        }
                    }
                    assert forall|j: int|
                        old(self).rows@.len() <= j < self.rows@.len() implies kinds@.take(
                        i + 1,
                    ).contains(#[trigger] self.kinds()[j]) && !base.contains(self.kinds()[j]) by {
                        let m = kinds@.take(i as int).index_of(before[j]);
                        assert(kinds@.take(i + 1)[m] == before[j]);
                    }
                    assert forall|j: int| 0 <= j <= i && !base.contains(kinds@[j]) implies self.kinds().contains(
                        #[trigger] kinds@[j],
                    ) by {}
                }
            }
            i += 1;
        }
        proof {
            assert(kinds@.take(i as int) == kinds@);
            assert forall|k: KindId|
                self.kinds().contains(k) <==> (base.contains(k) || kinds@.contains(k)) by {
                if self.kinds().contains(k) {
                    let m = self.kinds().index_of(k);
                    if m < base.len() {
                        assert(base[m] == k);
                    } else {
                        assert(kinds@.contains(self.kinds()[m]));
                    }
                }
                if base.contains(k) {
                    let m = base.index_of(k);
                    assert(self.kinds()[m] == k);
                }
                if kinds@.contains(k) && !base.contains(k) {
                    let m = kinds@.index_of(k);
                    assert(self.kinds().contains(kinds@[m]));
                }
            }
        }
    }

    /// Whether a column of `kind` is there.
    pub fn has_row(&self, kind: KindId) -> (r: bool)
        ensures
            r == self.kinds().contains(kind),
    {
        let mut i: usize = 0;
        while i < self.rows.len()
            invariant
                i <= self.rows.len(),
                forall|j: int| 0 <= j < i ==> self.kinds()[j] != kind,
            decreases self.rows.len() - i,
        {
            if self.rows[i].tid() == kind {
                assert(self.kinds()[i as int] == kind);
                return true;
            }
            i += 1;
        }
        false
    }

    /// Removes the columns whose kind is in `kinds`.
    pub fn remove_rows(&mut self, kinds: &[KindId])
        ensures
            final(self).id == old(self).id,
            final(self).entities == old(self).entities,
            final(self).kinds() == kinds_without(old(self).kinds(), kinds@),
            old(self).empty() ==> final(self).empty(),
            old(self).kinds().no_duplicates() ==> final(self).kinds().no_duplicates(),
            forall|k: KindId|
                final(self).kinds().contains(k) <==> (old(self).kinds().contains(k)
                    && !kinds@.contains(k)),
    {
        let ghost base = old(self).kinds();
        let ghost keep = |k: KindId| !kinds@.contains(k);
        let ghost mut done: int = 0;
        let mut i: usize = 0;
        while i < self.rows.len()
            invariant
                i <= self.rows@.len(),
                base == old(self).kinds(),
                keep == |k: KindId| !kinds@.contains(k),
                0 <= done <= base.len(),
                self.id == old(self).id,
                self.entities == old(self).entities,
                self.rows@.len() - i == base.len() - done,
                self.kinds() == base.take(done).filter(keep) + base.skip(done),
                base.take(done).filter(keep).len() == i,
                forall|j: int|
                    0 <= j < self.rows@.len() ==> old(self).rows@.contains(#[trigger] self.rows@[j]),
            decreases self.rows@.len() - i,
        {
            let kind = self.rows[i].tid();
            proof {
                reveal(Seq::filter);
                assert(self.kinds()[i as int] == kind);
                assert(base.skip(done)[0] == kind);
                assert(base.take(done + 1).drop_last() == base.take(done));
                assert(base.take(done + 1).last() == kind);
            }
            if contains_kind(kinds, kind) {
                let ghost before = self.rows@;
                let ghost kinds_before = self.kinds();
                let _ = self.rows.remove(i);
                proof {
                    let kept = base.take(done).filter(keep);
                    assert(base.take(done + 1).filter(keep) == kept);
                    assert(self.kinds() == kinds_before.remove(i as int));
                    assert(kinds_before.remove(i as int) == kept + base.skip(done + 1));
                    assert forall|j: int| 0 <= j < self.rows@.len() implies old(
                        self,
                    ).rows@.contains(#[trigger] self.rows@[j]) by {
                        assert(self.rows@[j] == before[if j < i { j } else { j + 1 }]);
                    }
                }
            } else {
                proof {
                    let kept = base.take(done).filter(keep);
                    assert(base.take(done + 1).filter(keep) == kept.push(kind));
                    assert(base.skip(done) == seq![kind] + base.skip(done + 1));
                    assert(kept + (seq![kind] + base.skip(done + 1)) == kept.push(kind) + base.skip(
                        done + 1,
                    ));
                }
                i += 1;
            }
            proof {
                done = done + 1;
            }
        }
        proof {
            assert(base.take(done) == base);
            assert(self.kinds() == base.filter(keep));
            if old(self).empty() {
                assert forall|j: int| 0 <= j < self.rows@.len() implies (
                #[trigger] self.rows@[j]).components@.len() == 0 by {
                    let m = old(self).rows@.index_of(self.rows@[j]);
                    assert(old(self).rows@[m] == self.rows@[j]);
                }
            }
            crate::kind::lemma_filter_contains(base, keep);
            if base.no_duplicates() {
                crate::kind::lemma_filter_distinct(base, keep);
            }
        }
    }

    /// Whether the builder can be finished into a table of its id: it has a
    /// column, no kind twice, no more kinds than an id can count, and the id
    /// is the one that its kinds have.
    pub fn check(&self) -> (r: bool)
        ensures
            r == self.check_spec(),
    {
        if self.rows.len() == 0 || self.rows.len() > MAX_KINDS {
            return false;
        }
        let mut types: Vec<KindId> = Vec::new();
        let mut i: usize = 0;
        while i < self.rows.len()
            invariant
                i <= self.rows.len(),
                types@.len() == i,
                forall|j: int| 0 <= j < i ==> types@[j] == self.rows@[j].kind,
            decreases self.rows.len() - i,
        {
            types.push(self.rows[i].tid());
            i += 1;
        }
        assert(types@ == self.kinds());
        if !all_distinct(types.as_slice()) {
            return false;
        }
        self.id == TableId::from_uniques(types.as_slice())
    }

    /// Turns the builder into a table.
    pub fn finish(self) -> (r: Table<V>)
        ensures
            r.id == self.id,
            r.rows == self.rows,
            r.entities == self.entities,
            r.kinds() == self.kinds(),
            self.empty() && self.kinds().no_duplicates() ==> r.wf(),
    {
        Table { id: self.id, rows: self.rows, entities: self.entities }
    }
}

} // verus!
