//! Sets of components, and how their values enter the columns of a table.

use vstd::prelude::*;

use crate::entity::Entity;
use crate::kind::{all_distinct, kinds_within, same_kinds, KindId};
use crate::row::Row;
use crate::seqs::{lemma_index_of_unique, upserted};
use crate::table::{ExtendableTable, Table};
use crate::table_id::{table_id_of, TableId, MAX_KINDS};

verus! {

/// One component: a value and the kind it is of.
#[derive(Debug)]
pub struct Component<V> {
    pub kind: KindId,
    pub value: V,
}

/// The kinds of `items`, in their order.
pub open spec fn component_kinds<V>(items: Seq<Component<V>>) -> Seq<KindId> {
    Seq::new(items.len(), |i: int| items[i].kind)
}

/// How a component enters a column.
#[derive(Debug, Clone, Copy, PartialEq, Eq, Structural)]
pub enum Apply {
    /// Appended as a new slot.
    Push,
    /// Written over the component of an existing slot.
    Update,
    /// Written over the component of the slot, or appended where the column
    /// ends just before the slot.
    Upsert,
}

/// The column `s` after `v` entered it for slot `p`.
pub open spec fn applied<V>(how: Apply, s: Seq<V>, p: int, v: V) -> Seq<V> {
    match how {
        Apply::Push => s.push(v),
        Apply::Update => s.update(p, v),
        Apply::Upsert => upserted(s, p, v),
    }
}

/// Whether a component can enter a column of `len` slots for slot `p`.
pub open spec fn applicable(how: Apply, len: nat, p: int) -> bool {
    match how {
        Apply::Push => true,
        Apply::Update => 0 <= p < len,
        Apply::Upsert => 0 <= p <= len,
    }
}

/// Components that are attached to an entity together.
#[derive(Debug)]
pub struct ComponentSet<V> {
    pub items: Vec<Component<V>>,
}

impl<V> ComponentSet<V> {
    /// The kinds of the components, in their order.
    pub open spec fn kinds(&self) -> Seq<KindId> {
        component_kinds(self.items@)
    }

    /// Whether the set holds a component of `kind`.
    pub open spec fn has(&self, kind: KindId) -> bool {
        self.kinds().contains(kind)
    }

    /// The component of `kind`.
    pub open spec fn value_of(&self, kind: KindId) -> V {
        self.items@[self.kinds().index_of(kind)].value
    }

    /// The set is not empty, holds no kind twice and no more kinds than a
    /// table id can count.
    pub open spec fn wf(&self) -> bool {
        &&& 0 < self.items@.len() <= MAX_KINDS
        &&& self.kinds().no_duplicates()
    }

    /// A set without components.
    pub fn new() -> (r: Self)
        ensures
            r.items@ == Seq::<Component<V>>::empty(),
    {
        Self { items: Vec::new() }
    }

    /// The set with one more component, `value` of `kind`.
    pub fn with(self, kind: KindId, value: V) -> (r: Self)
        ensures
            r.items@ == self.items@.push(Component { kind, value }),
            r.kinds() == self.kinds().push(kind),
    {
        let mut items = self.items;
        items.push(Component { kind, value });
        let r = Self { items };
        assert(r.kinds() == self.kinds().push(kind));
        r
    }

    /// Whether the set is one that can be attached: not empty, no kind
    /// twice, at most `MAX_KINDS` kinds.
    pub fn validate(&self) -> (r: bool)
        ensures
            r == self.wf(),
    {
        if self.items.len() == 0 || self.items.len() > MAX_KINDS {
            return false;
        }
        let types = self.types();
        all_distinct(types.as_slice())
    }

    /// The kinds of the components, in their order.
    pub fn types(&self) -> (r: Vec<KindId>)
        ensures
            r@ == self.kinds(),
    {
        let mut out: Vec<KindId> = Vec::new();
        let mut i: usize = 0;
        while i < self.items.len()
            invariant
                i <= self.items.len(),
                out@.len() == i,
                forall|j: int| 0 <= j < i ==> out@[j] == self.items@[j].kind,
            decreases self.items.len() - i,
        {
            out.push(self.items[i].kind);
            i += 1;
        }
        assert(out@ == self.kinds());
        out
    }

    /// Whether the set holds a component of `kind`.
    pub fn contains_type(&self, kind: KindId) -> (r: bool)
        ensures
            r == self.has(kind),
    {
        let mut i: usize = 0;
        while i < self.items.len()
            invariant
                i <= self.items.len(),
                forall|j: int| 0 <= j < i ==> self.kinds()[j] != kind,
            decreases self.items.len() - i,
        {
            if self.items[i].kind == kind {
                assert(self.kinds()[i as int] == kind);
                return true;
            }
            i += 1;
        }
        false
    }

    /// The id of the archetype made of exactly the set's kinds.
    pub fn table_id(&self) -> (r: TableId)
        requires
            self.wf(),
        ensures
            r == table_id_of(self.kinds()),
            !r.invalid_spec(),
    {
        let types = self.types();
        TableId::from_uniques(types.as_slice())
    }

    /// Whether every component of the set can enter its column of `table`
    /// for slot `p`.
    pub open spec fn fits(&self, table: &Table<V>, how: Apply, p: int) -> bool {
        &&& self.kinds().no_duplicates()
        &&& table.kinds().no_duplicates()
        &&& kinds_within(self.kinds(), table.kinds())
        &&& forall|i: int|
            0 <= i < table.rows@.len() && self.has((#[trigger] table.rows@[i]).kind) ==> applicable(
                how,
                table.rows@[i].components@.len(),
                p,
            )
    }

    /// `post` is `pre` after every component of the set entered its column
    /// for slot `p`; the other columns, the entities and the id are as they
    /// were.
    pub open spec fn entered(&self, pre: &Table<V>, post: &Table<V>, how: Apply, p: int) -> bool {
        &&& post.id == pre.id
        &&& post.entities@ == pre.entities@
        &&& post.rows@.len() == pre.rows@.len()
        &&& post.kinds() == pre.kinds()
        &&& forall|i: int|
            0 <= i < pre.rows@.len() ==> (#[trigger] post.rows@[i]).components@ == (if self.has(
                pre.rows@[i].kind,
            ) {
                applied(how, pre.rows@[i].components@, p, self.value_of(pre.rows@[i].kind))
            } else {
                pre.rows@[i].components@
            })
    }

    /// Moves every component of the set into its column of `table`.
    fn apply_rows(self, table: &mut Table<V>, position: usize, how: Apply)
        requires
            self.fits(old(table), how, position as int),
        ensures
            self.entered(old(table), final(table), how, position as int),
    {
        let ghost all = self.items@;
        let ghost kinds = self.kinds();
        let mut items = self.items;
        while items.len() > 0
            invariant
                all == self.items@,
                kinds == self.kinds(),
                self.fits(old(table), how, position as int),
                items@ == all.take(items@.len() as int),
                items@.len() <= all.len(),
                table.id == old(table).id,
                table.entities@ == old(table).entities@,
                table.rows@.len() == old(table).rows@.len(),
                forall|i: int|
                    0 <= i < table.rows@.len() ==> (#[trigger] table.rows@[i]).kind == old(
                        table,
                    ).rows@[i].kind,
                forall|i: int|
                    0 <= i < table.rows@.len() ==> (#[trigger] table.rows@[i]).components@ == (
                    if kinds.contains(old(table).rows@[i].kind) && kinds.index_of(
                        old(table).rows@[i].kind,
                    ) >= items@.len() {
                        applied(
                            how,
                            old(table).rows@[i].components@,
                            position as int,
                            self.value_of(old(table).rows@[i].kind),
                        )
                    } else {
                        old(table).rows@[i].components@
                    }),
            decreases items@.len(),
        {
            let ghost n = items@.len() - 1;
            let ghost before = *table;
            let c = items.pop().unwrap();
            let Component { kind, value } = c;
            proof {
                assert(all[n] == c);
                assert(kinds[n] == kind);
                lemma_index_of_unique(kinds, n);
                assert(old(table).kinds().contains(kind));
                assert(table.kinds() == old(table).kinds());
            }
            let found = table.find_row(kind);
            let i = found.unwrap();
            assert(old(table).rows@[i as int].kind == kind);
            match how {
                Apply::Push => table.rows[i].push(value),
                Apply::Update => table.rows[i].update(position, value),
                Apply::Upsert => table.rows[i].push_or_update(position, value),
            }
            proof {
                assert forall|j: int| 0 <= j < table.rows@.len() implies (
                #[trigger] table.rows@[j]).components@ == (if kinds.contains(
                    old(table).rows@[j].kind,
                ) && kinds.index_of(old(table).rows@[j].kind) >= n {
                    applied(
                        how,
                        old(table).rows@[j].components@,
                        position as int,
                        self.value_of(old(table).rows@[j].kind),
                    )
                } else {
                    old(table).rows@[j].components@
                }) by {
                    if j != i {
                        assert(table.rows@[j] == before.rows@[j]);
                        assert(old(table).kinds()[j] != old(table).kinds()[i as int]);
                    }
                }
                assert(items@ == all.take(n));
            }
        }
        proof {
            assert(table.kinds() == old(table).kinds());
            assert forall|i: int| 0 <= i < table.rows@.len() && self.has(
                old(table).rows@[i].kind,
            ) implies kinds.index_of(old(table).rows@[i].kind) >= 0 by {}
        }
    }

    /// Appends `entity` to `table` and every component of the set to its
    /// column.
    pub fn push_to_table(self, table: &mut Table<V>, entity: Entity)
        requires
            self.fits(old(table), Apply::Push, 0),
        ensures
            final(table).id == old(table).id,
            final(table).entities@ == old(table).entities@.push(entity),
            final(table).rows@.len() == old(table).rows@.len(),
            final(table).kinds() == old(table).kinds(),
            forall|i: int|
                0 <= i < old(table).rows@.len() ==> (#[trigger] final(table).rows@[i]).components@
                    == (if self.has(old(table).rows@[i].kind) {
                    old(table).rows@[i].components@.push(self.value_of(old(table).rows@[i].kind))
                } else {
                    old(table).rows@[i].components@
                }),
    {
        self.apply_rows(table, 0, Apply::Push);
        table.entities.push(entity);
        assert(final(table).kinds() == old(table).kinds());
    }

    /// Writes every component of the set over the one that its column holds
    /// at `position`.
    pub fn update_rows(self, table: &mut Table<V>, position: usize)
        requires
            self.fits(old(table), Apply::Update, position as int),
        ensures
            self.entered(old(table), final(table), Apply::Update, position as int),
    {
        self.apply_rows(table, position, Apply::Update);
    }

    /// Writes every component of the set into its column at `position`, or
    /// appends it where the column ends just before `position`.
    pub fn push_or_update(self, table: &mut Table<V>, position: usize)
        requires
            self.fits(old(table), Apply::Upsert, position as int),
        ensures
            self.entered(old(table), final(table), Apply::Upsert, position as int),
    {
        self.apply_rows(table, position, Apply::Upsert);
    }

    /// The number of columns that a table of exactly the set's kinds has.
    pub fn row_count(&self) -> (r: usize)
        ensures
            r == self.items@.len(),
    {
        self.items.len()
    }

    /// One empty column for each kind of the set, in the set's order.
    pub fn rows(&self) -> (r: Vec<Row<V>>)
        ensures
            crate::table::kinds_of(r@) == self.kinds(),
            forall|i: int| 0 <= i < r@.len() ==> (#[trigger] r@[i]).components@.len() == 0,
    {
        let mut rows: Vec<Row<V>> = Vec::new();
        let mut i: usize = 0;
        while i < self.items.len()
            invariant
                i <= self.items.len(),
                rows@.len() == i,
                forall|j: int| 0 <= j < i ==> rows@[j].kind == self.items@[j].kind,
                forall|j: int| 0 <= j < i ==> (#[trigger] rows@[j]).components@.len() == 0,
            decreases self.items.len() - i,
        {
            rows.push(Row::new(self.items[i].kind));
            i += 1;
        }
        assert(crate::table::kinds_of(rows@) == self.kinds());
        rows
    }
}

/// Describes a set of components that travels apart from its description,
/// as in a queue of deferred commands: the kinds of the components, in
/// their order.
#[derive(Debug)]
pub struct ComponentAddModifier {
    pub kinds: Vec<KindId>,
}

impl ComponentAddModifier {
    /// The description of components of `kinds`.
    #[inline]
    pub fn new(kinds: Vec<KindId>) -> (r: Self)
        ensures
            r.kinds@ == kinds@,
    {
        Self { kinds }
    }

    /// Whether this is the description of `components`.
    pub open spec fn describes<V>(&self, components: &ComponentSet<V>) -> bool {
        self.kinds@ == components.kinds()
    }

    /// Whether this is the description of `components`.
    pub fn matches<V>(&self, components: &ComponentSet<V>) -> (r: bool)
        ensures
            r == self.describes(components),
    {
        if self.kinds.len() != components.items.len() {
            return false;
        }
        let mut i: usize = 0;
        while i < self.kinds.len()
            invariant
                i <= self.kinds@.len(),
                self.kinds@.len() == components.items@.len(),
                forall|j: int| 0 <= j < i ==> self.kinds@[j] == components.kinds()[j],
            decreases self.kinds@.len() - i,
        {
            if self.kinds[i] != components.items[i].kind {
                assert(components.kinds()[i as int] != self.kinds@[i as int]);
                return false;
            }
            i += 1;
        }
        assert(self.kinds@ == components.kinds());
        true
    }

    /// The id of the archetype made of exactly the described kinds.
    pub fn table_id(&self) -> (r: TableId)
        requires
            self.kinds@.no_duplicates(),
            0 < self.kinds@.len() <= MAX_KINDS,
        ensures
            r == table_id_of(self.kinds@),
    {
        TableId::from_uniques(self.kinds.as_slice())
    }

    /// An empty table of exactly the described kinds.
    pub fn table_new<V>(&self) -> (r: Table<V>)
        requires
            self.kinds@.no_duplicates(),
            0 < self.kinds@.len() <= MAX_KINDS,
        ensures
            r.kinds() == self.kinds@,
            r.entities@.len() == 0,
            r.id == table_id_of(self.kinds@),
            r.wf(),
    {
        Table::new(self.kinds.as_slice())
    }

    /// `Table::push` of the described components.
    pub fn ptf_push<V>(&self, table: &mut Table<V>, entity: Entity, components: ComponentSet<V>)
        requires
            self.describes(&components),
            old(table).wf(),
            !old(table).contains(entity),
            self.kinds@.no_duplicates(),
            same_kinds(self.kinds@, old(table).kinds()),
        ensures
            final(table).wf(),
            final(table).id == old(table).id,
            final(table).kinds() == old(table).kinds(),
            final(table).entities@ == old(table).entities@.push(entity),
            forall|k: KindId|
                old(table).has_kind(k) ==> #[trigger] final(table).value(entity, k)
                    == components.value_of(k),
            forall|e: Entity, k: KindId|
                old(table).contains(e) && old(table).has_kind(k) ==> #[trigger] final(table).value(
                    e,
                    k,
                ) == old(table).value(e, k),
    {
        table.push(entity, components);
    }

    /// `Table::update` with the described components.
    pub fn ptf_update<V>(&self, table: &mut Table<V>, entity: &Entity, components: ComponentSet<V>)
        requires
            self.describes(&components),
            old(table).wf(),
            old(table).contains(*entity),
            self.kinds@.no_duplicates(),
            same_kinds(self.kinds@, old(table).kinds()),
        ensures
            final(table).wf(),
            components.entered(
                old(table),
                final(table),
                Apply::Update,
                old(table).slot_of(*entity),
            ),
    {
        table.update(entity, components);
    }

    /// `Table::update_partial` with the described components.
    pub fn ptf_update_partial<V>(
        &self,
        table: &mut Table<V>,
        entity: &Entity,
        components: ComponentSet<V>,
    )
        requires
            self.describes(&components),
            old(table).wf(),
            old(table).contains(*entity),
            self.kinds@.no_duplicates(),
            kinds_within(self.kinds@, old(table).kinds()),
        ensures
            final(table).wf(),
            components.entered(
                old(table),
                final(table),
                Apply::Update,
                old(table).slot_of(*entity),
            ),
    {
        table.update_partial(entity, components);
    }

    /// `ExtendableTable::extend_rows` with the described kinds.
    pub fn ptf_extend_rows<V>(&self, table: &mut ExtendableTable<V>)
        requires
            self.kinds@.no_duplicates(),
        ensures
            final(table).id == old(table).id,
            final(table).kinds() == old(table).kinds() + crate::kind::kinds_without(
                self.kinds@,
                old(table).kinds(),
            ),
            old(table).empty() ==> final(table).empty(),
    {
        table.extend_rows(self.kinds.as_slice());
    }

    /// `Table::push_missing_or_update` with the described components.
    pub fn ptf_push_missing_or_update<V>(
        &self,
        table: &mut Table<V>,
        entity: &Entity,
        components: ComponentSet<V>,
    )
        requires
            self.describes(&components),
            old(table).accepts_upsert(*entity, &components),
        ensures
            final(table).wf(),
            components.entered(
                old(table),
                final(table),
                Apply::Upsert,
                old(table).slot_of(*entity),
            ),
    {
        table.push_missing_or_update(entity, components);
    }
}

/// Names the kinds that a deferred command removes from an entity.
#[derive(Debug)]
pub struct ComponentRemoveModifier {
    pub kinds: Vec<KindId>,
}

impl ComponentRemoveModifier {
    /// The description of a removal of `kinds`.
    #[inline]
    pub fn new(kinds: Vec<KindId>) -> (r: Self)
        ensures
            r.kinds@ == kinds@,
    {
        Self { kinds }
    }

    /// Whether `kind` is among the kinds to remove.
    pub fn ptf_contanins_type(&self, kind: KindId) -> (r: bool)
        ensures
            r == self.kinds@.contains(kind),
    {
        crate::kind::contains_kind(self.kinds.as_slice(), kind)
    }

    /// `ExtendableTable::remove_rows` with the kinds to remove.
    pub fn ptf_remove_rows<V>(&self, table: &mut ExtendableTable<V>)
        ensures
            final(table).id == old(table).id,
            final(table).kinds() == crate::kind::kinds_without(old(table).kinds(), self.kinds@),
            old(table).empty() ==> final(table).empty(),
    {
        table.remove_rows(self.kinds.as_slice());
    }
}

} // verus!
