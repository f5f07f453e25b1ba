//! The archetype set: all tables, and the directory that says which table
//! holds which entity.

use vstd::prelude::*;

use crate::components::{ComponentAddModifier, ComponentRemoveModifier, ComponentSet};
use crate::entity::{Entity, Generation};
use crate::kind::{
    difference_kinds, kinds_within, kinds_without, same_kinds, union_kinds, KindId,
};
use crate::seqs::swap_removed;
use crate::spawner::EntitySpawner;
use crate::table::Table;
use crate::table_id::{table_id_of, TableId, MAX_KINDS};

verus! {

/// The smallest power of two, starting from `p`, that is at least `need`.
pub open spec fn pow2_from(p: nat, need: nat) -> nat
    decreases (if need >= p { need - p } else { 0 }),
{
    if p == 0 || p >= need {
        p
    } else {
        pow2_from(2 * p, need)
    }
}

/// The length to which a directory grows so that it has `need` slots: the
/// next power of two, or `need` itself where that power is more than a
/// `usize` holds.
pub open spec fn grown_len(need: nat) -> nat {
    if pow2_from(1, need) <= usize::MAX {
        pow2_from(1, need)
    } else {
        need
    }
}

/// Computes `grown_len`.
pub fn next_power_of_two(need: usize) -> (r: usize)
    ensures
        r == grown_len(need as nat),
        r >= need,
        r >= 1,
{
    let mut p: usize = 1;
    while p < need
        invariant
            p >= 1,
            pow2_from(p as nat, need as nat) == pow2_from(1, need as nat),
        decreases (if need >= p { need - p } else { 0 }),
    {
        if p > usize::MAX / 2 {
            proof {
                lemma_pow2_from_grows(2 * p as nat, need as nat);
            }
            return need;
        }
        p = p * 2;
    }
    if need == 0 {
        assert(pow2_from(1, 0) == 1);
    }
    p
}

/// `pow2_from` never yields less than it starts from.
proof fn lemma_pow2_from_grows(p: nat, need: nat)
    ensures
        pow2_from(p, need) >= p,
    decreases (if need >= p { need - p } else { 0 }),
{
    if p == 0 || p >= need {
    } else {
        lemma_pow2_from_grows(2 * p, need);
    }
}

/// The position that stands for the directory index `index`.
fn position_of(index: usize) -> (r: u32)
    requires
        index <= 0xFFFF_FFFF,
    ensures
        r == index,
{
    index as u32
}

/// All tables and the directory of entities. Slot `i` of the directory holds
/// the generation that is current for position `i` and the id of the table
/// that holds the entity, if any.
pub struct EntityComponents<V> {
    pub tables: Vec<Table<V>>,
    pub entities: Vec<(Generation, TableId)>,
    pub spawner: EntitySpawner,
}

impl<V> EntityComponents<V> {
    /// `entity` is the current holder of its position.
    pub open spec fn live(&self, entity: Entity) -> bool {
        &&& entity.index() < self.entities@.len()
        &&& self.entities@[entity.index()].0 == entity.generation
        &&& !entity.generation.invalid_spec()
    }

    /// The id of the table that the directory names for the position of
    /// `entity`.
    pub open spec fn table_id(&self, entity: Entity) -> TableId {
        self.entities@[entity.index()].1
    }

    /// `entity` is the current holder of its position and has components.
    pub open spec fn placed(&self, entity: Entity) -> bool {
        &&& entity.index() < self.entities@.len()
        &&& self.entities@[entity.index()].0 == entity.generation
        &&& !self.table_id(entity).invalid_spec()
    }

    /// Whether a table with id `id` exists.
    pub open spec fn has_table(&self, id: TableId) -> bool {
        exists|t: int| 0 <= t < self.tables@.len() && (#[trigger] self.tables@[t]).id == id
    }

    /// The index of a table with id `id`.
    pub open spec fn table_at(&self, id: TableId) -> int {
        choose|t: int| 0 <= t < self.tables@.len() && (#[trigger] self.tables@[t]).id == id
    }

    /// The table with id `id`.
    pub open spec fn table(&self, id: TableId) -> Table<V> {
        self.tables@[self.table_at(id)]
    }

    /// The archetype of `entity`: the kinds of the components it carries.
    pub open spec fn kinds_of(&self, entity: Entity) -> Seq<KindId> {
        if self.table_id(entity).invalid_spec() {
            Seq::empty()
        } else {
            self.table(self.table_id(entity)).kinds()
        }
    }

    /// The component of `kind` that `entity` carries.
    pub open spec fn component(&self, entity: Entity, kind: KindId) -> V {
        self.table(self.table_id(entity)).value(entity, kind)
    }

    /// Every table is homogeneous and has an id of its own.
    pub open spec fn tables_wf(&self) -> bool {
        &&& forall|t: int|
            0 <= t < self.tables@.len() ==> (#[trigger] self.tables@[t]).wf()
                && !self.tables@[t].id.invalid_spec()
        &&& forall|t: int, u: int|
            0 <= t < self.tables@.len() && 0 <= u < self.tables@.len() && t != u ==> (
            #[trigger] self.tables@[t]).id != (#[trigger] self.tables@[u]).id
    }

    /// Directory consistency: an entity that the directory places in a table
    /// is in that table, and an entity that is in a table is placed there by
    /// the directory. With the tables' own invariant it is there exactly
    /// once.
    pub open spec fn directory_wf(&self) -> bool {
        &&& forall|i: int|
            0 <= i < self.entities@.len() && !(#[trigger] self.entities@[i]).1.invalid_spec()
                ==> !self.entities@[i].0.invalid_spec()
        &&& forall|e: Entity| #[trigger]
            self.placed(e) ==> self.has_table(self.table_id(e)) && self.table(
                self.table_id(e),
            ).contains(e)
        &&& forall|t: int, e: Entity|
            0 <= t < self.tables@.len() && #[trigger] self.tables@[t].contains(e) ==> self.placed(
                e,
            ) && self.table_id(e) == self.tables@[t].id
    }

    /// The invariant of the archetype set.
    pub open spec fn wf(&self) -> bool {
        &&& self.tables_wf()
        &&& self.directory_wf()
    }

    /// Every table has the id that its kinds have.
    pub open spec fn canonical(&self) -> bool {
        forall|t: int|
            0 <= t < self.tables@.len() ==> (#[trigger] self.tables@[t]).canonical()
                && 0 < self.tables@[t].rows@.len() <= MAX_KINDS
    }

    /// What the set says of every entity but `entity` is what `pre` said.
    pub open spec fn others_kept(&self, pre: &Self, entity: Entity) -> bool {
        forall|e: Entity|
            e != entity ==> {
                &&& #[trigger] self.live(e) == pre.live(e)
                &&& pre.live(e) ==> self.table_id(e) == pre.table_id(e)
                &&& pre.live(e) ==> self.kinds_of(e) == pre.kinds_of(e)
                &&& forall|k: KindId|
                    pre.live(e) && pre.kinds_of(e).contains(k) ==> #[trigger] self.component(e, k)
                        == pre.component(e, k)
            }
    }

    /// A set without tables and entities.
    pub fn new() -> (r: Self)
        ensures
            r.tables@.len() == 0,
            r.entities@.len() == 0,
            r.wf(),
            r.canonical(),
    {
        Self { tables: Vec::new(), entities: Vec::new(), spawner: EntitySpawner::new() }
    }

    /// A handle to the allocator that reserves entities for this set.
    #[inline]
    pub fn spawner(&self) -> (r: EntitySpawner)
        ensures
            r == self.spawner,
    {
        self.spawner.clone()
    }

    /// Reserves an entity and activates it. The allocator is shared, so
    /// which entity comes back is not determined here; its generation is
    /// valid, and it is live afterwards unless its slot was in use.
    pub fn spawn_entity(&mut self) -> (entity: Entity)
        requires
            old(self).wf(),
        ensures
            final(self).wf(),
            old(self).canonical() ==> final(self).canonical(),
            !entity.generation.invalid_spec(),
            final(self).is_activation_of(old(self), entity),
    {
        let entity = self.spawner.reserve();
        self.activate_entity(entity);
        entity
    }

    /// The index of the first table with id `id`.
    pub fn find_table(&self, id: TableId) -> (r: Option<usize>)
        ensures
            r is Some == self.has_table(id),
            r matches Some(t) ==> t < self.tables@.len() && self.tables@[t as int].id == id,
            r matches Some(t) ==> self.tables_wf() ==> t == self.table_at(id),
    {
        let mut i: usize = 0;
        while i < self.tables.len()
            invariant
                i <= self.tables.len(),
                forall|j: int| 0 <= j < i ==> (#[trigger] self.tables@[j]).id != id,
            decreases self.tables.len() - i,
        {
            if self.tables[i].id() == id {
                return Some(i);
            }
            i += 1;
        }
        None
    }

    /// Whether the invariant of the archetype set holds.
    pub fn validate(&self) -> (r: bool)
        ensures
            r == self.wf(),
    {
        let mut t: usize = 0;
        while t < self.tables.len()
            invariant
                t <= self.tables@.len(),
                forall|u: int|
                    0 <= u < t ==> (#[trigger] self.tables@[u]).wf()
                        && !self.tables@[u].id.invalid_spec(),
                forall|u: int, v: int|
                    0 <= u < t && 0 <= v < t && u != v ==> (#[trigger] self.tables@[u]).id != (
                    #[trigger] self.tables@[v]).id,
                forall|u: int, e: Entity|
                    0 <= u < t && #[trigger] self.tables@[u].contains(e) ==> self.placed(e)
                        && self.table_id(e) == self.tables@[u].id,
            decreases self.tables@.len() - t,
        {
            let table = &self.tables[t];
            if !table.validate() || table.id().is_invalid() {
                return false;
            }
            let mut u: usize = 0;
            while u < t
                invariant
                    u <= t < self.tables@.len(),
                    *table == self.tables@[t as int],
                    forall|v: int| 0 <= v < u ==> (#[trigger] self.tables@[v]).id != table.id,
                decreases t - u,
            {
                if self.tables[u].id() == table.id() {
                    return false;
                }
                u += 1;
            }
            let mut k: usize = 0;
            while k < table.len()
                invariant
                    k <= table.entities@.len(),
                    t < self.tables@.len(),
                    *table == self.tables@[t as int],
                    !table.id.invalid_spec(),
                    forall|m: int|
                        0 <= m < k ==> self.placed(#[trigger] table.entities@[m]) && self.table_id(
                            table.entities@[m],
                        ) == table.id,
                decreases table.entities@.len() - k,
            {
                let e = table.entities[k];
                let id = e.id();
                if id >= self.entities.len() || self.entities[id].0 != e.generation()
                    || self.entities[id].1 != table.id() {
                    assert(table.contains(e));
                    return false;
                }
                k += 1;
            }
            proof {
                assert forall|e: Entity| #[trigger]
                    self.tables@[t as int].contains(e) implies self.placed(e) && self.table_id(e)
                    == self.tables@[t as int].id by {
                    let m = table.entities@.index_of(e);
                    assert(table.entities@[m] == e);
                }
            }
            t += 1;
        }
        assert(self.tables_wf());
        let mut i: usize = 0;
        while i < self.entities.len()
            invariant
                i <= self.entities@.len(),
                self.tables_wf(),
                forall|j: int|
                    0 <= j < i && !(#[trigger] self.entities@[j]).1.invalid_spec()
                        ==> !self.entities@[j].0.invalid_spec(),
                forall|e: Entity|
                    e.index() < i && #[trigger] self.placed(e) ==> self.has_table(self.table_id(e))
                        && self.table(self.table_id(e)).contains(e),
            decreases self.entities@.len() - i,
        {
            let generation = self.entities[i].0;
            let id = self.entities[i].1;
            if !id.is_invalid() {
                if generation.is_invalid() {
                    return false;
                }
                if i <= 0xFFFF_FFFF {
                    let e = Entity::new(position_of(i), generation);
                    assert(self.placed(e));
                    match self.find_table(id) {
                        None => {
                            return false;
                        },
                        Some(t) => {
                            proof {
                                self.lemma_table_at(t as int);
                            }
                            if self.tables[t].find_entity(&e).is_none() {
                                return false;
                            }
                        },
                    }
                }
            }
            proof {
                assert forall|e: Entity| e.index() <= i && #[trigger] self.placed(e) implies self.has_table(
                    self.table_id(e),
                ) && self.table(self.table_id(e)).contains(e) by {
                    if e.index() == i {
                        assert(e == Entity { generation, position: e.position });
                    }
                }
            }
            i += 1;
        }
        true
    }

    /// Under the invariant a table is found by its id.
    pub proof fn lemma_table_at(&self, t: int)
        requires
            self.tables_wf(),
            0 <= t < self.tables@.len(),
        ensures
            self.has_table(self.tables@[t].id),
            self.table_at(self.tables@[t].id) == t,
            self.table(self.tables@[t].id) == self.tables@[t],
    {
    }

    /// Whether activating `entity` takes effect: its generation is valid,
    /// its position can be a directory index, and the slot is not in use.
    pub open spec fn activates(&self, entity: Entity) -> bool {
        &&& !entity.generation.invalid_spec()
        &&& entity.index() < usize::MAX
        &&& entity.index() < self.entities@.len() ==> self.entities@[entity.index()].0.invalid_spec(
        ) && self.entities@[entity.index()].1.invalid_spec()
    }

    /// `self` is `pre` after `entity` was activated: the tables are the
    /// same; if the activation takes effect, the directory has grown to hold
    /// the entity's position, new slots are not in use, and the entity's slot
    /// holds its generation and no table.
    pub open spec fn is_activation_of(&self, pre: &Self, entity: Entity) -> bool {
        &&& self.tables@ == pre.tables@
        &&& if pre.activates(entity) {
            &&& self.live(entity)
            &&& self.entities@[entity.index()] == (entity.generation, TableId(0, 0))
            &&& self.entities@.len() == (if entity.index() < pre.entities@.len() {
                pre.entities@.len()
            } else {
                grown_len((entity.index() + 1) as nat)
            })
            &&& forall|i: int|
                0 <= i < pre.entities@.len() && i != entity.index() ==> self.entities@[i]
                    == pre.entities@[i]
            &&& forall|i: int|
                pre.entities@.len() <= i < self.entities@.len() && i != entity.index()
                    ==> self.entities@[i] == (Generation(crate::entity::INVALID), TableId(0, 0))
        } else {
            self.entities@ == pre.entities@
        }
    }

    /// Activates a reserved `entity`: writes its generation into the
    /// directory, which grows as needed. Nothing happens where `activates`
    /// does not hold.
    pub fn activate_entity(&mut self, entity: Entity)
        requires
            old(self).wf(),
        ensures
            final(self).wf(),
            old(self).canonical() ==> final(self).canonical(),
            final(self).is_activation_of(old(self), entity),
    {
        if entity.generation().is_invalid() {
            return;
        }
        let id = entity.id();
        if id == usize::MAX {
            return;
        }
        if id < self.entities.len() {
            if !self.entities[id].0.is_invalid() || !self.entities[id].1.is_invalid() {
                return;
            }
        } else {
            let target = next_power_of_two(id + 1);
            while self.entities.len() < target
                invariant
                    old(self).entities@.len() <= self.entities@.len() <= target,
                    self.tables@ == old(self).tables@,
                    forall|i: int|
                        0 <= i < old(self).entities@.len() ==> self.entities@[i] == old(
                            self,
                        ).entities@[i],
                    forall|i: int|
                        old(self).entities@.len() <= i < self.entities@.len() ==> self.entities@[i]
                            == (Generation(crate::entity::INVALID), TableId(0, 0)),
                decreases target - self.entities@.len(),
            {
                self.entities.push((Generation::invalid(), TableId::invalid()));
            }
        }
        let ghost grown = *self;
        self.entities[id].0 = entity.generation();
        proof {
            assert(self.tables@ == old(self).tables@);
            assert forall|e: Entity| #[trigger] self.placed(e) implies old(self).placed(e) by {
                if e.index() < old(self).entities@.len() {
                    assert(self.entities@[e.index()].1 == old(self).entities@[e.index()].1);
                }
            }
            assert forall|e: Entity| #[trigger] old(self).placed(e) implies self.placed(e)
                && self.table_id(e) == old(self).table_id(e) by {
                assert(e.index() != id);
            }
            assert forall|e: Entity| #[trigger] self.placed(e) implies self.has_table(
                self.table_id(e),
            ) && self.table(self.table_id(e)).contains(e) by {
                assert(old(self).placed(e));
            }
        }
    }

    /// `self` is `pre` after `entity` was deleted: if it was live, its slot
    /// is marked as not in use and names no table, no table holds it, and the
    /// tables and the rest of the directory are as `deleted` and
    /// `others_kept` say; else nothing has changed.
    pub open spec fn is_deletion_of(&self, pre: &Self, entity: Entity) -> bool {
        if pre.live(entity) {
            &&& !self.live(entity)
            &&& self.entities@.len() == pre.entities@.len()
            &&& self.entities@[entity.index()] == (
                Generation((entity.generation.0 + crate::entity::INVALID) as u32),
                TableId(0, 0),
            )
            &&& forall|i: int|
                0 <= i < pre.entities@.len() && i != entity.index() ==> self.entities@[i]
                    == pre.entities@[i]
            &&& forall|t: int|
                0 <= t < self.tables@.len() ==> !(#[trigger] self.tables@[t]).contains(entity)
            &&& pre.deleted(self, entity)
            &&& self.others_kept(pre, entity)
        } else {
            &&& self.tables@ == pre.tables@
            &&& self.entities@ == pre.entities@
        }
    }

    /// Deletes `entity` with all its components: takes it out of its table,
    /// removes the table if that leaves it empty, and marks the directory
    /// slot as not in use. Nothing happens where `entity` is not live.
    pub fn delete_entity(&mut self, entity: Entity)
        requires
            old(self).wf(),
        ensures
            final(self).wf(),
            old(self).canonical() ==> final(self).canonical(),
            final(self).is_deletion_of(old(self), entity),
    {
        let id = entity.id();
        if id >= self.entities.len() {
            return;
        }
        let generation = self.entities[id].0;
        let table_id = self.entities[id].1;
        if entity.generation().is_invalid() || entity.generation() != generation {
            return;
        }
        proof {
            if !table_id.invalid_spec() {
                assert(self.placed(entity));
                old(self).lemma_table_at(old(self).table_at(table_id));
            }
        }
        if !table_id.is_invalid() {
            assert(self.placed(entity));
            let found = self.find_table(table_id);
            let pos = found.unwrap();
            self.tables[pos].delete_entity(entity);
            let ghost mid = *self;
            proof {
                old(self).lemma_table_updated(&mid, pos as int, entity);
            }
            if self.tables[pos].is_empty() {
                let _ = self.tables.swap_remove(pos);
                proof {
                    mid.lemma_table_reaped(&*self, pos as int, entity);
                    assert(old(self).tables@[pos as int].entities@.len() == 1);
                    assert(self.tables@ =~= swap_removed(old(self).tables@, pos as int));
                }
            } else {
                proof {
                    assert(old(self).tables@[pos as int].entities@.len() != 1);
                    assert(self.left(old(self), entity));
                }
            }
        }
        let ghost before = *self;
        let mut slot = generation;
        slot.set_invalid();
        self.entities[id] = (slot, TableId::invalid());
        proof {
            old(self).lemma_slot_cleared(&before, &*self, entity);
        }
        self.spawner.free(entity);
    }

    /// The tables of `post` are those of `self` without `entity`: the table
    /// that held it has lost it as a swap-remove does; if the entity was
    /// alone there, the table is gone, and the last table has its place.
    pub open spec fn deleted(&self, post: &Self, entity: Entity) -> bool {
        let from = self.home(entity);
        if from < 0 {
            post.tables@ == self.tables@
        } else if self.tables@[from].entities@.len() == 1 {
            post.tables@ == swap_removed(self.tables@, from)
        } else {
            post.left(self, entity)
        }
    }

    /// `mid` is `self` after `entity` left the table at `a`; the directory
    /// is not yet updated.
    pub open spec fn left_table(&self, mid: &Self, a: int, entity: Entity) -> bool {
        &&& 0 <= a < self.tables@.len()
        &&& mid.entities@ == self.entities@
        &&& mid.tables@.len() == self.tables@.len()
        &&& forall|t: int| 0 <= t < self.tables@.len() && t != a ==> mid.tables@[t] == self.tables@[t]
        &&& mid.tables@[a].wf()
        &&& mid.tables@[a].id == self.tables@[a].id
        &&& mid.tables@[a].kinds() == self.tables@[a].kinds()
        &&& mid.tables@[a].rows@.len() == self.tables@[a].rows@.len()
        &&& forall|e: Entity|
            mid.tables@[a].contains(e) <==> (self.tables@[a].contains(e) && e != entity)
        &&& forall|e: Entity, k: KindId|
            self.tables@[a].contains(e) && e != entity && self.tables@[a].has_kind(k)
                ==> #[trigger] mid.tables@[a].value(e, k) == self.tables@[a].value(e, k)
    }

    /// The set is well-formed but for `entity`, which the directory still
    /// places in a table that no longer holds it.
    pub open spec fn wf_but(&self, entity: Entity) -> bool {
        &&& self.tables_wf()
        &&& forall|i: int|
            0 <= i < self.entities@.len() && !(#[trigger] self.entities@[i]).1.invalid_spec()
                ==> !self.entities@[i].0.invalid_spec()
        &&& forall|e: Entity| #[trigger]
            self.placed(e) && e != entity ==> self.has_table(self.table_id(e)) && self.table(
                self.table_id(e),
            ).contains(e)
        &&& forall|t: int, e: Entity|
            0 <= t < self.tables@.len() && #[trigger] self.tables@[t].contains(e) ==> self.placed(
                e,
            ) && self.table_id(e) == self.tables@[t].id && e != entity
    }

    /// What the tables hold for entities other than `entity` is what `pre`
    /// held; the directory is the same.
    pub open spec fn tables_kept(&self, pre: &Self, entity: Entity) -> bool {
        &&& self.entities@ == pre.entities@
        &&& forall|e: Entity|
            e != entity && #[trigger] pre.placed(e) ==> {
                &&& self.has_table(pre.table_id(e))
                &&& self.table(pre.table_id(e)).kinds() == pre.table(pre.table_id(e)).kinds()
                &&& forall|k: KindId|
                    pre.table(pre.table_id(e)).has_kind(k) ==> #[trigger] self.table(
                        pre.table_id(e),
                    ).value(e, k) == pre.table(pre.table_id(e)).value(e, k)
            }
    }

    proof fn lemma_table_updated(&self, mid: &Self, a: int, entity: Entity)
        requires
            self.wf(),
            self.placed(entity),
            self.tables@[a].id == self.table_id(entity),
            self.left_table(mid, a, entity),
        ensures
            mid.wf_but(entity),
            mid.tables_kept(self, entity),
            self.canonical() ==> mid.canonical(),
    {
        assert forall|t: int| 0 <= t < mid.tables@.len() implies (#[trigger] mid.tables@[t]).id
            == self.tables@[t].id by {}
        assert(mid.tables_wf());
        assert forall|e: Entity| #[trigger] mid.placed(e) && e != entity implies mid.has_table(
            mid.table_id(e),
        ) && mid.table(mid.table_id(e)).contains(e) by {
            assert(self.placed(e));
            let t = self.table_at(self.table_id(e));
            assert(self.tables@[t].id == self.table_id(e));
            assert(mid.tables@[t].id == self.table_id(e));
            mid.lemma_table_at(t);
        }
        assert forall|t: int, e: Entity|
            0 <= t < mid.tables@.len() && #[trigger] mid.tables@[t].contains(e) implies mid.placed(
            e,
        ) && mid.table_id(e) == mid.tables@[t].id && e != entity by {
            assert(self.tables@[t].contains(e));
            if e == entity {
                assert(t != a);
                assert(self.tables@[t].id == self.tables@[a].id);
            }
        }
        assert forall|e: Entity| e != entity && #[trigger] self.placed(e) implies {
            &&& mid.has_table(self.table_id(e))
            &&& mid.table(self.table_id(e)).kinds() == self.table(self.table_id(e)).kinds()
            &&& forall|k: KindId|
                self.table(self.table_id(e)).has_kind(k) ==> #[trigger] mid.table(
                    self.table_id(e),
                ).value(e, k) == self.table(self.table_id(e)).value(e, k)
        } by {
            let t = self.table_at(self.table_id(e));
            assert(self.tables@[t].id == self.table_id(e));
            assert(mid.tables@[t].id == self.table_id(e));
            mid.lemma_table_at(t);
            self.lemma_table_at(t);
        }
        if self.canonical() {
            assert forall|t: int| 0 <= t < mid.tables@.len() implies (
            #[trigger] mid.tables@[t]).canonical() && 0 < mid.tables@[t].rows@.len()
                <= MAX_KINDS by {
                assert(self.tables@[t].canonical());
            }
        }
    }

    proof fn lemma_table_reaped(&self, post: &Self, a: int, entity: Entity)
        requires
            self.wf_but(entity),
            0 <= a < self.tables@.len(),
            self.tables@[a].entities@.len() == 0,
            post.entities@ == self.entities@,
            post.tables@ == swap_removed(self.tables@, a),
        ensures
            post.wf_but(entity),
            post.tables_kept(self, entity),
            self.canonical() ==> post.canonical(),
    {
        let last = self.tables@.len() - 1;
        assert forall|t: int| 0 <= t < post.tables@.len() implies (#[trigger] post.tables@[t])
            == self.tables@[if t == a { last } else { t }] by {}
        assert(post.tables_wf()) by {
            assert forall|t: int, u: int|
                0 <= t < post.tables@.len() && 0 <= u < post.tables@.len() && t != u implies (
            #[trigger] post.tables@[t]).id != (#[trigger] post.tables@[u]).id by {
                let t0 = if t == a { last } else { t };
                let u0 = if u == a { last } else { u };
                assert(self.tables@[t0].id != self.tables@[u0].id);
            }
        }
        assert forall|e: Entity| #[trigger] self.placed(e) && e != entity implies post.has_table(
            self.table_id(e),
        ) && post.table(self.table_id(e)) == self.table(self.table_id(e)) by {
            let t = self.table_at(self.table_id(e));
            assert(self.tables@[t].id == self.table_id(e));
            assert(self.tables@[t].contains(e));
            assert(t != a) by {
                if t == a {
                    let j = self.tables@[a].entities@.index_of(e);
                    assert(0 <= j < 0);
                }
            }
            let t1 = if t == last { a } else { t };
            assert(post.tables@[t1] == self.tables@[t]);
            post.lemma_table_at(t1);
        }
        assert forall|e: Entity| #[trigger] post.placed(e) && e != entity implies post.has_table(
            post.table_id(e),
        ) && post.table(post.table_id(e)).contains(e) by {
            assert(self.placed(e));
        }
        assert forall|t: int, e: Entity|
            0 <= t < post.tables@.len() && #[trigger] post.tables@[t].contains(e) implies post.placed(
            e,
        ) && post.table_id(e) == post.tables@[t].id && e != entity by {
            let t0 = if t == a { last } else { t };
            assert(self.tables@[t0].contains(e));
        }
        if self.canonical() {
            assert forall|t: int| 0 <= t < post.tables@.len() implies (
            #[trigger] post.tables@[t]).canonical() && 0 < post.tables@[t].rows@.len()
                <= MAX_KINDS by {
                let t0 = if t == a { last } else { t };
                assert(self.tables@[t0].canonical());
            }
        }
    }

    proof fn lemma_slot_cleared(&self, before: &Self, post: &Self, entity: Entity)
        requires
            self.wf(),
            self.live(entity),
            self.placed(entity) ==> before.wf_but(entity) && before.tables_kept(self, entity),
            !self.placed(entity) ==> before.tables@ == self.tables@ && before.entities@
                == self.entities@,
            post.tables@ == before.tables@,
            post.entities@.len() == before.entities@.len(),
            post.entities@[entity.index()].1.invalid_spec(),
            post.entities@[entity.index()].0.invalid_spec() || post.entities@[entity.index()].0
                == entity.generation,
            forall|i: int|
                0 <= i < before.entities@.len() && i != entity.index() ==> post.entities@[i]
                    == before.entities@[i],
        ensures
            post.wf(),
            post.others_kept(self, entity),
            forall|t: int|
                0 <= t < post.tables@.len() ==> !(#[trigger] post.tables@[t]).contains(entity),
    {
        assert(before.entities@ == self.entities@);
        assert(before.tables_wf());
        assert forall|t: int, e: Entity|
            0 <= t < before.tables@.len() && #[trigger] before.tables@[t].contains(e)
                implies before.placed(e) && before.table_id(e) == before.tables@[t].id && e
            != entity by {
            if !self.placed(entity) {
                assert(self.tables@[t].contains(e));
            }
        }
        assert forall|e: Entity| #[trigger] post.placed(e) implies before.placed(e) && e != entity
            && post.table_id(e) == before.table_id(e) by {}
        assert forall|e: Entity| #[trigger] post.placed(e) implies post.has_table(
            post.table_id(e),
        ) && post.table(post.table_id(e)).contains(e) by {
            assert(before.placed(e) && e != entity);
            if !self.placed(entity) {
                assert(self.placed(e));
            }
            assert(before.has_table(before.table_id(e)));
            let t = before.table_at(before.table_id(e));
            assert(post.tables@[t].id == post.table_id(e));
        }
        assert forall|t: int, e: Entity|
            0 <= t < post.tables@.len() && #[trigger] post.tables@[t].contains(e) implies post.placed(
            e,
        ) && post.table_id(e) == post.tables@[t].id by {
            assert(before.tables@[t].contains(e));
            assert(e.index() != entity.index()) by {
                if e.index() == entity.index() {
                    assert(before.placed(e));
                    assert(e.generation == entity.generation);
                }
            }
        }
        assert forall|e: Entity| e != entity implies {
            &&& #[trigger] post.live(e) == self.live(e)
            &&& self.live(e) ==> post.table_id(e) == self.table_id(e)
            &&& self.live(e) ==> post.kinds_of(e) == self.kinds_of(e)
            &&& forall|k: KindId|
                self.live(e) && self.kinds_of(e).contains(k) ==> #[trigger] post.component(e, k)
                    == self.component(e, k)
        } by {
            if self.live(e) {
                assert(e.index() != entity.index());
                if self.placed(e) {
                    if self.placed(entity) {
                        assert(before.has_table(self.table_id(e)));
                    }
                    let t = before.table_at(self.table_id(e));
                    assert(before.tables@[t].id == self.table_id(e));
                    assert(post.tables@[t].id == self.table_id(e));
                    post.lemma_table_at(t);
                    before.lemma_table_at(t);
                }
            }
        }
    }

    /// `self` is `pre` after `entity`, live in `pre`, was put into the table
    /// at `b` or was updated there: the directory names that table for it, no
    /// other table holds it, at most one table is new (then it is the one at
    /// `b` and holds `entity` alone), and what the tables hold for other
    /// entities is untouched.
    pub open spec fn placed_in(&self, pre: &Self, entity: Entity, b: int) -> bool {
        &&& pre.entities@.len() == self.entities@.len()
        &&& 0 <= b < self.tables@.len()
        &&& self.entities@[entity.index()] == (
            pre.entities@[entity.index()].0,
            self.tables@[b].id,
        )
        &&& forall|i: int|
            0 <= i < pre.entities@.len() && i != entity.index() ==> self.entities@[i]
                == pre.entities@[i]
        &&& !self.tables@[b].id.invalid_spec()
        &&& pre.tables@.len() <= self.tables@.len() <= pre.tables@.len() + 1
        &&& self.tables@.len() == pre.tables@.len() + 1 ==> {
            &&& b == pre.tables@.len()
            &&& !pre.has_table(self.tables@[b].id)
            &&& forall|e: Entity| self.tables@[b].contains(e) ==> e == entity
        }
        &&& forall|t: int| 0 <= t < self.tables@.len() ==> (#[trigger] self.tables@[t]).wf()
        &&& self.tables@[b].contains(entity)
        &&& forall|t: int|
            0 <= t < pre.tables@.len() ==> {
                &&& (#[trigger] self.tables@[t]).id == pre.tables@[t].id
                &&& self.tables@[t].kinds() == pre.tables@[t].kinds()
                &&& t != b ==> !self.tables@[t].contains(entity)
            }
        &&& forall|t: int, e: Entity|
            0 <= t < pre.tables@.len() && e != entity ==> (#[trigger] self.tables@[t].contains(e)
                <==> pre.tables@[t].contains(e))
        &&& forall|t: int, e: Entity, k: KindId|
            0 <= t < pre.tables@.len() && e != entity && pre.tables@[t].contains(e)
                && pre.tables@[t].has_kind(k) ==> #[trigger] self.tables@[t].value(e, k)
                == pre.tables@[t].value(e, k)
    }

    proof fn lemma_placed_in(&self, pre: &Self, entity: Entity, b: int)
        requires
            pre.wf(),
            pre.live(entity),
            self.placed_in(pre, entity, b),
        ensures
            self.wf(),
            self.live(entity),
            self.table_id(entity) == self.tables@[b].id,
            self.table(self.table_id(entity)) == self.tables@[b],
            self.others_kept(pre, entity),
    {
        let n = pre.tables@.len();
        assert(self.tables_wf()) by {
            assert forall|t: int, u: int|
                0 <= t < self.tables@.len() && 0 <= u < self.tables@.len() && t != u implies (
            #[trigger] self.tables@[t]).id != (#[trigger] self.tables@[u]).id by {
                if t < n && u < n {
                    assert(pre.tables@[t].id != pre.tables@[u].id);
                } else if t < n {
                    assert(pre.tables@[t].id == self.tables@[t].id);
                } else {
                    assert(pre.tables@[u].id == self.tables@[u].id);
                }
            }
            assert forall|t: int| 0 <= t < self.tables@.len() implies !(
            #[trigger] self.tables@[t]).id.invalid_spec() by {
                if t < n {
                    assert(!pre.tables@[t].id.invalid_spec());
                }
            }
        }
        self.lemma_table_at(b);
        assert forall|e: Entity| #[trigger] self.placed(e) implies self.has_table(
            self.table_id(e),
        ) && self.table(self.table_id(e)).contains(e) by {
            if e != entity {
                assert(e.index() != entity.index());
                assert(pre.placed(e));
                let t = pre.table_at(pre.table_id(e));
                assert(pre.tables@[t].id == pre.table_id(e));
                assert(self.tables@[t].id == pre.table_id(e));
                self.lemma_table_at(t);
                assert(self.tables@[t].contains(e) <==> pre.tables@[t].contains(e));
            }
        }
        assert forall|t: int, e: Entity|
            0 <= t < self.tables@.len() && #[trigger] self.tables@[t].contains(e) implies self.placed(
            e,
        ) && self.table_id(e) == self.tables@[t].id by {
            if e != entity {
                assert(t < n);
                assert(pre.tables@[t].contains(e));
                assert(pre.placed(e));
                assert(e.index() != entity.index()) by {
                    if e.index() == entity.index() {
                        assert(e.generation == entity.generation);
                    }
                }
            } else {
                if t != b {
                    assert(t < n);
                }
            }
        }
        assert forall|e: Entity| e != entity implies {
            &&& #[trigger] self.live(e) == pre.live(e)
            &&& pre.live(e) ==> self.table_id(e) == pre.table_id(e)
            &&& pre.live(e) ==> self.kinds_of(e) == pre.kinds_of(e)
            &&& forall|k: KindId|
                pre.live(e) && pre.kinds_of(e).contains(k) ==> #[trigger] self.component(e, k)
                    == pre.component(e, k)
        } by {
            if pre.live(e) {
                assert(e.index() != entity.index());
                if pre.placed(e) {
                    let t = pre.table_at(pre.table_id(e));
                    assert(pre.tables@[t].id == pre.table_id(e));
                    assert(self.tables@[t].id == pre.table_id(e));
                    self.lemma_table_at(t);
                    pre.lemma_table_at(t);
                    assert(pre.tables@[t].contains(e));
                }
            }
        }
    }

    /// The index of the table that holds `entity`; -1 if it has no
    /// components.
    pub open spec fn home(&self, entity: Entity) -> int {
        if self.table_id(entity).invalid_spec() {
            -1
        } else {
            self.table_at(self.table_id(entity))
        }
    }

    /// The tables of `self` are those of `pre` but for a move of `entity`:
    /// it has left the table that held it, if one did, as a swap-remove
    /// does, and has the last slot of the table that holds it now. That is
    /// the table that had the id before; where none had, it is a new last
    /// table with the columns `fresh`.
    pub open spec fn moved(&self, pre: &Self, entity: Entity, fresh: Seq<KindId>) -> bool {
        let from = pre.home(entity);
        let to = self.home(entity);
        &&& 0 <= to < self.tables@.len()
        &&& to != from
        &&& forall|t: int|
            0 <= t < pre.tables@.len() && t != from && t != to ==> #[trigger] self.tables@[t]
                == pre.tables@[t]
        &&& from >= 0 ==> self.tables@[from].is_removal(&pre.tables@[from], entity)
        &&& if pre.has_table(self.table_id(entity)) {
            &&& self.tables@.len() == pre.tables@.len()
            &&& to == pre.table_at(self.table_id(entity))
            &&& self.tables@[to].kinds() == pre.tables@[to].kinds()
            &&& self.tables@[to].entities@ == pre.tables@[to].entities@.push(entity)
        } else {
            &&& self.tables@.len() == pre.tables@.len() + 1
            &&& to == pre.tables@.len()
            &&& self.tables@[to].kinds() == fresh
            &&& self.tables@[to].entities@ == seq![entity]
        }
    }

    /// The tables of `self` are those of `pre` but for the table that holds
    /// `entity`, which has the same columns and the same entities in the
    /// same slots.
    pub open spec fn stayed(&self, pre: &Self, entity: Entity) -> bool {
        let at = pre.home(entity);
        &&& self.tables@.len() == pre.tables@.len()
        &&& self.home(entity) == at
        &&& forall|t: int|
            0 <= t < pre.tables@.len() && t != at ==> #[trigger] self.tables@[t] == pre.tables@[t]
        &&& 0 <= at < pre.tables@.len() ==> self.tables@[at].kinds() == pre.tables@[at].kinds()
            && self.tables@[at].entities@ == pre.tables@[at].entities@
    }

    /// The tables of `self` are those of `pre` but for the table that held
    /// `entity`, which it has left as a swap-remove does.
    pub open spec fn left(&self, pre: &Self, entity: Entity) -> bool {
        let from = pre.home(entity);
        &&& self.tables@.len() == pre.tables@.len()
        &&& forall|t: int|
            0 <= t < pre.tables@.len() && t != from ==> #[trigger] self.tables@[t] == pre.tables@[t]
        &&& 0 <= from < pre.tables@.len() ==> self.tables@[from].is_removal(
            &pre.tables@[from],
            entity,
        )
    }

    /// The list of kinds under whose id `entity` is stored once `kinds` were
    /// added to it: `kinds`, then the kinds it has already and `kinds` does
    /// not name.
    pub open spec fn add_target(&self, entity: Entity, kinds: Seq<KindId>) -> Seq<KindId> {
        kinds + kinds_without(self.kinds_of(entity), kinds)
    }

    /// A table for the archetype `kinds` can be found or made: the kinds are
    /// no more than an id can count, and the table that has their id, if
    /// there is one, has these kinds.
    pub open spec fn admits(&self, kinds: Seq<KindId>) -> bool {
        &&& kinds.len() <= MAX_KINDS
        &&& self.has_table(table_id_of(kinds)) ==> same_kinds(
            self.table(table_id_of(kinds)).kinds(),
            kinds,
        )
    }

    /// Whether adding components of `kinds` to `entity` takes effect: the
    /// entity is live, and either has all the kinds already, or a table for
    /// its new archetype can be found or made.
    pub open spec fn add_applies(&self, entity: Entity, kinds: Seq<KindId>) -> bool {
        &&& self.live(entity)
        &&& kinds_within(kinds, self.kinds_of(entity)) || self.admits(
            self.add_target(entity, kinds),
        )
    }

    /// `self` is `pre` after `components` were added to `entity`.
    pub open spec fn is_add_of(&self, pre: &Self, entity: Entity, components: &ComponentSet<V>) -> bool {
        if pre.add_applies(entity, components.kinds()) {
            &&& self.live(entity)
            &&& self.entities@.len() == pre.entities@.len()
            &&& self.table_id(entity) == (if kinds_within(
                components.kinds(),
                pre.kinds_of(entity),
            ) {
                pre.table_id(entity)
            } else {
                table_id_of(pre.add_target(entity, components.kinds()))
            })
            &&& forall|k: KindId|
                #![trigger self.kinds_of(entity).contains(k)]
                #![trigger pre.kinds_of(entity).contains(k)]
                #![trigger components.has(k)]
                self.kinds_of(entity).contains(k) <==> (pre.kinds_of(entity).contains(k)
                    || components.has(k))
            &&& forall|k: KindId|
                components.has(k) ==> #[trigger] self.component(entity, k) == components.value_of(k)
            &&& forall|k: KindId|
                pre.kinds_of(entity).contains(k) && !components.has(k) ==> #[trigger] self.component(
                    entity,
                    k,
                ) == pre.component(entity, k)
            &&& self.others_kept(pre, entity)
            &&& if kinds_within(components.kinds(), pre.kinds_of(entity)) {
                self.stayed(pre, entity)
            } else {
                self.moved(
                    pre,
                    entity,
                    pre.kinds_of(entity) + kinds_without(components.kinds(), pre.kinds_of(entity)),
                )
            }
        } else {
            &&& self.tables@ == pre.tables@
            &&& self.entities@ == pre.entities@
        }
    }

    /// Adds `components` to `entity`. Components of kinds that the entity
    /// has already are overwritten; for new kinds the entity moves to the
    /// table of its new archetype, which is made if it does not exist.
    /// Nothing happens where `add_applies` does not hold: for an entity that
    /// is not live, and where a table with the id of the new archetype
    /// exists but has other kinds.
    pub fn add_components(&mut self, entity: &Entity, components: ComponentSet<V>)
        requires
            old(self).wf(),
            components.wf(),
        ensures
            final(self).wf(),
            final(self).is_add_of(old(self), *entity, &components),
            old(self).canonical() ==> final(self).canonical(),
    {
        let id = entity.id();
        if id >= self.entities.len() {
            return;
        }
        let generation = self.entities[id].0;
        let in_table = self.entities[id].1;
        if entity.generation() != generation || generation.is_invalid() {
            return;
        }
        let types = components.types();
        assert(components.kinds().contains(components.kinds()[0]));
        if in_table.is_invalid() {
            self.add_to_bare(entity, components, types);
            return;
        }
        assert(self.placed(*entity));
        let found = self.find_table(in_table);
        let cur = found.unwrap();
        if self.tables[cur].contains_all(types.as_slice()) {
            self.tables[cur].update_partial(entity, components);
            proof {
                assert(self.placed_in(old(self), *entity, cur as int));
                self.lemma_placed_in(old(self), *entity, cur as int);
                old(self).lemma_table_at(cur as int);
                self.lemma_table_at(cur as int);
                assert(self.stayed(old(self), *entity));
                if old(self).canonical() {
                    assert forall|t: int| 0 <= t < self.tables@.len() implies (
                    #[trigger] self.tables@[t]).canonical() && 0 < self.tables@[t].rows@.len()
                        <= MAX_KINDS by {
                        assert(old(self).tables@[t].canonical());
                        assert(self.tables@[t].kinds().len() == self.tables@[t].rows@.len());
                        assert(old(self).tables@[t].kinds().len() == old(self).tables@[t].rows@.len());
                    }
                }
            }
            return;
        }
        self.add_by_move(entity, components, types, cur);
    }

    /// Adds `components` to a live `entity` that has no components yet.
    fn add_to_bare(&mut self, entity: &Entity, components: ComponentSet<V>, types: Vec<KindId>)
        requires
            old(self).wf(),
            components.wf(),
            types@ == components.kinds(),
            old(self).live(*entity),
            old(self).table_id(*entity).invalid_spec(),
        ensures
            final(self).wf(),
            final(self).is_add_of(old(self), *entity, &components),
            old(self).canonical() ==> final(self).canonical(),
    {
        proof {
            reveal(Seq::filter);
            assert(kinds_without(Seq::<KindId>::empty(), components.kinds()) == Seq::<
                KindId,
            >::empty());
            assert(old(self).add_target(*entity, components.kinds()) == components.kinds());
            assert(components.kinds().contains(components.kinds()[0]));
            assert(!kinds_within(components.kinds(), old(self).kinds_of(*entity)));
        }
        let id = entity.id();
        let cid = components.table_id();
        let slot: usize;
        match self.find_table(cid) {
            Some(t) => {
                if !self.tables[t].has_exactly(types.as_slice()) {
                    return;
                }
                assert(!self.tables@[t as int].contains(*entity));
                self.tables[t].push(*entity, components);
                slot = t;
            },
            None => {
                let mut new_table = Table::new(types.as_slice());
                new_table.push(*entity, components);
                self.tables.push(new_table);
                slot = self.tables.len() - 1;
            },
        }
        self.entities[id].1 = cid;
        proof {
            assert(self.placed_in(old(self), *entity, slot as int));
            self.lemma_placed_in(old(self), *entity, slot as int);
            self.lemma_table_at(slot as int);
            if slot < old(self).tables@.len() {
                old(self).lemma_table_at(slot as int);
            }
            crate::kind::lemma_filter_all(
                components.kinds(),
                |k: KindId| !Seq::<KindId>::empty().contains(k),
            );
            assert(Seq::<KindId>::empty() + components.kinds() == components.kinds());
            assert(self.moved(old(self), *entity, components.kinds()));
            if old(self).canonical() {
                assert forall|t: int| 0 <= t < self.tables@.len() implies (
                #[trigger] self.tables@[t]).canonical() && 0 < self.tables@[t].rows@.len()
                    <= MAX_KINDS by {
                    if t < old(self).tables@.len() {
                        assert(old(self).tables@[t].canonical());
                    }
                }
            }
        }
    }

    /// Adds `components` to a live `entity` whose table, at `cur`, lacks some
    /// of their kinds: the entity moves to the table of the union.
    fn add_by_move(
        &mut self,
        entity: &Entity,
        components: ComponentSet<V>,
        types: Vec<KindId>,
        cur: usize,
    )
        requires
            old(self).wf(),
            components.wf(),
            types@ == components.kinds(),
            old(self).live(*entity),
            old(self).placed(*entity),
            cur < old(self).tables@.len(),
            old(self).tables@[cur as int].id == old(self).table_id(*entity),
            !kinds_within(components.kinds(), old(self).tables@[cur as int].kinds()),
        ensures
            final(self).wf(),
            final(self).is_add_of(old(self), *entity, &components),
            old(self).canonical() ==> final(self).canonical(),
    {
        let id = entity.id();
        let ghost source = old(self).tables@[cur as int];
        proof {
            old(self).lemma_table_at(cur as int);
            assert(old(self).kinds_of(*entity) == source.kinds());
        }
        let cur_types = self.tables[cur].types();
        let set = union_kinds(types, cur_types.as_slice());
        assert(set@ == old(self).add_target(*entity, components.kinds()));
        if set.len() > MAX_KINDS {
            return;
        }
        let tid = TableId::from_uniques(set.as_slice());
        let tgt: usize;
        match self.find_table(tid) {
            Some(t) => {
                if !self.tables[t].has_exactly(set.as_slice()) {
                    return;
                }
                tgt = t;
            },
            None => {
                let mut extend = self.tables[cur].get_extendable_precomputed(tid);
                let add = components.types();
                extend.extend_rows(add.as_slice());
                let new_table = extend.finish();
                proof {
                    crate::table_id::lemma_table_id_same_kinds(set@, new_table.kinds());
                }
                self.tables.push(new_table);
                tgt = self.tables.len() - 1;
            },
        }
        let ghost mid = *self;
        let ghost target = mid.tables@[tgt as int];
        proof {
            assert(same_kinds(target.kinds(), set@));
            assert(tgt != cur) by {
                if tgt == cur {
                    let k = choose|k: KindId|
                        components.kinds().contains(k) && !source.kinds().contains(k);
                    assert(set@.contains(k));
                }
            }
            assert(!target.contains(*entity)) by {
                if target.contains(*entity) {
                    if tgt < old(self).tables@.len() {
                        assert(old(self).tables@[tgt as int].contains(*entity));
                    } else {
                        let j = target.entities@.index_of(*entity);
                        assert(0 <= j < 0);
                    }
                }
            }
            assert(source.contains(*entity));
        }
        let mut cur_table = Table::vacant();
        core::mem::swap(&mut cur_table, &mut self.tables[cur]);
        cur_table.move_entity_up(&mut self.tables[tgt], entity);
        let ghost arrived = self.tables@[tgt as int];
        proof {
            assert forall|i: int| 0 <= i < arrived.rows@.len() implies {
                let n = (#[trigger] arrived.rows@[i]).components@.len();
                n == arrived.entities@.len() || (n == arrived.entities@.len() - 1
                    && arrived.slot_of(*entity) == n && components.has(arrived.rows@[i].kind))
            } by {
                let k = target.rows@[i].kind;
                assert(target.kinds()[i] == k);
                assert(arrived.kinds()[i] == arrived.rows@[i].kind);
                assert(set@.contains(k));
                if !source.has_kind(k) {
                    assert(components.kinds().contains(k));
                }
            }
            assert(kinds_within(components.kinds(), arrived.kinds())) by {
                assert forall|k: KindId| components.kinds().contains(k) implies arrived.kinds().contains(
                    k,
                ) by {
                    assert(set@.contains(k));
                }
            }
        }
        self.tables[tgt].push_missing_or_update(entity, components);
        self.tables[cur] = cur_table;
        self.entities[id].1 = tid;
        proof {
            let done = self.tables@[tgt as int];
            assert forall|e: Entity| done.contains(e) <==> (target.contains(e) || e == *entity) by {
                assert(done.entities@ == arrived.entities@);
            }
            assert forall|t: int, e: Entity|
                0 <= t < old(self).tables@.len() && e != *entity implies (
            #[trigger] self.tables@[t].contains(e) <==> old(self).tables@[t].contains(e)) by {
                if t != cur && t != tgt {
                    assert(self.tables@[t] == old(self).tables@[t]);
                }
            }
            assert forall|t: int, e: Entity, k: KindId|
                0 <= t < old(self).tables@.len() && e != *entity && old(self).tables@[t].contains(e)
                    && old(self).tables@[t].has_kind(k) implies #[trigger] self.tables@[t].value(
                e,
                k,
            ) == old(self).tables@[t].value(e, k) by {
                if t == tgt {
                    assert(arrived.contains(e));
                    assert(arrived.value(e, k) == target.value(e, k));
                } else if t != cur {
                    assert(self.tables@[t] == old(self).tables@[t]);
                }
            }
            assert forall|t: int| 0 <= t < old(self).tables@.len() implies {
                &&& (#[trigger] self.tables@[t]).id == old(self).tables@[t].id
                &&& self.tables@[t].kinds() == old(self).tables@[t].kinds()
                &&& t != tgt ==> !self.tables@[t].contains(*entity)
            } by {
                if t != cur && t != tgt {
                    assert(self.tables@[t] == old(self).tables@[t]);
                    if old(self).tables@[t].contains(*entity) {
                        assert(old(self).tables@[t].id == old(self).tables@[cur as int].id);
                    }
                }
            }
            assert forall|t: int| 0 <= t < self.tables@.len() implies (
            #[trigger] self.tables@[t]).wf() by {
                if t != cur && t != tgt {
                    assert(self.tables@[t] == old(self).tables@[t]);
                }
            }
            if self.tables@.len() == old(self).tables@.len() + 1 {
                assert forall|e: Entity| done.contains(e) implies e == *entity by {
                    if target.contains(e) {
                        let j = target.entities@.index_of(e);
                        assert(0 <= j < 0);
                    }
                }
            }
            assert(self.placed_in(old(self), *entity, tgt as int));
            self.lemma_placed_in(old(self), *entity, tgt as int);
            self.lemma_table_at(tgt as int);
            if tgt < old(self).tables@.len() {
                old(self).lemma_table_at(tgt as int);
            }
            assert(self.moved(
                old(self),
                *entity,
                source.kinds() + kinds_without(components.kinds(), source.kinds()),
            ));
            assert(self.kinds_of(*entity) == done.kinds());
            assert forall|k: KindId|
                self.kinds_of(*entity).contains(k) <==> (old(self).kinds_of(*entity).contains(k)
                    || components.has(k)) by {
                assert(set@.contains(k) <==> done.kinds().contains(k));
            }
            assert forall|k: KindId|
                old(self).kinds_of(*entity).contains(k) && !components.has(k)
                    implies #[trigger] self.component(*entity, k) == old(self).component(
                *entity,
                k,
            ) by {
                assert(set@.contains(k));
                assert(arrived.has_kind(k));
                assert(arrived.value(*entity, k) == source.value(*entity, k));
            }
            assert forall|k: KindId| components.has(k) implies #[trigger] self.component(
                *entity,
                k,
            ) == components.value_of(k) by {}
            if old(self).canonical() {
                assert forall|t: int| 0 <= t < self.tables@.len() implies (
                #[trigger] self.tables@[t]).canonical() && 0 < self.tables@[t].rows@.len()
                    <= MAX_KINDS by {
                    if t < old(self).tables@.len() {
                        assert(old(self).tables@[t].canonical());
                        assert(self.tables@[t].kinds().len() == self.tables@[t].rows@.len());
                        assert(old(self).tables@[t].kinds().len() == old(self).tables@[t].rows@.len());
                    } else {
                        assert(self.tables@[t].kinds() == mid.tables@[t].kinds());
                        assert(self.tables@[t].kinds().len() == self.tables@[t].rows@.len());
                    }
                }
            }
        }
    }

    /// The kinds that `entity` keeps when those of `kinds` are removed.
    pub open spec fn remove_target(&self, entity: Entity, kinds: Seq<KindId>) -> Seq<KindId> {
        kinds_without(self.kinds_of(entity), kinds)
    }

    /// Whether removing the components of `kinds` from `entity` takes
    /// effect: the entity is live, carries a component of one of the kinds,
    /// and, unless it loses all components, a table for what it keeps can be
    /// found or made.
    pub open spec fn remove_applies(&self, entity: Entity, kinds: Seq<KindId>) -> bool {
        &&& self.live(entity)
        &&& !self.table_id(entity).invalid_spec()
        &&& self.remove_target(entity, kinds).len() < self.kinds_of(entity).len()
        &&& self.remove_target(entity, kinds).len() == 0 || self.admits(
            self.remove_target(entity, kinds),
        )
    }

    /// `self` is `pre` after the components of `kinds` were removed from
    /// `entity`.
    pub open spec fn is_remove_of(&self, pre: &Self, entity: Entity, kinds: Seq<KindId>) -> bool {
        if pre.remove_applies(entity, kinds) {
            &&& self.live(entity)
            &&& self.entities@.len() == pre.entities@.len()
            &&& self.table_id(entity) == (if pre.remove_target(entity, kinds).len() == 0 {
                TableId(0, 0)
            } else {
                table_id_of(pre.remove_target(entity, kinds))
            })
            &&& forall|k: KindId|
                #![trigger self.kinds_of(entity).contains(k)]
                #![trigger pre.kinds_of(entity).contains(k)]
                self.kinds_of(entity).contains(k) <==> (pre.kinds_of(entity).contains(k)
                    && !kinds.contains(k))
            &&& forall|k: KindId|
                self.kinds_of(entity).contains(k) ==> #[trigger] self.component(entity, k)
                    == pre.component(entity, k)
            &&& self.others_kept(pre, entity)
            &&& if pre.remove_target(entity, kinds).len() == 0 {
                self.left(pre, entity)
            } else {
                self.moved(pre, entity, pre.remove_target(entity, kinds))
            }
        } else {
            &&& self.tables@ == pre.tables@
            &&& self.entities@ == pre.entities@
        }
    }

    /// Removes the components of `kinds` from `entity`. The entity moves to
    /// the table of what it keeps, which is made if it does not exist; an
    /// entity that keeps nothing has no table afterwards. Nothing happens
    /// where `remove_applies` does not hold.
    pub fn remove_component(&mut self, entity: &Entity, kinds: &[KindId])
        requires
            old(self).wf(),
        ensures
            final(self).wf(),
            final(self).is_remove_of(old(self), *entity, kinds@),
            old(self).canonical() ==> final(self).canonical(),
    {
        let id = entity.id();
        if id >= self.entities.len() {
            return;
        }
        let generation = self.entities[id].0;
        let in_table = self.entities[id].1;
        if entity.generation() != generation || generation.is_invalid() {
            return;
        }
        if in_table.is_invalid() {
            return;
        }
        assert(self.placed(*entity));
        let found = self.find_table(in_table);
        let cur = found.unwrap();
        let ghost source = old(self).tables@[cur as int];
        proof {
            old(self).lemma_table_at(cur as int);
            assert(old(self).kinds_of(*entity) == source.kinds());
        }
        let cur_types = self.tables[cur].types();
        let new_types = difference_kinds(cur_types.as_slice(), kinds);
        if new_types.len() == cur_types.len() {
            return;
        }
        if new_types.len() == 0 {
            // all components are removed from the entity
            self.tables[cur].delete_entity(*entity);
            let ghost mid = *self;
            self.entities[id].1 = TableId::invalid();
            proof {
                old(self).lemma_table_updated(&mid, cur as int, *entity);
                old(self).lemma_slot_cleared(&mid, &*self, *entity);
                assert(self.left(old(self), *entity));
            }
            return;
        }
        if new_types.len() > MAX_KINDS {
            return;
        }
        let tid = TableId::from_uniques(new_types.as_slice());
        let tgt: usize;
        match self.find_table(tid) {
            Some(t) => {
                if !self.tables[t].has_exactly(new_types.as_slice()) {
                    return;
                }
                tgt = t;
            },
            None => {
                let mut extend = self.tables[cur].get_extendable_precomputed(tid);
                extend.remove_rows(kinds);
                let new_table = extend.finish();
                self.tables.push(new_table);
                tgt = self.tables.len() - 1;
            },
        }
        let ghost mid = *self;
        let ghost target = mid.tables@[tgt as int];
        proof {
            assert(same_kinds(target.kinds(), new_types@));
            assert(tgt != cur) by {
                if tgt == cur {
                    crate::table_id::lemma_table_id_same_kinds(target.kinds(), new_types@);
                }
            }
            assert(!target.contains(*entity)) by {
                if target.contains(*entity) {
                    if tgt < old(self).tables@.len() {
                        assert(old(self).tables@[tgt as int].contains(*entity));
                    } else {
                        let j = target.entities@.index_of(*entity);
                        assert(0 <= j < 0);
                    }
                }
            }
            assert(source.contains(*entity));
            assert(kinds_within(target.kinds(), source.kinds())) by {
                assert forall|k: KindId| target.kinds().contains(k) implies source.kinds().contains(
                    k,
                ) by {
                    assert(new_types@.contains(k));
                }
            }
        }
        let mut cur_table = Table::vacant();
        core::mem::swap(&mut cur_table, &mut self.tables[cur]);
        cur_table.move_entity_down(&mut self.tables[tgt], entity);
        self.tables[cur] = cur_table;
        self.entities[id].1 = tid;
        proof {
            let done = self.tables@[tgt as int];
            assert forall|t: int, e: Entity|
                0 <= t < old(self).tables@.len() && e != *entity implies (
            #[trigger] self.tables@[t].contains(e) <==> old(self).tables@[t].contains(e)) by {
                if t != cur && t != tgt {
                    assert(self.tables@[t] == old(self).tables@[t]);
                }
            }
            assert forall|t: int, e: Entity, k: KindId|
                0 <= t < old(self).tables@.len() && e != *entity && old(self).tables@[t].contains(e)
                    && old(self).tables@[t].has_kind(k) implies #[trigger] self.tables@[t].value(
                e,
                k,
            ) == old(self).tables@[t].value(e, k) by {
                if t != cur && t != tgt {
                    assert(self.tables@[t] == old(self).tables@[t]);
                }
            }
            assert forall|t: int| 0 <= t < old(self).tables@.len() implies {
                &&& (#[trigger] self.tables@[t]).id == old(self).tables@[t].id
                &&& self.tables@[t].kinds() == old(self).tables@[t].kinds()
                &&& t != tgt ==> !self.tables@[t].contains(*entity)
            } by {
                if t != cur && t != tgt {
                    assert(self.tables@[t] == old(self).tables@[t]);
                    if old(self).tables@[t].contains(*entity) {
                        assert(old(self).tables@[t].id == old(self).tables@[cur as int].id);
                    }
                }
            }
            assert forall|t: int| 0 <= t < self.tables@.len() implies (
            #[trigger] self.tables@[t]).wf() by {
                if t != cur && t != tgt {
                    assert(self.tables@[t] == old(self).tables@[t]);
                }
            }
            if self.tables@.len() == old(self).tables@.len() + 1 {
                assert forall|e: Entity| done.contains(e) implies e == *entity by {
                    if target.contains(e) {
                        let j = target.entities@.index_of(e);
                        assert(0 <= j < 0);
                    }
                }
            }
            assert(self.placed_in(old(self), *entity, tgt as int));
            self.lemma_placed_in(old(self), *entity, tgt as int);
            self.lemma_table_at(tgt as int);
            if tgt < old(self).tables@.len() {
                old(self).lemma_table_at(tgt as int);
            }
            assert(self.moved(old(self), *entity, new_types@));
            assert(self.kinds_of(*entity) == done.kinds());
            assert forall|k: KindId|
                self.kinds_of(*entity).contains(k) <==> (old(self).kinds_of(*entity).contains(k)
                    && !kinds@.contains(k)) by {
                assert(new_types@.contains(k) <==> done.kinds().contains(k));
            }
            assert forall|k: KindId| self.kinds_of(*entity).contains(k) implies #[trigger] self.component(
                *entity,
                k,
            ) == old(self).component(*entity, k) by {
                assert(new_types@.contains(k));
            }
            if old(self).canonical() {
                assert forall|t: int| 0 <= t < self.tables@.len() implies (
                #[trigger] self.tables@[t]).canonical() && 0 < self.tables@[t].rows@.len()
                    <= MAX_KINDS by {
                    if t < old(self).tables@.len() {
                        assert(old(self).tables@[t].canonical());
                        assert(self.tables@[t].kinds().len() == self.tables@[t].rows@.len());
                        assert(old(self).tables@[t].kinds().len() == old(self).tables@[t].rows@.len());
                    } else {
                        assert(self.tables@[t].kinds() == mid.tables@[t].kinds());
                        assert(self.tables@[t].kinds().len() == self.tables@[t].rows@.len());
                    }
                }
            }
        }
    }

    /// Shared access to the component of `kind` that `entity` carries; none
    /// if the entity is not the current holder of its position or carries no
    /// such component.
    pub fn get_component(&self, entity: &Entity, kind: KindId) -> (r: Option<&V>)
        requires
            self.wf(),
        ensures
            r is Some == (self.placed(*entity) && self.kinds_of(*entity).contains(kind)),
            r matches Some(v) ==> *v == self.component(*entity, kind),
    {
        let id = entity.id();
        if id >= self.entities.len() {
            return None;
        }
        let generation = self.entities[id].0;
        let table_id = self.entities[id].1;
        if generation != entity.generation() || table_id.is_invalid() {
            return None;
        }
        assert(self.placed(*entity));
        let found = self.find_table(table_id);
        let t = found.unwrap();
        proof {
            self.lemma_table_at(t as int);
            assert(self.tables@[t as int].wf());
        }
        let table = &self.tables[t];
        match table.find_row(kind) {
            Some(row) => {
                let slot = table.get_entity_position(entity);
                Some(&table.rows[row].components[slot])
            },
            None => None,
        }
    }

    /// `post` is `self` with `value` in place of the component of `kind`
    /// that `entity` carries; nothing else differs.
    pub open spec fn written(&self, post: &Self, entity: Entity, kind: KindId, value: V) -> bool {
        let t = self.home(entity);
        let row = self.tables@[t].kinds().index_of(kind);
        let slot = self.tables@[t].slot_of(entity);
        &&& post.entities == self.entities
        &&& post.tables@.len() == self.tables@.len()
        &&& forall|u: int|
            0 <= u < self.tables@.len() && u != t ==> #[trigger] post.tables@[u] == self.tables@[u]
        &&& post.tables@[t].id == self.tables@[t].id
        &&& post.tables@[t].entities == self.tables@[t].entities
        &&& post.tables@[t].rows@.len() == self.tables@[t].rows@.len()
        &&& forall|i: int|
            0 <= i < self.tables@[t].rows@.len() && i != row ==> #[trigger] post.tables@[t].rows@[i]
                == self.tables@[t].rows@[i]
        &&& post.tables@[t].rows@[row].kind == kind
        &&& post.tables@[t].rows@[row].components@ == self.tables@[t].rows@[row].components@.update(
            slot,
            value,
        )
    }

    /// Writing a component keeps the invariant, makes the value the one that
    /// is seen, and leaves every other component as it was.
    pub proof fn lemma_written(&self, post: &Self, entity: Entity, kind: KindId, value: V)
        requires
            self.wf(),
            self.placed(entity),
            self.kinds_of(entity).contains(kind),
            self.written(post, entity, kind, value),
        ensures
            post.wf(),
            self.canonical() ==> post.canonical(),
            post.component(entity, kind) == value,
            forall|e: Entity|
                #![trigger post.live(e)]
                post.live(e) == self.live(e) && post.table_id(e) == self.table_id(e),
            forall|e: Entity| #[trigger] self.placed(e) ==> post.kinds_of(e) == self.kinds_of(e),
            forall|e: Entity, k: KindId|
                self.placed(e) && self.kinds_of(e).contains(k) && (e != entity || k != kind)
                    ==> #[trigger] post.component(e, k) == self.component(e, k),
    {
        let t = self.home(entity);
        self.lemma_table_at(t);
        let pre_table = self.tables@[t];
        let post_table = post.tables@[t];
        let row = pre_table.kinds().index_of(kind);
        assert(pre_table.wf());
        assert(0 <= row < pre_table.kinds().len() && pre_table.kinds()[row] == kind);
        assert(post_table.kinds() =~= pre_table.kinds()) by {
            assert forall|i: int| 0 <= i < pre_table.rows@.len() implies post_table.rows@[i].kind
                == pre_table.rows@[i].kind by {
                if i != row {
                    assert(post_table.rows@[i] == pre_table.rows@[i]);
                }
            }
        }
        assert(post_table.wf()) by {
            assert forall|i: int| 0 <= i < post_table.rows@.len() implies (
            #[trigger] post_table.rows@[i]).components@.len() == post_table.entities@.len() by {
                assert(pre_table.rows@[i].components@.len() == pre_table.entities@.len());
                if i != row {
                    assert(post_table.rows@[i] == pre_table.rows@[i]);
                }
            }
        }
        assert forall|u: int| 0 <= u < post.tables@.len() implies (#[trigger] post.tables@[u]).id
            == self.tables@[u].id && post.tables@[u].kinds() == self.tables@[u].kinds()
            && post.tables@[u].entities == self.tables@[u].entities && post.tables@[u].wf() by {
            if u != t {
                assert(post.tables@[u] == self.tables@[u]);
            }
            assert(self.tables@[u].wf());
        }
        assert(post.tables_wf());
        assert forall|id: TableId| self.has_table(id) implies post.has_table(id) && post.table_at(
            id,
        ) == self.table_at(id) by {
            let u = self.table_at(id);
            assert(post.tables@[u].id == id);
            post.lemma_table_at(u);
        }
        assert forall|e: Entity| #[trigger] post.placed(e) implies post.has_table(post.table_id(e))
            && post.table(post.table_id(e)).contains(e) by {
            assert(self.placed(e));
        }
        assert forall|u: int, e: Entity|
            0 <= u < post.tables@.len() && #[trigger] post.tables@[u].contains(e) implies post.placed(
            e,
        ) && post.table_id(e) == post.tables@[u].id by {
            assert(self.tables@[u].contains(e));
        }
        assert forall|e: Entity| #[trigger] self.placed(e) implies post.kinds_of(e)
            == self.kinds_of(e) by {
            let u = self.table_at(self.table_id(e));
            assert(self.tables@[u].id == self.table_id(e));
        }
        assert forall|e: Entity, k: KindId|
            self.placed(e) && self.kinds_of(e).contains(k) && (e != entity || k
                != kind) implies #[trigger] post.component(e, k) == self.component(e, k) by {
            let u = self.table_at(self.table_id(e));
            assert(self.tables@[u].contains(e));
            if u == t {
                let i = pre_table.kinds().index_of(k);
                assert(0 <= i < pre_table.kinds().len() && pre_table.kinds()[i] == k);
                if i != row {
                    assert(post_table.rows@[i] == pre_table.rows@[i]);
                } else {
                    assert(k == kind);
                    let slot = pre_table.slot_of(entity);
                    let other = pre_table.slot_of(e);
                    assert(pre_table.entities@[other] == e);
                    assert(pre_table.contains(entity));
                    assert(pre_table.entities@[slot] == entity);
                }
            } else {
                assert(post.tables@[u] == self.tables@[u]);
            }
        }
        assert(post.component(entity, kind) == value) by {
            assert(pre_table.contains(entity));
            let slot = pre_table.slot_of(entity);
            assert(pre_table.entities@[slot] == entity);
            assert(pre_table.rows@[row].components@.len() == pre_table.entities@.len());
        }
        if self.canonical() {
            assert forall|u: int| 0 <= u < post.tables@.len() implies (
            #[trigger] post.tables@[u]).canonical() && 0 < post.tables@[u].rows@.len()
                <= MAX_KINDS by {
                assert(self.tables@[u].canonical());
                assert(post.tables@[u].kinds().len() == post.tables@[u].rows@.len());
                assert(self.tables@[u].kinds().len() == self.tables@[u].rows@.len());
            }
        }
    }

    /// Exclusive access to the component of `kind` that `entity` carries.
    /// What is written through it is the component afterwards; nothing else
    /// changes.
    pub fn get_component_mut(&mut self, entity: &Entity, kind: KindId) -> (r: Option<&mut V>)
        requires
            old(self).wf(),
        ensures
            r is Some == (old(self).placed(*entity) && old(self).kinds_of(*entity).contains(kind)),
            r matches Some(v) ==> *v == old(self).component(*entity, kind) && old(self).written(
                final(self),
                *entity,
                kind,
                *final(v),
            ),
            r is None ==> final(self).tables == old(self).tables && final(self).entities == old(
                self,
            ).entities,
    {
        let id = entity.id();
        if id >= self.entities.len() {
            return None;
        }
        let generation = self.entities[id].0;
        let table_id = self.entities[id].1;
        if generation != entity.generation() || table_id.is_invalid() {
            return None;
        }
        assert(self.placed(*entity));
        let found = self.find_table(table_id);
        let t = found.unwrap();
        proof {
            self.lemma_table_at(t as int);
            assert(self.tables@[t as int].wf());
        }
        let found_row = self.tables[t].find_row(kind);
        match found_row {
            Some(row) => {
                let slot = self.tables[t].get_entity_position(entity);
                Some(&mut self.tables[t].rows[row].components[slot])
            },
            None => None,
        }
    }

    /// Adds `components`, which arrive apart from their description
    /// `modifier`, to `entity`: `add_components` for a deferred command.
    pub fn add_component_untyped(
        &mut self,
        entity: &Entity,
        components: ComponentSet<V>,
        modifier: ComponentAddModifier,
    )
        requires
            old(self).wf(),
            components.wf(),
            modifier.describes(&components),
        ensures
            final(self).wf(),
            final(self).is_add_of(old(self), *entity, &components),
            old(self).canonical() ==> final(self).canonical(),
    {
        self.add_components(entity, components);
    }

    /// Removes from `entity` the components of the kinds that `modifier`
    /// names: `remove_component` for a deferred command.
    pub fn remove_components_untyped(&mut self, entity: &Entity, modifier: ComponentRemoveModifier)
        requires
            old(self).wf(),
        ensures
            final(self).wf(),
            final(self).is_remove_of(old(self), *entity, modifier.kinds@),
            old(self).canonical() ==> final(self).canonical(),
    {
        self.remove_component(entity, modifier.kinds.as_slice());
    }
}

/// Table homogeneity: in a well-formed archetype set every column of every
/// table has exactly one component per entity of the table.
pub proof fn lemma_table_homogeneity<V>(set: EntityComponents<V>, t: int, r1: int, r2: int)
    requires
        set.wf(),
        0 <= t < set.tables@.len(),
        0 <= r1 < set.tables@[t].rows@.len(),
        0 <= r2 < set.tables@[t].rows@.len(),
    ensures
        set.tables@[t].rows@[r1].components@.len() == set.tables@[t].rows@[r2].components@.len(),
        set.tables@[t].rows@[r1].components@.len() == set.tables@[t].entities@.len(),
{
    assert(set.tables@[t].wf());
}

/// Directory consistency: a live entity with components is in the table
/// that the directory names for it, in exactly one slot, and in no other
/// table; and the directory holds its generation.
pub proof fn lemma_directory_consistency<V>(set: EntityComponents<V>, entity: Entity)
    requires
        set.wf(),
        set.live(entity),
        !set.table_id(entity).invalid_spec(),
    ensures
        set.entities@[entity.index()].0 == entity.generation,
        set.has_table(set.table_id(entity)),
        set.table(set.table_id(entity)).id == set.table_id(entity),
        set.table(set.table_id(entity)).contains(entity),
        forall|i: int, j: int|
            0 <= i < set.table(set.table_id(entity)).entities@.len() && 0 <= j < set.table(
                set.table_id(entity),
            ).entities@.len() && set.table(set.table_id(entity)).entities@[i] == entity
                && set.table(set.table_id(entity)).entities@[j] == entity ==> i == j,
        forall|t: int|
            0 <= t < set.tables@.len() && (#[trigger] set.tables@[t]).contains(entity) ==> t
                == set.table_at(set.table_id(entity)),
{
    assert(set.placed(entity));
    let home = set.table_at(set.table_id(entity));
    assert(set.tables@[home].wf());
    assert forall|t: int|
        0 <= t < set.tables@.len() && (#[trigger] set.tables@[t]).contains(entity) implies t
        == home by {
        assert(set.tables@[t].id == set.tables@[home].id);
    }
}

/// Idempotent re-add: adding components of kinds that an entity got by an
/// earlier add always takes effect, leaves the entity in its table, and
/// makes the new values the ones that are seen.
pub proof fn lemma_readd_overwrites<V>(
    start: EntityComponents<V>,
    middle: EntityComponents<V>,
    end: EntityComponents<V>,
    entity: Entity,
    first: ComponentSet<V>,
    second: ComponentSet<V>,
)
    requires
        start.wf(),
        middle.wf(),
        first.wf(),
        second.wf(),
        first.kinds() == second.kinds(),
        start.add_applies(entity, first.kinds()),
        middle.is_add_of(&start, entity, &first),
        end.is_add_of(&middle, entity, &second),
    ensures
        middle.add_applies(entity, second.kinds()),
        end.table_id(entity) == middle.table_id(entity),
        forall|k: KindId| second.has(k) ==> #[trigger] end.component(entity, k) == second.value_of(k),
        forall|k: KindId| end.kinds_of(entity).contains(k) <==> middle.kinds_of(entity).contains(k),
{
    assert forall|k: KindId| second.kinds().contains(k) implies middle.kinds_of(entity).contains(
        k,
    ) by {
        assert(first.has(k));
    }
    assert(kinds_within(second.kinds(), middle.kinds_of(entity)));
    assert forall|k: KindId| end.kinds_of(entity).contains(k) <==> middle.kinds_of(entity).contains(
        k,
    ) by {
        if second.has(k) {
            assert(first.has(k));
        }
    }
}

/// Round trip of add and remove: when components are added to a live entity
/// that has none of their kinds, and then the same kinds are removed, the
/// entity is back in the archetype it had before, under the same table id;
/// if it had no components before, it has none afterwards.
pub proof fn lemma_add_remove_round_trip<V>(
    start: EntityComponents<V>,
    middle: EntityComponents<V>,
    end: EntityComponents<V>,
    entity: Entity,
    components: ComponentSet<V>,
)
    requires
        start.wf(),
        start.canonical(),
        middle.wf(),
        middle.canonical(),
        components.wf(),
        forall|k: KindId| components.has(k) ==> !start.kinds_of(entity).contains(k),
        start.add_applies(entity, components.kinds()),
        middle.is_add_of(&start, entity, &components),
        middle.remove_applies(entity, components.kinds()),
        end.is_remove_of(&middle, entity, components.kinds()),
    ensures
        end.table_id(entity) == start.table_id(entity),
        forall|k: KindId| end.kinds_of(entity).contains(k) <==> start.kinds_of(entity).contains(k),
        forall|k: KindId|
            start.kinds_of(entity).contains(k) ==> #[trigger] end.component(entity, k) == start.component(
                entity,
                k,
            ),
{
    let kept = middle.remove_target(entity, components.kinds());
    let before = start.kinds_of(entity);
    crate::kind::lemma_filter_contains(
        middle.kinds_of(entity),
        |k: KindId| !components.kinds().contains(k),
    );
    assert forall|k: KindId| kept.contains(k) <==> before.contains(k) by {
        if before.contains(k) {
            assert(middle.kinds_of(entity).contains(k));
            assert(!components.has(k));
        }
        if kept.contains(k) {
            assert(middle.kinds_of(entity).contains(k) && !components.kinds().contains(k));
            assert(!components.has(k));
        }
    }
    assert forall|k: KindId| end.kinds_of(entity).contains(k) <==> before.contains(k) by {
        if before.contains(k) {
            assert(middle.kinds_of(entity).contains(k));
            assert(!components.has(k));
        }
        if end.kinds_of(entity).contains(k) {
            assert(middle.kinds_of(entity).contains(k) && !components.kinds().contains(k));
        }
    }
    if start.table_id(entity).invalid_spec() {
        assert(kept.len() == 0) by {
            if kept.len() > 0 {
                assert(kept.contains(kept[0]));
            }
        }
    } else {
        assert(start.placed(entity));
        let home = start.table_at(start.table_id(entity));
        assert(start.tables@[home].canonical());
        assert(start.tables@[home].wf());
        assert(before.contains(before[0]));
        assert(kept.contains(before[0]));
        assert(middle.placed(entity));
        let there = middle.table_at(middle.table_id(entity));
        assert(middle.tables@[there].wf());
        crate::kind::lemma_filter_distinct(
            middle.kinds_of(entity),
            |k: KindId| !components.kinds().contains(k),
        );
        crate::table_id::lemma_table_id_same_kinds(kept, before);
    }
}

/// Round trip of add and remove where the added kinds cover all that the
/// entity had: after the removal the entity has no components and no table.
pub proof fn lemma_add_remove_all<V>(
    start: EntityComponents<V>,
    middle: EntityComponents<V>,
    end: EntityComponents<V>,
    entity: Entity,
    components: ComponentSet<V>,
)
    requires
        start.wf(),
        middle.wf(),
        components.wf(),
        kinds_within(start.kinds_of(entity), components.kinds()),
        start.add_applies(entity, components.kinds()),
        middle.is_add_of(&start, entity, &components),
        end.is_remove_of(&middle, entity, components.kinds()),
    ensures
        middle.remove_applies(entity, components.kinds()),
        end.live(entity),
        end.table_id(entity).invalid_spec(),
        end.kinds_of(entity).len() == 0,
{
    let kept = middle.remove_target(entity, components.kinds());
    crate::kind::lemma_filter_contains(
        middle.kinds_of(entity),
        |k: KindId| !components.kinds().contains(k),
    );
    assert(kept.len() == 0) by {
        if kept.len() > 0 {
            let k = kept[0];
            assert(kept.contains(k));
            assert(middle.kinds_of(entity).contains(k) && !components.kinds().contains(k));
            assert(!components.has(k));
            assert(start.kinds_of(entity).contains(k));
        }
    }
    let k0 = components.kinds()[0];
    assert(components.kinds().contains(k0));
    assert(components.has(k0));
    assert(middle.kinds_of(entity).contains(k0));
    assert(!middle.table_id(entity).invalid_spec()) by {
        if middle.table_id(entity).invalid_spec() {
            assert(middle.kinds_of(entity) == Seq::<KindId>::empty());
            let j = middle.kinds_of(entity).index_of(k0);
            assert(0 <= j < 0);
        }
    }
}

} // verus!
