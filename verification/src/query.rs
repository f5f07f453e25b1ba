//! Queries: views over the archetype set that yield, entity by entity, the
//! components that an extractor names.

use vstd::prelude::*;

use crate::archetypes::EntityComponents;
use crate::entity::Entity;
use crate::filter::{Filter, FilterError, FilterType};
use crate::kind::KindId;
use crate::system::ParamType;
use crate::table::Table;
use crate::table_id::TableId;

verus! {

/// One term of an extractor: a kind, the access to it, and whether the
/// query takes archetypes without the kind as well.
#[derive(Debug, Clone, Copy, PartialEq, Eq)]
pub struct ExtractTerm {
    pub kind: KindId,
    pub name: &'static str,
    pub exclusive: bool,
    pub optional: bool,
}

impl ExtractTerm {
    /// Shared access to a kind that the archetype must have.
    pub fn shared(kind: KindId, name: &'static str) -> (r: Self)
        ensures
            r == (ExtractTerm { kind, name, exclusive: false, optional: false }),
    {
        Self { kind, name, exclusive: false, optional: false }
    }

    /// Exclusive access to a kind that the archetype must have.
    pub fn exclusive(kind: KindId, name: &'static str) -> (r: Self)
        ensures
            r == (ExtractTerm { kind, name, exclusive: true, optional: false }),
    {
        Self { kind, name, exclusive: true, optional: false }
    }

    /// The same access to a kind that the archetype may lack.
    pub fn optional(self) -> (r: Self)
        ensures
            r == (ExtractTerm { optional: true, ..self }),
    {
        Self { kind: self.kind, name: self.name, exclusive: self.exclusive, optional: true }
    }

    /// The entry of the footprint that the term stands for.
    pub open spec fn param(self) -> ParamType {
        if self.exclusive {
            ParamType::Mut(self.kind, self.name)
        } else {
            ParamType::Shared(self.kind, self.name)
        }
    }
}

/// Why a query cannot be made.
#[derive(Debug, Clone, Copy, PartialEq, Eq)]
pub enum QueryError {
    /// Two terms of the extractor name one kind.
    DuplicateKind(KindId),
    /// Every term of the extractor is optional.
    OnlyOptional,
    /// Two conditions of the filter rule each other out.
    Filter(FilterError),
    /// The filter rules out a kind that the extractor names.
    ExtractedKindExcluded(KindId),
}

/// An extractor: the components that a query yields for each entity.
#[derive(Debug, Clone)]
pub struct Extract {
    pub terms: Vec<ExtractTerm>,
}

impl Extract {
    /// The kinds of the terms, in their order.
    pub open spec fn kinds(&self) -> Seq<KindId> {
        Seq::new(self.terms@.len(), |j: int| self.terms@[j].kind)
    }

    /// Whether an archetype of `kinds` has what the extractor requires:
    /// every kind of a term that is not optional.
    pub open spec fn fits(&self, kinds: Seq<KindId>) -> bool {
        forall|j: int|
            0 <= j < self.terms@.len() && !(#[trigger] self.terms@[j]).optional ==> kinds.contains(
                self.terms@[j].kind,
            )
    }

    /// Whether no two terms name one kind and not every term is optional.
    pub open spec fn valid(&self) -> bool {
        &&& self.kinds().no_duplicates()
        &&& exists|j: int| 0 <= j < self.terms@.len() && !(#[trigger] self.terms@[j]).optional
    }

    /// The terms at `i` and `j` are the first two that name one kind: first
    /// by the place of the first term, then by the place of the second.
    pub open spec fn first_duplicate(&self, i: int, j: int) -> bool {
        &&& 0 <= i < j < self.terms@.len()
        &&& self.kinds()[i] == self.kinds()[j]
        &&& forall|a: int, b: int|
            0 <= a < b < self.terms@.len() && (a < i || (a == i && b < j)) ==> self.kinds()[a]
                != self.kinds()[b]
    }

    /// An extractor of `terms`.
    pub fn new(terms: Vec<ExtractTerm>) -> (r: Self)
        ensures
            r.terms == terms,
    {
        Self { terms }
    }

    /// The footprint of the extractor: one entry per term.
    pub fn types(&self) -> (r: Vec<ParamType>)
        ensures
            r@.len() == self.terms@.len(),
            forall|j: int| 0 <= j < self.terms@.len() ==> r@[j] == (#[trigger] self.terms@[j]).param(),
    {
        let mut out: Vec<ParamType> = Vec::new();
        let mut j: usize = 0;
        while j < self.terms.len()
            invariant
                j <= self.terms@.len(),
                out@.len() == j,
                forall|m: int| 0 <= m < j ==> out@[m] == (#[trigger] self.terms@[m]).param(),
            decreases self.terms@.len() - j,
        {
            let term = self.terms[j];
            if term.exclusive {
                out.push(ParamType::new_mut(term.kind, term.name));
            } else {
                out.push(ParamType::new_shared(term.kind, term.name));
            }
            j += 1;
        }
        out
    }

    /// Checks that no two terms name one kind and that not every term is
    /// optional.
    pub fn validate(&self) -> (r: Result<(), QueryError>)
        ensures
            r is Ok == self.valid(),
            r matches Err(e) ==> (e is OnlyOptional && self.kinds().no_duplicates()) || (
            e matches QueryError::DuplicateKind(kind) && exists|i: int, j: int|
                self.first_duplicate(i, j) && kind == self.kinds()[i]),
    {
        let mut required = false;
        let mut i: usize = 0;
        while i < self.terms.len()
            invariant
                i <= self.terms@.len(),
                forall|a: int, b: int|
                    0 <= a < b < self.terms@.len() && a < i ==> self.kinds()[a] != self.kinds()[b],
                required == exists|j: int| 0 <= j < i && !(#[trigger] self.terms@[j]).optional,
            decreases self.terms@.len() - i,
        {
            let mut j: usize = i + 1;
            while j < self.terms.len()
                invariant
                    i < j <= self.terms@.len(),
                    forall|a: int, b: int|
                        0 <= a < b < self.terms@.len() && a < i ==> self.kinds()[a]
                            != self.kinds()[b],
                    forall|b: int| i < b < j ==> self.kinds()[i as int] != self.kinds()[b],
                decreases self.terms@.len() - j,
            {
                if self.terms[i].kind == self.terms[j].kind {
                    assert(self.kinds()[i as int] == self.kinds()[j as int]);
                    assert(self.first_duplicate(i as int, j as int));
                    return Err(QueryError::DuplicateKind(self.terms[i].kind));
                }
                j += 1;
            }
            if !self.terms[i].optional {
                required = true;
            }
            i += 1;
        }
        if required {
            Ok(())
        } else {
            Err(QueryError::OnlyOptional)
        }
    }

    /// The access to `table` that the extractor asks for: for each term the
    /// column of its kind. Refused if the table lacks a kind that a term
    /// requires.
    pub fn extract<V>(&self, table: &Table<V>, position: usize) -> (r: Result<TableAccess, ()>)
        requires
            table.kinds().no_duplicates(),
        ensures
            r is Ok == self.fits(table.kinds()),
            r matches Ok(access) ==> access.table_id == table.id && access.position == position
                && access.reads(self, table),
    {
        let mut rows: Vec<Option<usize>> = Vec::new();
        let mut j: usize = 0;
        while j < self.terms.len()
            invariant
                j <= self.terms@.len(),
                table.kinds().no_duplicates(),
                rows@.len() == j,
                forall|m: int|
                    0 <= m < j && !(#[trigger] self.terms@[m]).optional ==> table.kinds().contains(
                        self.terms@[m].kind,
                    ),
                forall|m: int|
                    0 <= m < j ==> match #[trigger] rows@[m] {
                        Some(row) => table.has_kind(self.terms@[m].kind) && row
                            == table.kinds().index_of(self.terms@[m].kind),
                        None => !table.has_kind(self.terms@[m].kind),
                    },
            decreases self.terms@.len() - j,
        {
            let found = table.find_row(self.terms[j].kind);
            if found.is_none() && !self.terms[j].optional {
                return Err(());
            }
            rows.push(found);
            j += 1;
        }
        Ok(TableAccess { table_id: table.id(), position, rows })
    }
}

/// The access of a query to one table: where the table is, and for each
/// term of the extractor the index of the column of its kind, if the table
/// has one.
#[derive(Debug, Clone)]
pub struct TableAccess {
    pub table_id: TableId,
    pub position: usize,
    pub rows: Vec<Option<usize>>,
}

impl TableAccess {
    /// The access names, term by term, the columns of `table` that `extract`
    /// asks for.
    pub open spec fn reads<V>(&self, extract: &Extract, table: &Table<V>) -> bool {
        &&& self.rows@.len() == extract.terms@.len()
        &&& forall|j: int|
            0 <= j < extract.terms@.len() ==> match #[trigger] self.rows@[j] {
                Some(row) => table.has_kind(extract.terms@[j].kind) && row
                    == table.kinds().index_of(extract.terms@[j].kind),
                None => !table.has_kind(extract.terms@[j].kind),
            }
    }

    #[inline]
    pub fn table_id(&self) -> (r: TableId)
        ensures
            r == self.table_id,
    {
        self.table_id
    }
}

/// What a query yields for the entity in `slot` of `table`: for each term
/// the entity's component of the term's kind, or nothing where the table
/// lacks the kind.
pub open spec fn item_of<V>(extract: &Extract, table: &Table<V>, slot: int) -> Seq<Option<V>> {
    Seq::new(
        extract.terms@.len(),
        |j: int|
            if table.has_kind(extract.terms@[j].kind) {
                Some(table.column(extract.terms@[j].kind)[slot])
            } else {
                None
            },
    )
}

/// What a query yields for `table`: the items of its entities, slot by
/// slot.
pub open spec fn items_of<V>(extract: &Extract, table: &Table<V>) -> Seq<Seq<Option<V>>> {
    Seq::new(table.entities@.len(), |slot: int| item_of(extract, table, slot))
}

/// `got` holds references to exactly the components of `item`.
pub open spec fn refers_to<V>(got: Seq<Option<&V>>, item: Seq<Option<V>>) -> bool {
    &&& got.len() == item.len()
    &&& forall|j: int|
        0 <= j < item.len() ==> match #[trigger] got[j] {
            Some(v) => item[j] == Some(*v),
            None => item[j] is None,
        }
}

/// A query over an archetype set: the tables that are not empty, that the
/// filter takes in, and that have what the extractor requires, in the order
/// of the set.
pub struct Query<'a, V, F: Filter> {
    pub tables: Vec<TableAccess>,
    pub set: &'a EntityComponents<V>,
    pub extract: Extract,
    pub filter: F,
}

impl<'a, V, F: Filter> Query<'a, V, F> {
    /// Whether the query takes in `table`.
    pub open spec fn takes(extract: &Extract, filter: &F, table: &Table<V>) -> bool {
        &&& table.entities@.len() > 0
        &&& filter.admits(table.kinds())
        &&& extract.fits(table.kinds())
    }

    /// The indices of the tables among the first `n` of `tables` that the
    /// query takes in, in increasing order.
    pub open spec fn matched(extract: &Extract, filter: &F, tables: Seq<Table<V>>, n: int) -> Seq<
        int,
    >
        decreases n,
    {
        if n <= 0 {
            Seq::empty()
        } else if Self::takes(extract, filter, &tables[n - 1]) {
            Self::matched(extract, filter, tables, n - 1).push(n - 1)
        } else {
            Self::matched(extract, filter, tables, n - 1)
        }
    }

    /// `accesses` are the accesses to the tables that the query takes in.
    pub open spec fn accesses_match(
        accesses: Seq<TableAccess>,
        extract: &Extract,
        filter: &F,
        tables: Seq<Table<V>>,
        n: int,
    ) -> bool {
        let matched = Self::matched(extract, filter, tables, n);
        &&& accesses.len() == matched.len()
        &&& forall|m: int|
            0 <= m < matched.len() ==> {
                &&& 0 <= #[trigger] matched[m] < n
                &&& accesses[m].position == matched[m]
                &&& accesses[m].table_id == tables[matched[m]].id
                &&& accesses[m].reads(extract, &tables[matched[m]])
            }
    }

    /// The query is one over its set.
    pub open spec fn wf(&self) -> bool {
        &&& self.set.wf()
        &&& Self::accesses_match(
            self.tables@,
            &self.extract,
            &self.filter,
            self.set.tables@,
            self.set.tables@.len() as int,
        )
    }

    /// Whether the extractor and the filter make a query: the extractor is
    /// valid, no two conditions of the filter rule each other out, and the
    /// filter rules out no kind that the extractor names.
    pub open spec fn valid(extract: &Extract, filter: &F) -> bool {
        &&& extract.valid()
        &&& FilterType::consistent(filter.conditions())
        &&& forall|j: int, c: int|
            0 <= j < extract.terms@.len() && 0 <= c < filter.conditions().len() ==> !(
            #[trigger] filter.conditions()[c] is Not && filter.conditions()[c].kind() == (
            #[trigger] extract.terms@[j]).kind)
    }

    /// Checks that the extractor and the filter make a query: first the
    /// extractor, then the filter, then the one against the other.
    pub fn validate(extract: &Extract, filter: &F) -> (r: Result<(), QueryError>)
        ensures
            r is Ok == Self::valid(extract, filter),
            r matches Err(e) ==> {
                if !extract.valid() {
                    e is DuplicateKind || e is OnlyOptional
                } else if !FilterType::consistent(filter.conditions()) {
                    e matches QueryError::Filter(clash) && exists|i: int, j: int|
                        FilterType::first_clash(filter.conditions(), i, j) && clash.0
                            == filter.conditions()[i] && clash.1 == filter.conditions()[j]
                } else {
                    e matches QueryError::ExtractedKindExcluded(kind) && extract.kinds().contains(
                        kind,
                    ) && exists|c: int|
                        0 <= c < filter.conditions().len() && #[trigger] filter.conditions()[c]
                            is Not && filter.conditions()[c].kind() == kind
                }
            },
    {
        match extract.validate() {
            Err(e) => {
                return Err(e);
            },
            Ok(()) => {},
        }
        let conditions = filter.types();
        match FilterType::validate(conditions.as_slice()) {
            Err(e) => {
                return Err(QueryError::Filter(e));
            },
            Ok(()) => {},
        }
        let mut j: usize = 0;
        while j < extract.terms.len()
            invariant
                j <= extract.terms@.len(),
                conditions@ == filter.conditions(),
                extract.valid(),
                FilterType::consistent(conditions@),
                forall|x: int, c: int|
                    0 <= x < j && 0 <= c < conditions@.len() ==> !(#[trigger] conditions@[c] is Not
                        && conditions@[c].kind() == (#[trigger] extract.terms@[x]).kind),
            decreases extract.terms@.len() - j,
        {
            let mut c: usize = 0;
            while c < conditions.len()
                invariant
                    j < extract.terms@.len(),
                    c <= conditions@.len(),
                    conditions@ == filter.conditions(),
                    extract.valid(),
                    FilterType::consistent(conditions@),
                    forall|y: int|
                        0 <= y < c ==> !(#[trigger] conditions@[y] is Not && conditions@[y].kind()
                            == extract.terms@[j as int].kind),
                decreases conditions@.len() - c,
            {
                match conditions[c] {
                    FilterType::Not(kind, _) => {
                        if kind == extract.terms[j].kind {
                            assert(extract.kinds()[j as int] == kind);
                            assert(extract.kinds().contains(kind));
                            assert(filter.conditions()[c as int] is Not && filter.conditions()[
                            c as int].kind() == kind);
                            return Err(QueryError::ExtractedKindExcluded(kind));
                        }
                    },
                    FilterType::Has(_, _) => {},
                }
                c += 1;
            }
            j += 1;
        }
        Ok(())
    }

    /// The accesses to the tables that the query takes in; none if it takes
    /// in no table.
    #[inline]
    pub fn extract_tables(tables: &Vec<Table<V>>, extract: &Extract, filter: &F) -> (r: Option<
        Vec<TableAccess>,
    >)
        requires
            forall|t: int| 0 <= t < tables@.len() ==> (#[trigger] tables@[t]).kinds().no_duplicates(),
        ensures
            r is Some == (Self::matched(extract, filter, tables@, tables@.len() as int).len() > 0),
            r matches Some(accesses) ==> Self::accesses_match(
                accesses@,
                extract,
                filter,
                tables@,
                tables@.len() as int,
            ),
    {
        if tables.len() == 0 {
            return None;
        }
        let mut out: Vec<TableAccess> = Vec::new();
        let mut t: usize = 0;
        while t < tables.len()
            invariant
                t <= tables@.len(),
                forall|u: int|
                    0 <= u < tables@.len() ==> (#[trigger] tables@[u]).kinds().no_duplicates(),
                Self::accesses_match(out@, extract, filter, tables@, t as int),
            decreases tables@.len() - t,
        {
            let table = &tables[t];
            if !table.is_empty() && filter.check(table) {
                match extract.extract(table, t) {
                    Ok(access) => {
                        out.push(access);
                    },
                    Err(_) => {},
                }
            }
            t += 1;
        }
        if out.len() == 0 {
            return None;
        }
        Some(out)
    }

    /// A query over `set` with the given extractor and filter; none if it
    /// takes in no table.
    pub fn new(set: &'a EntityComponents<V>, extract: Extract, filter: F) -> (r: Option<Self>)
        requires
            set.wf(),
            Self::valid(&extract, &filter),
        ensures
            r is Some == (Self::matched(
                &extract,
                &filter,
                set.tables@,
                set.tables@.len() as int,
            ).len() > 0),
            r matches Some(q) ==> q.wf() && q.set == set && q.extract == extract && q.filter
                == filter,
    {
        proof {
            assert forall|t: int| 0 <= t < set.tables@.len() implies (
            #[trigger] set.tables@[t]).kinds().no_duplicates() by {
                assert(set.tables@[t].wf());
            }
        }
        match Self::extract_tables(&set.tables, &extract, &filter) {
            Some(tables) => Some(Self { tables, set, extract, filter }),
            None => None,
        }
    }

    /// The number of tables that the query takes in.
    #[inline]
    pub fn table_count(&self) -> (r: usize)
        ensures
            r == self.tables@.len(),
    {
        self.tables.len()
    }

    /// What the query yields for slot `slot` of the table behind `access`.
    fn item(&self, access: &TableAccess, slot: usize) -> (r: Vec<Option<&'a V>>)
        requires
            self.set.wf(),
            access.position < self.set.tables@.len(),
            access.reads(&self.extract, &self.set.tables@[access.position as int]),
            slot < self.set.tables@[access.position as int].entities@.len(),
        ensures
            refers_to(
                r@,
                item_of(&self.extract, &self.set.tables@[access.position as int], slot as int),
            ),
    {
        let set: &'a EntityComponents<V> = self.set;
        let table = &set.tables[access.position];
        assert(table.wf());
        let mut out: Vec<Option<&'a V>> = Vec::new();
        let mut j: usize = 0;
        while j < access.rows.len()
            invariant
                j <= access.rows@.len(),
                table.wf(),
                access.position < self.set.tables@.len(),
                *table == self.set.tables@[access.position as int],
                access.reads(&self.extract, table),
                slot < table.entities@.len(),
                out@.len() == j,
                forall|m: int|
                    0 <= m < j ==> match #[trigger] out@[m] {
                        Some(v) => item_of(&self.extract, table, slot as int)[m] == Some(*v),
                        None => item_of(&self.extract, table, slot as int)[m] is None,
                    },
            decreases access.rows@.len() - j,
        {
            let ghost kind = self.extract.terms@[j as int].kind;
            let ghost expected = item_of(&self.extract, table, slot as int);
            proof {
                assert(match access.rows@[j as int] {
                    Some(row) => table.has_kind(kind) && row == table.kinds().index_of(kind),
                    None => !table.has_kind(kind),
                });
            }
            match access.rows[j] {
                Some(row) => {
                    proof {
                        let i = table.kinds().index_of(kind);
                        assert(0 <= i < table.kinds().len() && table.kinds()[i] == kind);
                        assert(table.rows@[i].components@.len() == table.entities@.len());
                        assert(expected[j as int] == Some(table.column(kind)[slot as int]));
                        assert(row as int == i);
                    }
                    let ghost before = out@;
                    let value = &table.rows[row].components[slot];
                    out.push(Some(value));
                    proof {
                        assert(out@[j as int] == Some(value));
                        assert(*value == table.column(kind)[slot as int]);
                        assert forall|m: int| 0 <= m < j implies out@[m] == before[m] by {}
                    }
                },
                None => {
                    assert(expected[j as int] is None);
                    out.push(None);
                },
            }
            j += 1;
        }
        out
    }

    /// The components of `entity` that the extractor names; none if the
    /// entity is not the current holder of its position, has no components,
    /// or is in a table that the query does not take in.
    pub fn get_entity_components(&self, entity: &Entity) -> (r: Option<Vec<Option<&'a V>>>)
        requires
            self.wf(),
        ensures
            r is Some == (self.set.placed(*entity) && Self::takes(
                &self.extract,
                &self.filter,
                &self.set.table(self.set.table_id(*entity)),
            )),
            r matches Some(item) ==> refers_to(
                item@,
                item_of(
                    &self.extract,
                    &self.set.table(self.set.table_id(*entity)),
                    self.set.table(self.set.table_id(*entity)).slot_of(*entity),
                ),
            ),
    {
        let set: &'a EntityComponents<V> = self.set;
        let id = entity.id();
        if id >= set.entities.len() {
            return None;
        }
        let generation = set.entities[id].0;
        let table_id = set.entities[id].1;
        if generation != entity.generation() {
            return None;
        }
        if table_id.is_invalid() {
            return None;
        }
        assert(set.placed(*entity));
        let ghost home = set.table_at(table_id);
        proof {
            set.lemma_table_at(home);
            Self::lemma_matched(
                &self.extract,
                &self.filter,
                set.tables@,
                set.tables@.len() as int,
                home,
            );
        }
        let mut m: usize = 0;
        while m < self.tables.len()
            invariant
                m <= self.tables@.len(),
                self.wf(),
                set == self.set,
                set.placed(*entity),
                table_id == set.table_id(*entity),
                home == set.table_at(table_id),
                0 <= home < set.tables@.len(),
                set.tables@[home].id == table_id,
                set.tables@[home] == set.table(table_id),
                Self::matched(
                    &self.extract,
                    &self.filter,
                    set.tables@,
                    set.tables@.len() as int,
                ).contains(home) == Self::takes(&self.extract, &self.filter, &set.tables@[home]),
                forall|x: int| 0 <= x < m ==> (#[trigger] self.tables@[x]).table_id != table_id,
            decreases self.tables@.len() - m,
        {
            if self.tables[m].table_id() == table_id {
                let access = &self.tables[m];
                let ghost matched = Self::matched(
                    &self.extract,
                    &self.filter,
                    set.tables@,
                    set.tables@.len() as int,
                );
                proof {
                    assert(0 <= matched[m as int] < set.tables@.len());
                    assert(set.tables@[matched[m as int]].id == set.tables@[home].id);
                    assert(matched[m as int] == home);
                    assert(matched.contains(home));
                    assert(set.tables@[home].wf());
                }
                let table = &set.tables[access.position];
                let slot = table.get_entity_position(entity);
                let item = self.item(access, slot);
                return Some(item);
            }
            m += 1;
        }
        proof {
            let matched = Self::matched(
                &self.extract,
                &self.filter,
                set.tables@,
                set.tables@.len() as int,
            );
            if matched.contains(home) {
                let x = matched.index_of(home);
                assert(self.tables@[x].table_id == table_id);
            }
        }
        None
    }

    /// The index of a table is among the matched exactly if the query takes
    /// the table in.
    pub proof fn lemma_matched(extract: &Extract, filter: &F, tables: Seq<Table<V>>, n: int, t: int)
        requires
            0 <= t < n <= tables.len(),
        ensures
            Self::matched(extract, filter, tables, n).contains(t) == Self::takes(
                extract,
                filter,
                &tables[t],
            ),
            forall|m: int|
                0 <= m < Self::matched(extract, filter, tables, n).len() ==> 0 <= #[trigger] Self::matched(
                    extract,
                    filter,
                    tables,
                    n,
                )[m] < n,
        decreases n,
    {
        let all = Self::matched(extract, filter, tables, n);
        let front = Self::matched(extract, filter, tables, n - 1);
        if t < n - 1 {
            Self::lemma_matched(extract, filter, tables, n - 1, t);
            if front.contains(t) {
                let x = front.index_of(t);
                assert(all[x] == t);
            }
            if all.contains(t) {
                let x = all.index_of(t);
                if x < front.len() {
                    assert(front[x] == t);
                }
            }
        } else {
            if n - 1 > 0 {
                Self::lemma_matched(extract, filter, tables, n - 1, 0);
            }
            if Self::takes(extract, filter, &tables[n - 1]) {
                assert(all[front.len() as int] == t);
            } else {
                if all.contains(t) {
                    let x = all.index_of(t);
                    assert(front[x] < n - 1);
                }
            }
        }
    }

    /// What the query yields in all: table by table, in the order of the
    /// set, the items of the entities, slot by slot.
    pub open spec fn all_items(&self, n: int) -> Seq<Seq<Option<V>>>
        decreases n,
    {
        if n <= 0 {
            Seq::empty()
        } else {
            self.all_items(n - 1) + items_of(
                &self.extract,
                &self.set.tables@[self.tables@[n - 1].position as int],
            )
        }
    }

    /// Everything that the query yields, in order.
    pub fn iter(&self) -> (r: Vec<Vec<Option<&'a V>>>)
        requires
            self.wf(),
        ensures
            r@.len() == self.all_items(self.tables@.len() as int).len(),
            forall|i: int|
                0 <= i < r@.len() ==> refers_to(
                    (#[trigger] r@[i])@,
                    self.all_items(self.tables@.len() as int)[i],
                ),
    {
        let set: &'a EntityComponents<V> = self.set;
        let mut out: Vec<Vec<Option<&'a V>>> = Vec::new();
        let mut m: usize = 0;
        while m < self.tables.len()
            invariant
                m <= self.tables@.len(),
                self.wf(),
                set == self.set,
                out@.len() == self.all_items(m as int).len(),
                forall|i: int|
                    0 <= i < out@.len() ==> refers_to(
                        (#[trigger] out@[i])@,
                        self.all_items(m as int)[i],
                    ),
            decreases self.tables@.len() - m,
        {
            let access = &self.tables[m];
            let ghost matched = Self::matched(
                &self.extract,
                &self.filter,
                set.tables@,
                set.tables@.len() as int,
            );
            proof {
                assert(0 <= matched[m as int] < set.tables@.len());
            }
            let table = &set.tables[access.position];
            let ghost before = out@;
            let mut slot: usize = 0;
            while slot < table.len()
                invariant
                    slot <= table.entities@.len(),
                    m < self.tables@.len(),
                    self.wf(),
                    set == self.set,
                    *access == self.tables@[m as int],
                    access.position < set.tables@.len(),
                    *table == set.tables@[access.position as int],
                    access.reads(&self.extract, table),
                    before.len() == self.all_items(m as int).len(),
                    out@.len() == before.len() + slot,
                    forall|i: int| 0 <= i < before.len() ==> out@[i] == before[i],
                    forall|i: int|
                        0 <= i < before.len() ==> refers_to(
                            (#[trigger] before[i])@,
                            self.all_items(m as int)[i],
                        ),
                    forall|s: int|
                        0 <= s < slot ==> refers_to(
                            (#[trigger] out@[before.len() + s])@,
                            item_of(&self.extract, table, s),
                        ),
                decreases table.entities@.len() - slot,
            {
                let item = self.item(access, slot);
                out.push(item);
                slot += 1;
            }
            proof {
                let next = self.all_items(m + 1);
                assert(next == self.all_items(m as int) + items_of(&self.extract, table));
                assert forall|i: int| 0 <= i < out@.len() implies refers_to(
                    (#[trigger] out@[i])@,
                    next[i],
                ) by {
                    if i < before.len() {
                        assert(out@[i] == before[i]);
                    } else {
                        let s = i - before.len();
                        assert(out@[before.len() + s] == out@[i]);
                    }
                }
            }
            m += 1;
        }
        out
    }
}

} // verus!
