//! Filters: which archetypes a query takes in.

use vstd::prelude::*;
use vstd::string::StringExecFns;

use crate::kind::KindId;
use crate::table::Table;

verus! {

/// One condition of a filter: the archetype must have, or must not have,
/// a kind. The second field is the kind's name, for messages.
#[derive(Debug, Clone, Copy, PartialEq, Eq)]
pub enum FilterType {
    Has(KindId, &'static str),
    Not(KindId, &'static str),
}

impl FilterType {
    /// The kind that the condition is about.
    pub open spec fn kind(self) -> KindId {
        match self {
            FilterType::Has(kind, _) => kind,
            FilterType::Not(kind, _) => kind,
        }
    }

    /// Whether no archetype meets both conditions: one asks for a kind that
    /// the other rules out.
    pub open spec fn excludes(self, other: FilterType) -> bool {
        self.kind() == other.kind() && (self is Has) != (other is Has)
    }

    /// Whether some condition of `a` and some condition of `b` cannot both
    /// be met.
    pub open spec fn any_exclusion(a: Seq<FilterType>, b: Seq<FilterType>) -> bool {
        exists|i: int, j: int|
            0 <= i < a.len() && 0 <= j < b.len() && (#[trigger] a[i]).excludes(#[trigger] b[j])
    }

    /// Whether the archetype `kinds` meets the condition.
    pub open spec fn admits(self, kinds: Seq<KindId>) -> bool {
        match self {
            FilterType::Has(kind, _) => kinds.contains(kind),
            FilterType::Not(kind, _) => !kinds.contains(kind),
        }
    }

    #[inline]
    pub fn new_has(kind: KindId, name: &'static str) -> (r: Self)
        ensures
            r == FilterType::Has(kind, name),
    {
        Self::Has(kind, name)
    }

    #[inline]
    pub fn new_not(kind: KindId, name: &'static str) -> (r: Self)
        ensures
            r == FilterType::Not(kind, name),
    {
        Self::Not(kind, name)
    }

    #[inline]
    pub fn raw_type(&self) -> (r: KindId)
        ensures
            r == self.kind(),
    {
        match self {
            Self::Has(kind, _) => *kind,
            Self::Not(kind, _) => *kind,
        }
    }

    #[inline]
    pub fn name(&self) -> (r: &'static str)
        ensures
            r == match *self {
                FilterType::Has(_, name) => name,
                FilterType::Not(_, name) => name,
            },
    {
        match self {
            Self::Has(_, name) => *name,
            Self::Not(_, name) => *name,
        }
    }

    /// Whether the two conditions cannot both be met.
    pub fn excludes_one(&self, other: &Self) -> (r: bool)
        ensures
            r == self.excludes(*other),
    {
        match (self, other) {
            (Self::Has(t1, _), Self::Not(t2, _)) => *t1 == *t2,
            (Self::Not(t1, _), Self::Has(t2, _)) => *t1 == *t2,
            _ => false,
        }
    }

    /// Whether two filters keep their queries apart: no archetype passes
    /// both, because one asks for a kind that the other rules out.
    pub fn prevents_overlapping(a: &[Self], b: &[Self]) -> (r: bool)
        ensures
            r == Self::any_exclusion(a@, b@),
    {
        let mut i: usize = 0;
        while i < a.len()
            invariant
                i <= a.len(),
                forall|x: int, y: int|
                    0 <= x < i && 0 <= y < b.len() ==> !(#[trigger] a@[x]).excludes(
                        #[trigger] b@[y],
                    ),
            decreases a.len() - i,
        {
            let mut j: usize = 0;
            while j < b.len()
                invariant
                    i < a.len(),
                    j <= b.len(),
                    forall|y: int| 0 <= y < j ==> !a@[i as int].excludes(#[trigger] b@[y]),
                decreases b.len() - j,
            {
                if a[i].excludes_one(&b[j]) {
                    return true;
                }
                j += 1;
            }
            i += 1;
        }
        false
    }

    /// The first pair of conditions of `types`, at two different places,
    /// that cannot both be met: first by the place of the first condition,
    /// then by the place of the second.
    pub open spec fn first_clash(types: Seq<FilterType>, i: int, j: int) -> bool {
        &&& 0 <= i < types.len()
        &&& 0 <= j < types.len()
        &&& i != j
        &&& types[i].excludes(types[j])
        &&& forall|x: int, y: int|
            0 <= x < types.len() && 0 <= y < types.len() && x != y && (x < i || (x == i && y < j))
                ==> !(#[trigger] types[x]).excludes(#[trigger] types[y])
    }

    /// Whether no two conditions of `types` rule each other out.
    pub open spec fn consistent(types: Seq<FilterType>) -> bool {
        forall|x: int, y: int|
            0 <= x < types.len() && 0 <= y < types.len() && x != y ==> !(
            #[trigger] types[x]).excludes(#[trigger] types[y])
    }

    /// Checks that no two conditions rule each other out, and names the
    /// first pair that does.
    pub fn validate(types: &[Self]) -> (r: Result<(), FilterError>)
        ensures
            r is Ok == Self::consistent(types@),
            r matches Err(e) ==> exists|i: int, j: int|
                Self::first_clash(types@, i, j) && e.0 == types@[i] && e.1 == types@[j],
    {
        let mut i: usize = 0;
        while i < types.len()
            invariant
                i <= types.len(),
                forall|x: int, y: int|
                    0 <= x < i && 0 <= y < types.len() && x != y ==> !(
                    #[trigger] types@[x]).excludes(#[trigger] types@[y]),
            decreases types.len() - i,
        {
            let mut j: usize = 0;
            while j < types.len()
                invariant
                    i < types.len(),
                    j <= types.len(),
                    forall|x: int, y: int|
                        0 <= x < i && 0 <= y < types.len() && x != y ==> !(
                        #[trigger] types@[x]).excludes(#[trigger] types@[y]),
                    forall|y: int|
                        0 <= y < j && y != i ==> !types@[i as int].excludes(#[trigger] types@[y]),
                decreases types.len() - j,
            {
                if i != j && types[i].excludes_one(&types[j]) {
                    assert(Self::first_clash(types@, i as int, j as int));
                    return Err(FilterError(types[i], types[j]));
                }
                j += 1;
            }
            i += 1;
        }
        Ok(())
    }
}

/// Two conditions of one filter that rule each other out.
#[derive(Debug, Clone, Copy, PartialEq, Eq)]
pub struct FilterError(pub FilterType, pub FilterType);

impl FilterError {
    /// The message that names the two conditions.
    pub open spec fn message_spec(&self) -> Seq<char> {
        "Filter conflict between: ["@ + self.0.name_spec()@ + "] <-> ["@ + self.1.name_spec()@
            + "]\n"@
    }

    /// The message that names the two conditions.
    pub fn message(&self) -> (r: String)
        ensures
            r@ == self.message_spec(),
    {
        let mut out = String::from_str("Filter conflict between: [");
        out.append(self.0.name());
        out.append("] <-> [");
        out.append(self.1.name());
        out.append("]\n");
        out
    }
}

impl FilterType {
    /// The name of the kind that the condition is about.
    pub open spec fn name_spec(self) -> &'static str {
        match self {
            FilterType::Has(_, name) => name,
            FilterType::Not(_, name) => name,
        }
    }
}

/// A filter decides, by the kinds of an archetype alone, whether a query
/// takes the archetype in.
pub trait Filter {
    /// The conditions that the filter is made of.
    spec fn conditions(&self) -> Seq<FilterType>;

    /// Whether the filter takes in the archetype `kinds`.
    spec fn admits(&self, kinds: Seq<KindId>) -> bool;

    /// The conditions that the filter is made of.
    fn types(&self) -> (r: Vec<FilterType>)
        ensures
            r@ == self.conditions(),
    ;

    /// Whether the filter takes in `table`.
    fn check<V>(&self, table: &Table<V>) -> (r: bool)
        ensures
            r == self.admits(table.kinds()),
    ;
}

/// Takes in the archetypes that have the kind.
#[derive(Debug, Clone, Copy)]
pub struct With {
    pub kind: KindId,
    pub name: &'static str,
}

impl Filter for With {
    open spec fn conditions(&self) -> Seq<FilterType> {
        seq![FilterType::Has(self.kind, self.name)]
    }

    open spec fn admits(&self, kinds: Seq<KindId>) -> bool {
        kinds.contains(self.kind)
    }

    #[inline]
    fn types(&self) -> (r: Vec<FilterType>) {
        let mut out = Vec::new();
        out.push(FilterType::new_has(self.kind, self.name));
        assert(out@ == self.conditions());
        out
    }

    #[inline]
    fn check<V>(&self, table: &Table<V>) -> (r: bool) {
        table.contains_one(self.kind)
    }
}

/// Takes in the archetypes that do not have the kind.
#[derive(Debug, Clone, Copy)]
pub struct WithOut {
    pub kind: KindId,
    pub name: &'static str,
}

impl Filter for WithOut {
    open spec fn conditions(&self) -> Seq<FilterType> {
        seq![FilterType::Not(self.kind, self.name)]
    }

    open spec fn admits(&self, kinds: Seq<KindId>) -> bool {
        !kinds.contains(self.kind)
    }

    #[inline]
    fn types(&self) -> (r: Vec<FilterType>) {
        let mut out = Vec::new();
        out.push(FilterType::new_not(self.kind, self.name));
        assert(out@ == self.conditions());
        out
    }

    #[inline]
    fn check<V>(&self, table: &Table<V>) -> (r: bool) {
        !table.contains_one(self.kind)
    }
}

/// Takes in the archetypes that one of two filters takes in.
#[derive(Debug, Clone, Copy)]
pub struct Or<F1: Filter, F2: Filter> {
    pub first: F1,
    pub second: F2,
}

impl<F1: Filter, F2: Filter> Filter for Or<F1, F2> {
    open spec fn conditions(&self) -> Seq<FilterType> {
        self.first.conditions() + self.second.conditions()
    }

    open spec fn admits(&self, kinds: Seq<KindId>) -> bool {
        self.first.admits(kinds) || self.second.admits(kinds)
    }

    #[inline]
    fn types(&self) -> (r: Vec<FilterType>) {
        let mut out = self.first.types();
        let mut rest = self.second.types();
        out.append(&mut rest);
        out
    }

    #[inline]
    fn check<V>(&self, table: &Table<V>) -> (r: bool) {
        self.first.check(table) || self.second.check(table)
    }
}

/// The filter that takes in every archetype.
impl Filter for () {
    open spec fn conditions(&self) -> Seq<FilterType> {
        Seq::empty()
    }

    open spec fn admits(&self, kinds: Seq<KindId>) -> bool {
        true
    }

    #[inline]
    fn types(&self) -> (r: Vec<FilterType>) {
        Vec::new()
    }

    #[inline]
    fn check<V>(&self, table: &Table<V>) -> (r: bool) {
        true
    }
}

/// Takes in the archetypes that both filters take in.
impl<F1: Filter, F2: Filter> Filter for (F1, F2) {
    open spec fn conditions(&self) -> Seq<FilterType> {
        self.0.conditions() + self.1.conditions()
    }

    open spec fn admits(&self, kinds: Seq<KindId>) -> bool {
        self.0.admits(kinds) && self.1.admits(kinds)
    }

    #[inline]
    fn types(&self) -> (r: Vec<FilterType>) {
        let mut out = self.0.types();
        let mut rest = self.1.types();
        out.append(&mut rest);
        out
    }

    #[inline]
    fn check<V>(&self, table: &Table<V>) -> (r: bool) {
        self.0.check(table) && self.1.check(table)
    }
}

} // verus!
