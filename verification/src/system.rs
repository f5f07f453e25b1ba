//! Systems as the planner sees them: a callable and its declared footprint.

use vstd::prelude::*;

use crate::filter::FilterType;
use crate::kind::KindId;

verus! {

/// One entry of a footprint: a kind and the access to it, or the whole
/// world. The second field is the kind's name, for messages.
#[derive(Debug, Clone, Copy, PartialEq, Eq, Hash)]
pub enum ParamType {
    Mut(KindId, &'static str),
    Shared(KindId, &'static str),
    World,
}

impl ParamType {
    /// Whether two accesses cannot go on at the same time: access to the
    /// whole world conflicts with everything, and two accesses to one kind
    /// conflict unless both are shared.
    pub open spec fn conflicts_spec(self, other: ParamType) -> bool {
        match (self, other) {
            (ParamType::World, _) => true,
            (_, ParamType::World) => true,
            (ParamType::Shared(_, _), ParamType::Shared(_, _)) => false,
            (ParamType::Mut(a, _), ParamType::Mut(b, _)) => a == b,
            (ParamType::Mut(a, _), ParamType::Shared(b, _)) => a == b,
            (ParamType::Shared(a, _), ParamType::Mut(b, _)) => a == b,
        }
    }

    #[inline]
    pub fn new_mut(kind: KindId, name: &'static str) -> (r: Self)
        ensures
            r == ParamType::Mut(kind, name),
    {
        Self::Mut(kind, name)
    }

    #[inline]
    pub fn new_shared(kind: KindId, name: &'static str) -> (r: Self)
        ensures
            r == ParamType::Shared(kind, name),
    {
        Self::Shared(kind, name)
    }

    /// The kind that is accessed; none for the whole world.
    #[inline]
    pub fn raw_type(&self) -> (r: Option<KindId>)
        ensures
            r == match *self {
                ParamType::Mut(kind, _) => Some(kind),
                ParamType::Shared(kind, _) => Some(kind),
                ParamType::World => None,
            },
    {
        match self {
            Self::Mut(kind, _) => Some(*kind),
            Self::Shared(kind, _) => Some(*kind),
            Self::World => None,
        }
    }

    #[inline]
    pub fn is_world(&self) -> (r: bool)
        ensures
            r == (*self is World),
    {
        matches!(self, Self::World)
    }

    /// The name of what is accessed.
    pub fn name(&self) -> (r: &'static str)
        ensures
            r == match *self {
                ParamType::Mut(_, name) => name,
                ParamType::Shared(_, name) => name,
                ParamType::World => "World",
            },
    {
        match self {
            Self::Mut(_, name) => *name,
            Self::Shared(_, name) => *name,
            Self::World => "World",
        }
    }

    /// Whether the two accesses cannot go on at the same time.
    pub fn conflicts(&self, other: &Self) -> (r: bool)
        ensures
            r == self.conflicts_spec(*other),
    {
        match (self, other) {
            (Self::World, _) => true,
            (_, Self::World) => true,
            (Self::Shared(_, _), Self::Shared(_, _)) => false,
            (Self::Mut(a, _), Self::Mut(b, _)) => *a == *b,
            (Self::Mut(a, _), Self::Shared(b, _)) => *a == *b,
            (Self::Shared(a, _), Self::Mut(b, _)) => *a == *b,
        }
    }

    /// Whether the footprints of the parameters of one system can be had
    /// together: no two entries, at different places, conflict.
    pub open spec fn compatible(params: Seq<Vec<ParamType>>) -> bool {
        forall|p: int, i: int, q: int, j: int|
            0 <= p < params.len() && 0 <= i < params[p]@.len() && 0 <= q < params.len() && 0 <= j
                < params[q]@.len() && (p != q || i != j) ==> !(#[trigger] params[p]@[i]).conflicts_spec(
                #[trigger] params[q]@[j],
            )
    }

    /// The entry `i` of parameter `p` and the entry `j` of parameter `q` are
    /// the first two that conflict: no entry before the first conflicts with
    /// any other, and the first conflicts with no entry before the second.
    pub open spec fn first_conflict(
        params: Seq<Vec<ParamType>>,
        p: int,
        i: int,
        q: int,
        j: int,
    ) -> bool {
        &&& 0 <= p < params.len() && 0 <= i < params[p]@.len()
        &&& 0 <= q < params.len() && 0 <= j < params[q]@.len()
        &&& p != q || i != j
        &&& params[p]@[i].conflicts_spec(params[q]@[j])
        &&& forall|a: int, x: int, b: int, y: int|
            0 <= a < params.len() && 0 <= x < params[a]@.len() && 0 <= b < params.len() && 0 <= y
                < params[b]@.len() && (a != b || x != y) && (a < p || (a == p && x < i)) ==> !(
            #[trigger] params[a]@[x]).conflicts_spec(#[trigger] params[b]@[y])
        &&& forall|b: int, y: int|
            0 <= b < params.len() && 0 <= y < params[b]@.len() && (p != b || i != y) && (b < q || (b
                == q && y < j)) ==> !params[p]@[i].conflicts_spec(#[trigger] params[b]@[y])
    }

    /// Checks the footprints of the parameters of one system against each
    /// other, and names the first two entries that conflict.
    pub fn validate(params: &[Vec<Self>]) -> (r: Result<(), (ParamType, ParamType)>)
        ensures
            r is Ok == Self::compatible(params@),
            r matches Err(pair) ==> exists|p: int, i: int, q: int, j: int|
                Self::first_conflict(params@, p, i, q, j) && pair.0 == params@[p]@[i] && pair.1
                    == params@[q]@[j],
    {
        let mut p: usize = 0;
        while p < params.len()
            invariant
                p <= params.len(),
                forall|a: int, i: int, q: int, j: int|
                    0 <= a < p && 0 <= i < params@[a]@.len() && 0 <= q < params@.len() && 0 <= j
                        < params@[q]@.len() && (a != q || i != j) ==> !(
                    #[trigger] params@[a]@[i]).conflicts_spec(#[trigger] params@[q]@[j]),
            decreases params.len() - p,
        {
            let mut i: usize = 0;
            while i < params[p].len()
                invariant
                    p < params.len(),
                    i <= params@[p as int]@.len(),
                    forall|a: int, x: int, q: int, j: int|
                        0 <= a < p && 0 <= x < params@[a]@.len() && 0 <= q < params@.len() && 0 <= j
                            < params@[q]@.len() && (a != q || x != j) ==> !(
                        #[trigger] params@[a]@[x]).conflicts_spec(#[trigger] params@[q]@[j]),
                    forall|x: int, q: int, j: int|
                        0 <= x < i && 0 <= q < params@.len() && 0 <= j < params@[q]@.len() && (p
                            != q || x != j) ==> !(#[trigger] params@[p as int]@[x]).conflicts_spec(
                            #[trigger] params@[q]@[j],
                        ),
                decreases params@[p as int]@.len() - i,
            {
                let mut q: usize = 0;
                while q < params.len()
                    invariant
                        p < params.len(),
                        i < params@[p as int]@.len(),
                        q <= params.len(),
                        forall|a: int, x: int, b: int, y: int|
                            0 <= a < params@.len() && 0 <= x < params@[a]@.len() && 0 <= b
                                < params@.len() && 0 <= y < params@[b]@.len() && (a != b || x != y)
                                && (a < p || (a == p && x < i)) ==> !(
                            #[trigger] params@[a]@[x]).conflicts_spec(#[trigger] params@[b]@[y]),
                        forall|b: int, j: int|
                            0 <= b < q && 0 <= j < params@[b]@.len() && (p != b || i != j)
                                ==> !params@[p as int]@[i as int].conflicts_spec(
                                #[trigger] params@[b]@[j],
                            ),
                    decreases params.len() - q,
                {
                    let mut j: usize = 0;
                    while j < params[q].len()
                        invariant
                            p < params.len(),
                            i < params@[p as int]@.len(),
                            q < params.len(),
                            j <= params@[q as int]@.len(),
                            forall|a: int, x: int, b: int, y: int|
                                0 <= a < params@.len() && 0 <= x < params@[a]@.len() && 0 <= b
                                    < params@.len() && 0 <= y < params@[b]@.len() && (a != b || x
                                    != y) && (a < p || (a == p && x < i)) ==> !(
                                #[trigger] params@[a]@[x]).conflicts_spec(
                                    #[trigger] params@[b]@[y],
                                ),
                            forall|b: int, y: int|
                                0 <= b < q && 0 <= y < params@[b]@.len() && (p != b || i != y)
                                    ==> !params@[p as int]@[i as int].conflicts_spec(
                                    #[trigger] params@[b]@[y],
                                ),
                            forall|y: int|
                                0 <= y < j && (p != q || i != y)
                                    ==> !params@[p as int]@[i as int].conflicts_spec(
                                    #[trigger] params@[q as int]@[y],
                                ),
                        decreases params@[q as int]@.len() - j,
                    {
                        if (p != q || i != j) && params[p][i].conflicts(&params[q][j]) {
                            assert(Self::first_conflict(
                                params@,
                                p as int,
                                i as int,
                                q as int,
                                j as int,
                            ));
                            return Err((params[p][i], params[q][j]));
                        }
                        j += 1;
                    }
                    q += 1;
                }
                i += 1;
            }
            p += 1;
        }
        Ok(())
    }
}

/// A system: something that can be run, together with what the planner
/// has to know of it. `f` is the callable; the library never calls it.
pub struct FunctionSystem<F> {
    pub f: F,
    /// What the system reads and writes.
    pub types: Vec<ParamType>,
    /// The filters of its queries.
    pub filter: Vec<FilterType>,
    /// Whether the system has to run on the main thread.
    pub local: bool,
}

impl<F> FunctionSystem<F> {
    /// Whether `types` holds access to the whole world.
    pub open spec fn takes_world(types: Seq<ParamType>) -> bool {
        exists|i: int| 0 <= i < types.len() && #[trigger] types[i] is World
    }

    /// A system with the given footprint. It is local if `local` says so or
    /// if it takes the whole world.
    pub fn new(f: F, types: Vec<ParamType>, filter: Vec<FilterType>, local: bool) -> (r: Self)
        ensures
            r.f == f,
            r.types == types,
            r.filter == filter,
            r.local == (local || Self::takes_world(types@)),
    {
        let mut world = false;
        let mut i: usize = 0;
        while i < types.len()
            invariant
                i <= types.len(),
                world == exists|j: int| 0 <= j < i && #[trigger] types@[j] is World,
            decreases types.len() - i,
        {
            if types[i].is_world() {
                world = true;
            }
            i += 1;
        }
        Self { f, types, filter, local: local || world }
    }

    /// What the system reads and writes.
    pub fn get_types(&self) -> (r: &Vec<ParamType>)
        ensures
            r == self.types,
    {
        &self.types
    }

    /// The filters of the system's queries.
    pub fn get_filter(&self) -> (r: &Vec<FilterType>)
        ensures
            r == self.filter,
    {
        &self.filter
    }

    /// Whether the system has to run on the main thread.
    pub fn local(&self) -> (r: bool)
        ensures
            r == self.local,
    {
        self.local
    }
}

} // verus!
