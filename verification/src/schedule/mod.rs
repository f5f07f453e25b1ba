//! Schedules: systems grouped in sets, sets grouped by stage, and for each
//! stage a plan that lays the sets out across threads.

pub mod builder;
pub mod graph;

use vstd::prelude::*;

use crate::filter::FilterType;
use crate::system::{FunctionSystem, ParamType};

pub use builder::{BStage, GraphBuilder, Schedule, ScheduleBuilder, Stage};
pub use graph::{ExecutionGraph, Node, Root, SyncPoint};

verus! {

/// The footprint of one system, as a value: what it reads and writes, and
/// the filters of its queries.
pub struct SystemView {
    pub types: Seq<ParamType>,
    pub filter: Seq<FilterType>,
}

impl SystemView {
    /// Whether two systems may not run at the same time: an access of one
    /// conflicts with an access of the other, and either one of the two is
    /// access to the whole world, or the filters of the two systems do not
    /// keep their queries apart.
    pub open spec fn conflicts(self, other: SystemView) -> bool {
        exists|i: int, j: int|
            0 <= i < self.types.len() && 0 <= j < other.types.len() && (
            #[trigger] self.types[i]).conflicts_spec(#[trigger] other.types[j]) && (self.types[i]
                is World || other.types[j] is World || !FilterType::any_exclusion(
                self.filter,
                other.filter,
            ))
    }
}

/// The footprint of a system set, as a value: the footprints of its
/// systems, and whether the set has to run on the main thread.
pub struct SetView {
    pub systems: Seq<SystemView>,
    pub local: bool,
}

impl SetView {
    /// Whether two sets may not run at the same time: a system of one
    /// conflicts with a system of the other.
    pub open spec fn conflicts(self, other: SetView) -> bool {
        exists|i: int, j: int|
            #![trigger self.systems[i], other.systems[j]]
            0 <= i < self.systems.len() && 0 <= j < other.systems.len()
                && self.systems[i].conflicts(other.systems[j])
    }
}

/// The footprint of one system.
#[derive(Debug, Clone)]
pub struct SystemInfo {
    pub types: Vec<ParamType>,
    pub filter: Vec<FilterType>,
}

impl View for SystemInfo {
    type V = SystemView;

    open spec fn view(&self) -> SystemView {
        SystemView { types: self.types@, filter: self.filter@ }
    }
}

impl SystemInfo {
    /// Whether the two systems may not run at the same time.
    #[inline]
    pub fn conflicts(&self, other: &Self) -> (r: bool)
        ensures
            r == self@.conflicts(other@),
    {
        let apart = FilterType::prevents_overlapping(
            self.filter.as_slice(),
            other.filter.as_slice(),
        );
        let mut i: usize = 0;
        while i < self.types.len()
            invariant
                i <= self.types@.len(),
                apart == FilterType::any_exclusion(self.filter@, other.filter@),
                forall|x: int, y: int|
                    0 <= x < i && 0 <= y < other.types@.len() ==> !((
                    #[trigger] self.types@[x]).conflicts_spec(#[trigger] other.types@[y]) && (
                    self.types@[x] is World || other.types@[y] is World || !apart)),
            decreases self.types@.len() - i,
        {
            let mut j: usize = 0;
            while j < other.types.len()
                invariant
                    i < self.types@.len(),
                    j <= other.types@.len(),
                    apart == FilterType::any_exclusion(self.filter@, other.filter@),
                    forall|y: int|
                        0 <= y < j ==> !(self.types@[i as int].conflicts_spec(
                            #[trigger] other.types@[y],
                        ) && (self.types@[i as int] is World || other.types@[y] is World
                            || !apart)),
                decreases other.types@.len() - j,
            {
                if self.types[i].conflicts(&other.types[j]) {
                    if self.types[i].is_world() || other.types[j].is_world() {
                        return true;
                    }
                    // the accesses are to one kind: only the filters can keep them apart
                    if !apart {
                        return true;
                    }
                }
                j += 1;
            }
            i += 1;
        }
        false
    }
}

/// The footprint of a system set: that of each of its systems, and
/// whether the set has to run on the main thread.
#[derive(Debug, Clone)]
pub struct SetInfo {
    pub systems: Vec<SystemInfo>,
    pub local: bool,
}

impl View for SetInfo {
    type V = SetView;

    open spec fn view(&self) -> SetView {
        SetView { systems: Seq::new(self.systems@.len(), |i: int| self.systems@[i]@), local: self.local }
    }
}

impl SetInfo {
    #[inline]
    pub fn local(&self) -> (r: bool)
        ensures
            r == self@.local,
    {
        self.local
    }

    /// Whether the two sets may not run at the same time.
    #[inline]
    pub fn conflicts(&self, other: &Self) -> (r: bool)
        ensures
            r == self@.conflicts(other@),
    {
        let mut i: usize = 0;
        while i < self.systems.len()
            invariant
                i <= self.systems@.len(),
                forall|x: int, y: int|
                    #![trigger self@.systems[x], other@.systems[y]]
                    0 <= x < i && 0 <= y < other.systems@.len() ==> !self@.systems[x].conflicts(
                        other@.systems[y],
                    ),
            decreases self.systems@.len() - i,
        {
            let mut j: usize = 0;
            while j < other.systems.len()
                invariant
                    i < self.systems@.len(),
                    j <= other.systems@.len(),
                    forall|y: int|
                        #![trigger other@.systems[y]]
                        0 <= y < j ==> !self@.systems[i as int].conflicts(other@.systems[y]),
                decreases other.systems@.len() - j,
            {
                if self.systems[i].conflicts(&other.systems[j]) {
                    assert(self@.systems[i as int].conflicts(other@.systems[j as int]));
                    return true;
                }
                j += 1;
            }
            i += 1;
        }
        false
    }
}

/// Whether two filters keep their queries apart does not depend on which
/// one is named first.
pub proof fn lemma_exclusion_symmetric(a: Seq<FilterType>, b: Seq<FilterType>)
    ensures
        FilterType::any_exclusion(a, b) == FilterType::any_exclusion(b, a),
{
    if FilterType::any_exclusion(a, b) {
        let (i, j) = choose|i: int, j: int|
            0 <= i < a.len() && 0 <= j < b.len() && (#[trigger] a[i]).excludes(#[trigger] b[j]);
        assert(b[j].excludes(a[i]));
    }
    if FilterType::any_exclusion(b, a) {
        let (i, j) = choose|i: int, j: int|
            0 <= i < b.len() && 0 <= j < a.len() && (#[trigger] b[i]).excludes(#[trigger] a[j]);
        assert(a[j].excludes(b[i]));
    }
}

/// Conflict between systems does not depend on which one is named first.
pub proof fn lemma_system_conflict_symmetric(a: SystemView, b: SystemView)
    ensures
        a.conflicts(b) == b.conflicts(a),
{
    lemma_exclusion_symmetric(a.filter, b.filter);
    if a.conflicts(b) {
        let (i, j) = choose|i: int, j: int|
            0 <= i < a.types.len() && 0 <= j < b.types.len() && (
            #[trigger] a.types[i]).conflicts_spec(#[trigger] b.types[j]) && (a.types[i] is World
                || b.types[j] is World || !FilterType::any_exclusion(a.filter, b.filter));
        assert(b.types[j].conflicts_spec(a.types[i]));
    }
    if b.conflicts(a) {
        let (i, j) = choose|i: int, j: int|
            0 <= i < b.types.len() && 0 <= j < a.types.len() && (
            #[trigger] b.types[i]).conflicts_spec(#[trigger] a.types[j]) && (b.types[i] is World
                || a.types[j] is World || !FilterType::any_exclusion(b.filter, a.filter));
        assert(a.types[j].conflicts_spec(b.types[i]));
    }
}

/// Conflict between sets does not depend on which one is named first.
pub proof fn lemma_set_conflict_symmetric(a: SetView, b: SetView)
    ensures
        a.conflicts(b) == b.conflicts(a),
{
    if a.conflicts(b) {
        let (i, j) = choose|i: int, j: int|
            #![trigger a.systems[i], b.systems[j]]
            0 <= i < a.systems.len() && 0 <= j < b.systems.len() && a.systems[i].conflicts(
                b.systems[j],
            );
        lemma_system_conflict_symmetric(a.systems[i], b.systems[j]);
        assert(b.systems[j].conflicts(a.systems[i]));
    }
    if b.conflicts(a) {
        let (i, j) = choose|i: int, j: int|
            #![trigger b.systems[i], a.systems[j]]
            0 <= i < b.systems.len() && 0 <= j < a.systems.len() && b.systems[i].conflicts(
                a.systems[j],
            );
        lemma_system_conflict_symmetric(b.systems[i], a.systems[j]);
        assert(a.systems[j].conflicts(b.systems[i]));
    }
}

/// One system, or several that run one after the other on one thread.
pub enum SystemSet<F> {
    Single { system: FunctionSystem<F> },
    Chained { systems: Vec<FunctionSystem<F>> },
}

impl<F> SystemSet<F> {
    /// The systems of the set, in the order in which they run.
    pub open spec fn members(&self) -> Seq<FunctionSystem<F>> {
        match self {
            SystemSet::Single { system } => seq![*system],
            SystemSet::Chained { systems } => systems@,
        }
    }

    /// The footprint of the set: one entry per system, in their order; the
    /// set is local if one of its systems is.
    pub open spec fn info(&self) -> SetView {
        SetView {
            systems: Seq::new(
                self.members().len(),
                |i: int|
                    SystemView { types: self.members()[i].types@, filter: self.members()[i].filter@ },
            ),
            local: exists|i: int|
                0 <= i < self.members().len() && (#[trigger] self.members()[i]).local,
        }
    }

    /// The footprint of the set.
    pub fn get_info(&self) -> (r: SetInfo)
        ensures
            r@ == self.info(),
    {
        match self {
            Self::Single { system } => {
                let mut systems: Vec<SystemInfo> = Vec::new();
                systems.push(info_of(system));
                assert(self.members()[0].local == system.local);
                let r = SetInfo { local: system.local(), systems };
                assert(r@.systems =~= self.info().systems);
                r
            },
            Self::Chained { systems } => {
                let mut vec: Vec<SystemInfo> = Vec::new();
                let mut local = false;
                let mut i: usize = 0;
                while i < systems.len()
                    invariant
                        i <= systems@.len(),
                        vec@.len() == i,
                        forall|j: int|
                            0 <= j < i ==> (#[trigger] vec@[j]).types@ == systems@[j].types@
                                && vec@[j].filter@ == systems@[j].filter@,
                        local == exists|j: int| 0 <= j < i && (#[trigger] systems@[j]).local,
                    decreases systems@.len() - i,
                {
                    vec.push(info_of(&systems[i]));
                    local = local || systems[i].local();
                    i += 1;
                }
                let r = SetInfo { systems: vec, local };
                assert(r@.systems =~= self.info().systems);
                r
            },
        }
    }
}

/// The footprint of one system.
fn info_of<F>(system: &FunctionSystem<F>) -> (r: SystemInfo)
    ensures
        r.types@ == system.types@,
        r.filter@ == system.filter@,
{
    SystemInfo { types: copy_params(system.get_types()), filter: copy_filters(system.get_filter()) }
}

fn copy_params(from: &Vec<ParamType>) -> (r: Vec<ParamType>)
    ensures
        r@ == from@,
{
    let mut out: Vec<ParamType> = Vec::new();
    let mut i: usize = 0;
    while i < from.len()
        invariant
            i <= from@.len(),
            out@ == from@.take(i as int),
        decreases from@.len() - i,
    {
        out.push(from[i]);
        assert(from@.take(i + 1) == from@.take(i as int).push(from@[i as int]));
        i += 1;
    }
    assert(from@.take(i as int) == from@);
    out
}

fn copy_filters(from: &Vec<FilterType>) -> (r: Vec<FilterType>)
    ensures
        r@ == from@,
{
    let mut out: Vec<FilterType> = Vec::new();
    let mut i: usize = 0;
    while i < from.len()
        invariant
            i <= from@.len(),
            out@ == from@.take(i as int),
        decreases from@.len() - i,
    {
        out.push(from[i]);
        assert(from@.take(i + 1) == from@.take(i as int).push(from@[i as int]));
        i += 1;
    }
    assert(from@.take(i as int) == from@);
    out
}

/// The stages of a schedule, in the order in which they run.
#[derive(Debug, Clone, Copy, PartialEq, Eq, Structural)]
pub enum StageKind {
    Setup,
    PreUpdate,
    Update,
    PostUpdate,
    Shutdown,
}

/// A marker that names a stage.
pub trait SystemStage {
    /// The stage that the marker names.
    spec fn kind_spec(&self) -> StageKind;

    /// The stage that the marker names.
    fn kind(&self) -> (r: StageKind)
        ensures
            r == self.kind_spec(),
    ;
}

/// Runs once, before the first tick.
#[derive(Debug, Clone, Copy)]
pub struct Setup;

impl SystemStage for Setup {
    open spec fn kind_spec(&self) -> StageKind {
        StageKind::Setup
    }

    fn kind(&self) -> (r: StageKind) {
        StageKind::Setup
    }
}

/// Runs first in every tick.
#[derive(Debug, Clone, Copy)]
pub struct PreUpdate;

impl SystemStage for PreUpdate {
    open spec fn kind_spec(&self) -> StageKind {
        StageKind::PreUpdate
    }

    fn kind(&self) -> (r: StageKind) {
        StageKind::PreUpdate
    }
}

/// Runs in every tick, after `PreUpdate`.
#[derive(Debug, Clone, Copy)]
pub struct Update;

impl SystemStage for Update {
    open spec fn kind_spec(&self) -> StageKind {
        StageKind::Update
    }

    fn kind(&self) -> (r: StageKind) {
        StageKind::Update
    }
}

/// Runs last in every tick.
#[derive(Debug, Clone, Copy)]
pub struct PostUpdate;

impl SystemStage for PostUpdate {
    open spec fn kind_spec(&self) -> StageKind {
        StageKind::PostUpdate
    }

    fn kind(&self) -> (r: StageKind) {
        StageKind::PostUpdate
    }
}

/// Runs once, after the last tick.
#[derive(Debug, Clone, Copy)]
pub struct Shutdown;

impl SystemStage for Shutdown {
    open spec fn kind_spec(&self) -> StageKind {
        StageKind::Shutdown
    }

    fn kind(&self) -> (r: StageKind) {
        StageKind::Shutdown
    }
}

} // verus!
