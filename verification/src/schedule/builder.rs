//! The planner: lays the system sets of a stage out across threads.
//!
//! A plan is built in passes. A pass goes through the sets that are still to
//! be placed, in their order, and gives each one to a thread or defers it to
//! the next pass; then every thread gets a rendezvous with the others.

use vstd::prelude::*;

use super::graph::{ExecutionGraph, Node};
use crate::seqs::reversed;
use super::{SetInfo, SetView, StageKind, SystemSet, SystemStage};

verus! {

/// How many sets each thread has taken in the current pass.
pub open spec fn counts(reserved: Seq<Seq<SetView>>) -> Seq<int> {
    Seq::new(reserved.len(), |t: int| reserved[t].len() as int)
}

/// `t` is the thread with the fewest sets; of several, the one with the
/// lowest index.
pub open spec fn is_first_min(counts: Seq<int>, t: int) -> bool {
    &&& 0 <= t < counts.len()
    &&& forall|u: int| 0 <= u < counts.len() ==> counts[t] <= #[trigger] counts[u]
    &&& forall|u: int| 0 <= u < t ==> counts[t] < #[trigger] counts[u]
}

/// `t` is the thread with the most sets; of several, the one with the
/// highest index.
pub open spec fn is_last_max(counts: Seq<int>, t: int) -> bool {
    &&& 0 <= t < counts.len()
    &&& forall|u: int| 0 <= u < counts.len() ==> #[trigger] counts[u] <= counts[t]
    &&& forall|u: int| t < u < counts.len() ==> #[trigger] counts[u] < counts[t]
}

/// Whether one more set on thread `t` would make its tail too long: `t` is
/// the thread with the most sets, and is `max_tail` or more ahead of the
/// thread with the fewest.
pub open spec fn tail_too_long(counts: Seq<int>, t: int, max_tail: int) -> bool {
    &&& is_last_max(counts, t)
    &&& exists|m: int| is_first_min(counts, m) && counts[t] - counts[m] >= max_tail
}

/// Whether a set that thread `t` has taken in this pass conflicts with
/// `info`.
pub open spec fn thread_conflicts(reserved: Seq<SetView>, info: SetView) -> bool {
    exists|k: int| 0 <= k < reserved.len() && (#[trigger] reserved[k]).conflicts(info)
}

/// Whether thread `t` has a claim on the set: the set conflicts with one
/// that the thread has taken, or the set is local and `t` is the main
/// thread.
pub open spec fn claims(reserved: Seq<Seq<SetView>>, info: SetView, t: int) -> bool {
    thread_conflicts(reserved[t], info) || (t == 0 && info.local)
}

/// `t` is the thread that the set goes to if its tail allows: the one
/// thread that has a claim on it, or, if none has, the thread with the
/// fewest sets.
pub open spec fn candidate(reserved: Seq<Seq<SetView>>, info: SetView, t: int) -> bool {
    &&& 0 <= t < reserved.len()
    &&& if claims(reserved, info, t) {
        forall|u: int| 0 <= u < reserved.len() && u != t ==> !#[trigger] claims(reserved, info, u)
    } else {
        &&& forall|u: int| 0 <= u < reserved.len() ==> !#[trigger] claims(reserved, info, u)
        &&& is_first_min(counts(reserved), t)
    }
}

/// Thread `t` takes the set in this pass.
pub open spec fn takes(reserved: Seq<Seq<SetView>>, info: SetView, max_tail: int, t: int) -> bool {
    candidate(reserved, info, t) && !tail_too_long(counts(reserved), t, max_tail)
}

/// The index of the first least of `counts`.
pub fn first_min(counts: &Vec<usize>) -> (r: usize)
    requires
        counts@.len() > 0,
    ensures
        is_first_min(counts@.map_values(|c: usize| c as int), r as int),
{
    let mut best: usize = 0;
    let mut i: usize = 1;
    while i < counts.len()
        invariant
            1 <= i <= counts@.len(),
            best < i,
            forall|u: int| 0 <= u < i ==> counts@[best as int] <= #[trigger] counts@[u],
            forall|u: int| 0 <= u < best ==> counts@[best as int] < #[trigger] counts@[u],
        decreases counts@.len() - i,
    {
        if counts[i] < counts[best] {
            best = i;
        }
        i += 1;
    }
    best
}

/// The index of the last greatest of `counts`.
pub fn last_max(counts: &Vec<usize>) -> (r: usize)
    requires
        counts@.len() > 0,
    ensures
        is_last_max(counts@.map_values(|c: usize| c as int), r as int),
{
    let mut best: usize = 0;
    let mut i: usize = 1;
    while i < counts.len()
        invariant
            1 <= i <= counts@.len(),
            best < i,
            forall|u: int| 0 <= u < i ==> #[trigger] counts@[u] <= counts@[best as int],
            forall|u: int| best < u < i ==> #[trigger] counts@[u] < counts@[best as int],
        decreases counts@.len() - i,
    {
        if counts[i] >= counts[best] {
            best = i;
        }
        i += 1;
    }
    best
}

/// The footprints of `sets`, as values.
pub open spec fn views_of(sets: Seq<SetInfo>) -> Seq<SetView> {
    Seq::new(sets.len(), |k: int| sets[k]@)
}

/// The planner's working state. Between two plans it is reset: no thread
/// has taken a set and nothing is deferred.
pub struct GraphBuilder<F> {
    pub thread_count: usize,
    pub max_tail: usize,
    /// For each thread the footprints of the sets it has taken in the
    /// current pass.
    pub threads_reserved_types: Vec<Vec<SetInfo>>,
    /// For each thread the number of sets it has taken in the current pass.
    pub threads_since_sync: Vec<usize>,
    /// The sets that the current pass has deferred.
    pub leftovers: Vec<SystemSet<F>>,
}

impl<F> GraphBuilder<F> {
    /// For each thread the footprints of the sets it has taken in the
    /// current pass, as values.
    pub open spec fn reserved(&self) -> Seq<Seq<SetView>> {
        Seq::new(
            self.threads_reserved_types@.len(),
            |t: int| views_of(self.threads_reserved_types@[t]@),
        )
    }

    /// The planner is set up for its threads, and a pass always places its
    /// first set: there are two threads or more, or `max_tail` is not zero.
    pub open spec fn sized(&self) -> bool {
        &&& self.thread_count >= 1
        &&& self.thread_count >= 2 || self.max_tail >= 1
        &&& self.threads_reserved_types@.len() == self.thread_count
        &&& self.threads_since_sync@.len() == self.thread_count
        &&& forall|t: int|
            0 <= t < self.thread_count ==> (#[trigger] self.threads_since_sync@[t])
                == self.threads_reserved_types@[t]@.len()
    }

    /// The planner is set up and reset.
    pub open spec fn wf(&self) -> bool {
        &&& self.sized()
        &&& self.leftovers@.len() == 0
        &&& forall|t: int|
            0 <= t < self.thread_count ==> (#[trigger] self.threads_reserved_types@[t])@.len() == 0
    }

    /// A planner for `thread_count` threads, the main thread among them.
    pub fn new(thread_count: usize, max_tail: usize) -> (r: Self)
        requires
            thread_count != 0,
            thread_count >= 2 || max_tail >= 1,
        ensures
            r.wf(),
            r.thread_count == thread_count,
            r.max_tail == max_tail,
    {
        let mut reserved: Vec<Vec<SetInfo>> = Vec::new();
        let mut since: Vec<usize> = Vec::new();
        let mut i: usize = 0;
        while i < thread_count
            invariant
                i <= thread_count,
                reserved@.len() == i,
                since@.len() == i,
                forall|t: int| 0 <= t < i ==> (#[trigger] reserved@[t])@.len() == 0,
                forall|t: int| 0 <= t < i ==> (#[trigger] since@[t]) == 0,
            decreases thread_count - i,
        {
            reserved.push(Vec::new());
            since.push(0);
            i += 1;
        }
        Self {
            thread_count,
            max_tail,
            threads_reserved_types: reserved,
            threads_since_sync: since,
            leftovers: Vec::new(),
        }
    }

    /// Whether one of `stored_sets` conflicts with `set`.
    pub fn check_for_type_conflict(stored_sets: &Vec<SetInfo>, set: &SetInfo) -> (r: bool)
        ensures
            r == thread_conflicts(views_of(stored_sets@), set@),
    {
        let mut i: usize = 0;
        while i < stored_sets.len()
            invariant
                i <= stored_sets@.len(),
                forall|k: int| 0 <= k < i ==> !(#[trigger] views_of(stored_sets@)[k]).conflicts(set@),
            decreases stored_sets@.len() - i,
        {
            if stored_sets[i].conflicts(set) {
                assert(views_of(stored_sets@)[i as int].conflicts(set@));
                return true;
            }
            i += 1;
        }
        false
    }

    /// The counts of the threads are the lengths of what they have taken.
    pub proof fn lemma_counts(&self)
        requires
            self.sized(),
        ensures
            counts(self.reserved()) == self.threads_since_sync@.map_values(|c: usize| c as int),
    {
        assert(counts(self.reserved()) =~= self.threads_since_sync@.map_values(|c: usize| c as int));
    }

    /// The thread with the fewest sets in the current pass; of several, the
    /// one with the lowest index.
    #[inline]
    pub fn thread_min_nodes(&self) -> (r: usize)
        requires
            self.sized(),
        ensures
            is_first_min(counts(self.reserved()), r as int),
    {
        proof {
            self.lemma_counts();
        }
        first_min(&self.threads_since_sync)
    }

    /// Whether one more set on thread `thread_i` would make its tail too
    /// long.
    pub fn check_tail_too_long(&self, thread_i: usize) -> (r: bool)
        requires
            self.sized(),
            thread_i < self.thread_count,
        ensures
            r == tail_too_long(counts(self.reserved()), thread_i as int, self.max_tail as int),
    {
        proof {
            self.lemma_counts();
        }
        let ghost c = counts(self.reserved());
        let t_max = last_max(&self.threads_since_sync);
        if thread_i != t_max {
            assert(!is_last_max(c, thread_i as int)) by {
                if is_last_max(c, thread_i as int) {
                    assert(c[t_max as int] <= c[thread_i as int] && c[thread_i as int] <= c[t_max as int]);
                    if (thread_i as int) < t_max {
                        assert(c[t_max as int] < c[thread_i as int]);
                    } else {
                        assert(c[thread_i as int] < c[t_max as int]);
                    }
                }
            }
            return false;
        }
        let t_min = first_min(&self.threads_since_sync);
        let max = self.threads_since_sync[t_max];
        let min = self.threads_since_sync[t_min];
        proof {
            assert(c[t_min as int] <= c[t_max as int]);
            assert forall|m: int| is_first_min(c, m) implies c[m] == c[t_min as int] by {
                assert(c[m] <= c[t_min as int] && c[t_min as int] <= c[m]);
            }
        }
        max - min >= self.max_tail
    }

    /// The thread that takes a set with footprint `info` in the current
    /// pass; none if the set is deferred.
    pub fn choose_thread(&self, info: &SetInfo) -> (r: Option<usize>)
        requires
            self.sized(),
        ensures
            r matches Some(t) ==> t < self.thread_count && takes(
                self.reserved(),
                info@,
                self.max_tail as int,
                t as int,
            ),
            r is None ==> forall|t: int| !takes(self.reserved(), info@, self.max_tail as int, t),
    {
        let ghost reserved = self.reserved();
        // the threads that have a claim on the set
        let mut conflicts: Vec<usize> = Vec::new();
        let mut t: usize = 0;
        while t < self.threads_reserved_types.len()
            invariant
                t <= self.thread_count,
                self.sized(),
                reserved == self.reserved(),
                conflicts@.len() <= t,
                forall|k: int|
                    0 <= k < conflicts@.len() ==> (#[trigger] conflicts@[k]) < t && thread_conflicts(
                        reserved[conflicts@[k] as int],
                        info@,
                    ),
                forall|k: int, m: int|
                    0 <= k < m < conflicts@.len() ==> (#[trigger] conflicts@[k]) < (
                    #[trigger] conflicts@[m]),
                forall|u: int|
                    0 <= u < t && thread_conflicts(#[trigger] reserved[u], info@)
                        ==> conflicts@.contains(u as usize),
            decreases self.thread_count - t,
        {
            if Self::check_for_type_conflict(&self.threads_reserved_types[t], info) {
                let ghost before = conflicts@;
                conflicts.push(t);
                proof {
                    assert(conflicts@[before.len() as int] == t);
                    assert forall|u: int|
                        0 <= u <= t && thread_conflicts(
                            #[trigger] reserved[u],
                            info@,
                        ) implies conflicts@.contains(u as usize) by {
                        if u < t {
                            let k = before.index_of(u as usize);
                            assert(conflicts@[k] == u);
                        }
                    }
                }
            }
            t += 1;
        }
        // a local set has to run on the main thread
        if info.local() && !contains_thread(&conflicts, 0) {
            let ghost before = conflicts@;
            conflicts.push(0);
            proof {
                assert(conflicts@[before.len() as int] == 0);
                assert forall|u: int|
                    0 <= u < self.thread_count && thread_conflicts(
                        #[trigger] reserved[u],
                        info@,
                    ) implies conflicts@.contains(u as usize) by {
                    let k = before.index_of(u as usize);
                    assert(conflicts@[k] == u);
                }
            }
        }
        proof {
            assert forall|u: int| 0 <= u < self.thread_count implies (#[trigger] claims(
                reserved,
                info@,
                u,
            ) <==> conflicts@.contains(u as usize)) by {
                if conflicts@.contains(u as usize) {
                    let k = conflicts@.index_of(u as usize);
                    assert(conflicts@[k] == u);
                }
                if claims(reserved, info@, u) && !thread_conflicts(reserved[u], info@) {
                    assert(u == 0 && info@.local);
                }
            }
            assert forall|k: int, m: int| 0 <= k < conflicts@.len() && 0 <= m < conflicts@.len() && k
                != m implies conflicts@[k] != conflicts@[m] by {
                if info@.local && (k == conflicts@.len() - 1 || m == conflicts@.len() - 1) {
                } else {
                }
            }
        }
        let thread_i: usize;
        if conflicts.len() == 0 {
            // no thread has a claim: the thread with the fewest sets
            thread_i = self.thread_min_nodes();
            proof {
                assert forall|u: int| 0 <= u < reserved.len() implies !#[trigger] claims(
                    reserved,
                    info@,
                    u,
                ) by {
                    if conflicts@.contains(u as usize) {
                        let k = conflicts@.index_of(u as usize);
                    }
                }
            }
        } else if conflicts.len() == 1 {
            // one thread has a claim: that thread
            thread_i = conflicts[0];
            proof {
                assert(conflicts@.contains(conflicts@[0]));
                assert forall|u: int|
                    0 <= u < reserved.len() && u != thread_i implies !#[trigger] claims(
                    reserved,
                    info@,
                    u,
                ) by {
                    if conflicts@.contains(u as usize) {
                        let k = conflicts@.index_of(u as usize);
                        assert(k == 0);
                    }
                }
            }
        } else {
            // two threads or more have a claim: the set cannot run in this interval
            proof {
                let a = conflicts@[0] as int;
                let b = conflicts@[1] as int;
                assert(conflicts@.contains(conflicts@[0]));
                assert(conflicts@.contains(conflicts@[1]));
                assert(claims(reserved, info@, a) && claims(reserved, info@, b) && a != b);
                assert forall|u: int| !takes(reserved, info@, self.max_tail as int, u) by {
                    if candidate(reserved, info@, u) {
                        if u != a {
                            assert(claims(reserved, info@, a));
                        } else {
                            assert(claims(reserved, info@, b));
                        }
                    }
                }
            }
            return None;
        }
        assert(candidate(reserved, info@, thread_i as int));
        // make sure not all sets go to one thread
        if self.check_tail_too_long(thread_i) {
            proof {
                assert forall|u: int| !takes(reserved, info@, self.max_tail as int, u) by {
                    if takes(reserved, info@, self.max_tail as int, u) {
                        lemma_candidate_unique(reserved, info@, u, thread_i as int);
                    }
                }
            }
            None
        } else {
            Some(thread_i)
        }
    }
}

/// Whether `thread` is in `threads`.
fn contains_thread(threads: &Vec<usize>, thread: usize) -> (r: bool)
    ensures
        r == threads@.contains(thread),
{
    let mut i: usize = 0;
    while i < threads.len()
        invariant
            i <= threads@.len(),
            forall|k: int| 0 <= k < i ==> threads@[k] != thread,
        decreases threads@.len() - i,
    {
        if threads[i] == thread {
            return true;
        }
        i += 1;
    }
    false
}

/// A set has one candidate thread at most.
pub proof fn lemma_candidate_unique(reserved: Seq<Seq<SetView>>, info: SetView, t: int, u: int)
    requires
        candidate(reserved, info, t),
        candidate(reserved, info, u),
    ensures
        t == u,
{
    if t != u {
        if claims(reserved, info, t) {
            assert(!claims(reserved, info, u));
            assert(!claims(reserved, info, t));
        } else {
            assert(!claims(reserved, info, u));
            let c = counts(reserved);
            assert(c[t] <= c[u] && c[u] <= c[t]);
            if t < u {
                assert(c[u] < c[t]);
            } else {
                assert(c[t] < c[u]);
            }
        }
    }
}

/// What a pass has done so far: for each thread the sets that it has taken,
/// in their order, and the sets that were deferred. A set is named by its
/// index in the list that the plan is made for.
pub struct Pass {
    pub placed: Seq<Seq<int>>,
    pub deferred: Seq<int>,
}

/// For each thread the footprints of the sets that it has taken.
pub open spec fn reserved_of(infos: Seq<SetView>, placed: Seq<Seq<int>>) -> Seq<Seq<SetView>> {
    Seq::new(placed.len(), |t: int| Seq::new(placed[t].len(), |k: int| infos[placed[t][k]]))
}

/// The pass after set `i` was looked at: the thread that takes it has it
/// at the end of its list, or the set is deferred.
pub open spec fn pass_step(infos: Seq<SetView>, max_tail: int, p: Pass, i: int) -> Pass {
    let reserved = reserved_of(infos, p.placed);
    if exists|t: int| takes(reserved, infos[i], max_tail, t) {
        let t = choose|t: int| takes(reserved, infos[i], max_tail, t);
        Pass { placed: p.placed.update(t, p.placed[t].push(i)), deferred: p.deferred }
    } else {
        Pass { placed: p.placed, deferred: p.deferred.push(i) }
    }
}

/// The pass over the sets `todo`, looked at in their order.
pub open spec fn pass(infos: Seq<SetView>, threads: nat, max_tail: int, todo: Seq<int>) -> Pass
    decreases todo.len(),
{
    if todo.len() == 0 {
        Pass { placed: Seq::new(threads, |t: int| Seq::<int>::empty()), deferred: Seq::empty() }
    } else {
        pass_step(infos, max_tail, pass(infos, threads, max_tail, todo.drop_last()), todo.last())
    }
}

/// The intervals of the plan for the sets `todo`: what the first pass
/// places, then the intervals of the plan for what it defers.
pub open spec fn rounds(infos: Seq<SetView>, threads: nat, max_tail: int, todo: Seq<int>) -> Seq<
    Seq<Seq<int>>,
>
    decreases todo.len(),
{
    let p = pass(infos, threads, max_tail, todo);
    if p.deferred.len() == 0 || p.deferred.len() >= todo.len() {
        seq![p.placed]
    } else {
        seq![p.placed] + rounds(infos, threads, max_tail, p.deferred)
    }
}

/// The steps that run the sets `indices`, in their order.
pub open spec fn interval_steps<F>(sets: Seq<SystemSet<F>>, indices: Seq<int>) -> Seq<
    Option<SystemSet<F>>,
> {
    Seq::new(indices.len(), |k: int| Some(sets[indices[k]]))
}

/// The steps of thread `t` in a plan with the intervals `rounds`: interval
/// by interval the sets that the thread runs, each interval closed by a
/// rendezvous.
pub open spec fn layout<F>(sets: Seq<SystemSet<F>>, rounds: Seq<Seq<Seq<int>>>, t: int) -> Seq<
    Option<SystemSet<F>>,
>
    decreases rounds.len(),
{
    if rounds.len() == 0 {
        Seq::empty()
    } else {
        layout(sets, rounds.drop_last(), t) + interval_steps(sets, rounds.last()[t]) + seq![
            None::<SystemSet<F>>,
        ]
    }
}

/// The footprints of `sets`.
pub open spec fn infos_of<F>(sets: Seq<SystemSet<F>>) -> Seq<SetView> {
    Seq::new(sets.len(), |i: int| sets[i].info())
}

/// The indices `0..n`.
pub open spec fn all_indices(n: nat) -> Seq<int> {
    Seq::new(n, |i: int| i)
}

/// The intervals of the plan for `sets` on `threads` threads.
pub open spec fn plan_rounds<F>(sets: Seq<SystemSet<F>>, threads: nat, max_tail: int) -> Seq<
    Seq<Seq<int>>,
> {
    rounds(infos_of(sets), threads, max_tail, all_indices(sets.len()))
}

/// `graph` is the plan for `sets` on `threads` threads: for no sets a plan
/// without threads and nodes; else every thread runs, interval by interval,
/// the sets that the passes give it, and meets the others at the end of
/// each interval.
pub open spec fn is_plan_of<F>(
    graph: &ExecutionGraph<F>,
    sets: Seq<SystemSet<F>>,
    threads: nat,
    max_tail: int,
) -> bool {
    &&& graph.wf()
    &&& if sets.len() == 0 {
        graph.threads() == 0 && graph.nodes@.len() == 0
    } else {
        &&& graph.threads() == threads
        &&& forall|t: int|
            0 <= t < threads ==> #[trigger] graph.steps(t) == layout(
                sets,
                plan_rounds(sets, threads, max_tail),
                t,
            )
    }
}

/// The sets of a pass are those that it was given: every index of a thread's
/// list and of the deferred list is one of `todo`.
pub proof fn lemma_pass_within(infos: Seq<SetView>, threads: nat, max_tail: int, todo: Seq<int>)
    ensures
        pass(infos, threads, max_tail, todo).placed.len() == threads,
        pass(infos, threads, max_tail, todo).deferred.len() <= todo.len(),
        forall|t: int, k: int|
            0 <= t < threads && 0 <= k < pass(infos, threads, max_tail, todo).placed[t].len()
                ==> todo.contains(#[trigger] pass(infos, threads, max_tail, todo).placed[t][k]),
        forall|t: int|
            0 <= t < threads ==> (#[trigger] pass(infos, threads, max_tail, todo).placed[t]).len()
                <= todo.len(),
        forall|k: int|
            0 <= k < pass(infos, threads, max_tail, todo).deferred.len() ==> todo.contains(
                #[trigger] pass(infos, threads, max_tail, todo).deferred[k],
            ),
    decreases todo.len(),
{
    if todo.len() > 0 {
        let front = todo.drop_last();
        let i = todo.last();
        lemma_pass_within(infos, threads, max_tail, front);
        let q = pass(infos, threads, max_tail, front);
        let p = pass(infos, threads, max_tail, todo);
        let reserved = reserved_of(infos, q.placed);
        assert(todo[todo.len() - 1] == i);
        assert forall|x: int| front.contains(x) implies todo.contains(x) by {
            let m = front.index_of(x);
            assert(todo[m] == x);
        }
        if exists|t: int| takes(reserved, infos[i], max_tail, t) {
            let u = choose|t: int| takes(reserved, infos[i], max_tail, t);
            assert forall|t: int, k: int|
                0 <= t < threads && 0 <= k < p.placed[t].len() implies todo.contains(
                #[trigger] p.placed[t][k],
            ) by {
                if t == u && k == q.placed[t].len() {
                } else {
                    assert(front.contains(q.placed[t][k]));
                }
            }
        } else {
            assert forall|k: int| 0 <= k < p.deferred.len() implies todo.contains(
                #[trigger] p.deferred[k],
            ) by {
                if k < q.deferred.len() {
                    assert(front.contains(q.deferred[k]));
                }
            }
        }
    }
}

/// Progress: a pass over one set or more places its first set, so it defers
/// fewer sets than it was given. This holds with two threads or more, and
/// with one thread if `max_tail` is not zero.
pub proof fn lemma_pass_progress(infos: Seq<SetView>, threads: nat, max_tail: int, todo: Seq<int>)
    requires
        todo.len() > 0,
        threads >= 1,
        threads >= 2 || max_tail >= 1,
    ensures
        pass(infos, threads, max_tail, todo).deferred.len() < todo.len(),
    decreases todo.len(),
{
    let front = todo.drop_last();
    let i = todo.last();
    lemma_pass_within(infos, threads, max_tail, front);
    if front.len() == 0 {
        let q = pass(infos, threads, max_tail, front);
        let reserved = reserved_of(infos, q.placed);
        let c = counts(reserved);
        assert forall|u: int| 0 <= u < threads implies !thread_conflicts(
            #[trigger] reserved[u],
            infos[i],
        ) by {}
        assert(is_first_min(c, 0));
        assert(candidate(reserved, infos[i], 0)) by {
            assert forall|u: int| 0 <= u < reserved.len() && u != 0 implies !#[trigger] claims(
                reserved,
                infos[i],
                u,
            ) by {
                assert(!thread_conflicts(reserved[u], infos[i]));
            }
            if !claims(reserved, infos[i], 0) {
                assert forall|u: int| 0 <= u < reserved.len() implies !#[trigger] claims(
                    reserved,
                    infos[i],
                    u,
                ) by {
                    assert(!thread_conflicts(reserved[u], infos[i]));
                }
            }
        }
        assert(!tail_too_long(c, 0, max_tail)) by {
            if threads >= 2 {
                assert(c[1] == 0);
            } else {
                assert forall|m: int| is_first_min(c, m) implies c[0] - c[m] < max_tail by {}
            }
        }
        assert(takes(reserved, infos[i], max_tail, 0));
    } else {
        lemma_pass_progress(infos, threads, max_tail, front);
    }
}

impl<F> GraphBuilder<F> {
    /// The planner's state is that of the pass `p` over sets with the
    /// footprints `infos`.
    pub open spec fn in_pass(&self, sets: Seq<SystemSet<F>>, p: Pass) -> bool {
        &&& self.sized()
        &&& p.placed.len() == self.thread_count
        &&& self.reserved() == reserved_of(infos_of(sets), p.placed)
        &&& self.leftovers@.len() == p.deferred.len()
        &&& forall|m: int|
            0 <= m < p.deferred.len() ==> 0 <= #[trigger] p.deferred[m] < sets.len()
                && self.leftovers@[m] == sets[p.deferred[m]]
        &&& forall|t: int, k: int|
            0 <= t < p.placed.len() && 0 <= k < p.placed[t].len() ==> 0 <= #[trigger] p.placed[t][k]
                < sets.len()
    }

    /// Makes the plan for `systems`.
    pub fn build_graph_from(&mut self, systems: Vec<SystemSet<F>>) -> (graph: ExecutionGraph<F>)
        requires
            old(self).wf(),
        ensures
            final(self).wf(),
            final(self).thread_count == old(self).thread_count,
            final(self).max_tail == old(self).max_tail,
            is_plan_of(&graph, systems@, old(self).thread_count as nat, old(self).max_tail as int),
    {
        if systems.len() == 0 {
            return ExecutionGraph::new_empty();
        }
        let ghost sets = systems@;
        let ghost infos = infos_of(sets);
        let ghost threads = self.thread_count as nat;
        let ghost max_tail = self.max_tail as int;
        let ghost full = plan_rounds(sets, threads, max_tail);
        let mut tree = ExecutionGraph::new(self.thread_count);
        let mut systems = systems;
        let ghost mut todo = all_indices(sets.len());
        let ghost mut done: Seq<Seq<Seq<int>>> = Seq::empty();
        proof {
            assert forall|t: int| 0 <= t < threads implies #[trigger] tree.steps(t) == layout(
                sets,
                done,
                t,
            ) by {
                assert(tree.steps(t) =~= Seq::empty());
            }
            assert(done + rounds(infos, threads, max_tail, todo) =~= full);
        }
        loop
            invariant_except_break
                systems@.len() == todo.len(),
                todo.len() > 0,
                forall|k: int|
                    0 <= k < todo.len() ==> 0 <= #[trigger] todo[k] < sets.len() && systems@[k]
                        == sets[todo[k]],
                forall|t: int| 0 <= t < threads ==> #[trigger] tree.steps(t) == layout(sets, done, t),
                full == done + rounds(infos, threads, max_tail, todo),
            invariant
                self.wf(),
                self.thread_count == threads,
                self.max_tail == max_tail,
                infos == infos_of(sets),
                tree.wf(),
                tree.threads() == threads,
            ensures
                self.wf(),
                self.thread_count == threads,
                self.max_tail == max_tail,
                tree.wf(),
                tree.threads() == threads,
                forall|t: int| 0 <= t < threads ==> #[trigger] tree.steps(t) == layout(sets, full, t),
            decreases todo.len(),
        {
            let ghost n = todo.len() as int;
            let total = systems.len();
            assert(n == total);
            let mut pending = reversed(systems);
            let ghost mut p = pass(infos, threads, max_tail, Seq::<int>::empty());
            let ghost mut k: int = 0;
            proof {
                assert(todo.take(0) == Seq::<int>::empty());
                assert(self.reserved() =~= reserved_of(infos, p.placed)) by {
                    assert forall|t: int| 0 <= t < threads implies #[trigger] self.reserved()[t]
                        =~= reserved_of(infos, p.placed)[t] by {}
                }
                assert forall|t: int| 0 <= t < threads implies #[trigger] tree.steps(t) == layout(
                    sets,
                    done,
                    t,
                ) + interval_steps(sets, p.placed[t]) by {
                    assert(interval_steps(sets, p.placed[t]) =~= Seq::empty());
                    assert(layout(sets, done, t) + interval_steps(sets, p.placed[t]) =~= layout(
                        sets,
                        done,
                        t,
                    ));
                }
            }
            while pending.len() > 0
                invariant
                    0 <= k <= n,
                    n == todo.len(),
                    n <= usize::MAX,
                    self.thread_count == threads,
                    self.max_tail == max_tail,
                    infos == infos_of(sets),
                    forall|m: int| 0 <= m < todo.len() ==> 0 <= #[trigger] todo[m] < sets.len(),
                    pending@.len() == n - k,
                    forall|m: int| 0 <= m < n - k ==> #[trigger] pending@[m] == sets[todo[n - 1 - m]],
                    p == pass(infos, threads, max_tail, todo.take(k)),
                    self.in_pass(sets, p),
                    forall|t: int| 0 <= t < threads ==> (#[trigger] p.placed[t]).len() <= k,
                    tree.wf(),
                    tree.threads() == threads,
                    forall|t: int|
                        0 <= t < threads ==> #[trigger] tree.steps(t) == layout(sets, done, t)
                            + interval_steps(sets, p.placed[t]),
                decreases pending@.len(),
            {
                let system = pending.pop().unwrap();
                let ghost i = todo[k];
                let info = system.get_info();
                let ghost before = p;
                let ghost reserved = self.reserved();
                proof {
                    assert(system == sets[i]);
                    assert(info@ == infos[i]);
                    assert(todo.take(k + 1).drop_last() == todo.take(k));
                    assert(todo.take(k + 1).last() == i);
                    p = pass_step(infos, max_tail, before, i);
                    assert(p == pass(infos, threads, max_tail, todo.take(k + 1)));
                }
                match self.choose_thread(&info) {
                    Some(thread_i) => {
                        let ghost taken = thread_i as int;
                        proof {
                            let chosen = choose|t: int| takes(reserved, infos[i], max_tail, t);
                            lemma_candidate_unique(reserved, infos[i], chosen, taken);
                            assert(p.placed == before.placed.update(
                                taken,
                                before.placed[taken].push(i),
                            ));
                        }
                        tree.append(thread_i, Node::new_system(system));
                        let count = self.threads_since_sync[thread_i];
                        assert(count == before.placed[taken].len()) by {
                            assert(reserved[taken].len() == before.placed[taken].len());
                        }
                        self.threads_since_sync[thread_i] = count + 1;
                        // the thread now reserves what the set accesses
                        self.threads_reserved_types[thread_i].push(info);
                        proof {
                            assert(self.reserved() =~= reserved_of(infos, p.placed)) by {
                                assert forall|t: int| 0 <= t < threads implies #[trigger] self.reserved()[t]
                                    =~= reserved_of(infos, p.placed)[t] by {
                                    assert(reserved[t] == reserved_of(infos, before.placed)[t]);
                                    if t == taken {
                                        assert forall|m: int| 0 <= m < p.placed[t].len() implies self.reserved()[t][m]
                                            == reserved_of(infos, p.placed)[t][m] by {
                                            if m < before.placed[t].len() {
                                                assert(reserved[t][m] == infos[before.placed[t][m]]);
                                            }
                                        }
                                    }
                                }
                            }
                            assert forall|t: int| 0 <= t < threads implies #[trigger] tree.steps(t)
                                == layout(sets, done, t) + interval_steps(sets, p.placed[t]) by {
                                if t == taken {
                                    assert(interval_steps(sets, p.placed[t]) =~= interval_steps(
                                        sets,
                                        before.placed[t],
                                    ).push(Some(sets[i])));
                                    assert(layout(sets, done, t) + interval_steps(
                                        sets,
                                        before.placed[t],
                                    ).push(Some(sets[i])) =~= (layout(sets, done, t) + interval_steps(
                                        sets,
                                        before.placed[t],
                                    )).push(Some(sets[i])));
                                }
                            }
                        }
                    },
                    None => {
                        // the set does not fit into this interval: keep it for the next pass
                        self.leftovers.push(system);
                        proof {
                            assert(p.placed == before.placed);
                            assert(p.deferred == before.deferred.push(i));
                        }
                    },
                }
                proof {
                    k = k + 1;
                }
            }
            proof {
                assert(todo.take(k) == todo);
                lemma_pass_progress(infos, threads, max_tail, todo);
            }
            // what was deferred is what the next pass is given
            let mut next: Vec<SystemSet<F>> = Vec::new();
            core::mem::swap(&mut next, &mut self.leftovers);
            systems = next;
            // every thread meets the others at the end of the interval
            Self::add_sync_for_all(&mut tree, self.thread_count);
            self.clear_since_sync();
            self.clear_threads_reserved();
            proof {
                let ghost closed = done.push(p.placed);
                assert forall|t: int| 0 <= t < threads implies #[trigger] tree.steps(t) == layout(
                    sets,
                    closed,
                    t,
                ) by {
                    assert(closed.drop_last() == done);
                    assert(closed.last() == p.placed);
                }
                if p.deferred.len() == 0 {
                    assert(rounds(infos, threads, max_tail, todo) == seq![p.placed]);
                    assert(full =~= closed);
                } else {
                    assert(rounds(infos, threads, max_tail, todo) == seq![p.placed] + rounds(
                        infos,
                        threads,
                        max_tail,
                        p.deferred,
                    ));
                    assert(full =~= closed + rounds(infos, threads, max_tail, p.deferred));
                }
                done = closed;
                todo = p.deferred;
            }
            if systems.len() == 0 {
                break;
            }
        }
        tree
    }

    /// Appends a rendezvous of all threads to every thread's list.
    #[inline]
    pub fn add_sync_for_all(tree: &mut ExecutionGraph<F>, thread_count: usize)
        requires
            old(tree).wf(),
            old(tree).threads() == thread_count,
        ensures
            final(tree).wf(),
            final(tree).threads() == thread_count,
            forall|t: int|
                0 <= t < thread_count ==> #[trigger] final(tree).steps(t) == old(tree).steps(t).push(
                    None,
                ),
    {
        let barrier = Node::<F>::create_barrier(thread_count);
        let mut t: usize = 0;
        while t < thread_count
            invariant
                t <= thread_count,
                tree.wf(),
                tree.threads() == thread_count,
                forall|u: int|
                    0 <= u < t ==> #[trigger] tree.steps(u) == old(tree).steps(u).push(None),
                forall|u: int| t <= u < thread_count ==> #[trigger] tree.steps(u) == old(tree).steps(u),
            decreases thread_count - t,
        {
            tree.append(t, Node::new_sync(barrier.clone()));
            t += 1;
        }
    }

    /// Forgets what the threads have reserved: after a rendezvous nothing
    /// that ran before it can conflict.
    #[inline]
    fn clear_threads_reserved(&mut self)
        requires
            old(self).threads_reserved_types@.len() == old(self).thread_count,
        ensures
            final(self).thread_count == old(self).thread_count,
            final(self).max_tail == old(self).max_tail,
            final(self).threads_since_sync == old(self).threads_since_sync,
            final(self).leftovers == old(self).leftovers,
            final(self).threads_reserved_types@.len() == old(self).thread_count,
            forall|t: int|
                0 <= t < old(self).thread_count ==> (
                #[trigger] final(self).threads_reserved_types@[t])@.len() == 0,
    {
        let mut t: usize = 0;
        while t < self.threads_reserved_types.len()
            invariant
                t <= self.threads_reserved_types@.len(),
                self.thread_count == old(self).thread_count,
                self.max_tail == old(self).max_tail,
                self.threads_since_sync == old(self).threads_since_sync,
                self.leftovers == old(self).leftovers,
                self.threads_reserved_types@.len() == old(self).thread_count,
                forall|u: int| 0 <= u < t ==> (#[trigger] self.threads_reserved_types@[u])@.len() == 0,
            decreases self.threads_reserved_types@.len() - t,
        {
            self.threads_reserved_types[t].clear();
            t += 1;
        }
    }

    /// Sets the threads' counts back to zero.
    #[inline]
    fn clear_since_sync(&mut self)
        requires
            old(self).threads_since_sync@.len() == old(self).thread_count,
        ensures
            final(self).thread_count == old(self).thread_count,
            final(self).max_tail == old(self).max_tail,
            final(self).threads_reserved_types == old(self).threads_reserved_types,
            final(self).leftovers == old(self).leftovers,
            final(self).threads_since_sync@.len() == old(self).thread_count,
            forall|t: int|
                0 <= t < old(self).thread_count ==> (#[trigger] final(self).threads_since_sync@[t])
                    == 0,
    {
        let mut t: usize = 0;
        while t < self.threads_since_sync.len()
            invariant
                t <= self.threads_since_sync@.len(),
                self.thread_count == old(self).thread_count,
                self.max_tail == old(self).max_tail,
                self.threads_reserved_types == old(self).threads_reserved_types,
                self.leftovers == old(self).leftovers,
                self.threads_since_sync@.len() == old(self).thread_count,
                forall|u: int| 0 <= u < t ==> (#[trigger] self.threads_since_sync@[u]) == 0,
            decreases self.threads_since_sync@.len() - t,
        {
            self.threads_since_sync[t] = 0;
            t += 1;
        }
    }
}

/// No set of one thread conflicts with a set of another thread, and local
/// sets are on the main thread only.
pub open spec fn interval_sound(infos: Seq<SetView>, placed: Seq<Seq<int>>) -> bool {
    &&& forall|t1: int, k1: int, t2: int, k2: int|
        0 <= t1 < placed.len() && 0 <= k1 < placed[t1].len() && 0 <= t2 < placed.len() && 0 <= k2
            < placed[t2].len() && t1 != t2 ==> !infos[#[trigger] placed[t1][k1]].conflicts(
            infos[#[trigger] placed[t2][k2]],
        )
    &&& forall|t: int, k: int|
        0 <= t < placed.len() && 0 <= k < placed[t].len() && infos[#[trigger] placed[t][k]].local
            ==> t == 0
}

/// What a pass places is sound.
pub proof fn lemma_pass_sound(infos: Seq<SetView>, threads: nat, max_tail: int, todo: Seq<int>)
    ensures
        interval_sound(infos, pass(infos, threads, max_tail, todo).placed),
    decreases todo.len(),
{
    if todo.len() > 0 {
        let front = todo.drop_last();
        let i = todo.last();
        lemma_pass_sound(infos, threads, max_tail, front);
        lemma_pass_within(infos, threads, max_tail, front);
        let q = pass(infos, threads, max_tail, front);
        let p = pass(infos, threads, max_tail, todo);
        let reserved = reserved_of(infos, q.placed);
        if exists|t: int| takes(reserved, infos[i], max_tail, t) {
            let u = choose|t: int| takes(reserved, infos[i], max_tail, t);
            // no other thread has a claim on the set
            assert forall|t: int, k: int|
                0 <= t < q.placed.len() && 0 <= k < q.placed[t].len() && t != u implies !infos[q.placed[t][k]].conflicts(
                infos[i],
            ) && !infos[i].conflicts(infos[q.placed[t][k]]) by {
                assert(!claims(reserved, infos[i], t));
                assert(!thread_conflicts(reserved[t], infos[i]));
                assert(reserved[t][k] == infos[q.placed[t][k]]);
                super::lemma_set_conflict_symmetric(infos[q.placed[t][k]], infos[i]);
            }
            assert forall|t1: int, k1: int, t2: int, k2: int|
                0 <= t1 < p.placed.len() && 0 <= k1 < p.placed[t1].len() && 0 <= t2
                    < p.placed.len() && 0 <= k2 < p.placed[t2].len() && t1
                    != t2 implies !infos[#[trigger] p.placed[t1][k1]].conflicts(
                infos[#[trigger] p.placed[t2][k2]],
            ) by {
                if t1 == u && k1 == q.placed[u].len() {
                    assert(p.placed[t2][k2] == q.placed[t2][k2]);
                } else if t2 == u && k2 == q.placed[u].len() {
                    assert(p.placed[t1][k1] == q.placed[t1][k1]);
                } else {
                    assert(p.placed[t1][k1] == q.placed[t1][k1]);
                    assert(p.placed[t2][k2] == q.placed[t2][k2]);
                }
            }
            assert forall|t: int, k: int|
                0 <= t < p.placed.len() && 0 <= k < p.placed[t].len() && infos[
                #[trigger] p.placed[t][k]].local implies t == 0 by {
                if t == u && k == q.placed[u].len() {
                    if u != 0 {
                        assert(claims(reserved, infos[i], 0));
                    }
                } else {
                    assert(p.placed[t][k] == q.placed[t][k]);
                }
            }
        }
    }
}

/// Plan correctness: in every interval of the plan that `rounds` describes,
/// no set of one thread conflicts with a set of another thread, and local
/// sets are on the main thread only.
pub proof fn lemma_rounds_sound(infos: Seq<SetView>, threads: nat, max_tail: int, todo: Seq<int>)
    ensures
        forall|r: int|
            0 <= r < rounds(infos, threads, max_tail, todo).len() ==> interval_sound(
                infos,
                #[trigger] rounds(infos, threads, max_tail, todo)[r],
            ),
    decreases todo.len(),
{
    let p = pass(infos, threads, max_tail, todo);
    lemma_pass_sound(infos, threads, max_tail, todo);
    if p.deferred.len() == 0 || p.deferred.len() >= todo.len() {
    } else {
        lemma_rounds_sound(infos, threads, max_tail, p.deferred);
        let rest = rounds(infos, threads, max_tail, p.deferred);
        assert forall|r: int|
            0 <= r < rounds(infos, threads, max_tail, todo).len() implies interval_sound(
            infos,
            #[trigger] rounds(infos, threads, max_tail, todo)[r],
        ) by {
            if r > 0 {
                assert(rounds(infos, threads, max_tail, todo)[r] == rest[r - 1]);
            }
        }
    }
}

/// Plan correctness, for the plan of `sets`: two sets that run in the same
/// interval on different threads do not conflict, and a local set runs on
/// the main thread.
pub proof fn lemma_plan_sound<F>(sets: Seq<SystemSet<F>>, threads: nat, max_tail: int)
    ensures
        forall|r: int|
            0 <= r < plan_rounds(sets, threads, max_tail).len() ==> interval_sound(
                infos_of(sets),
                #[trigger] plan_rounds(sets, threads, max_tail)[r],
            ),
{
    lemma_rounds_sound(infos_of(sets), threads, max_tail, all_indices(sets.len()));
}

/// Set `x` is in thread `t`'s list of `placed`, at `k`.
pub open spec fn placed_at(placed: Seq<Seq<int>>, x: int, t: int, k: int) -> bool {
    0 <= t < placed.len() && 0 <= k < placed[t].len() && placed[t][k] == x
}

/// A pass loses no set and takes none twice: every set that it was given is
/// in one thread's list or deferred, and, if none was given twice, in one
/// place only.
pub proof fn lemma_pass_complete(infos: Seq<SetView>, threads: nat, max_tail: int, todo: Seq<int>)
    ensures
        forall|x: int|
            todo.contains(x) ==> pass(infos, threads, max_tail, todo).deferred.contains(x) || exists|
                t: int,
                k: int,
            | #[trigger] placed_at(pass(infos, threads, max_tail, todo).placed, x, t, k),
        todo.no_duplicates() ==> {
            let p = pass(infos, threads, max_tail, todo);
            &&& p.deferred.no_duplicates()
            &&& forall|x: int, t: int, k: int| #[trigger]
                placed_at(p.placed, x, t, k) ==> !p.deferred.contains(x)
            &&& forall|x: int, t: int, k: int, u: int, m: int|
                #[trigger] placed_at(p.placed, x, t, k) && #[trigger] placed_at(p.placed, x, u, m)
                    ==> t == u && k == m
        },
    decreases todo.len(),
{
    if todo.len() > 0 {
        let front = todo.drop_last();
        let i = todo.last();
        lemma_pass_complete(infos, threads, max_tail, front);
        lemma_pass_within(infos, threads, max_tail, front);
        let q = pass(infos, threads, max_tail, front);
        let p = pass(infos, threads, max_tail, todo);
        let reserved = reserved_of(infos, q.placed);
        let takes_it = exists|t: int| takes(reserved, infos[i], max_tail, t);
        let u = choose|t: int| takes(reserved, infos[i], max_tail, t);
        assert forall|x: int| todo.contains(x) implies p.deferred.contains(x) || exists|
            t: int,
            k: int,
        | #[trigger] placed_at(p.placed, x, t, k) by {
            let at = todo.index_of(x);
            if at < front.len() {
                assert(front[at] == x);
                assert(front.contains(x));
                if q.deferred.contains(x) {
                    let m = q.deferred.index_of(x);
                    assert(p.deferred[m] == x);
                } else {
                    let (t, k) = choose|t: int, k: int| #[trigger] placed_at(q.placed, x, t, k);
                    assert(placed_at(p.placed, x, t, k));
                }
            } else {
                if takes_it {
                    assert(placed_at(p.placed, x, u, q.placed[u].len() as int));
                } else {
                    assert(p.deferred[q.deferred.len() as int] == x);
                }
            }
        }
        if todo.no_duplicates() {
            assert(front.no_duplicates());
            assert(!front.contains(i)) by {
                if front.contains(i) {
                    let m = front.index_of(i);
                    assert(todo[m] == todo[todo.len() - 1]);
                }
            }
            if takes_it {
                assert forall|x: int, t: int, k: int| #[trigger]
                    placed_at(p.placed, x, t, k) implies !p.deferred.contains(x) by {
                    if t == u && k == q.placed[u].len() {
                        if q.deferred.contains(i) {
                            let m = q.deferred.index_of(i);
                            assert(front.contains(q.deferred[m]));
                        }
                    } else {
                        assert(placed_at(q.placed, x, t, k));
                    }
                }
                assert forall|x: int, t: int, k: int, v: int, m: int|
                    #[trigger] placed_at(p.placed, x, t, k) && #[trigger] placed_at(
                        p.placed,
                        x,
                        v,
                        m,
                    ) implies t == v && k == m by {
                    let new_t = t == u && k == q.placed[u].len();
                    let new_v = v == u && m == q.placed[u].len();
                    if new_t && !new_v {
                        assert(placed_at(q.placed, x, v, m));
                        assert(front.contains(q.placed[v][m]));
                    } else if !new_t && new_v {
                        assert(placed_at(q.placed, x, t, k));
                        assert(front.contains(q.placed[t][k]));
                    } else if !new_t && !new_v {
                        assert(placed_at(q.placed, x, t, k));
                        assert(placed_at(q.placed, x, v, m));
                    }
                }
            } else {
                assert(!q.deferred.contains(i)) by {
                    if q.deferred.contains(i) {
                        let m = q.deferred.index_of(i);
                        assert(front.contains(q.deferred[m]));
                    }
                }
                crate::seqs::lemma_pushed(q.deferred, i);
                assert forall|x: int, t: int, k: int| #[trigger]
                    placed_at(p.placed, x, t, k) implies !p.deferred.contains(x) by {
                    assert(placed_at(q.placed, x, t, k));
                    assert(front.contains(q.placed[t][k]));
                }
                assert forall|x: int, t: int, k: int, v: int, m: int|
                    #[trigger] placed_at(p.placed, x, t, k) && #[trigger] placed_at(
                        p.placed,
                        x,
                        v,
                        m,
                    ) implies t == v && k == m by {
                    assert(placed_at(q.placed, x, t, k));
                    assert(placed_at(q.placed, x, v, m));
                }
            }
        }
    }
}

/// Set `x` runs in interval `r` of `rounds`, on thread `t`, as its `k`-th
/// set.
pub open spec fn runs_at(rounds: Seq<Seq<Seq<int>>>, x: int, r: int, t: int, k: int) -> bool {
    0 <= r < rounds.len() && placed_at(rounds[r], x, t, k)
}

/// The plan runs every set once: each of the sets `todo`, none of which is
/// named twice, runs in one interval on one thread, and nothing else runs.
pub proof fn lemma_rounds_complete(infos: Seq<SetView>, threads: nat, max_tail: int, todo: Seq<int>)
    requires
        todo.no_duplicates(),
        threads >= 1,
        threads >= 2 || max_tail >= 1,
    ensures
        forall|x: int|
            todo.contains(x) ==> exists|r: int, t: int, k: int| #[trigger]
                runs_at(rounds(infos, threads, max_tail, todo), x, r, t, k),
        forall|x: int, r: int, t: int, k: int| #[trigger]
            runs_at(rounds(infos, threads, max_tail, todo), x, r, t, k) ==> todo.contains(x),
        forall|x: int, r: int, t: int, k: int, s: int, u: int, m: int|
            #[trigger] runs_at(rounds(infos, threads, max_tail, todo), x, r, t, k)
                && #[trigger] runs_at(rounds(infos, threads, max_tail, todo), x, s, u, m) ==> r == s
                && t == u && k == m,
    decreases todo.len(),
{
    let p = pass(infos, threads, max_tail, todo);
    let all = rounds(infos, threads, max_tail, todo);
    lemma_pass_complete(infos, threads, max_tail, todo);
    lemma_pass_within(infos, threads, max_tail, todo);
    if todo.len() > 0 {
        lemma_pass_progress(infos, threads, max_tail, todo);
    }
    if p.deferred.len() == 0 || p.deferred.len() >= todo.len() {
        assert(p.deferred.len() == 0);
        assert(all == seq![p.placed]);
        assert forall|x: int| todo.contains(x) implies exists|r: int, t: int, k: int| #[trigger]
            runs_at(all, x, r, t, k) by {
            assert(!p.deferred.contains(x));
            let (t, k) = choose|t: int, k: int| #[trigger] placed_at(p.placed, x, t, k);
            assert(runs_at(all, x, 0, t, k));
        }
        assert forall|x: int, r: int, t: int, k: int| #[trigger]
            runs_at(all, x, r, t, k) implies todo.contains(x) by {
            assert(placed_at(p.placed, x, t, k));
            assert(todo.contains(p.placed[t][k]));
        }
        assert forall|x: int, r: int, t: int, k: int, s: int, u: int, m: int|
            #[trigger] runs_at(all, x, r, t, k) && #[trigger] runs_at(
                all,
                x,
                s,
                u,
                m,
            ) implies r == s && t == u && k == m by {
            assert(placed_at(p.placed, x, t, k));
            assert(placed_at(p.placed, x, u, m));
        }
    } else {
        let rest = rounds(infos, threads, max_tail, p.deferred);
        lemma_rounds_complete(infos, threads, max_tail, p.deferred);
        assert(all == seq![p.placed] + rest);
        assert forall|x: int| todo.contains(x) implies exists|r: int, t: int, k: int| #[trigger]
            runs_at(all, x, r, t, k) by {
            if p.deferred.contains(x) {
                let (r, t, k) = choose|r: int, t: int, k: int| #[trigger]
                    runs_at(rest, x, r, t, k);
                assert(all[r + 1] == rest[r]);
                assert(runs_at(all, x, r + 1, t, k));
            } else {
                let (t, k) = choose|t: int, k: int| #[trigger] placed_at(p.placed, x, t, k);
                assert(runs_at(all, x, 0, t, k));
            }
        }
        assert forall|x: int, r: int, t: int, k: int| #[trigger]
            runs_at(all, x, r, t, k) implies todo.contains(x) && (if r == 0 {
            placed_at(p.placed, x, t, k)
        } else {
            runs_at(rest, x, r - 1, t, k) && p.deferred.contains(x)
        }) by {
            if r == 0 {
                assert(placed_at(p.placed, x, t, k));
                assert(todo.contains(p.placed[t][k]));
            } else {
                assert(all[r] == rest[r - 1]);
                assert(runs_at(rest, x, r - 1, t, k));
                assert(p.deferred.contains(x));
                let m = p.deferred.index_of(x);
                assert(todo.contains(p.deferred[m]));
            }
        }
        assert forall|x: int, r: int, t: int, k: int, s: int, u: int, m: int|
            #[trigger] runs_at(all, x, r, t, k) && #[trigger] runs_at(
                all,
                x,
                s,
                u,
                m,
            ) implies r == s && t == u && k == m by {
            if r == 0 && s == 0 {
                assert(placed_at(p.placed, x, t, k));
                assert(placed_at(p.placed, x, u, m));
            } else if r == 0 {
                assert(placed_at(p.placed, x, t, k));
                assert(p.deferred.contains(x));
            } else if s == 0 {
                assert(placed_at(p.placed, x, u, m));
                assert(p.deferred.contains(x));
            } else {
                assert(runs_at(rest, x, r - 1, t, k));
                assert(runs_at(rest, x, s - 1, u, m));
            }
        }
    }
}

/// The plan of `sets` runs every set: set `x` runs in some interval, on
/// some thread.
pub proof fn lemma_plan_runs_every_set<F>(
    sets: Seq<SystemSet<F>>,
    threads: nat,
    max_tail: int,
    x: int,
)
    requires
        threads >= 1,
        threads >= 2 || max_tail >= 1,
        0 <= x < sets.len(),
    ensures
        exists|r: int, t: int, k: int| #[trigger]
            runs_at(plan_rounds(sets, threads, max_tail), x, r, t, k),
{
    let todo = all_indices(sets.len());
    let all = rounds(infos_of(sets), threads, max_tail, todo);
    assert(todo.no_duplicates());
    lemma_rounds_complete(infos_of(sets), threads, max_tail, todo);
    assert(todo[x] == x);
    assert(todo.contains(x));
    let (r, t, k) = choose|r: int, t: int, k: int| #[trigger] runs_at(all, x, r, t, k);
    assert(plan_rounds(sets, threads, max_tail) == all);
    assert(runs_at(plan_rounds(sets, threads, max_tail), x, r, t, k));
}

/// The plan of `sets` runs no set twice and nothing but the sets: what runs
/// at a place of the plan is one of the sets, and runs at no other place.
pub proof fn lemma_plan_runs_once<F>(sets: Seq<SystemSet<F>>, threads: nat, max_tail: int)
    requires
        threads >= 1,
        threads >= 2 || max_tail >= 1,
    ensures
        forall|x: int, r: int, t: int, k: int| #[trigger]
            runs_at(plan_rounds(sets, threads, max_tail), x, r, t, k) ==> 0 <= x < sets.len(),
        forall|x: int, r: int, t: int, k: int, s: int, u: int, m: int|
            #[trigger] runs_at(plan_rounds(sets, threads, max_tail), x, r, t, k)
                && #[trigger] runs_at(plan_rounds(sets, threads, max_tail), x, s, u, m) ==> r == s
                && t == u && k == m,
{
    let todo = all_indices(sets.len());
    lemma_rounds_complete(infos_of(sets), threads, max_tail, todo);
    assert(plan_rounds(sets, threads, max_tail) == rounds(
        infos_of(sets),
        threads,
        max_tail,
        todo,
    ));
    assert forall|x: int| todo.contains(x) implies 0 <= x < sets.len() by {
        let m = todo.index_of(x);
    }
}

/// The plan of one stage.
pub struct Stage<F> {
    pub systems: ExecutionGraph<F>,
}

/// The sets of one stage, in the order in which they were added.
pub struct BStage<F> {
    pub systems: Vec<SystemSet<F>>,
}

impl<F> BStage<F> {
    pub fn new() -> (r: Self)
        ensures
            r.systems@.len() == 0,
    {
        Self { systems: Vec::new() }
    }

    /// Plans the stage.
    pub fn build(self, graph_builder: &mut GraphBuilder<F>) -> (r: Stage<F>)
        requires
            old(graph_builder).wf(),
        ensures
            final(graph_builder).wf(),
            final(graph_builder).thread_count == old(graph_builder).thread_count,
            final(graph_builder).max_tail == old(graph_builder).max_tail,
            is_plan_of(
                &r.systems,
                self.systems@,
                old(graph_builder).thread_count as nat,
                old(graph_builder).max_tail as int,
            ),
    {
        Stage { systems: graph_builder.build_graph_from(self.systems) }
    }

    pub fn add_system(&mut self, set: SystemSet<F>)
        ensures
            final(self).systems@ == old(self).systems@.push(set),
    {
        self.systems.push(set);
    }
}

/// The plans of all stages, for `thread_count` worker threads and the main
/// thread.
pub struct Schedule<F> {
    pub thread_count: usize,
    pub setup: Stage<F>,
    pub pre_update: Stage<F>,
    pub update: Stage<F>,
    pub post_update: Stage<F>,
    pub shutdown: Stage<F>,
}

/// Collects the system sets of the stages and the settings of the planner.
pub struct ScheduleBuilder<F> {
    pub thread_count: usize,
    pub max_tail: usize,
    pub setup: BStage<F>,
    pub start: BStage<F>,
    pub update: BStage<F>,
    pub finish: BStage<F>,
    pub shutdown: BStage<F>,
}

impl<F> ScheduleBuilder<F> {
    /// The sets that were added to `stage`, in their order.
    pub open spec fn sets(&self, stage: StageKind) -> Seq<SystemSet<F>> {
        match stage {
            StageKind::Setup => self.setup.systems@,
            StageKind::PreUpdate => self.start.systems@,
            StageKind::Update => self.update.systems@,
            StageKind::PostUpdate => self.finish.systems@,
            StageKind::Shutdown => self.shutdown.systems@,
        }
    }

    /// A builder without systems, for four worker threads and a `max_tail`
    /// of eight.
    #[inline]
    pub fn new() -> (r: Self)
        ensures
            r.thread_count == 4,
            r.max_tail == 8,
            forall|stage: StageKind| (#[trigger] r.sets(stage)).len() == 0,
    {
        Self {
            thread_count: 4,
            max_tail: 8,
            setup: BStage::new(),
            start: BStage::new(),
            update: BStage::new(),
            finish: BStage::new(),
            shutdown: BStage::new(),
        }
    }

    /// Plans every stage for the worker threads and the main thread.
    /// `thread_count` and `max_tail` must not both be zero: a plan for one
    /// thread that allows no tail cannot place a set.
    #[inline]
    pub fn build(self) -> (r: Schedule<F>)
        requires
            self.thread_count < usize::MAX,
            self.thread_count >= 1 || self.max_tail >= 1,
        ensures
            r.thread_count == self.thread_count,
            is_plan_of(
                &r.setup.systems,
                self.sets(StageKind::Setup),
                (self.thread_count + 1) as nat,
                self.max_tail as int,
            ),
            is_plan_of(
                &r.pre_update.systems,
                self.sets(StageKind::PreUpdate),
                (self.thread_count + 1) as nat,
                self.max_tail as int,
            ),
            is_plan_of(
                &r.update.systems,
                self.sets(StageKind::Update),
                (self.thread_count + 1) as nat,
                self.max_tail as int,
            ),
            is_plan_of(
                &r.post_update.systems,
                self.sets(StageKind::PostUpdate),
                (self.thread_count + 1) as nat,
                self.max_tail as int,
            ),
            is_plan_of(
                &r.shutdown.systems,
                self.sets(StageKind::Shutdown),
                (self.thread_count + 1) as nat,
                self.max_tail as int,
            ),
    {
        // the main thread takes part as well
        let thread_count = self.thread_count + 1;
        let mut graph_builder = GraphBuilder::new(thread_count, self.max_tail);
        let setup = self.setup.build(&mut graph_builder);
        let pre_update = self.start.build(&mut graph_builder);
        let update = self.update.build(&mut graph_builder);
        let post_update = self.finish.build(&mut graph_builder);
        let shutdown = self.shutdown.build(&mut graph_builder);
        Schedule { thread_count: self.thread_count, setup, pre_update, update, post_update, shutdown }
    }

    #[inline]
    pub fn set_thread_count(self, thead_count: usize) -> (r: Self)
        ensures
            r.thread_count == thead_count,
            r.max_tail == self.max_tail,
            forall|stage: StageKind| #[trigger] r.sets(stage) == self.sets(stage),
    {
        let mut out = self;
        out.thread_count = thead_count;
        out
    }

    #[inline]
    pub fn set_max_tail(self, max_tail: usize) -> (r: Self)
        ensures
            r.thread_count == self.thread_count,
            r.max_tail == max_tail,
            forall|stage: StageKind| #[trigger] r.sets(stage) == self.sets(stage),
    {
        let mut out = self;
        out.max_tail = max_tail;
        out
    }

    /// Adds `set` to the stage that `stage` names.
    pub fn add_system<T: SystemStage>(self, stage: T, set: SystemSet<F>) -> (r: Self)
        ensures
            r.thread_count == self.thread_count,
            r.max_tail == self.max_tail,
            r.sets(stage.kind_spec()) == self.sets(stage.kind_spec()).push(set),
            forall|other: StageKind|
                other != stage.kind_spec() ==> #[trigger] r.sets(other) == self.sets(other),
    {
        let mut out = self;
        match stage.kind() {
            StageKind::Setup => out.setup.add_system(set),
            StageKind::PreUpdate => out.start.add_system(set),
            StageKind::Update => out.update.add_system(set),
            StageKind::PostUpdate => out.finish.add_system(set),
            StageKind::Shutdown => out.shutdown.add_system(set),
        }
        out
    }
}

} // verus!
