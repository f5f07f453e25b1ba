//! Execution plans: for each thread a linked list of nodes in one arena.

use std::sync::{Arc, Barrier};
use vstd::prelude::*;

use super::SystemSet;

verus! {

/// `std::sync::Barrier`.
#[verifier::external_type_specification]
#[verifier::external_body]
pub struct ExBarrier(Barrier);

/// Makes a barrier for `threads` threads: `Barrier::new`. Nothing is
/// claimed of the barrier.
#[verifier::external_body]
fn barrier_for(threads: usize) -> (r: Barrier) {
    Barrier::new(threads)
}

/// A rendezvous of all threads of a plan. Every thread has a node with a
/// handle to the same barrier. `threads` is the number of threads that the
/// barrier was made for.
#[derive(Debug, Clone)]
pub struct SyncPoint {
    pub barrier: Arc<Barrier>,
    pub threads: usize,
}

impl SyncPoint {
    /// A rendezvous of `threads` threads.
    pub fn new(threads: usize) -> (r: Self)
        ensures
            r.threads == threads,
    {
        Self { barrier: Arc::new(barrier_for(threads)), threads }
    }
}

/// A step of a thread's list: a system set to run, or a rendezvous with
/// the other threads. `next` is the index of the step that follows.
pub enum Node<F> {
    System { next: Option<usize>, systems: SystemSet<F> },
    Sync { barrier: SyncPoint, next: Option<usize> },
}

impl<F> Node<F> {
    /// The index of the node that follows.
    pub open spec fn next_spec(&self) -> Option<usize> {
        match self {
            Node::System { next, .. } => *next,
            Node::Sync { next, .. } => *next,
        }
    }

    /// The system set that the node runs; none for a rendezvous.
    pub open spec fn set(&self) -> Option<SystemSet<F>> {
        match self {
            Node::System { systems, .. } => Some(*systems),
            Node::Sync { .. } => None,
        }
    }

    /// The two nodes are the same step; they may differ in what follows.
    pub open spec fn same_step(&self, other: &Node<F>) -> bool {
        match (self, other) {
            (Node::System { systems: a, .. }, Node::System { systems: b, .. }) => a == b,
            (Node::Sync { barrier: a, .. }, Node::Sync { barrier: b, .. }) => a == b,
            _ => false,
        }
    }

    #[inline]
    pub fn new_system(systems: SystemSet<F>) -> (r: Self)
        ensures
            r == (Node::<F>::System { next: None, systems }),
    {
        Self::System { next: None, systems }
    }

    /// A rendezvous of `thread_count` threads.
    #[inline]
    pub fn create_barrier(thread_count: usize) -> (r: SyncPoint)
        ensures
            r.threads == thread_count,
    {
        SyncPoint::new(thread_count)
    }

    #[inline]
    pub fn new_sync(barrier: SyncPoint) -> (r: Self)
        ensures
            r == (Node::<F>::Sync { barrier, next: None }),
    {
        Self::Sync { barrier, next: None }
    }

    /// The index of the node that follows.
    #[inline]
    pub fn next_index(&self) -> (r: Option<usize>)
        ensures
            r == self.next_spec(),
    {
        match self {
            Self::System { next, .. } => *next,
            Self::Sync { next, .. } => *next,
        }
    }

    /// The node that follows, out of the arena `nodes`.
    #[inline]
    pub fn next<'a>(&self, nodes: &'a [Self]) -> (r: Option<&'a Self>)
        requires
            self.next_spec() matches Some(i) ==> i < nodes@.len(),
        ensures
            r is Some == self.next_spec() is Some,
            r matches Some(n) ==> *n == nodes@[self.next_spec().unwrap() as int],
    {
        match self.next_index() {
            Some(i) => Some(&nodes[i]),
            None => None,
        }
    }

    /// Whether the node is a rendezvous.
    #[inline]
    pub fn is_sync(&self) -> (r: bool)
        ensures
            r == (self.set() is None),
    {
        match self {
            Self::System { .. } => false,
            Self::Sync { .. } => true,
        }
    }

    #[inline]
    pub fn set_next(&mut self, n: usize)
        ensures
            final(self).next_spec() == Some(n),
            final(self).same_step(old(self)),
            final(self).set() == old(self).set(),
    {
        match self {
            Self::System { next, .. } => {
                *next = Some(n);
            },
            Self::Sync { next, .. } => {
                *next = Some(n);
            },
        }
    }
}

/// The head of one thread's list.
#[derive(Debug, Default, Clone, Copy)]
pub struct Root {
    pub node: Option<usize>,
    pub last_node: usize,
    pub node_count: usize,
}

impl Root {
    #[inline]
    pub fn new() -> (r: Self)
        ensures
            r == (Root { node: None, last_node: 0, node_count: 0 }),
    {
        Self { node: None, last_node: 0, node_count: 0 }
    }

    /// Appends `node` to the arena and to the end of this list.
    pub fn append_last<F>(&mut self, nodes: &mut Vec<Node<F>>, node: Node<F>)
        requires
            old(self).node is Some ==> old(self).last_node < old(nodes)@.len(),
            old(self).node_count <= old(nodes)@.len(),
        ensures
            final(nodes)@.len() == old(nodes)@.len() + 1,
            final(self).node == (if old(self).node is Some {
                old(self).node
            } else {
                Some(old(nodes)@.len() as usize)
            }),
            final(self).last_node == old(nodes)@.len(),
            final(self).node_count == old(self).node_count + 1,
            final(nodes)@[old(nodes)@.len() as int] == node,
            forall|i: int|
                0 <= i < old(nodes)@.len() && !(old(self).node is Some && i == old(self).last_node)
                    ==> final(nodes)@[i] == old(nodes)@[i],
            old(self).node is Some ==> {
                let last = old(self).last_node as int;
                &&& final(nodes)@[last].next_spec() == Some(old(nodes)@.len() as usize)
                &&& final(nodes)@[last].same_step(&old(nodes)@[last])
                &&& final(nodes)@[last].set() == old(nodes)@[last].set()
            },
    {
        // the new node's position
        let position = nodes.len();
        nodes.push(node);
        let _ = nodes.len();
        self.node_count += 1;
        if self.node.is_some() {
            nodes[self.last_node].set_next(position);
        } else {
            self.node = Some(position);
        }
        self.last_node = position;
    }
}

/// The plan of one stage: one list of nodes for each thread, all in one
/// arena. `lists` is the model: for each thread the indices of its nodes,
/// in the order in which they run. `places` says for each node of the
/// arena in which list it is, and where.
pub struct ExecutionGraph<F> {
    pub node_tree: Vec<Root>,
    pub nodes: Vec<Node<F>>,
    pub lists: Ghost<Seq<Seq<int>>>,
    pub places: Ghost<Seq<(int, int)>>,
}

impl<F> ExecutionGraph<F> {
    /// `list` is what `root` links together in `nodes`.
    pub open spec fn links(root: Root, list: Seq<int>, nodes: Seq<Node<F>>) -> bool {
        &&& root.node_count == list.len()
        &&& list.len() <= nodes.len()
        &&& forall|k: int| 0 <= k < list.len() ==> 0 <= #[trigger] list[k] < nodes.len()
        &&& list.len() == 0 ==> root.node is None
        &&& list.len() > 0 ==> root.node == Some(list[0] as usize) && root.last_node == list.last()
            && nodes[list.last()].next_spec() is None
        &&& forall|k: int|
            0 <= k < list.len() - 1 ==> nodes[#[trigger] list[k]].next_spec() == Some(
                list[k + 1] as usize,
            )
    }

    /// The lists are what the roots link together, and every node is in
    /// one place.
    pub open spec fn wf(&self) -> bool {
        &&& self.lists@.len() == self.node_tree@.len()
        &&& self.places@.len() == self.nodes@.len()
        &&& forall|t: int|
            0 <= t < self.node_tree@.len() ==> Self::links(
                #[trigger] self.node_tree@[t],
                self.lists@[t],
                self.nodes@,
            )
        &&& forall|t: int, k: int|
            0 <= t < self.lists@.len() && 0 <= k < self.lists@[t].len() ==> self.places@[
            #[trigger] self.lists@[t][k]] == (t, k)
    }

    /// The number of threads that the plan is for.
    pub open spec fn threads(&self) -> nat {
        self.lists@.len()
    }

    /// What thread `t` does, step by step: the system set that it runs, or
    /// none where it meets the other threads.
    pub open spec fn steps(&self, t: int) -> Seq<Option<SystemSet<F>>> {
        Seq::new(self.lists@[t].len(), |k: int| self.nodes@[self.lists@[t][k]].set())
    }

    /// A plan for `thread_count` threads in which no thread does anything.
    #[inline]
    pub fn new(thread_count: usize) -> (r: Self)
        ensures
            r.wf(),
            r.threads() == thread_count,
            r.nodes@.len() == 0,
            forall|t: int| 0 <= t < thread_count ==> (#[trigger] r.steps(t)).len() == 0,
    {
        let mut node_tree: Vec<Root> = Vec::new();
        let mut i: usize = 0;
        while i < thread_count
            invariant
                i <= thread_count,
                node_tree@.len() == i,
                forall|t: int|
                    0 <= t < i ==> node_tree@[t] == (Root { node: None, last_node: 0, node_count: 0 }),
            decreases thread_count - i,
        {
            node_tree.push(Root::new());
            i += 1;
        }
        Self {
            node_tree,
            nodes: Vec::new(),
            lists: Ghost(Seq::new(thread_count as nat, |t: int| Seq::<int>::empty())),
            places: Ghost(Seq::empty()),
        }
    }

    /// The plan of a stage without systems: no threads, no nodes.
    pub fn new_empty() -> (r: Self)
        ensures
            r.wf(),
            r.threads() == 0,
            r.nodes@.len() == 0,
    {
        Self {
            node_tree: Vec::new(),
            nodes: Vec::new(),
            lists: Ghost(Seq::empty()),
            places: Ghost(Seq::empty()),
        }
    }

    #[inline]
    pub fn is_empty(&self) -> (r: bool)
        ensures
            r == (self.nodes@.len() == 0),
    {
        self.len() == 0
    }

    /// The number of nodes of all threads together.
    #[inline]
    pub fn len(&self) -> (r: usize)
        ensures
            r == self.nodes@.len(),
    {
        self.nodes.len()
    }

    /// Appends `node` to the list of thread `thread`.
    pub fn append(&mut self, thread: usize, node: Node<F>)
        requires
            old(self).wf(),
            thread < old(self).threads(),
            node.next_spec() is None,
        ensures
            final(self).wf(),
            final(self).threads() == old(self).threads(),
            final(self).nodes@.len() == old(self).nodes@.len() + 1,
            final(self).steps(thread as int) == old(self).steps(thread as int).push(node.set()),
            forall|t: int|
                0 <= t < old(self).threads() && t != thread ==> #[trigger] final(self).steps(t)
                    == old(self).steps(t),
            forall|t: int|
                0 <= t < old(self).threads() ==> (#[trigger] final(self).node_tree@[t]).node_count
                    == old(self).node_tree@[t].node_count + (if t == thread {
                    1int
                } else {
                    0int
                }),
    {
        let ghost position = self.nodes@.len() as int;
        let ghost before = self.lists@;
        let ghost list = before[thread as int];
        proof {
            assert(Self::links(self.node_tree@[thread as int], list, self.nodes@));
        }
        self.node_tree[thread].append_last(&mut self.nodes, node);
        proof {
            self.lists = Ghost(before.update(thread as int, list.push(position)));
            self.places = Ghost(old(self).places@.push((thread as int, list.len() as int)));
            old(self).lemma_appended(&*self, thread as int, node);
        }
    }

    /// `post` is `self` after `node` was linked to the end of the list of
    /// thread `t`.
    proof fn lemma_appended(&self, post: &Self, t: int, node: Node<F>)
        requires
            self.wf(),
            0 <= t < self.threads(),
            node.next_spec() is None,
            post.lists@ == self.lists@.update(t, self.lists@[t].push(self.nodes@.len() as int)),
            post.places@ == self.places@.push((t, self.lists@[t].len() as int)),
            post.node_tree@.len() == self.node_tree@.len(),
            forall|u: int|
                0 <= u < self.node_tree@.len() && u != t ==> post.node_tree@[u]
                    == self.node_tree@[u],
            post.nodes@.len() == self.nodes@.len() + 1,
            post.node_tree@[t].node == (if self.node_tree@[t].node is Some {
                self.node_tree@[t].node
            } else {
                Some(self.nodes@.len() as usize)
            }),
            post.node_tree@[t].last_node == self.nodes@.len(),
            post.node_tree@[t].node_count == self.node_tree@[t].node_count + 1,
            post.nodes@[self.nodes@.len() as int] == node,
            forall|i: int|
                0 <= i < self.nodes@.len() && !(self.node_tree@[t].node is Some && i
                    == self.node_tree@[t].last_node) ==> post.nodes@[i] == self.nodes@[i],
            self.node_tree@[t].node is Some ==> {
                let last = self.node_tree@[t].last_node as int;
                &&& post.nodes@[last].next_spec() == Some(self.nodes@.len() as usize)
                &&& post.nodes@[last].set() == self.nodes@[last].set()
            },
        ensures
            post.wf(),
            post.steps(t) == self.steps(t).push(node.set()),
            forall|u: int| 0 <= u < self.threads() && u != t ==> #[trigger] post.steps(u) == self.steps(u),
    {
        let n = self.nodes@.len() as int;
        let list = self.lists@[t];
        assert(Self::links(self.node_tree@[t], list, self.nodes@));
        if list.len() > 0 {
            assert(self.places@[list[list.len() - 1]] == (t, list.len() - 1));
        }
        // a node that is not the end of thread t's list is what it was
        assert forall|u: int, k: int|
            0 <= u < self.lists@.len() && 0 <= k < self.lists@[u].len() && !(u == t && k
                == list.len() - 1) implies post.nodes@[#[trigger] self.lists@[u][k]]
            == self.nodes@[self.lists@[u][k]] by {
            assert(Self::links(self.node_tree@[u], self.lists@[u], self.nodes@));
            assert(self.places@[self.lists@[u][k]] == (u, k));
        }
        assert forall|u: int| 0 <= u < post.node_tree@.len() implies Self::links(
            #[trigger] post.node_tree@[u],
            post.lists@[u],
            post.nodes@,
        ) by {
            assert(Self::links(self.node_tree@[u], self.lists@[u], self.nodes@));
            if u == t {
                let after = post.lists@[t];
                assert forall|k: int| 0 <= k < after.len() - 1 implies post.nodes@[
                #[trigger] after[k]].next_spec() == Some(after[k + 1] as usize) by {
                    if k < list.len() - 1 {
                        assert(post.nodes@[list[k]] == self.nodes@[list[k]]);
                    }
                }
            } else {
                assert forall|k: int| 0 <= k < self.lists@[u].len() - 1 implies post.nodes@[
                #[trigger] self.lists@[u][k]].next_spec() == Some(
                    self.lists@[u][k + 1] as usize,
                ) by {
                    assert(post.nodes@[self.lists@[u][k]] == self.nodes@[self.lists@[u][k]]);
                }
                if self.lists@[u].len() > 0 {
                    let m = self.lists@[u].len() - 1;
                    assert(post.nodes@[self.lists@[u][m]] == self.nodes@[self.lists@[u][m]]);
                }
            }
        }
        assert forall|u: int, k: int|
            0 <= u < post.lists@.len() && 0 <= k < post.lists@[u].len() implies post.places@[
        #[trigger] post.lists@[u][k]] == (u, k) by {
            if u == t && k == list.len() {
            } else {
                assert(Self::links(self.node_tree@[u], self.lists@[u], self.nodes@));
                assert(self.places@[self.lists@[u][k]] == (u, k));
            }
        }
        assert forall|u: int| 0 <= u < self.threads() && u != t implies #[trigger] post.steps(u)
            == self.steps(u) by {
            assert forall|k: int| 0 <= k < self.lists@[u].len() implies post.nodes@[self.lists@[u][k]]
                == self.nodes@[self.lists@[u][k]] by {}
            assert(post.steps(u) =~= self.steps(u));
        }
        assert(post.steps(t) =~= self.steps(t).push(node.set())) by {
            assert forall|k: int| 0 <= k < list.len() implies post.nodes@[list[k]].set()
                == self.nodes@[list[k]].set() by {
                if k < list.len() - 1 {
                    assert(post.nodes@[list[k]] == self.nodes@[list[k]]);
                }
            }
        }
    }
}

} // verus!
