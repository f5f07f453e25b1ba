//! Component kinds and sequences of them.

use vstd::prelude::*;

verus! {

/// The identity of a component kind. Two components are of one kind exactly
/// when their identities are equal.
#[derive(Debug, Clone, Copy, PartialEq, Eq, Hash, Structural)]
pub struct KindId(pub u64);

/// `a` and `b` hold the same kinds, in whatever order.
pub open spec fn same_kinds(a: Seq<KindId>, b: Seq<KindId>) -> bool {
    forall|k: KindId| a.contains(k) <==> b.contains(k)
}

/// Every kind of `a` occurs in `b`.
pub open spec fn kinds_within(a: Seq<KindId>, b: Seq<KindId>) -> bool {
    forall|k: KindId| a.contains(k) ==> b.contains(k)
}

/// The kinds of `a` that do not occur in `b`, in the order of `a`.
pub open spec fn kinds_without(a: Seq<KindId>, b: Seq<KindId>) -> Seq<KindId> {
    a.filter(|k: KindId| !b.contains(k))
}

/// Whether `kind` occurs in `kinds`.
pub fn contains_kind(kinds: &[KindId], kind: KindId) -> (r: bool)
    ensures
        r == kinds@.contains(kind),
{
    let mut i: usize = 0;
    while i < kinds.len()
        invariant
            i <= kinds.len(),
            forall|j: int| 0 <= j < i ==> kinds@[j] != kind,
        decreases kinds.len() - i,
    {
        if kinds[i] == kind {
            return true;
        }
        i += 1;
    }
    false
}

/// `first` followed by the kinds of `second` that `first` does not hold.
pub fn union_kinds(first: Vec<KindId>, second: &[KindId]) -> (r: Vec<KindId>)
    ensures
        r@ == first@ + kinds_without(second@, first@),
        first@.no_duplicates() && second@.no_duplicates() ==> r@.no_duplicates(),
        forall|k: KindId| r@.contains(k) <==> (first@.contains(k) || second@.contains(k)),
{
    let ghost keep = |k: KindId| !first@.contains(k);
    let n = first.len();
    let mut out = first;
    let mut i: usize = 0;
    while i < second.len()
        invariant
            i <= second.len(),
            n == first@.len(),
            keep == |k: KindId| !first@.contains(k),
            out@ == first@ + second@.take(i as int).filter(keep),
        decreases second.len() - i,
    {
        let kind = second[i];
        proof {
            reveal(Seq::filter);
            assert(second@.take(i + 1).drop_last() == second@.take(i as int));
            assert(second@.take(i + 1).last() == kind);
        }
        assert(out@.take(n as int) == first@);
        if !prefix_contains(&out, n, kind) {
            out.push(kind);
        }
        i += 1;
    }
    proof {
        assert(second@.take(i as int) == second@);
        lemma_filter_contains(second@, keep);
        if first@.no_duplicates() && second@.no_duplicates() {
            lemma_filter_distinct(second@, keep);
            vstd::seq_lib::lemma_no_dup_in_concat(first@, second@.filter(keep));
        }
        assert forall|k: KindId| out@.contains(k) <==> (first@.contains(k) || second@.contains(
            k,
        )) by {
            let tail = second@.filter(keep);
            if out@.contains(k) {
                let m = out@.index_of(k);
                if m < first@.len() {
                    assert(first@[m] == k);
                } else {
                    assert(tail[m - first@.len()] == k);
                    assert(tail.contains(k));
                }
            }
            if first@.contains(k) {
                let m = first@.index_of(k);
                assert(out@[m] == k);
            }
            if second@.contains(k) && !first@.contains(k) {
                assert(tail.contains(k));
                let m = tail.index_of(k);
                assert(out@[first@.len() + m] == k);
            }
        }
    }
    out
}

/// The kinds of `a` that `b` does not hold, in the order of `a`.
pub fn difference_kinds(a: &[KindId], b: &[KindId]) -> (r: Vec<KindId>)
    ensures
        r@ == kinds_without(a@, b@),
        r@.len() <= a@.len(),
        a@.no_duplicates() ==> r@.no_duplicates(),
        forall|k: KindId| r@.contains(k) <==> (a@.contains(k) && !b@.contains(k)),
        r@.len() == a@.len() ==> r@ == a@,
{
    let ghost keep = |k: KindId| !b@.contains(k);
    let mut out: Vec<KindId> = Vec::new();
    let mut i: usize = 0;
    while i < a.len()
        invariant
            i <= a.len(),
            keep == |k: KindId| !b@.contains(k),
            out@ == a@.take(i as int).filter(keep),
            out@.len() <= i,
            out@.len() == i ==> out@ == a@.take(i as int),
        decreases a.len() - i,
    {
        let kind = a[i];
        proof {
            reveal(Seq::filter);
            assert(a@.take(i + 1).drop_last() == a@.take(i as int));
            assert(a@.take(i + 1).last() == kind);
        }
        if !contains_kind(b, kind) {
            out.push(kind);
        }
        i += 1;
    }
    proof {
        assert(a@.take(i as int) == a@);
        lemma_filter_contains(a@, keep);
        if a@.no_duplicates() {
            lemma_filter_distinct(a@, keep);
        }
    }
    out
}

/// Whether `kind` occurs among the first `n` of `kinds`.
fn prefix_contains(kinds: &Vec<KindId>, n: usize, kind: KindId) -> (r: bool)
    requires
        n <= kinds@.len(),
    ensures
        r == kinds@.take(n as int).contains(kind),
{
    let mut i: usize = 0;
    while i < n
        invariant
            i <= n <= kinds@.len(),
            forall|j: int| 0 <= j < i ==> kinds@[j] != kind,
        decreases n - i,
    {
        if kinds[i] == kind {
            assert(kinds@.take(n as int)[i as int] == kind);
            return true;
        }
        i += 1;
    }
    assert forall|j: int| 0 <= j < n implies kinds@.take(n as int)[j] != kind by {}
    false
}

/// Whether no kind occurs twice in `kinds`.
pub fn all_distinct(kinds: &[KindId]) -> (r: bool)
    ensures
        r == kinds@.no_duplicates(),
{
    let mut i: usize = 0;
    while i < kinds.len()
        invariant
            i <= kinds.len(),
            forall|a: int, b: int| 0 <= a < b < kinds.len() && a < i ==> kinds@[a] != kinds@[b],
        decreases kinds.len() - i,
    {
        let mut j: usize = i + 1;
        while j < kinds.len()
            invariant
                i < j <= kinds.len(),
                forall|b: int| i < b < j ==> kinds@[i as int] != kinds@[b],
            decreases kinds.len() - j,
        {
            if kinds[i] == kinds[j] {
                return false;
            }
            j += 1;
        }
        i += 1;
    }
    true
}

/// A list of distinct kinds that lies within another of the same length
/// holds the same kinds.
pub proof fn lemma_within_same_len(a: Seq<KindId>, b: Seq<KindId>)
    requires
        a.no_duplicates(),
        b.no_duplicates(),
        kinds_within(a, b),
        a.len() == b.len(),
    ensures
        same_kinds(a, b),
{
    a.unique_seq_to_set();
    b.unique_seq_to_set();
    vstd::seq_lib::seq_to_set_is_finite(a);
    vstd::seq_lib::seq_to_set_is_finite(b);
    assert(a.to_set().subset_of(b.to_set())) by {
        assert forall|k: KindId| a.to_set().contains(k) implies b.to_set().contains(k) by {
            assert(a.contains(k));
        }
    }
    vstd::set_lib::lemma_subset_equality(a.to_set(), b.to_set());
    assert forall|k: KindId| a.contains(k) <==> b.contains(k) by {
        assert(a.to_set().contains(k) == a.contains(k));
        assert(b.to_set().contains(k) == b.contains(k));
    }
}

/// What a filtered list holds: the items of the list that the filter keeps.
pub proof fn lemma_filter_contains(a: Seq<KindId>, keep: spec_fn(KindId) -> bool)
    ensures
        forall|k: KindId| a.filter(keep).contains(k) <==> (a.contains(k) && keep(k)),
    decreases a.len(),
{
    reveal(Seq::filter);
    if a.len() > 0 {
        let front = a.drop_last();
        let sub = front.filter(keep);
        lemma_filter_contains(front, keep);
        assert forall|k: KindId| a.filter(keep).contains(k) <==> (a.contains(k) && keep(k)) by {
            if a.filter(keep).contains(k) {
                let m = a.filter(keep).index_of(k);
                if m < sub.len() {
                    assert(sub[m] == k);
                    assert(sub.contains(k));
                    assert(front.contains(k) && keep(k));
                    let q = front.index_of(k);
                    assert(front[q] == k);
                    assert(a[q] == k);
                } else {
                    assert(a[a.len() - 1] == k);
                }
            }
            if a.contains(k) && keep(k) {
                let q = a.index_of(k);
                if q < front.len() {
                    assert(front[q] == k);
                    assert(sub.contains(k));
                    let m = sub.index_of(k);
                    assert(a.filter(keep)[m] == k);
                } else {
                    assert(a.filter(keep)[sub.len() as int] == k);
                }
            }
        }
    }
}

/// A filter that keeps every item of a list leaves the list as it is.
pub proof fn lemma_filter_all(a: Seq<KindId>, keep: spec_fn(KindId) -> bool)
    requires
        forall|i: int| 0 <= i < a.len() ==> keep(#[trigger] a[i]),
    ensures
        a.filter(keep) == a,
    decreases a.len(),
{
    reveal(Seq::filter);
    if a.len() > 0 {
        lemma_filter_all(a.drop_last(), keep);
        assert(a.drop_last().push(a.last()) == a);
    }
}

/// Filtering keeps a list of distinct kinds distinct.
pub proof fn lemma_filter_distinct(a: Seq<KindId>, keep: spec_fn(KindId) -> bool)
    requires
        a.no_duplicates(),
    ensures
        a.filter(keep).no_duplicates(),
    decreases a.len(),
{
    reveal(Seq::filter);
    if a.len() > 0 {
        let front = a.drop_last();
        lemma_filter_distinct(front, keep);
        if keep(a.last()) {
            lemma_filter_contains(front, keep);
            assert(!front.contains(a.last())) by {
                if front.contains(a.last()) {
                    let q = front.index_of(a.last());
                    assert(a[q] == a.last());
                }
            }
            crate::seqs::lemma_pushed(front.filter(keep), a.last());
        }
    }
}

} // verus!
