//! Sequence operations that the modules are specified and written with.

use vstd::prelude::*;

verus! {

/// `s` after the item at `i` was taken out and the last item moved into its
/// place.
pub open spec fn swap_removed<A>(s: Seq<A>, i: int) -> Seq<A> {
    s.update(i, s.last()).drop_last()
}

/// `s` with `v` written at `i`, or appended where `i` is just past the end.
pub open spec fn upserted<A>(s: Seq<A>, i: int, v: A) -> Seq<A> {
    if i < s.len() {
        s.update(i, v)
    } else {
        s.push(v)
    }
}

/// In a sequence without duplicates an item is found at one index only.
pub proof fn lemma_index_of_unique<A>(s: Seq<A>, i: int)
    requires
        s.no_duplicates(),
        0 <= i < s.len(),
    ensures
        s.index_of(s[i]) == i,
        s.contains(s[i]),
{
    let j = s.index_of(s[i]);
    assert(0 <= j < s.len() && s[j] == s[i]);
}

/// What a swap-remove does to a sequence without duplicates: the item at `i`
/// is gone, all others stay, and only the item that was last changes its
/// index, to `i`.
pub proof fn lemma_swap_removed<A>(s: Seq<A>, i: int)
    requires
        s.no_duplicates(),
        0 <= i < s.len(),
    ensures
        swap_removed(s, i).no_duplicates(),
        swap_removed(s, i).len() == s.len() - 1,
        forall|x: A| swap_removed(s, i).contains(x) <==> (s.contains(x) && x != s[i]),
        forall|x: A|
            s.contains(x) && x != s[i] ==> #[trigger] swap_removed(s, i).index_of(x) == (if x
                == s.last() {
                i
            } else {
                s.index_of(x)
            }),
{
    let t = swap_removed(s, i);
    assert forall|a: int, b: int| 0 <= a < t.len() && 0 <= b < t.len() && a != b implies t[a]
        != t[b] by {
        let a0 = if a == i { s.len() - 1 } else { a };
        let b0 = if b == i { s.len() - 1 } else { b };
        assert(t[a] == s[a0] && t[b] == s[b0] && a0 != b0);
    }
    assert forall|x: A| t.contains(x) <==> (s.contains(x) && x != s[i]) by {
        if t.contains(x) {
            let a = t.index_of(x);
            let a0 = if a == i { s.len() - 1 } else { a };
            assert(s[a0] == x);
            assert(a0 != i);
        }
        if s.contains(x) && x != s[i] {
            let a0 = s.index_of(x);
            let a = if a0 == s.len() - 1 { i } else { a0 };
            assert(t[a] == x);
        }
    }
    assert forall|x: A| s.contains(x) && x != s[i] implies #[trigger] t.index_of(x) == (if x
        == s.last() {
        i
    } else {
        s.index_of(x)
    }) by {
        let a0 = s.index_of(x);
        let a = if a0 == s.len() - 1 { i } else { a0 };
        assert(t[a] == x);
        lemma_index_of_unique(t, a);
        lemma_index_of_unique(s, s.len() - 1);
    }
}

/// What appending a new item does to a sequence without duplicates.
pub proof fn lemma_pushed<A>(s: Seq<A>, v: A)
    requires
        s.no_duplicates(),
        !s.contains(v),
    ensures
        s.push(v).no_duplicates(),
        s.push(v).index_of(v) == s.len(),
        forall|x: A| s.push(v).contains(x) <==> (s.contains(x) || x == v),
        forall|x: A| s.contains(x) ==> #[trigger] s.push(v).index_of(x) == s.index_of(x),
{
    let t = s.push(v);
    assert forall|a: int, b: int| 0 <= a < t.len() && 0 <= b < t.len() && a != b implies t[a]
        != t[b] by {
        if a == s.len() {
            assert(s[b] == t[b]);
        } else if b == s.len() {
            assert(s[a] == t[a]);
        }
    }
    assert(t[s.len() as int] == v);
    lemma_index_of_unique(t, s.len() as int);
    assert forall|x: A| t.contains(x) <==> (s.contains(x) || x == v) by {
        if t.contains(x) {
            let a = t.index_of(x);
            if a < s.len() {
                assert(s[a] == x);
            }
        }
        if s.contains(x) {
            let a = s.index_of(x);
            assert(t[a] == x);
        }
    }
    assert forall|x: A| s.contains(x) implies #[trigger] t.index_of(x) == s.index_of(x) by {
        let a = s.index_of(x);
        assert(t[a] == x);
        lemma_index_of_unique(t, a);
    }
}

/// `v` in reverse order.
pub fn reversed<T>(v: Vec<T>) -> (r: Vec<T>)
    ensures
        r@.len() == v@.len(),
        forall|m: int| 0 <= m < v@.len() ==> #[trigger] r@[m] == v@[v@.len() - 1 - m],
{
    let mut from = v;
    let mut out: Vec<T> = Vec::new();
    while from.len() > 0
        invariant
            from@.len() + out@.len() == v@.len(),
            from@ == v@.take(from@.len() as int),
            forall|m: int| 0 <= m < out@.len() ==> #[trigger] out@[m] == v@[v@.len() - 1 - m],
        decreases from@.len(),
    {
        let x = from.pop().unwrap();
        out.push(x);
    }
    out
}

} // verus!
