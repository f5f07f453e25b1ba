//! Content-addressed identifiers of archetypes.

use core::hash::Hasher;
use vstd::prelude::*;
use vstd::wrapping::u64_specs::wrapping_add;

use crate::kind::KindId;

verus! {

/// What `rustc_hash::FxHasher` yields for one `u64` on a machine whose
/// `usize` has `bits` bits: the value of `finish` on a default hasher that
/// was fed `key` through `write_u64` and nothing else. The hasher has no
/// seed and keeps no state between hashers; its constants go by the width of
/// `usize`.
pub uninterp spec fn fx_hash_u64(bits: u32, key: u64) -> u64;

/// Hashes `key` with a fresh `rustc_hash::FxHasher` (`FxHasher::default`,
/// `Hasher::write_u64`, `Hasher::finish`). Trusted: the result is the hash
/// that `fx_hash_u64` names for the width of `usize`, which `bits` must be.
#[verifier::external_body]
fn fx_hash(bits: u32, key: u64) -> (hash: u64)
    requires
        bits == usize::BITS,
    ensures
        hash == fx_hash_u64(bits, key),
{
    let mut hasher = rustc_hash::FxHasher::default();
    hasher.write_u64(key);
    hasher.finish()
}

/// The hash by which a kind enters a table id.
pub open spec fn kind_hash(kind: KindId) -> u64 {
    fx_hash_u64(usize::BITS, kind.0)
}

/// The bits of the second word of a table id that come from the hashes.
pub const CLEAR_MASK: u64 = 0xFFFF_FFFF_FFFF_FF00;

/// The most kinds a table id can count.
pub const MAX_KINDS: usize = 255;

/// The wrapping sum of the hashes of `kinds`.
pub open spec fn hash_sum(kinds: Seq<KindId>) -> u64
    decreases kinds.len(),
{
    if kinds.len() == 0 {
        0
    } else {
        wrapping_add(hash_sum(kinds.drop_last()), kind_hash(kinds.last()))
    }
}

/// The bitwise or of the hashes of `kinds`.
pub open spec fn hash_or(kinds: Seq<KindId>) -> u64
    decreases kinds.len(),
{
    if kinds.len() == 0 {
        0
    } else {
        hash_or(kinds.drop_last()) | kind_hash(kinds.last())
    }
}

/// The second word of a table id: the or of the hashes with its low eight
/// bits replaced by the number of kinds.
pub open spec fn tagged(or: u64, count: u8) -> u64 {
    (or & CLEAR_MASK) | (count as u64)
}

/// The id of the archetype made of `kinds`.
pub open spec fn table_id_of(kinds: Seq<KindId>) -> TableId {
    TableId(hash_sum(kinds), tagged(hash_or(kinds), kinds.len() as u8))
}

/// Identifies an archetype by the set of its kinds: the first word is the
/// wrapping sum of the kinds' hashes, the second their bitwise or with the
/// number of kinds in its low eight bits. Both words zero means "no
/// archetype".
#[derive(Debug, Clone, Copy, PartialEq, Eq, Structural)]
pub struct TableId(pub u64, pub u64);

impl TableId {
    /// Whether this is the reserved id "no archetype".
    pub open spec fn invalid_spec(self) -> bool {
        self.0 == 0 && self.1 == 0
    }

    #[inline]
    pub fn invalid() -> (r: Self)
        ensures
            r == TableId(0, 0),
            r.invalid_spec(),
    {
        Self(0, 0)
    }

    #[inline]
    pub fn is_invalid(&self) -> (r: bool)
        ensures
            r == self.invalid_spec(),
    {
        self.0 == 0 && self.1 == 0
    }

    /// The id of the archetype made of `set`, whose kinds are distinct.
    pub fn from_uniques(set: &[KindId]) -> (r: Self)
        requires
            set@.no_duplicates(),
            0 < set@.len() <= MAX_KINDS,
        ensures
            r == table_id_of(set@),
            !r.invalid_spec(),
    {
        let mut builder = TableIdBuilder::new();
        let mut i: usize = 0;
        while i < set.len()
            invariant
                i <= set.len() <= MAX_KINDS,
                builder == TableIdBuilder::after(set@.take(i as int)),
            decreases set.len() - i,
        {
            proof {
                assert(set@.take(i + 1).drop_last() == set@.take(i as int));
            }
            builder.add_unqiue(set[i]);
            i += 1;
        }
        proof {
            assert(set@.take(i as int) == set@);
            lemma_table_id_valid(set@);
        }
        builder.finish()
    }
}

/// Accumulates the kinds of an archetype into its id.
pub struct TableIdBuilder {
    pub xor: u64,
    pub sum: u64,
    pub cnt: u8,
}

impl TableIdBuilder {
    /// The builder that has taken in `kinds`, one after the other.
    pub open spec fn after(kinds: Seq<KindId>) -> TableIdBuilder {
        TableIdBuilder { xor: hash_or(kinds), sum: hash_sum(kinds), cnt: kinds.len() as u8 }
    }

    pub fn new() -> (r: Self)
        ensures
            r == (TableIdBuilder { xor: 0, sum: 0, cnt: 0 }),
            r == Self::after(Seq::empty()),
    {
        Self { xor: 0, sum: 0, cnt: 0 }
    }

    /// Takes in one more kind, which must not have been added before.
    pub fn add_unqiue(&mut self, id: KindId)
        requires
            old(self).cnt < MAX_KINDS,
        ensures
            final(self).xor == old(self).xor | kind_hash(id),
            final(self).sum == wrapping_add(old(self).sum, kind_hash(id)),
            final(self).cnt == old(self).cnt + 1,
    {
        let hash = fx_hash(usize::BITS, id.0);
        self.add_hash(hash);
    }

    /// Takes in the hash of one more kind.
    pub fn add_hash(&mut self, hash: u64)
        requires
            old(self).cnt < MAX_KINDS,
        ensures
            final(self).xor == old(self).xor | hash,
            final(self).sum == wrapping_add(old(self).sum, hash),
            final(self).cnt == old(self).cnt + 1,
    {
        self.xor |= hash;
        self.sum = self.sum.wrapping_add(hash);
        self.cnt += 1;
    }

    /// The id of what was taken in. At least one kind must have been added.
    pub fn finish(&self) -> (r: TableId)
        requires
            self.cnt != 0,
        ensures
            r == TableId(self.sum, tagged(self.xor, self.cnt)),
            !r.invalid_spec(),
    {
        let cnt: u64 = self.cnt as u64;
        // clear the lower 8 bits and set them to cnt
        let mut xor: u64 = self.xor & CLEAR_MASK;
        xor |= cnt;
        proof {
            let x = self.xor;
            assert(0 < cnt < 256 ==> ((x & 0xFFFF_FFFF_FFFF_FF00u64) | cnt) != 0) by (bit_vector);
        }
        TableId(self.sum, xor)
    }
}

/// Taking one kind out of `kinds` takes its hash out of the sum and leaves an
/// or that, joined with the hash again, is the or of all.
proof fn lemma_hashes_remove(kinds: Seq<KindId>, i: int)
    requires
        0 <= i < kinds.len(),
    ensures
        hash_sum(kinds) == wrapping_add(hash_sum(kinds.remove(i)), kind_hash(kinds[i])),
        hash_or(kinds) == hash_or(kinds.remove(i)) | kind_hash(kinds[i]),
    decreases kinds.len(),
{
    if i == kinds.len() - 1 {
        assert(kinds.remove(i) == kinds.drop_last());
    } else {
        let front = kinds.drop_last();
        lemma_hashes_remove(front, i);
        assert(kinds.remove(i).drop_last() == front.remove(i));
        assert(kinds.remove(i).last() == kinds.last());
        let a = hash_or(front.remove(i));
        let b = kind_hash(kinds[i]);
        let c = kind_hash(kinds.last());
        assert(((a | b) | c) == ((a | c) | b)) by (bit_vector);
    }
}

/// The sum and the or of the hashes do not depend on the order of the kinds.
proof fn lemma_hashes_permutation(a: Seq<KindId>, b: Seq<KindId>)
    requires
        a.to_multiset() == b.to_multiset(),
    ensures
        a.len() == b.len(),
        hash_sum(a) == hash_sum(b),
        hash_or(a) == hash_or(b),
    decreases a.len(),
{
    vstd::seq_lib::to_multiset_len(a);
    vstd::seq_lib::to_multiset_len(b);
    if a.len() > 0 {
        let x = a.last();
        vstd::seq_lib::to_multiset_contains(a, x);
        vstd::seq_lib::to_multiset_contains(b, x);
        assert(a.contains(x));
        let j = b.index_of(x);
        vstd::seq_lib::to_multiset_remove(a, a.len() - 1);
        vstd::seq_lib::to_multiset_remove(b, j);
        assert(a.remove(a.len() - 1) == a.drop_last());
        lemma_hashes_permutation(a.drop_last(), b.remove(j));
        lemma_hashes_remove(b, j);
    }
}

/// Archetype identity: the id of an archetype does not depend on the order in
/// which its kinds are listed.
pub proof fn lemma_table_id_permutation(a: Seq<KindId>, b: Seq<KindId>)
    requires
        a.to_multiset() == b.to_multiset(),
    ensures
        table_id_of(a) == table_id_of(b),
{
    lemma_hashes_permutation(a, b);
}

/// Two lists of distinct kinds that hold the same kinds name one archetype.
pub proof fn lemma_table_id_same_kinds(a: Seq<KindId>, b: Seq<KindId>)
    requires
        a.no_duplicates(),
        b.no_duplicates(),
        forall|k: KindId| a.contains(k) <==> b.contains(k),
    ensures
        a.len() == b.len(),
        a.to_multiset() == b.to_multiset(),
        table_id_of(a) == table_id_of(b),
{
    a.lemma_multiset_has_no_duplicates();
    b.lemma_multiset_has_no_duplicates();
    assert forall|k: KindId| a.to_multiset().count(k) == b.to_multiset().count(k) by {
        vstd::seq_lib::to_multiset_contains(a, k);
        vstd::seq_lib::to_multiset_contains(b, k);
    }
    assert(a.to_multiset() =~= b.to_multiset());
    vstd::seq_lib::to_multiset_len(a);
    vstd::seq_lib::to_multiset_len(b);
    lemma_table_id_permutation(a, b);
}

/// The id of a non-empty archetype of at most `MAX_KINDS` kinds is never the
/// reserved id "no archetype".
pub proof fn lemma_table_id_valid(kinds: Seq<KindId>)
    requires
        0 < kinds.len() <= MAX_KINDS,
    ensures
        !table_id_of(kinds).invalid_spec(),
{
    let x = hash_or(kinds);
    let cnt = kinds.len() as u8 as u64;
    assert(0 < cnt < 256 ==> ((x & 0xFFFF_FFFF_FFFF_FF00u64) | cnt) != 0) by (bit_vector);
}

} // verus!
