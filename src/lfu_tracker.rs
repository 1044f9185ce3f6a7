//! The least-frequently-used eviction tracker: an `lfu_cache::LfuCache` over
//! indices.
//!
//! Its contents are modelled as a map from each tracked index to the number of
//! times it was used since it was added.

use lfu_cache::LfuCache;
use std::hash::Hash;
use vstd::prelude::*;

verus! {

#[verifier::external_type_specification]
#[verifier::external_body]
#[verifier::reject_recursive_types(K)]
#[verifier::reject_recursive_types(V)]
pub struct ExLfuCache<K: Hash + Eq, V>(LfuCache<K, V>);

/// An LFU cache of indices; the values carry nothing.
pub type LfuIndices = LfuCache<usize, ()>;

/// The tracked indices of an LFU cache, each with its use count.
pub uninterp spec fn lfu_freq(c: LfuIndices) -> Map<usize, nat>;

/// The bound that an LFU cache was created with (zero for an unbounded one).
pub uninterp spec fn lfu_cap(c: LfuIndices) -> nat;

/// `e` is tracked in `m` with a use count that no other tracked index goes
/// below: it may be evicted.
pub open spec fn lfu_least(m: Map<usize, nat>, e: usize) -> bool {
    &&& m.contains_key(e)
    &&& forall|x: usize| #[trigger] m.contains_key(x) ==> m[e] <= m[x]
}

/// `m2` is `m` after the untracked index `k` was added under bound `cap`: `k`
/// comes in with no uses, after one least used index left if the bound was
/// reached.
pub open spec fn lfu_added(m: Map<usize, nat>, k: usize, cap: nat, m2: Map<usize, nat>) -> bool {
    if m.dom().len() < cap {
        m2 == m.insert(k, 0)
    } else {
        exists|e: usize| lfu_least(m, e) && m2 == m.remove(e).insert(k, 0)
    }
}

/// Adding an untracked index keeps the tracked set finite and within the bound,
/// evicts at most one other index, and leaves the new index tracked with no uses.
pub proof fn lemma_lfu_add_bounded(m: Map<usize, nat>, k: usize, cap: nat, m2: Map<usize, nat>)
    requires
        m.dom().finite(),
        m.dom().len() <= cap,
        cap > 0,
        !m.contains_key(k),
        lfu_added(m, k, cap, m2),
    ensures
        m2.dom().finite(),
        m2.dom().len() <= cap,
        m2.contains_key(k),
        m2[k] == 0,
        m2.dom().subset_of(m.dom().insert(k)),
        m.dom().len() < cap ==> m2.dom() == m.dom().insert(k),
{
    if m.dom().len() < cap {
        assert(m2.dom() =~= m.dom().insert(k));
    } else {
        let e = choose|e: usize| lfu_least(m, e) && m2 == m.remove(e).insert(k, 0);
        assert(m2.dom() =~= m.dom().remove(e).insert(k));
    }
}

/// Using a tracked index changes neither which indices are tracked nor how
/// many: nothing is evicted.
pub proof fn lemma_lfu_use_tracked(m: Map<usize, nat>, k: usize)
    requires
        m.contains_key(k),
    ensures
        m.insert(k, m[k] + 1).dom() == m.dom(),
{
    assert(m.insert(k, m[k] + 1).dom() =~= m.dom());
}

/// Of two tracked indices, when one has strictly more uses than the other, it
/// is never the one that adding a new index evicts.
pub proof fn lemma_lfu_keeps_more_used(
    m: Map<usize, nat>,
    k: usize,
    cap: nat,
    m2: Map<usize, nat>,
    a: usize,
    b: usize,
)
    requires
        lfu_added(m, k, cap, m2),
        m.contains_key(a),
        m.contains_key(b),
        m[a] > m[b],
    ensures
        m2.contains_key(a),
{
    if m.dom().len() >= cap {
        let e = choose|e: usize| lfu_least(m, e) && m2 == m.remove(e).insert(k, 0);
        assert(m[e] <= m[b]);
    }
}

/// Relies on `LfuCache::with_capacity`: an empty cache holding at most `cap`
/// entries.
#[verifier::external_body]
pub(crate) fn lfu_new(cap: usize) -> (c: LfuIndices)
    requires
        cap > 0,
    ensures
        lfu_freq(c).dom() == Set::<usize>::empty(),
        lfu_cap(c) == cap,
{
    LfuCache::with_capacity(cap)
}

/// Relies on `LfuCache::insert` for a key that is not present, on a bounded
/// cache: the key comes in with a count of zero; a full cache first evicts a
/// key of the lowest count.
#[verifier::external_body]
pub(crate) fn lfu_insert(c: &mut LfuIndices, k: usize)
    requires
        !lfu_freq(*old(c)).contains_key(k),
        lfu_cap(*old(c)) > 0,
        lfu_freq(*old(c)).dom().len() <= lfu_cap(*old(c)),
    ensures
        lfu_added(lfu_freq(*old(c)), k, lfu_cap(*old(c)), lfu_freq(*final(c))),
        lfu_cap(*final(c)) == lfu_cap(*old(c)),
{
    c.insert(k, ());
}

/// Relies on `LfuCache::get`: whether the key is present; a present key has
/// its count raised by one.
#[verifier::external_body]
pub(crate) fn lfu_get(c: &mut LfuIndices, k: usize) -> (r: bool)
    ensures
        r == lfu_freq(*old(c)).contains_key(k),
        r ==> lfu_freq(*final(c)) == lfu_freq(*old(c)).insert(k, lfu_freq(*old(c))[k] + 1),
        !r ==> lfu_freq(*final(c)) == lfu_freq(*old(c)),
        lfu_cap(*final(c)) == lfu_cap(*old(c)),
{
    c.get(&k).is_some()
}

} // verus!
