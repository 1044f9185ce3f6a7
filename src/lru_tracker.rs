//! The least-recently-used eviction tracker: an `lru::LruCache` over indices.
//!
//! Its contents are modelled as the sequence of tracked indices from the least
//! recently used to the most recently used.

use lru::{DefaultHasher, LruCache};
use vstd::prelude::*;

verus! {

#[verifier::external_type_specification]
#[verifier::external_body]
#[verifier::reject_recursive_types(K)]
#[verifier::reject_recursive_types(V)]
#[verifier::reject_recursive_types(S)]
pub struct ExLruCache<K, V, S>(LruCache<K, V, S>);

#[verifier::external_type_specification]
#[verifier::external_body]
pub struct ExLruHasher(DefaultHasher);

/// The tracked indices of an LRU cache, least recently used first.
pub uninterp spec fn lru_order(c: LruCache<usize, (), DefaultHasher>) -> Seq<usize>;

/// The bound that an LRU cache was created with.
pub uninterp spec fn lru_cap(c: LruCache<usize, (), DefaultHasher>) -> nat;

/// `s` after `k` was used: moved to the most recent end.
pub open spec fn lru_touch(s: Seq<usize>, k: usize) -> Seq<usize> {
    s.remove(s.index_of(k)).push(k)
}

/// `s` after `k` was pushed under bound `cap`: a tracked index is moved to the
/// most recent end; a new one is added there, after the least recently used
/// index was dropped if the bound was reached.
pub open spec fn lru_after_push(s: Seq<usize>, k: usize, cap: nat) -> Seq<usize> {
    if s.contains(k) {
        lru_touch(s, k)
    } else if s.len() < cap {
        s.push(k)
    } else {
        s.drop_first().push(k)
    }
}

/// Using a tracked index keeps the same indices, without duplicates.
pub proof fn lemma_lru_touch_keeps_set(s: Seq<usize>, k: usize)
    requires
        s.no_duplicates(),
        s.contains(k),
    ensures
        lru_touch(s, k).no_duplicates(),
        lru_touch(s, k).len() == s.len(),
        lru_touch(s, k).to_set() == s.to_set(),
{
    let i = s.index_of(k);
    let r = s.remove(i);
    assert(forall|j: int| 0 <= j < r.len() ==> r[j] != k);
    assert(lru_touch(s, k).to_set() =~= s.to_set()) by {
        assert forall|x: usize| s.to_set().contains(x) implies lru_touch(s, k).to_set().contains(x) by {
            let j = choose|j: int| 0 <= j < s.len() && s[j] == x;
            if j < i {
                assert(lru_touch(s, k)[j] == x);
            } else if j > i {
                assert(lru_touch(s, k)[j - 1] == x);
            } else {
                assert(lru_touch(s, k)[r.len() as int] == x);
            }
        }
    }
}

/// Pushing an index below `n` keeps the tracked indices distinct, below `n`
/// and within the bound, and leaves the pushed index tracked.
pub proof fn lemma_lru_push_bounded(s: Seq<usize>, k: usize, cap: nat, n: nat)
    requires
        s.no_duplicates(),
        s.len() <= cap,
        cap > 0,
        k < n,
        forall|j: int| 0 <= j < s.len() ==> #[trigger] s[j] < n,
    ensures
        lru_after_push(s, k, cap).no_duplicates(),
        lru_after_push(s, k, cap).len() <= cap,
        lru_after_push(s, k, cap).contains(k),
        forall|j: int|
            0 <= j < lru_after_push(s, k, cap).len() ==> #[trigger] lru_after_push(s, k, cap)[j] < n,
{
    let t = lru_after_push(s, k, cap);
    if s.contains(k) {
        lemma_lru_touch_keeps_set(s, k);
    }
    assert(t[t.len() - 1] == k);
}

/// Pushing an index that is already tracked changes neither which indices are
/// tracked nor how many: nothing is evicted.
pub proof fn lemma_lru_push_tracked(s: Seq<usize>, k: usize, cap: nat)
    requires
        s.no_duplicates(),
        s.contains(k),
    ensures
        lru_after_push(s, k, cap).len() == s.len(),
        lru_after_push(s, k, cap).to_set() == s.to_set(),
{
    lemma_lru_touch_keeps_set(s, k);
}

/// Pushing a new index into a full tracker evicts exactly the least recently
/// used index: every other one stays.
pub proof fn lemma_lru_evicts_least_recent(s: Seq<usize>, k: usize, cap: nat)
    requires
        s.no_duplicates(),
        !s.contains(k),
        s.len() == cap,
        cap > 0,
    ensures
        !lru_after_push(s, k, cap).contains(s[0]),
        forall|j: int| 0 < j < s.len() ==> lru_after_push(s, k, cap).contains(#[trigger] s[j]),
        lru_after_push(s, k, cap).contains(k),
{
    let t = lru_after_push(s, k, cap);
    assert forall|j: int| 0 < j < s.len() implies t.contains(#[trigger] s[j]) by {
        assert(t[j - 1] == s[j]);
    }
    assert(t[t.len() - 1] == k);
}

/// Relies on `LruCache::new`: an empty cache holding at most `cap` entries.
#[verifier::external_body]
pub(crate) fn lru_new(cap: usize) -> (c: LruCache<usize, (), DefaultHasher>)
    requires
        cap > 0,
    ensures
        lru_order(c) == Seq::<usize>::empty(),
        lru_cap(c) == cap,
{
    LruCache::new(std::num::NonZeroUsize::new(cap).unwrap())
}

/// Relies on `LruCache::push`: an existing key becomes the most recent; a new
/// key is added as the most recent, replacing the least recent entry when the
/// cache is full.
#[verifier::external_body]
pub(crate) fn lru_push(c: &mut LruCache<usize, (), DefaultHasher>, k: usize)
    ensures
        lru_order(*final(c)) == lru_after_push(lru_order(*old(c)), k, lru_cap(*old(c))),
        lru_cap(*final(c)) == lru_cap(*old(c)),
{
    c.push(k, ());
}

/// Relies on `LruCache::get`: whether the key is present; a present key
/// becomes the most recent.
#[verifier::external_body]
pub(crate) fn lru_get(c: &mut LruCache<usize, (), DefaultHasher>, k: usize) -> (r: bool)
    ensures
        r == lru_order(*old(c)).contains(k),
        r ==> lru_order(*final(c)) == lru_touch(lru_order(*old(c)), k),
        !r ==> lru_order(*final(c)) == lru_order(*old(c)),
        lru_cap(*final(c)) == lru_cap(*old(c)),
{
    c.get(&k).is_some()
}

} // verus!
