//! The interface that both caches offer.

use crate::index_table::{keys_after_insert, lemma_index_kept, lemma_insert_extends, lemma_prefix_trans, Item};
use vstd::prelude::*;

verus! {

/// A bounded cache that gives each distinct item a permanent index and keeps a
/// set of at most `bound()` hot indices, chosen by its eviction policy.
pub trait UniCache: Sized {
    /// Every item seen so far, in order of first sight; an item's index is its
    /// position.
    spec fn items(&self) -> Seq<Item>;

    /// The indices that are currently hot.
    spec fn hot_indices(&self) -> Set<usize>;

    /// The bound on the number of hot indices.
    spec fn bound(&self) -> nat;

    /// The cache's internal invariant.
    spec fn valid(&self) -> bool;

    /// The policy's account of how the hot set changes when `index` is put.
    spec fn put_policy(&self, index: usize, next: &Self) -> bool;

    /// The policy's account of how the hot set changes on a lookup with result
    /// `found`.
    spec fn lookup_policy(&self, found: Option<usize>, next: &Self) -> bool;

    /// An empty cache whose hot set holds at most `capacity` indices.
    fn new(capacity: usize) -> (c: Self)
        requires
            capacity > 0,
        ensures
            c.valid(),
            c.items().no_duplicates(),
            c.items() == Seq::<Item>::empty(),
            c.hot_indices() == Set::<usize>::empty(),
            c.bound() == capacity,
    ;

    /// Gives `item` its index, the next unused one on first sight, and hands
    /// that index to the eviction policy. The index is hot afterwards, the hot
    /// set stays within the bound, and an index that was hot already leaves the
    /// hot set as it was.
    fn put(&mut self, item: Item)
        requires
            old(self).valid(),
        ensures
            final(self).valid(),
            final(self).bound() == old(self).bound(),
            final(self).items() == keys_after_insert(old(self).items(), item),
            final(self).items().no_duplicates(),
            old(self).items().is_prefix_of(final(self).items()),
            old(self).put_policy(final(self).items().index_of(item) as usize, final(self)),
            final(self).hot_indices().contains(final(self).items().index_of(item) as usize),
            final(self).hot_indices().finite(),
            final(self).hot_indices().len() <= final(self).bound(),
            old(self).hot_indices().contains(final(self).items().index_of(item) as usize)
                ==> final(self).hot_indices() == old(self).hot_indices(),
    ;

    /// The index of `item` if it has been seen and its index is hot; the
    /// policy counts the lookup as a use.
    fn get_encoded_index(&mut self, item: &Item) -> (r: Option<usize>)
        requires
            old(self).valid(),
        ensures
            final(self).valid(),
            final(self).bound() == old(self).bound(),
            final(self).items() == old(self).items(),
            final(self).items().no_duplicates(),
            final(self).hot_indices() == old(self).hot_indices(),
            r == (if old(self).items().contains(*item) && old(self).hot_indices().contains(
                old(self).items().index_of(*item) as usize,
            ) {
                Some(old(self).items().index_of(*item) as usize)
            } else {
                None
            }),
            old(self).lookup_policy(r, final(self)),
    ;

    /// The item that was given `index`, hot or not.
    fn get_with_encoded_index(&mut self, index: usize) -> (r: Item)
        requires
            old(self).valid(),
            index < old(self).items().len(),
        ensures
            *final(self) == *old(self),
            r == old(self).items()[index as int],
    ;
}

/// Over any run of calls on a cache, from an `earlier` state to a `later` one:
/// an item seen by then keeps its index, that index leads back to the item
/// whether or not it is still hot, and no other item shares it.
pub proof fn lemma_indices_over_a_run<C: UniCache>(earlier: C, later: C, x: Item, y: Item)
    requires
        earlier.items().is_prefix_of(later.items()),
        later.items().no_duplicates(),
        earlier.items().contains(x),
    ensures
        later.items().contains(x),
        later.items().index_of(x) == earlier.items().index_of(x),
        later.items()[earlier.items().index_of(x)] == x,
        later.items().contains(y) && y != x ==> later.items().index_of(y) != earlier.items().index_of(
            x,
        ),
{
    lemma_index_kept(earlier.items(), later.items(), x, y);
}

/// The items seen only grow along a run of calls: two stretches of a run make
/// one.
pub proof fn lemma_run_composes<C: UniCache>(first: C, middle: C, last: C)
    requires
        first.items().is_prefix_of(middle.items()),
        middle.items().is_prefix_of(last.items()),
    ensures
        first.items().is_prefix_of(last.items()),
{
    lemma_prefix_trans(first.items(), middle.items(), last.items());
}

/// An item put again after any run of calls, evicted or not in between, gets
/// back the index it had at first and is hot once more.
pub proof fn lemma_put_again<C: UniCache>(earlier: C, before: C, after: C, x: Item)
    requires
        earlier.items().contains(x),
        earlier.items().is_prefix_of(before.items()),
        before.items().no_duplicates(),
        after.items() == keys_after_insert(before.items(), x),
        after.hot_indices().contains(after.items().index_of(x) as usize),
    ensures
        after.items().index_of(x) == earlier.items().index_of(x),
        after.hot_indices().contains(earlier.items().index_of(x) as usize),
{
    lemma_index_kept(earlier.items(), before.items(), x, x);
    lemma_insert_extends(before.items(), x);
}

} // verus!
