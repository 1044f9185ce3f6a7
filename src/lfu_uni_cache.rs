//! The cache whose hot set follows the least-frequently-used policy.

use crate::cache::UniCache;
use crate::index_table::{IndexTable, Item};
use crate::lfu_tracker::{
    lemma_lfu_add_bounded, lemma_lfu_use_tracked, lfu_added, lfu_cap, lfu_freq, lfu_get, lfu_insert,
    lfu_new, LfuIndices,
};
use vstd::prelude::*;

verus! {

/// Items keep the index they were first given; at most `capacity` indices are
/// hot, and when one more comes in, a least used one leaves.
pub struct LfuUniCache {
    capacity: usize,
    lfu_cache: LfuIndices,
    index_cache: IndexTable,
}

impl LfuUniCache {
    /// Every item seen so far; an item's index is its position.
    pub closed spec fn keys(&self) -> Seq<Item> {
        self.index_cache@
    }

    /// The hot indices, each with the number of uses since it became hot.
    pub closed spec fn hot(&self) -> Map<usize, nat> {
        lfu_freq(self.lfu_cache)
    }

    /// The bound on the number of hot indices.
    pub closed spec fn cap(&self) -> nat {
        self.capacity as nat
    }

    /// The tracker was created with the cache's bound.
    pub closed spec fn tracker_bound_agrees(&self) -> bool {
        lfu_cap(self.lfu_cache) == self.capacity
    }

    /// Items are listed once, and the hot indices are indices of known items,
    /// within the bound.
    pub open spec fn wf(&self) -> bool {
        &&& self.tracker_bound_agrees()
        &&& self.cap() > 0
        &&& self.keys().no_duplicates()
        &&& self.hot().dom().finite()
        &&& self.hot().dom().len() <= self.cap()
        &&& forall|i: usize| #[trigger] self.hot().contains_key(i) ==> i < self.keys().len()
    }
}

impl UniCache for LfuUniCache {
    open spec fn items(&self) -> Seq<Item> {
        self.keys()
    }

    open spec fn hot_indices(&self) -> Set<usize> {
        self.hot().dom()
    }

    open spec fn bound(&self) -> nat {
        self.cap()
    }

    open spec fn valid(&self) -> bool {
        self.wf()
    }

    /// A hot index has its count raised by one; another one comes in with no
    /// uses, after a least used index left if the hot set was full.
    open spec fn put_policy(&self, index: usize, next: &Self) -> bool {
        if self.hot().contains_key(index) {
            next.hot() == self.hot().insert(index, self.hot()[index] + 1)
        } else {
            lfu_added(self.hot(), index, self.cap(), next.hot())
        }
    }

    /// An index found has its count raised by one; a miss changes nothing.
    open spec fn lookup_policy(&self, found: Option<usize>, next: &Self) -> bool {
        match found {
            Some(i) => next.hot() == self.hot().insert(i, self.hot()[i] + 1),
            None => next.hot() == self.hot(),
        }
    }

    fn new(capacity: usize) -> (c: Self) {
        LfuUniCache {
            capacity,
            lfu_cache: lfu_new(capacity),
            index_cache: IndexTable::new(capacity),
        }
    }

    fn put(&mut self, item: Item) {
        let index = self.index_cache.insert_full(item);
        if lfu_get(&mut self.lfu_cache, index) {
            proof {
                lemma_lfu_use_tracked(old(self).hot(), index);
            }
        } else {
            lfu_insert(&mut self.lfu_cache, index);
            proof {
                lemma_lfu_add_bounded(old(self).hot(), index, self.cap(), self.hot());
            }
        }
    }

    fn get_encoded_index(&mut self, item: &Item) -> (r: Option<usize>) {
        match self.index_cache.get_index_of(item) {
            Some(index) => {
                if lfu_get(&mut self.lfu_cache, index) {
                    proof {
                        lemma_lfu_use_tracked(old(self).hot(), index);
                    }
                    Some(index)
                } else {
                    None
                }
            },
            None => None,
        }
    }

    fn get_with_encoded_index(&mut self, index: usize) -> (r: Item) {
        self.index_cache.get_index(index)
    }
}

} // verus!
