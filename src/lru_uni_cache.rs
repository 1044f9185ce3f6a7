//! The cache whose hot set follows the least-recently-used policy.

use crate::cache::UniCache;
use crate::index_table::{IndexTable, Item};
use crate::lru_tracker::{
    lemma_lru_push_bounded, lemma_lru_push_tracked, lemma_lru_touch_keeps_set, lru_after_push, lru_cap,
    lru_get, lru_new, lru_order, lru_push, lru_touch,
};
use lru::{DefaultHasher, LruCache};
use vstd::prelude::*;
use vstd::seq_lib::seq_to_set_is_finite;

verus! {

/// Items keep the index they were first given; the indices of the `capacity`
/// most recently used items are hot.
pub struct LruUniCache {
    capacity: usize,
    lru_cache: LruCache<usize, (), DefaultHasher>,
    index_cache: IndexTable,
}

impl LruUniCache {
    /// Every item seen so far; an item's index is its position.
    pub closed spec fn keys(&self) -> Seq<Item> {
        self.index_cache@
    }

    /// The hot indices, least recently used first.
    pub closed spec fn hot(&self) -> Seq<usize> {
        lru_order(self.lru_cache)
    }

    /// The bound on the number of hot indices.
    pub closed spec fn cap(&self) -> nat {
        self.capacity as nat
    }

    /// The tracker was created with the cache's bound.
    pub closed spec fn tracker_bound_agrees(&self) -> bool {
        lru_cap(self.lru_cache) == self.capacity
    }

    /// Items are listed once, and the hot indices are indices of known items,
    /// within the bound.
    pub open spec fn wf(&self) -> bool {
        &&& self.tracker_bound_agrees()
        &&& self.cap() > 0
        &&& self.keys().no_duplicates()
        &&& self.hot().no_duplicates()
        &&& self.hot().len() <= self.cap()
        &&& forall|j: int| 0 <= j < self.hot().len() ==> #[trigger] self.hot()[j] < self.keys().len()
    }
}

impl UniCache for LruUniCache {
    open spec fn items(&self) -> Seq<Item> {
        self.keys()
    }

    open spec fn hot_indices(&self) -> Set<usize> {
        self.hot().to_set()
    }

    open spec fn bound(&self) -> nat {
        self.cap()
    }

    open spec fn valid(&self) -> bool {
        self.wf()
    }

    /// The index becomes the most recent; a new one first pushes out the least
    /// recent index if the hot set is full.
    open spec fn put_policy(&self, index: usize, next: &Self) -> bool {
        next.hot() == lru_after_push(self.hot(), index, self.cap())
    }

    /// An index found becomes the most recent; a miss changes nothing.
    open spec fn lookup_policy(&self, found: Option<usize>, next: &Self) -> bool {
        match found {
            Some(i) => next.hot() == lru_touch(self.hot(), i),
            None => next.hot() == self.hot(),
        }
    }

    fn new(capacity: usize) -> (c: Self) {
        let c = LruUniCache {
            capacity,
            lru_cache: lru_new(capacity),
            index_cache: IndexTable::new(capacity),
        };
        proof {
            assert(c.hot().to_set() =~= Set::<usize>::empty());
        }
        c
    }

    fn put(&mut self, item: Item) {
        let index = self.index_cache.insert_full(item);
        proof {
            lemma_lru_push_bounded(old(self).hot(), index, self.cap(), self.keys().len());
            if old(self).hot().contains(index) {
                lemma_lru_push_tracked(old(self).hot(), index, self.cap());
            }
        }
        lru_push(&mut self.lru_cache, index);
        proof {
            self.hot().unique_seq_to_set();
            seq_to_set_is_finite(self.hot());
        }
    }

    fn get_encoded_index(&mut self, item: &Item) -> (r: Option<usize>) {
        match self.index_cache.get_index_of(item) {
            Some(index) => {
                if lru_get(&mut self.lru_cache, index) {
                    proof {
                        lemma_lru_touch_keeps_set(old(self).hot(), index);
                    }
                    Some(index)
                } else {
                    None
                }
            },
            None => None,
        }
    }

    fn get_with_encoded_index(&mut self, index: usize) -> (r: Item) {
        self.index_cache.get_index(index)
    }
}

} // verus!
