//! A bounded cache that hands out small, permanent integer indices for items.
//!
//! Every distinct item gets an index the first time it is seen; the index is
//! kept forever in an append-only table. A capacity-bounded eviction tracker
//! decides which of those indices are currently "hot". Two trackers exist:
//! least-recently-used and least-frequently-used.

pub mod cache;
pub mod index_table;
pub mod lfu_tracker;
pub mod lfu_uni_cache;
pub mod lru_tracker;
pub mod lru_uni_cache;
