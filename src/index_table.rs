//! The append-only table that gives each distinct item its permanent index.
//!
//! It is an `indexmap::IndexMap` whose keys are the items, in the order in
//! which they were first inserted; the position of an item is its index.

use indexmap::IndexMap;
use std::collections::hash_map::RandomState;
use vstd::prelude::*;

verus! {

/// Item type of the caches: a 64-bit value chosen by the caller.
pub type Item = u64;

#[verifier::external_type_specification]
#[verifier::external_body]
#[verifier::reject_recursive_types(K)]
#[verifier::reject_recursive_types(V)]
#[verifier::reject_recursive_types(S)]
pub struct ExIndexMap<K, V, S>(IndexMap<K, V, S>);

/// The keys of an index map, in their order in the map.
pub uninterp spec fn table_keys(m: IndexMap<u64, (), RandomState>) -> Seq<u64>;

/// The table after `k` was inserted: unchanged where `k` is known, else `k`
/// appended.
pub open spec fn keys_after_insert(s: Seq<u64>, k: u64) -> Seq<u64> {
    if s.contains(k) {
        s
    } else {
        s.push(k)
    }
}

/// In a sequence without duplicates, the position of a value is the one place
/// that holds it.
pub proof fn lemma_index_of_unique(s: Seq<Item>, i: int, k: Item)
    requires
        s.no_duplicates(),
        0 <= i < s.len(),
        s[i] == k,
    ensures
        s.index_of(k) == i,
        s.contains(k),
{
    assert(s.contains(k));
}

/// An item inserted twice keeps the index it got the first time, whatever was
/// inserted in between.
pub proof fn lemma_index_stable(s: Seq<Item>, a: Item, b: Item)
    requires
        s.no_duplicates(),
    ensures
        ({
            let s1 = keys_after_insert(s, a);
            let s2 = keys_after_insert(s1, b);
            &&& keys_after_insert(s2, a) == s2
            &&& s2.index_of(a) == s1.index_of(a)
        }),
{
    let s1 = keys_after_insert(s, a);
    let s2 = keys_after_insert(s1, b);
    lemma_insert_keeps_unique(s, a);
    lemma_insert_keeps_unique(s1, b);
    assert(s1.contains(a));
    let i = s1.index_of(a);
    assert(s2[i] == a);
    lemma_index_of_unique(s1, i, a);
    lemma_index_of_unique(s2, i, a);
}

/// Two distinct items that were both inserted have different indices.
pub proof fn lemma_index_unique(s: Seq<Item>, a: Item, b: Item)
    requires
        s.no_duplicates(),
        s.contains(a),
        s.contains(b),
        a != b,
    ensures
        s.index_of(a) != s.index_of(b),
{
}

/// The index of an inserted item leads back to that item.
pub proof fn lemma_reverse_lookup(s: Seq<Item>, a: Item)
    requires
        s.contains(a),
    ensures
        0 <= s.index_of(a) < s.len(),
        s[s.index_of(a)] == a,
{
}

/// Inserting keeps the table free of duplicates, and the inserted item is in
/// it afterwards.
pub proof fn lemma_insert_keeps_unique(s: Seq<Item>, a: Item)
    requires
        s.no_duplicates(),
    ensures
        keys_after_insert(s, a).no_duplicates(),
        keys_after_insert(s, a).contains(a),
        s.len() <= keys_after_insert(s, a).len() <= s.len() + 1,
{
    let t = keys_after_insert(s, a);
    if !s.contains(a) {
        assert(t[s.len() as int] == a);
    }
}

/// The table only grows: inserting keeps what was there as a prefix.
pub proof fn lemma_insert_extends(s: Seq<Item>, a: Item)
    ensures
        s.is_prefix_of(keys_after_insert(s, a)),
{
    assert(keys_after_insert(s, a).subrange(0, s.len() as int) =~= s);
}

/// Growth composes over a run of insertions.
pub proof fn lemma_prefix_trans(r: Seq<Item>, s: Seq<Item>, t: Seq<Item>)
    requires
        r.is_prefix_of(s),
        s.is_prefix_of(t),
    ensures
        r.is_prefix_of(t),
{
    assert(t.subrange(0, r.len() as int) =~= s.subrange(0, r.len() as int));
}

/// Once an item has an index, every later table keeps it at that index, so the
/// index still leads back to the item, and no other item ever gets it.
pub proof fn lemma_index_kept(s: Seq<Item>, t: Seq<Item>, x: Item, y: Item)
    requires
        s.is_prefix_of(t),
        t.no_duplicates(),
        s.contains(x),
    ensures
        t.contains(x),
        t.index_of(x) == s.index_of(x),
        t[s.index_of(x)] == x,
        t.contains(y) && y != x ==> t.index_of(y) != s.index_of(x),
{
    let i = s.index_of(x);
    assert(t[i] == s.subrange(0, s.len() as int)[i]);
    assert(t.subrange(0, s.len() as int)[i] == t[i]);
    lemma_index_of_unique(t, i, x);
}

/// Relies on `IndexMap::with_capacity`: a new map holds no keys.
#[verifier::external_body]
fn table_new(capacity: usize) -> (m: IndexMap<u64, (), RandomState>)
    ensures
        table_keys(m) == Seq::<u64>::empty(),
{
    IndexMap::with_capacity(capacity)
}

/// Relies on `IndexMap::insert_full`: a key already present keeps its place and
/// its index is returned; a new key goes last and gets the next index.
#[verifier::external_body]
fn table_insert_full(m: &mut IndexMap<u64, (), RandomState>, k: u64) -> (r: usize)
    ensures
        table_keys(*old(m)).contains(k) ==> table_keys(*final(m)) == table_keys(*old(m))
            && 0 <= r < table_keys(*old(m)).len() && table_keys(*old(m))[r as int] == k,
        !table_keys(*old(m)).contains(k) ==> table_keys(*final(m)) == table_keys(*old(m)).push(k)
            && r == table_keys(*old(m)).len(),
{
    m.insert_full(k, ()).0
}

/// Relies on `IndexMap::get_index_of`: the position of the key, if it is
/// present.
#[verifier::external_body]
fn table_get_index_of(m: &IndexMap<u64, (), RandomState>, k: u64) -> (r: Option<usize>)
    ensures
        r is None <==> !table_keys(*m).contains(k),
        r matches Some(i) ==> 0 <= i < table_keys(*m).len() && table_keys(*m)[i as int] == k,
{
    m.get_index_of(&k)
}

/// Relies on `IndexMap::get_index`: the key at a position, for a valid one.
#[verifier::external_body]
fn table_get_index(m: &IndexMap<u64, (), RandomState>, i: usize) -> (r: Option<u64>)
    ensures
        i < table_keys(*m).len() ==> r == Some(table_keys(*m)[i as int]),
        i >= table_keys(*m).len() ==> r is None,
{
    m.get_index(i).map(|e| *e.0)
}

/// The item-to-index table: items in order of first sight, each at most once.
pub struct IndexTable {
    map: IndexMap<Item, (), RandomState>,
}

impl View for IndexTable {
    type V = Seq<Item>;

    closed spec fn view(&self) -> Seq<Item> {
        table_keys(self.map)
    }
}

impl IndexTable {
    pub open spec fn wf(&self) -> bool {
        self@.no_duplicates()
    }

    /// An empty table, with room reserved for `capacity` items.
    pub fn new(capacity: usize) -> (t: Self)
        ensures
            t.wf(),
            t@ == Seq::<Item>::empty(),
    {
        IndexTable { map: table_new(capacity) }
    }

    /// The index of `item`, which is appended first if it is new.
    pub fn insert_full(&mut self, item: Item) -> (r: usize)
        requires
            old(self).wf(),
        ensures
            final(self).wf(),
            final(self)@ == keys_after_insert(old(self)@, item),
            r < final(self)@.len(),
            r == final(self)@.index_of(item),
            final(self)@[r as int] == item,
    {
        let r = table_insert_full(&mut self.map, item);
        proof {
            lemma_insert_keeps_unique(old(self)@, item);
            lemma_index_of_unique(self@, r as int, item);
        }
        r
    }

    /// The index of `item`, if it was ever inserted.
    pub fn get_index_of(&self, item: &Item) -> (r: Option<usize>)
        requires
            self.wf(),
        ensures
            r == (if self@.contains(*item) {
                Some(self@.index_of(*item) as usize)
            } else {
                None
            }),
    {
        let r = table_get_index_of(&self.map, *item);
        if let Some(i) = r {
            proof {
                lemma_index_of_unique(self@, i as int, *item);
            }
        }
        r
    }

    /// The item at `index`.
    pub fn get_index(&self, index: usize) -> (r: Item)
        requires
            index < self@.len(),
        ensures
            r == self@[index as int],
    {
        table_get_index(&self.map, index).unwrap()
    }
}

} // verus!
