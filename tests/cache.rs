use unicache::cache::UniCache;
use unicache::index_table::IndexTable;
use unicache::lfu_uni_cache::LfuUniCache;
use unicache::lru_uni_cache::LruUniCache;

#[test]
fn lru_put_twice_keeps_index() {
    let mut c = LruUniCache::new(4);
    c.put(10);
    let first = c.get_encoded_index(&10);
    c.put(20);
    c.put(10);
    let second = c.get_encoded_index(&10);
    assert_eq!(first, Some(0));
    assert_eq!(second, Some(0));
    assert_eq!(c.get_encoded_index(&20), Some(1));
}

#[test]
fn lfu_put_twice_keeps_index() {
    let mut c = LfuUniCache::new(4);
    c.put(10);
    let first = c.get_encoded_index(&10);
    c.put(20);
    c.put(10);
    let second = c.get_encoded_index(&10);
    assert_eq!(first, Some(0));
    assert_eq!(second, Some(0));
    assert_eq!(c.get_encoded_index(&20), Some(1));
}

#[test]
fn distinct_items_get_distinct_indices() {
    let mut c = LruUniCache::new(8);
    for item in [3u64, 1, 4, 15, 9, 2, 6] {
        c.put(item);
    }
    let mut seen = Vec::new();
    for item in [3u64, 1, 4, 15, 9, 2, 6] {
        let i = c.get_encoded_index(&item).unwrap();
        assert!(!seen.contains(&i));
        seen.push(i);
    }
    assert_eq!(seen, vec![0, 1, 2, 3, 4, 5, 6]);
}

#[test]
fn reverse_lookup_returns_item() {
    let mut c = LfuUniCache::new(3);
    for item in [100u64, 200, 300, 400, 500] {
        c.put(item);
    }
    assert_eq!(c.get_with_encoded_index(0), 100);
    assert_eq!(c.get_with_encoded_index(2), 300);
    assert_eq!(c.get_with_encoded_index(4), 500);
    let i = c.get_encoded_index(&500).unwrap();
    assert_eq!(c.get_with_encoded_index(i), 500);
}

#[test]
fn reverse_lookup_survives_eviction() {
    let mut c = LruUniCache::new(1);
    c.put(7);
    c.put(8);
    assert_eq!(c.get_encoded_index(&7), None);
    assert_eq!(c.get_with_encoded_index(0), 7);
    assert_eq!(c.get_with_encoded_index(1), 8);
}

#[test]
fn lru_hot_count_stays_within_capacity() {
    let mut c = LruUniCache::new(3);
    for item in 0u64..10 {
        c.put(item * 11);
    }
    let hot = (0u64..10).filter(|i| c.get_encoded_index(&(i * 11)).is_some()).count();
    assert_eq!(hot, 3);
}

#[test]
fn lfu_hot_count_stays_within_capacity() {
    let mut c = LfuUniCache::new(3);
    for item in 0u64..10 {
        c.put(item * 11);
        c.put(item * 11);
    }
    let hot = (0u64..10).filter(|i| c.get_encoded_index(&(i * 11)).is_some()).count();
    assert_eq!(hot, 3);
}

#[test]
fn lru_evicts_least_recently_used() {
    let (a, b, d) = (1u64, 2u64, 3u64);
    let mut c = LruUniCache::new(2);
    c.put(a);
    c.put(b);
    c.put(d);
    assert_eq!(c.get_encoded_index(&a), None);
    assert_eq!(c.get_encoded_index(&b), Some(1));
    assert_eq!(c.get_encoded_index(&d), Some(2));
}

#[test]
fn lru_lookup_counts_as_use() {
    let mut c = LruUniCache::new(2);
    c.put(1);
    c.put(2);
    assert_eq!(c.get_encoded_index(&1), Some(0));
    c.put(3);
    assert_eq!(c.get_encoded_index(&2), None);
    assert_eq!(c.get_encoded_index(&1), Some(0));
    assert_eq!(c.get_encoded_index(&3), Some(2));
}

#[test]
fn lfu_evicts_least_frequently_used() {
    let (a, b, d) = (1u64, 2u64, 3u64);
    let mut c = LfuUniCache::new(2);
    c.put(a);
    c.put(b);
    c.put(a);
    c.put(a);
    c.put(d);
    assert_eq!(c.get_encoded_index(&b), None);
    assert_eq!(c.get_encoded_index(&a), Some(0));
    assert_eq!(c.get_encoded_index(&d), Some(2));
}

#[test]
fn lfu_lookup_counts_as_use() {
    let mut c = LfuUniCache::new(2);
    c.put(1);
    c.put(2);
    assert_eq!(c.get_encoded_index(&2), Some(1));
    c.put(3);
    assert_eq!(c.get_encoded_index(&1), None);
    assert_eq!(c.get_encoded_index(&2), Some(1));
    assert_eq!(c.get_encoded_index(&3), Some(2));
}

#[test]
fn lru_reinsert_after_eviction_keeps_index() {
    let mut c = LruUniCache::new(2);
    c.put(1);
    c.put(2);
    c.put(3);
    assert_eq!(c.get_encoded_index(&1), None);
    c.put(1);
    assert_eq!(c.get_encoded_index(&1), Some(0));
    assert_eq!(c.get_with_encoded_index(0), 1);
    c.put(4);
    assert_eq!(c.get_encoded_index(&4), Some(3));
}

#[test]
fn lfu_reinsert_after_eviction_keeps_index() {
    let mut c = LfuUniCache::new(1);
    c.put(5);
    c.put(6);
    assert_eq!(c.get_encoded_index(&5), None);
    c.put(5);
    assert_eq!(c.get_encoded_index(&5), Some(0));
    assert_eq!(c.get_encoded_index(&6), None);
    c.put(7);
    assert_eq!(c.get_encoded_index(&7), Some(2));
}

#[test]
fn lru_repeated_put_of_hot_item_evicts_nothing() {
    let mut c = LruUniCache::new(2);
    c.put(1);
    c.put(2);
    for _ in 0..5 {
        c.put(2);
    }
    assert_eq!(c.get_encoded_index(&1), Some(0));
    assert_eq!(c.get_encoded_index(&2), Some(1));
}

#[test]
fn lfu_repeated_put_of_hot_item_evicts_nothing() {
    let mut c = LfuUniCache::new(2);
    c.put(1);
    c.put(2);
    for _ in 0..5 {
        c.put(2);
    }
    assert_eq!(c.get_encoded_index(&1), Some(0));
    assert_eq!(c.get_encoded_index(&2), Some(1));
}

#[test]
fn unseen_item_is_absent() {
    let mut lru = LruUniCache::new(2);
    let mut lfu = LfuUniCache::new(2);
    assert_eq!(lru.get_encoded_index(&42), None);
    assert_eq!(lfu.get_encoded_index(&42), None);
    lru.put(1);
    lfu.put(1);
    assert_eq!(lru.get_encoded_index(&42), None);
    assert_eq!(lfu.get_encoded_index(&42), None);
}

#[test]
fn largest_item_value_is_indexed() {
    let mut c = LruUniCache::new(1);
    c.put(u64::MAX);
    assert_eq!(c.get_encoded_index(&u64::MAX), Some(0));
    assert_eq!(c.get_with_encoded_index(0), u64::MAX);
}

fn fill_and_probe<C: UniCache>(capacity: usize, items: &[u64]) -> Vec<Option<usize>> {
    let mut c = C::new(capacity);
    for item in items {
        c.put(*item);
    }
    items.iter().map(|item| c.get_encoded_index(item)).collect()
}

#[test]
fn both_policies_agree_without_pressure() {
    let items = [9u64, 8, 7, 9, 8];
    let lru = fill_and_probe::<LruUniCache>(3, &items);
    let lfu = fill_and_probe::<LfuUniCache>(3, &items);
    assert_eq!(lru, vec![Some(0), Some(1), Some(2), Some(0), Some(1)]);
    assert_eq!(lru, lfu);
}

#[test]
fn index_table_appends_new_items_only() {
    let mut t = IndexTable::new(2);
    assert_eq!(t.insert_full(40), 0);
    assert_eq!(t.insert_full(50), 1);
    assert_eq!(t.insert_full(40), 0);
    assert_eq!(t.insert_full(60), 2);
    assert_eq!(t.get_index_of(&50), Some(1));
    assert_eq!(t.get_index_of(&70), None);
    assert_eq!(t.get_index(2), 60);
    assert_eq!(t.get_index(0), 40);
}
