use firestore_plugin::cache::{is_expired, TtlLruCache};
use firestore_plugin::state::{CountKey, QueryKey};
use std::time::{Duration, Instant};

#[test]
fn lookup_miss_on_empty_cache() {
    let mut c: TtlLruCache<String, u64> = TtlLruCache::new(10, Duration::from_secs(60).as_nanos());
    assert!(c.get(&"x".to_string()).is_none());
}

#[test]
fn inserted_value_is_retrievable() {
    let mut c: TtlLruCache<String, u64> = TtlLruCache::new(10, Duration::from_secs(60).as_nanos());
    c.insert("x".to_string(), 42);
    assert_eq!(c.get(&"x".to_string()), Some(&42));
    assert_eq!(c.len(), 1);
}

#[test]
fn lru_eviction_on_capacity() {
    let mut c: TtlLruCache<u64, &str> = TtlLruCache::new(2, Duration::from_secs(60).as_nanos());
    c.insert(1, "a");
    c.insert(2, "b");
    c.insert(3, "c");
    assert!(c.get(&1).is_none());
    assert_eq!(c.get(&2), Some(&"b"));
    assert_eq!(c.get(&3), Some(&"c"));
    assert_eq!(c.len(), 2);
}

#[test]
fn reinsert_refreshes_in_place() {
    let mut c: TtlLruCache<u64, u64> = TtlLruCache::new(2, Duration::from_secs(60).as_nanos());
    c.insert(1, 100);
    c.insert(1, 200);
    assert_eq!(c.get(&1), Some(&200));
    assert_eq!(c.len(), 1);
}

#[test]
fn explicit_remove_clears_entry() {
    let mut c: TtlLruCache<u64, u64> = TtlLruCache::new(10, Duration::from_secs(60).as_nanos());
    c.insert(1, 100);
    c.remove(&1);
    assert!(c.get(&1).is_none());
}

#[test]
fn clear_drops_all_entries() {
    let mut c: TtlLruCache<u64, u64> = TtlLruCache::new(10, Duration::from_secs(60).as_nanos());
    c.insert(1, 100);
    c.insert(2, 200);
    c.clear();
    assert_eq!(c.len(), 0);
}

#[test]
fn refreshed_key_keeps_its_place_in_eviction_order() {
    let mut c: TtlLruCache<u64, u64> = TtlLruCache::new(2, Duration::from_secs(60).as_nanos());
    c.insert(1, 10);
    c.insert(2, 20);
    c.insert(1, 11);
    c.insert(3, 30);
    assert!(c.get(&1).is_none());
    assert_eq!(c.get(&2), Some(&20));
    assert_eq!(c.get(&3), Some(&30));
}

#[test]
fn expired_read_drops_the_entry() {
    let mut c: TtlLruCache<u64, u64> = TtlLruCache::new(10, 100);
    c.insert_at(1, 10, 1_000);
    c.insert_at(2, 20, 1_050);
    assert_eq!(c.get_at(&1, 1_100), Some(&10));
    assert_eq!(c.len(), 2);
    assert!(c.get_at(&1, 1_101).is_none());
    assert_eq!(c.len(), 1);
    assert!(c.get_at(&1, 1_000).is_none());
    assert_eq!(c.get_at(&2, 1_150), Some(&20));
    assert!(c.get_at(&2, 1_151).is_none());
    assert_eq!(c.len(), 0);
}

#[test]
fn reinsert_restarts_the_ttl() {
    let mut c: TtlLruCache<u64, u64> = TtlLruCache::new(10, 100);
    c.insert_at(1, 10, 0);
    c.insert_at(1, 11, 500);
    assert_eq!(c.get_at(&1, 600), Some(&11));
    assert!(c.get_at(&1, 601).is_none());
}

#[test]
fn reading_before_the_stamp_counts_as_fresh() {
    let mut c: TtlLruCache<u64, u64> = TtlLruCache::new(10, 0);
    c.insert_at(7, 70, 50);
    assert_eq!(c.get_at(&7, 10), Some(&70));
    assert_eq!(c.get_at(&7, 50), Some(&70));
    assert!(c.get_at(&7, 51).is_none());
}

#[test]
fn expiry_is_strictly_after_the_ttl() {
    assert!(!is_expired(100, 100));
    assert!(is_expired(101, 100));
    assert!(!is_expired(0, 0));
}

#[test]
fn expired_entry_returns_miss() {
    let mut c: TtlLruCache<String, u64> = TtlLruCache::new(10, Duration::from_millis(10).as_nanos());
    c.insert("x".to_string(), 1);
    let start = Instant::now();
    while start.elapsed() < Duration::from_millis(20) {}
    assert!(c.get(&"x".to_string()).is_none());
}

#[test]
fn zero_capacity_keeps_only_the_newest() {
    let mut c: TtlLruCache<u64, u64> = TtlLruCache::new(0, Duration::from_secs(60).as_nanos());
    c.insert(1, 10);
    c.insert(2, 20);
    assert_eq!(c.len(), 1);
    assert_eq!(c.get(&2), Some(&20));
}

#[test]
fn count_keys_compare_by_fields() {
    let mut c: TtlLruCache<CountKey, u64> = TtlLruCache::new(4, Duration::from_secs(60).as_nanos());
    c.insert(
        CountKey {
            table: "t".into(),
            where_canonical: "(cmp a Eq 1)".into(),
        },
        5,
    );
    let hit = CountKey {
        table: "t".into(),
        where_canonical: "(cmp a Eq 1)".into(),
    };
    let miss = CountKey {
        table: "t".into(),
        where_canonical: "".into(),
    };
    assert_eq!(c.get(&hit), Some(&5));
    assert!(c.get(&miss).is_none());
    let mut q: TtlLruCache<QueryKey, u64> = TtlLruCache::new(4, Duration::from_secs(60).as_nanos());
    q.insert(
        QueryKey {
            table: "t".into(),
            where_canonical: "".into(),
            order_by_canonical: "x ASC".into(),
        },
        1,
    );
    let other_order = QueryKey {
        table: "t".into(),
        where_canonical: "".into(),
        order_by_canonical: "x DESC".into(),
    };
    assert!(q.get(&other_order).is_none());
}

#[test]
fn dropping_a_table_keeps_the_other_tables() {
    let key = |t: &str, w: &str| CountKey {
        table: t.into(),
        where_canonical: w.into(),
    };
    let mut c: TtlLruCache<CountKey, u64> = TtlLruCache::new(10, Duration::from_secs(60).as_nanos());
    c.insert(key("a", "x"), 1);
    c.insert(key("b", "x"), 2);
    c.insert(key("a", "y"), 3);
    c.drop_table("a");
    assert_eq!(c.len(), 1);
    assert!(c.get(&key("a", "x")).is_none());
    assert!(c.get(&key("a", "y")).is_none());
    assert_eq!(c.get(&key("b", "x")), Some(&2));
    let mut q: TtlLruCache<QueryKey, u64> = TtlLruCache::new(10, Duration::from_secs(60).as_nanos());
    q.insert(
        QueryKey {
            table: "a".into(),
            where_canonical: "".into(),
            order_by_canonical: "".into(),
        },
        7,
    );
    q.drop_table("b");
    assert_eq!(q.len(), 1);
    q.drop_table("a");
    assert_eq!(q.len(), 0);
}
