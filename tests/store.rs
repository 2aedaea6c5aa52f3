use sharded_store::store::{MyData, StoreError};

fn filled(n: u64) -> MyData {
    let mut d = MyData::new(1, 8).unwrap();
    for i in 0..n {
        d.insert(format!("key-{}", i), i);
    }
    d
}

#[test]
fn zero_shards_is_a_configuration_error() {
    assert!(matches!(MyData::new(3, 0), Err(StoreError::ZeroShards)));
    assert!(matches!(MyData::with_seed(3, 0, 9), Err(StoreError::ZeroShards)));
}

#[test]
fn new_store_is_empty() {
    let d = MyData::new(7, 4).unwrap();
    assert_eq!(d.id(), 7);
    assert_eq!(d.num_segments(), 4);
    assert_eq!(d.len(), 0);
    assert!(d.is_empty());
    assert_eq!(d.op_count(), 0);
    assert!(d.keys().is_empty());
}

#[test]
fn insert_get_and_replace() {
    let mut d = MyData::new(1, 3).unwrap();
    assert_eq!(d.insert("a".to_string(), 1), None);
    assert_eq!(d.insert("b".to_string(), 2), None);
    assert_eq!(d.insert("a".to_string(), 10), Some(1));
    assert_eq!(d.get(&"a".to_string()), Some(10));
    assert_eq!(d.get(&"b".to_string()), Some(2));
    assert_eq!(d.get(&"c".to_string()), None);
    assert_eq!(d.len(), 2);
    assert!(!d.is_empty());
    assert_eq!(d.op_count(), 3);
}

#[test]
fn remove_counts_only_hits() {
    let mut d = MyData::new(1, 2).unwrap();
    d.insert("x".to_string(), 5);
    assert_eq!(d.remove(&"y".to_string()), None);
    assert_eq!(d.op_count(), 1);
    assert_eq!(d.remove(&"x".to_string()), Some(5));
    assert_eq!(d.op_count(), 2);
    assert_eq!(d.get(&"x".to_string()), None);
    assert_eq!(d.len(), 0);
}

#[test]
fn transaction_on_missing_key_changes_nothing() {
    let mut d = MyData::new(1, 2).unwrap();
    let r = d.transaction(&"none".to_string(), |_k: &String, v: u64| (v + 1, v));
    assert_eq!(r, None);
    assert_eq!(d.op_count(), 0);
    assert_eq!(d.len(), 0);
}

#[test]
fn transaction_returns_result_and_stores_new_value() {
    let mut d = MyData::new(1, 2).unwrap();
    d.insert("n".to_string(), 41);
    let r = d.transaction(&"n".to_string(), |k: &String, v: u64| (v + 1, format!("{}={}", k, v)));
    assert_eq!(r, Some("n=41".to_string()));
    assert_eq!(d.get(&"n".to_string()), Some(42));
    assert_eq!(d.op_count(), 2);
}

#[test]
fn hundred_increments_on_one_key() {
    let mut d = filled(100);
    let before = d.op_count();
    let key = "key-50".to_string();
    for _ in 0..100 {
        assert!(d.transaction(&key, |_k: &String, v: u64| (v + 1, ())).is_some());
    }
    assert_eq!(d.get(&key), Some(150));
    assert_eq!(d.op_count() - before, 100);
}

#[test]
fn counter_counts_successful_changes() {
    let mut d = MyData::new(1, 4).unwrap();
    d.insert("a".to_string(), 1);
    d.insert("b".to_string(), 2);
    d.remove(&"a".to_string());
    d.remove(&"zz".to_string());
    d.transaction(&"b".to_string(), |_k: &String, v: u64| (v * 2, ()));
    d.transaction(&"zz".to_string(), |_k: &String, v: u64| (v * 2, ()));
    d.clear();
    assert_eq!(d.op_count(), 5);
    d.for_each(|_k: &String, v: u64| v);
    assert_eq!(d.op_count(), 9);
}

#[test]
fn clear_then_get_is_absent() {
    let mut d = filled(20);
    let before = d.op_count();
    d.clear();
    assert_eq!(d.op_count(), before + 1);
    for i in 0..20 {
        assert_eq!(d.get(&format!("key-{}", i)), None);
    }
    assert!(d.is_empty());
    d.insert("key-3".to_string(), 33);
    assert_eq!(d.get(&"key-3".to_string()), Some(33));
}

#[test]
fn for_each_updates_every_value() {
    let mut d = filled(30);
    let before = d.op_count();
    d.for_each(|k: &String, v: u64| if k.ends_with('0') { v * 10 } else { v + 1 });
    assert_eq!(d.op_count(), before + 8);
    assert_eq!(d.len(), 30);
    assert_eq!(d.get(&"key-20".to_string()), Some(200));
    assert_eq!(d.get(&"key-7".to_string()), Some(8));
}

#[test]
fn find_returns_matching_entries() {
    let d = filled(50);
    let mut found = d.find(|_k: &String, v: u64| v % 10 == 3);
    found.sort();
    let mut expected: Vec<(String, u64)> = (0..5).map(|i| (format!("key-{}", i * 10 + 3), i * 10 + 3)).collect();
    expected.sort();
    assert_eq!(found, expected);
    assert!(d.find(|_k: &String, _v: u64| false).is_empty());
    assert_eq!(d.find(|_k: &String, _v: u64| true).len(), 50);
}

#[test]
fn keys_lists_each_key_once() {
    let d = filled(40);
    let mut ks = d.keys();
    ks.sort();
    let mut expected: Vec<String> = (0..40).map(|i| format!("key-{}", i)).collect();
    expected.sort();
    assert_eq!(ks, expected);
}

#[test]
fn clone_has_same_keys_and_values() {
    let d = filled(50);
    let mut c = d.clone_data();
    assert_eq!(c.id(), d.id());
    assert_eq!(c.num_segments(), d.num_segments());
    assert_eq!(c.op_count(), d.op_count());
    let mut a = d.keys();
    let mut b = c.keys();
    a.sort();
    b.sort();
    assert_eq!(a, b);
    for k in &a {
        assert_eq!(c.get(k), d.get(k));
    }
    c.insert("key-0".to_string(), 999);
    assert_eq!(d.get(&"key-0".to_string()), Some(0));
    assert_eq!(c.op_count(), d.op_count() + 1);
}

#[test]
fn same_seed_routes_keys_the_same_way() {
    let mut a = MyData::with_seed(1, 5, 12345).unwrap();
    let mut b = MyData::with_seed(2, 5, 12345).unwrap();
    for i in 0..30u64 {
        a.insert(format!("k{}", i), i);
        b.insert(format!("k{}", i), i);
    }
    for s in 0..5 {
        assert_eq!(a.get_segment(s).unwrap().len(), b.get_segment(s).unwrap().len());
    }
    assert!(a.get_segment(5).is_none());
    let total: usize = (0..5).map(|s| a.get_segment(s).unwrap().len()).sum();
    assert_eq!(total, 30);
}

#[test]
fn each_key_sits_in_the_shard_the_router_picks() {
    let mut d = MyData::with_seed(1, 7, 99).unwrap();
    d.insert("alpha".to_string(), 1);
    let idx = sharded_store::routing::shard_index(&"alpha".to_string(), 99, 7);
    assert!(idx < 7);
    assert!(d.get_segment(idx).unwrap().contains_key("alpha"));
}

#[test]
fn shards_partition_the_store() {
    let d = filled(60);
    let mut total = 0;
    for s in 0..d.num_segments() {
        let seg = d.get_segment(s).unwrap();
        total += seg.len();
        for e in seg.iter() {
            assert_eq!(d.get(e.key()), Some(*e.value()));
            for t in 0..d.num_segments() {
                if t != s {
                    assert!(!d.get_segment(t).unwrap().contains_key(e.key()));
                }
            }
        }
    }
    assert_eq!(total, d.len());
}

#[test]
fn clone_impl_copies_the_store() {
    let d = filled(10);
    let mut c = d.clone();
    assert_eq!(c.len(), 10);
    assert_eq!(c.op_count(), d.op_count());
    c.insert("key-1".to_string(), 100);
    assert_eq!(d.get(&"key-1".to_string()), Some(1));
    assert_eq!(c.get(&"key-1".to_string()), Some(100));
}

#[test]
fn interleaved_writes_keep_each_keys_last_value() {
    let mut d = MyData::new(1, 4).unwrap();
    d.insert("k1".to_string(), 1);
    d.insert("k2".to_string(), 10);
    d.insert("k1".to_string(), 2);
    d.insert("k2".to_string(), 20);
    d.insert("k2".to_string(), 30);
    assert_eq!(d.get(&"k1".to_string()), Some(2));
    assert_eq!(d.get(&"k2".to_string()), Some(30));
}
