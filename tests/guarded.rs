use sharded_store::guarded::{Atomic, MyDataMaps, ReaderWriterStore, ThreadSafeMap, TypedId};

struct User;

#[test]
fn typed_id_keeps_its_number() {
    let id: TypedId<User> = TypedId::new(42);
    assert_eq!(id.get(), 42);
}

#[test]
fn reader_writer_store_reads_and_writes() {
    let s = ReaderWriterStore::new(vec![1u64, 2, 3]);
    assert_eq!(s.read(|v: &Vec<u64>| v.len()), 3);
    let old_len = s.write(|mut v: Vec<u64>| {
        let n = v.len();
        v.push(4);
        (v, n)
    });
    assert_eq!(old_len, 3);
    assert_eq!(s.read(|v: &Vec<u64>| v.iter().sum::<u64>()), 10);
    let shared = s.clone_inner();
    let h = shared.acquire_read();
    assert_eq!(h.borrow().len(), 4);
    h.release_read();
}

#[test]
fn atomic_updates_in_place() {
    let a = Atomic::new(5u64);
    a.update(|v: u64| v * 2);
    assert_eq!(a.get_clone(), 10);
    let r = a.with(|v: u64| (v + 1, v));
    assert_eq!(r, 10);
    assert_eq!(a.get_clone(), 11);
}

#[test]
fn thread_safe_map_inserts_and_gets() {
    let m: ThreadSafeMap<u64, String> = ThreadSafeMap::new();
    assert_eq!(m.insert(1, "one".to_string()), None);
    assert_eq!(m.insert(1, "uno".to_string()), Some("one".to_string()));
    assert_eq!(m.get(&1), Some("uno".to_string()));
    assert_eq!(m.get(&2), None);
}

#[test]
fn data_maps_set_and_modify() {
    let mut m: MyDataMaps<String, u64> = MyDataMaps::new();
    assert!(m.get_inner_vector(0).is_some());
    assert!(m.get_inner_vector(1).is_none());
    m.set_initial_values_for_internal_hash_maps(0, "a".to_string(), 5);
    m.set_initial_values_for_internal_hash_maps(3, "b".to_string(), 7);
    assert_eq!(m.get_inner_vector(0).unwrap().len(), 1);
    assert!(m.get_inner_hash_map_value(0, &"b".to_string()).is_none());
    assert_eq!(m.modify_value_in_vec_inside_hash_map_with_key(0, &"a".to_string(), |v: u64| v + v), Some(()));
    assert_eq!(m.modify_value_in_vec_inside_hash_map_with_key(0, &"zz".to_string(), |v: u64| v), None);
    assert_eq!(m.modify_value_in_vec_inside_hash_map_with_key(2, &"a".to_string(), |v: u64| v), None);
    let lock = m.get_inner_hash_map_value(0, &"a".to_string()).unwrap();
    let h = lock.acquire_read();
    assert_eq!(*h.borrow(), 10);
    h.release_read();
}

#[test]
fn typed_ids_copy_and_compare() {
    let a: TypedId<User> = TypedId::new(3);
    let b = a;
    let c = a.clone();
    assert!(a == b);
    assert!(b == c);
    assert!(a != TypedId::new(4));
}

#[test]
fn clones_share_the_lock() {
    let m: ThreadSafeMap<u64, u64> = ThreadSafeMap::new();
    let m2 = m.clone();
    m.insert(1, 10);
    assert_eq!(m2.get(&1), Some(10));
    let a = Atomic::new(1u64);
    let a2 = a.clone();
    a.update(|v: u64| v + 1);
    assert_eq!(a2.get_clone(), 2);
    let s = ReaderWriterStore::new(5u64);
    let s2 = s.clone();
    s.write(|v: u64| (v * 3, ()));
    assert_eq!(s2.read(|v: &u64| *v), 15);
    let mut maps: MyDataMaps<String, u64> = MyDataMaps::new();
    maps.set_initial_values_for_internal_hash_maps(0, "a".to_string(), 1);
    let copy = maps.clone();
    maps.modify_value_in_vec_inside_hash_map_with_key(0, &"a".to_string(), |v: u64| v + 1);
    let lock = copy.get_inner_hash_map_value(0, &"a".to_string()).unwrap();
    let h = lock.acquire_read();
    assert_eq!(*h.borrow(), 2);
    h.release_read();
}
