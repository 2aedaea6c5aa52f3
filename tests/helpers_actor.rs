use sharded_store::actor::{apply_operation, ActorState, Operation, Reply};
use sharded_store::helpers::{
    batch_process_parallel, parallel_segment_process, process_key, process_keys_parallel,
    scoped_data_processing,
};
use sharded_store::store::MyData;
use std::sync::atomic::{AtomicUsize, Ordering};
use std::sync::Arc;

type Pred = fn(&String, u64) -> bool;

fn filled(n: u64) -> MyData {
    let mut d = MyData::new(1, 8).unwrap();
    for i in 0..n {
        d.insert(format!("key-{}", i), i);
    }
    d
}

#[test]
fn parallel_results_follow_key_order() {
    let d = filled(100);
    let keys: Vec<String> = (0..100).map(|i| format!("key-{}", i)).collect();
    let out = process_keys_parallel(&d, keys.clone(), |k: &String, v: Option<u64>| (k.clone(), v));
    assert_eq!(out.len(), 100);
    for (i, (k, v)) in out.iter().enumerate() {
        assert_eq!(k, &keys[i]);
        assert_eq!(*v, Some(i as u64));
    }
}

#[test]
fn parallel_lookup_of_missing_keys_gives_none() {
    let d = filled(3);
    let keys = vec!["key-1".to_string(), "nope".to_string()];
    let out = process_keys_parallel(&d, keys, |_k: &String, v: Option<u64>| v);
    assert_eq!(out, vec![Some(1), None]);
    assert_eq!(process_key(&d, &"key-2".to_string(), &|_k: &String, v: Option<u64>| v.map(|x| x * 3)), Some(6));
}

#[test]
fn segment_process_visits_every_shard() {
    let d = filled(25);
    let calls = AtomicUsize::new(0);
    let seen = AtomicUsize::new(0);
    parallel_segment_process(&d, |m: &dashmap::DashMap<String, u64>| {
        calls.fetch_add(1, Ordering::SeqCst);
        seen.fetch_add(m.len(), Ordering::SeqCst);
    });
    assert_eq!(calls.load(Ordering::SeqCst), 8);
    assert_eq!(seen.load(Ordering::SeqCst), 25);
}

#[test]
fn batch_process_visits_every_store() {
    let stores: Vec<Arc<MyData>> = (1..=4).map(|n| Arc::new(filled(n))).collect();
    let total = AtomicUsize::new(0);
    batch_process_parallel(&stores, |d: &MyData| {
        total.fetch_add(d.len(), Ordering::SeqCst);
    });
    assert_eq!(total.load(Ordering::SeqCst), 1 + 2 + 3 + 4);
}

#[test]
fn scoped_processing_returns_one_result_per_shard_in_order() {
    let d = filled(40);
    let out = scoped_data_processing(&d, |i: usize, m: &dashmap::DashMap<String, u64>| (i, m.len()));
    assert_eq!(out.len(), 8);
    for (pos, (i, n)) in out.iter().enumerate() {
        assert_eq!(*i, pos);
        assert_eq!(*n, d.get_segment(pos).unwrap().len());
    }
    assert_eq!(out.iter().map(|(_, n)| n).sum::<usize>(), 40);
}

#[test]
fn actor_applies_commands_in_order() {
    let mut d = MyData::new(1, 4).unwrap();
    let mut state = ActorState::Running;
    let ops: Vec<Operation<Pred>> = vec![
        Operation::Insert("a".to_string(), 1),
        Operation::Insert("b".to_string(), 2),
        Operation::Remove("a".to_string()),
    ];
    for op in ops {
        let (s, r) = apply_operation(state, &mut d, op);
        state = s;
        assert!(matches!(r, Reply::Done));
    }
    let (s, r) = apply_operation::<Pred>(state, &mut d, Operation::Get("b".to_string()));
    assert_eq!(s, ActorState::Running);
    assert!(matches!(r, Reply::Value(Some(2))));
    let (_, r) = apply_operation::<Pred>(state, &mut d, Operation::Get("a".to_string()));
    assert!(matches!(r, Reply::Value(None)));
    let big: Pred = |_k, v| v > 1;
    let (_, r) = apply_operation(state, &mut d, Operation::Find(big));
    match r {
        Reply::Matches(found) => assert_eq!(found, vec![("b".to_string(), 2)]),
        _ => panic!("expected matches"),
    }
    assert_eq!(d.op_count(), 3);
}

#[test]
fn actor_stops_on_shutdown_and_ignores_later_commands() {
    let mut d = MyData::new(1, 2).unwrap();
    let (s, r) = apply_operation::<Pred>(ActorState::Running, &mut d, Operation::Insert("k".to_string(), 1));
    assert!(matches!(r, Reply::Done));
    let (s, r) = apply_operation::<Pred>(s, &mut d, Operation::Shutdown);
    assert_eq!(s, ActorState::Stopped);
    assert!(matches!(r, Reply::Done));
    let (s, r) = apply_operation::<Pred>(s, &mut d, Operation::Clear);
    assert_eq!(s, ActorState::Stopped);
    assert!(matches!(r, Reply::Stopped));
    assert_eq!(d.get(&"k".to_string()), Some(1));
    let (s, _) = apply_operation::<Pred>(ActorState::Running, &mut d, Operation::Clear);
    assert_eq!(s, ActorState::Running);
    assert_eq!(d.get(&"k".to_string()), None);
}

#[test]
fn actor_reads_need_no_counter_room() {
    let mut d = MyData::new(1, 2).unwrap();
    let (s, r) = apply_operation::<Pred>(ActorState::Running, &mut d, Operation::Get("x".to_string()));
    assert_eq!(s, ActorState::Running);
    assert!(matches!(r, Reply::Value(None)));
}
