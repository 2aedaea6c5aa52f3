//! Fan-out helpers: work spread over the keys, the shards or several stores
//! at once, on rayon's worker pool or on crossbeam's scoped threads.
use vstd::prelude::*;
use dashmap::DashMap;
use rayon::iter::{IndexedParallelIterator, IntoParallelRefIterator, ParallelIterator};
use std::sync::Arc;
use crate::store::{entry_of, MyData};

verus! {

/// Runs `processor` on `key` and the value stored under it, if any.
pub fn process_key<F, R>(data: &MyData, key: &String, processor: &F) -> (r: R)
    where
        F: Fn(&String, Option<u64>) -> R,
    requires
        data.wf(),
        forall|k: &String, v: Option<u64>| processor.requires((k, v)),
    ensures
        processor.ensures((key, entry_of(data.view(), key@)), r),
{
    let v = data.get(key);
    processor(key, v)
}

/// Relies on rayon's `par_iter().map(..).collect()` over a slice: the
/// results come back in the order of the keys, one for each.
#[verifier::external_body]
fn par_map_keys<F, R>(data: &MyData, keys: &Vec<String>, processor: &F) -> (r: Vec<R>)
    where
        F: Fn(&String, Option<u64>) -> R + Send + Sync,
        R: Send,
    requires
        data.wf(),
        forall|k: &String, v: Option<u64>| processor.requires((k, v)),
    ensures
        r@.len() == keys@.len(),
        forall|i: int| 0 <= i < keys@.len()
            ==> processor.ensures((&keys@[i], entry_of(data.view(), keys@[i]@)), #[trigger] r@[i]),
{
    keys.par_iter().map(|k| process_key(data, k, processor)).collect()
}

/// Runs `processor` on each key and its value, spread over a worker pool.
/// The i-th result belongs to the i-th key, whatever order the work ends in.
pub fn process_keys_parallel<F, R>(data: &MyData, keys: Vec<String>, processor: F) -> (r: Vec<R>)
    where
        F: Fn(&String, Option<u64>) -> R + Send + Sync,
        R: Send,
    requires
        data.wf(),
        forall|k: &String, v: Option<u64>| processor.requires((k, v)),
    ensures
        r@.len() == keys@.len(),
        forall|i: int| 0 <= i < keys@.len()
            ==> processor.ensures((&keys@[i], entry_of(data.view(), keys@[i]@)), #[trigger] r@[i]),
{
    par_map_keys(data, &keys, &processor)
}

/// Relies on rayon's `par_iter().map(..).collect()` over a slice:
/// `processor` runs once on each shard, and the results come back in the
/// order of the shards.
#[verifier::external_body]
fn par_each_segment<F>(segs: &Vec<DashMap<String, u64>>, processor: &F) -> (r: Vec<()>)
    where
        F: Fn(&DashMap<String, u64>) + Send + Sync,
    requires
        forall|m: &DashMap<String, u64>| processor.requires((m,)),
    ensures
        r@.len() == segs@.len(),
        forall|i: int| 0 <= i < segs@.len() ==> processor.ensures((&segs@[i],), #[trigger] r@[i]),
{
    segs.par_iter().map(|m| processor(m)).collect()
}

/// Calls `processor` once on each shard, on rayon's worker pool, in no
/// particular order, and returns when every call has finished. The shards
/// must only be read.
pub fn parallel_segment_process<F>(data: &MyData, processor: F)
    where
        F: Fn(&DashMap<String, u64>) + Send + Sync,
    requires
        forall|m: &DashMap<String, u64>| processor.requires((m,)),
    ensures
        forall|i: int| 0 <= i < data.spec_num_segments()
            ==> #[trigger] processor.ensures((&data.segment(i),), ()),
{
    let segs = data.segments();
    let r = par_each_segment(segs, &processor);
    assert forall|i: int| 0 <= i < data.spec_num_segments()
        implies #[trigger] processor.ensures((&data.segment(i),), ()) by {
        assert(segs@[i] == data.segment(i));
        assert(r@[i] == ());
    }
}

/// Relies on rayon's `par_iter().map(..).collect()` over a slice:
/// `processor` runs once on each store, and the results come back in the
/// order of the stores.
#[verifier::external_body]
fn par_each_store<F>(stores: &[Arc<MyData>], processor: &F) -> (r: Vec<()>)
    where
        F: Fn(&MyData) + Send + Sync,
    requires
        forall|d: &MyData| processor.requires((d,)),
    ensures
        r@.len() == stores@.len(),
        forall|i: int| 0 <= i < stores@.len() ==> processor.ensures((&*stores@[i],), #[trigger] r@[i]),
{
    stores.par_iter().map(|d| processor(d)).collect()
}

/// Calls `processor` once on each store, on rayon's worker pool, in no
/// particular order, and returns when every call has finished.
pub fn batch_process_parallel<F>(data_structures: &[Arc<MyData>], batch_processor: F)
    where
        F: Fn(&MyData) + Send + Sync,
    requires
        forall|d: &MyData| batch_processor.requires((d,)),
    ensures
        forall|i: int| 0 <= i < data_structures@.len()
            ==> #[trigger] batch_processor.ensures((&*data_structures@[i],), ()),
{
    let r = par_each_store(data_structures, &batch_processor);
    assert forall|i: int| 0 <= i < data_structures@.len()
        implies #[trigger] batch_processor.ensures((&*data_structures@[i],), ()) by {
        assert(r@[i] == ());
    }
}

/// Relies on `crossbeam::scope`: one scoped thread for each shard, all joined
/// before it returns, and their results kept in the order of the shards.
#[verifier::external_body]
fn scoped_map_segments<F, R>(segs: &Vec<DashMap<String, u64>>, processor: &F) -> (r: Vec<R>)
    where
        F: Fn(usize, &DashMap<String, u64>) -> R + Send + Sync,
        R: Send,
    requires
        forall|i: usize, m: &DashMap<String, u64>| processor.requires((i, m)),
    ensures
        r@.len() == segs@.len(),
        forall|i: int| 0 <= i < segs@.len() ==> processor.ensures((i as usize, &segs@[i]), #[trigger] r@[i]),
{
    crossbeam::scope(|s| {
        let handles: Vec<crossbeam::thread::ScopedJoinHandle<'_, R>> =
            segs.iter().enumerate().map(|(i, m)| s.spawn(move |_| processor(i, m))).collect();
        handles.into_iter().map(|h| h.join().unwrap()).collect()
    }).unwrap()
}

/// Runs `processor` on each shard with its index, each in a thread of its
/// own, waits for all of them and returns their results by shard index.
/// The shards must only be read.
pub fn scoped_data_processing<F, R>(data: &MyData, processor: F) -> (r: Vec<R>)
    where
        F: Fn(usize, &DashMap<String, u64>) -> R + Send + Sync,
        R: Send,
    requires
        forall|i: usize, m: &DashMap<String, u64>| processor.requires((i, m)),
    ensures
        r@.len() == data.spec_num_segments(),
        forall|i: int| 0 <= i < data.spec_num_segments()
            ==> processor.ensures((i as usize, &data.segment(i)), #[trigger] r@[i]),
{
    scoped_map_segments(data.segments(), &processor)
}

} // verus!
