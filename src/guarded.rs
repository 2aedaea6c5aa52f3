//! Small shared-state helpers: typed identifiers, and values behind a
//! reader-writer lock that many owners share.
use vstd::prelude::*;
use vstd::rwlock::{RwLock, RwLockPredicate};
use vstd::std_specs::hash::obeys_key_model;
use std::collections::HashMap;
use std::hash::Hash;
use std::marker::PhantomData;
use std::sync::Arc;

verus! {

/// The condition of a lock that accepts every value: the lock guards
/// access only.
pub struct AnyValue;

impl<T> RwLockPredicate<T> for AnyValue {
    open spec fn inv(self, v: T) -> bool {
        true
    }
}

/// An identifier tagged with the kind of thing it names, so that ids of
/// different kinds cannot be mixed up.
pub struct TypedId<T> {
    id: usize,
    _marker: PhantomData<T>,
}

impl<T> TypedId<T> {
    pub closed spec fn spec_get(&self) -> usize {
        self.id
    }

    pub fn new(id: usize) -> (r: Self)
        ensures
            r.spec_get() == id,
    {
        TypedId { id, _marker: PhantomData }
    }

    pub fn get(&self) -> (r: usize)
        ensures
            r == self.spec_get(),
    {
        self.id
    }
}

/// A value behind a reader-writer lock; every clone is a handle on the same
/// lock.
#[verifier::reject_recursive_types(T)]
pub struct ReaderWriterStore<T> {
    inner: Arc<RwLock<T, AnyValue>>,
}

impl<T> ReaderWriterStore<T> {
    /// The lock that every clone shares.
    pub closed spec fn lock(&self) -> RwLock<T, AnyValue> {
        *self.inner
    }

    pub fn new(data: T) -> Self {
        ReaderWriterStore { inner: Arc::new(RwLock::new(data, Ghost(AnyValue))) }
    }

    /// Runs `f` on the value under a shared lock and returns its result.
    pub fn read<F, R>(&self, f: F) -> (r: R)
        where
            F: FnOnce(&T) -> R,
        requires
            forall|v: &T| f.requires((v,)),
        ensures
            exists|v: T| f.ensures((&v,), r),
    {
        let handle = self.inner.acquire_read();
        let r = f(handle.borrow());
        handle.release_read();
        r
    }

    /// Runs `f` on the value under the exclusive lock, stores the first part
    /// of what it returns and returns the second.
    pub fn write<F, R>(&self, f: F) -> (r: R)
        where
            F: FnOnce(T) -> (T, R),
        requires
            forall|v: T| f.requires((v,)),
        ensures
            exists|v: T, nv: T| f.ensures((v,), (nv, r)),
    {
        let (v, handle) = self.inner.acquire_write();
        let (nv, r) = f(v);
        handle.release_write(nv);
        r
    }

    /// The shared lock itself.
    pub fn clone_inner(&self) -> (r: Arc<RwLock<T, AnyValue>>)
        ensures
            *r == self.lock(),
    {
        Arc::clone(&self.inner)
    }
}

/// A value behind an exclusive lock, shared by every clone; each call holds
/// the lock for its whole length.
#[verifier::reject_recursive_types(T)]
pub struct Atomic<T> {
    inner: Arc<RwLock<T, AnyValue>>,
}

impl<T> Atomic<T> {
    /// The lock that every clone shares.
    pub closed spec fn lock(&self) -> RwLock<T, AnyValue> {
        *self.inner
    }

    pub fn new(data: T) -> Self {
        Atomic { inner: Arc::new(RwLock::new(data, Ghost(AnyValue))) }
    }

    /// Runs `f` on the value under the lock, stores the first part of what
    /// it returns and returns the second.
    pub fn with<F, R>(&self, f: F) -> (r: R)
        where
            F: FnOnce(T) -> (T, R),
        requires
            forall|v: T| f.requires((v,)),
        ensures
            exists|v: T, nv: T| f.ensures((v,), (nv, r)),
    {
        let (v, handle) = self.inner.acquire_write();
        let (nv, r) = f(v);
        handle.release_write(nv);
        r
    }

    /// Replaces the value `v` under the lock by `f(v)`.
    pub fn update<F>(&self, f: F)
        where
            F: FnOnce(T) -> T,
        requires
            forall|v: T| f.requires((v,)),
    {
        let (v, handle) = self.inner.acquire_write();
        let nv = f(v);
        handle.release_write(nv);
    }

    /// A copy of the value as it is now.
    pub fn get_clone(&self) -> (r: T)
        where
            T: Clone,
    {
        let handle = self.inner.acquire_read();
        let r = handle.borrow().clone();
        handle.release_read();
        r
    }
}

/// A map behind a reader-writer lock; every clone is a handle on the same
/// lock.
#[verifier::reject_recursive_types(K)]
#[verifier::reject_recursive_types(V)]
pub struct ThreadSafeMap<K, V> {
    inner: Arc<RwLock<HashMap<K, V>, AnyValue>>,
}

impl<K, V> ThreadSafeMap<K, V> {
    /// The lock that every clone shares.
    pub closed spec fn lock(&self) -> RwLock<HashMap<K, V>, AnyValue> {
        *self.inner
    }
}

impl<K: Eq + Hash, V> ThreadSafeMap<K, V> {
    pub fn new() -> Self {
        ThreadSafeMap { inner: Arc::new(RwLock::new(HashMap::new(), Ghost(AnyValue))) }
    }

    /// Stores `value` under `key` and returns the value it replaced.
    pub fn insert(&self, key: K, value: V) -> (r: Option<V>)
    {
        let (mut m, handle) = self.inner.acquire_write();
        let r = m.insert(key, value);
        handle.release_write(m);
        r
    }

    /// A copy of the value stored under `key`, if any.
    pub fn get(&self, key: &K) -> (r: Option<V>)
        where
            V: Clone,
    {
        let handle = self.inner.acquire_read();
        let r = match handle.borrow().get(key) {
            Some(v) => Some(v.clone()),
            None => None,
        };
        handle.release_read();
        r
    }
}

/// A list of maps whose values each sit behind a lock of their own, so that
/// one value can be changed while the maps are only read.
#[verifier::reject_recursive_types(K)]
#[verifier::reject_recursive_types(V)]
pub struct MyDataMaps<K, V> {
    inner: Vec<HashMap<K, Arc<RwLock<V, AnyValue>>>>,
}

impl<K: Eq + Hash, V> MyDataMaps<K, V> {
    /// The maps, each from a key to the lock that holds its value.
    pub closed spec fn maps(&self) -> Seq<Map<K, Arc<RwLock<V, AnyValue>>>> {
        self.inner@.map_values(|m: HashMap<K, Arc<RwLock<V, AnyValue>>>| m@)
    }

    /// One empty map.
    pub fn new() -> (r: Self)
        ensures
            r.maps().len() == 1,
            r.maps()[0] == Map::<K, Arc<RwLock<V, AnyValue>>>::empty(),
    {
        let mut inner: Vec<HashMap<K, Arc<RwLock<V, AnyValue>>>> = Vec::new();
        inner.push(HashMap::new());
        MyDataMaps { inner }
    }

    /// Map `index`, if there is one.
    pub fn get_inner_vector(&self, index: usize) -> (r: Option<&HashMap<K, Arc<RwLock<V, AnyValue>>>>)
        ensures
            r is Some <==> index < self.maps().len(),
            r matches Some(m) ==> m@ == self.maps()[index as int],
    {
        if index < self.inner.len() {
            Some(&self.inner[index])
        } else {
            None
        }
    }

    /// The lock under `key` in map `index`, shared with the map.
    pub fn get_inner_hash_map_value(&self, index: usize, key: &K) -> (r: Option<Arc<RwLock<V, AnyValue>>>)
        ensures
            obeys_key_model::<K>() ==> (r is Some <==> index < self.maps().len()
                && self.maps()[index as int].contains_key(*key)),
            obeys_key_model::<K>() ==> (r matches Some(l) ==> *l == *self.maps()[index as int][*key]),
    {
        broadcast use vstd::std_specs::hash::group_hash_axioms;
        match self.get_inner_vector(index) {
            None => None,
            Some(m) => match m.get(key) {
                Some(l) => Some(Arc::clone(l)),
                None => None,
            },
        }
    }

    /// Puts `value`, behind a lock of its own, under `key` in map `index`;
    /// does nothing when there is no such map.
    pub fn set_initial_values_for_internal_hash_maps(&mut self, index: usize, key: K, value: V)
        ensures
            final(self).maps().len() == old(self).maps().len(),
            forall|i: int| 0 <= i < old(self).maps().len() && i != index
                ==> #[trigger] final(self).maps()[i] == old(self).maps()[i],
            index >= old(self).maps().len() ==> final(self).maps() == old(self).maps(),
            obeys_key_model::<K>() && index < old(self).maps().len() ==> {
                &&& final(self).maps()[index as int].dom() == old(self).maps()[index as int].dom().insert(key)
                &&& forall|k: K| k != key && #[trigger] old(self).maps()[index as int].contains_key(k)
                    ==> final(self).maps()[index as int][k] == old(self).maps()[index as int][k]
            },
    {
        if index < self.inner.len() {
            let lock = Arc::new(RwLock::new(value, Ghost(AnyValue)));
            self.inner[index].insert(key, lock);
        }
    }

    /// Runs `modifier` on the value under `key` in map `index`, under its
    /// lock, and stores what it returns there. `None` when there is no such
    /// value.
    pub fn modify_value_in_vec_inside_hash_map_with_key<F>(&self, index: usize, key: &K, modifier: F) -> (r: Option<()>)
        where
            F: FnOnce(V) -> V,
        requires
            forall|v: V| modifier.requires((v,)),
        ensures
            obeys_key_model::<K>() ==> (r is Some <==> index < self.maps().len()
                && self.maps()[index as int].contains_key(*key)),
    {
        match self.get_inner_hash_map_value(index, key) {
            None => None,
            Some(lock) => {
                let (v, handle) = lock.acquire_write();
                let nv = modifier(v);
                handle.release_write(nv);
                Some(())
            },
        }
    }
}

impl<T> Clone for TypedId<T> {
    fn clone(&self) -> (r: Self)
        ensures
            r.spec_get() == self.spec_get(),
    {
        TypedId { id: self.id, _marker: PhantomData }
    }
}

impl<T> Copy for TypedId<T> {
}

impl<T> PartialEq for TypedId<T> {
    fn eq(&self, other: &Self) -> (r: bool) {
        self.id == other.id
    }
}

impl<T> vstd::std_specs::cmp::PartialEqSpecImpl for TypedId<T> {
    open spec fn obeys_eq_spec() -> bool {
        true
    }

    open spec fn eq_spec(&self, other: &Self) -> bool {
        self.spec_get() == other.spec_get()
    }
}

impl<T> Eq for TypedId<T> {
}

impl<T> Clone for ReaderWriterStore<T> {
    /// Another handle on the same lock.
    fn clone(&self) -> (r: Self)
        ensures
            r.lock() == self.lock(),
    {
        ReaderWriterStore { inner: Arc::clone(&self.inner) }
    }
}

impl<T> Clone for Atomic<T> {
    /// Another handle on the same lock.
    fn clone(&self) -> (r: Self)
        ensures
            r.lock() == self.lock(),
    {
        Atomic { inner: Arc::clone(&self.inner) }
    }
}

impl<K, V> Clone for ThreadSafeMap<K, V> {
    /// Another handle on the same lock.
    fn clone(&self) -> (r: Self)
        ensures
            r.lock() == self.lock(),
    {
        ThreadSafeMap { inner: Arc::clone(&self.inner) }
    }
}

impl<K: Clone + Eq + Hash, V> Clone for MyDataMaps<K, V> {
    /// Copies of the maps; the values' locks are shared with the original.
    fn clone(&self) -> (r: Self) {
        MyDataMaps { inner: self.inner.clone() }
    }
}

} // verus!
