//! `MyData`: a key/value store split into shards. Each key lives in the one
//! shard that the store's router picks from the key and the store's seed.
use vstd::prelude::*;
use dashmap::DashMap;
use crate::routing::{shard_index, shard_of};
use crate::shard::{
    shard_clear, shard_clone, shard_entries, shard_get, shard_insert, shard_keys, shard_len,
    shard_new, shard_remove,
};

verus! {

/// Relies on `rand::random::<u64>`: a value of which nothing is promised.
#[verifier::external_body]
fn random_seed() -> u64 {
    rand::random::<u64>()
}

/// Why a store could not be made.
#[derive(Debug, Clone, Copy, PartialEq, Eq, Structural)]
pub enum StoreError {
    /// A store needs at least one shard.
    ZeroShards,
}

/// A store of `u64` values under `String` keys, split over a fixed number of
/// shards, with a count of the calls that changed it.
///
/// Each store draws its own routing seed when it is made and keeps it for
/// life; `clone_data` keeps it too, so a copy places every key in the same
/// shard as the original. Calls that change the store take `&mut self`, so
/// each one is atomic as a whole; threads that share a store put it behind a
/// lock of their choice, which serialises all changing calls rather than
/// only those on one key. A clone copies every shard, as `clone_data` does.
#[derive(Clone)]
pub struct MyData {
    id: usize,
    segments: Vec<DashMap<String, u64>>,
    op_counter: usize,
    seed: u64,
}

impl MyData {
    /// The shard index of a key: fixed by the key, the seed and the number
    /// of shards.
    pub open spec fn route(&self, key: Seq<char>) -> int {
        shard_of(key, self.spec_seed(), self.spec_num_segments())
    }

    /// The entries of shard `i`.
    pub closed spec fn shard(&self, i: int) -> Map<Seq<char>, u64> {
        shard_entries(self.segments@[i])
    }

    /// Sum of the sizes of the first `i` shards.
    pub open spec fn shards_total(&self, i: int) -> nat
        decreases i,
    {
        if i <= 0 {
            0
        } else {
            self.shards_total(i - 1) + self.shard(i - 1).len()
        }
    }

    /// Shard `i` itself.
    pub closed spec fn segment(&self, i: int) -> DashMap<String, u64> {
        self.segments@[i]
    }

    /// All entries of the store.
    pub closed spec fn view(&self) -> Map<Seq<char>, u64> {
        Map::new(
            |k: Seq<char>| self.shard(self.route(k)).contains_key(k),
            |k: Seq<char>| self.shard(self.route(k))[k],
        )
    }

    /// The store's identity.
    pub closed spec fn spec_id(&self) -> usize {
        self.id
    }

    /// The number of shards.
    pub closed spec fn spec_num_segments(&self) -> nat {
        self.segments@.len()
    }

    /// The count of calls that changed the store.
    pub closed spec fn spec_op_count(&self) -> nat {
        self.op_counter as nat
    }

    /// The seed of the router.
    pub closed spec fn spec_seed(&self) -> u64 {
        self.seed
    }

    /// At least one shard; every key sits in the shard the router picks; the
    /// shards are finite and hold no more entries than the count of changes.
    pub closed spec fn wf(&self) -> bool {
        &&& self.well_routed()
        &&& self.view().len() <= self.op_counter
    }

    closed spec fn well_routed(&self) -> bool {
        &&& self.segments@.len() > 0
        &&& forall|i: int, k: Seq<char>|
            0 <= i < self.segments@.len() && #[trigger] shard_entries(self.segments@[i]).contains_key(k)
                ==> self.route(k) == i
        &&& forall|i: int|
            0 <= i < self.segments@.len() ==> #[trigger] shard_entries(self.segments@[i]).dom().finite()
    }

    proof fn lemma_route_in_range(&self, key: Seq<char>)
        requires
            self.segments@.len() > 0,
        ensures
            0 <= self.route(key) < self.segments@.len(),
    {
        vstd::arithmetic::div_mod::lemma_mod_pos_bound(
            crate::routing::hash_bytes(vstd::utf8::encode_utf8(key), self.seed),
            self.segments@.len() as int,
        );
    }

    /// The keys of the first `i` shards.
    closed spec fn dom_below(&self, i: int) -> Set<Seq<char>> {
        Set::new(|k: Seq<char>| self.view().contains_key(k) && self.route(k) < i)
    }

    proof fn lemma_dom_below(&self, i: int)
        requires
            self.well_routed(),
            0 <= i <= self.segments@.len(),
        ensures
            self.dom_below(i).finite(),
            self.dom_below(i).len() == self.shards_total(i),
        decreases i,
    {
        if i == 0 {
            assert forall|k: Seq<char>| !self.dom_below(0).contains(k) by {
                self.lemma_route_in_range(k);
            }
            assert(self.dom_below(0) =~= Set::empty());
        } else {
            self.lemma_dom_below(i - 1);
            let s = shard_entries(self.segments@[i - 1]).dom();
            assert forall|k: Seq<char>| #[trigger] self.dom_below(i).contains(k)
                <==> (self.dom_below(i - 1) + s).contains(k) by {
                self.lemma_route_in_range(k);
                if s.contains(k) {
                    assert(self.route(k) == i - 1);
                }
            }
            assert(self.dom_below(i) =~= self.dom_below(i - 1) + s);
            assert(self.dom_below(i - 1).disjoint(s));
            vstd::set_lib::lemma_set_disjoint_lens(self.dom_below(i - 1), s);
        }
    }

    /// The store's entries are finite in number, and as many as the shards
    /// hold together.
    proof fn lemma_view_len(&self)
        requires
            self.well_routed(),
        ensures
            self.view().dom().finite(),
            self.view().len() == self.shards_total(self.segments@.len() as int),
    {
        self.lemma_dom_below(self.segments@.len() as int);
        assert forall|k: Seq<char>| #[trigger] self.view().contains_key(k)
            <==> self.dom_below(self.segments@.len() as int).contains(k) by {
            self.lemma_route_in_range(k);
        }
        assert(self.view().dom() =~= self.dom_below(self.segments@.len() as int));
    }
}

proof fn lemma_shards_total_monotonic(d: &MyData, i: int, j: int)
    requires
        0 <= i <= j,
    ensures
        d.shards_total(i) <= d.shards_total(j),
    decreases j,
{
    if i < j {
        lemma_shards_total_monotonic(d, i, j - 1);
    }
}

impl MyData {
    /// Makes an empty store with `num_segments` shards, routed by `seed`.
    pub fn with_seed(id: usize, num_segments: usize, seed: u64) -> (r: Result<MyData, StoreError>)
        ensures
            r is Err <==> num_segments == 0,
            r matches Err(e) ==> e == StoreError::ZeroShards,
            r matches Ok(d) ==> {
                &&& d.wf()
                &&& d.view() == Map::<Seq<char>, u64>::empty()
                &&& d.spec_id() == id
                &&& d.spec_num_segments() == num_segments
                &&& d.spec_op_count() == 0
                &&& d.spec_seed() == seed
            },
    {
        if num_segments == 0 {
            return Err(StoreError::ZeroShards);
        }
        let mut segments: Vec<DashMap<String, u64>> = Vec::new();
        let mut i: usize = 0;
        while i < num_segments
            invariant
                i <= num_segments,
                segments@.len() == i,
                forall|j: int| 0 <= j < i ==> #[trigger] shard_entries(segments@[j]) == Map::<Seq<char>, u64>::empty(),
            decreases num_segments - i,
        {
            segments.push(shard_new());
            i += 1;
        }
        let d = MyData { id, segments, op_counter: 0, seed };
        assert(d.view() =~= Map::<Seq<char>, u64>::empty()) by {
            assert forall|k: Seq<char>| !d.view().contains_key(k) by {
                d.lemma_route_in_range(k);
            }
        }
        Ok(d)
    }

    /// Makes an empty store with `num_segments` shards and a seed drawn at
    /// random, so that each store routes keys in its own way.
    pub fn new(id: usize, num_segments: usize) -> (r: Result<MyData, StoreError>)
        ensures
            r is Err <==> num_segments == 0,
            r matches Err(e) ==> e == StoreError::ZeroShards,
            r matches Ok(d) ==> {
                &&& d.wf()
                &&& d.view() == Map::<Seq<char>, u64>::empty()
                &&& d.spec_id() == id
                &&& d.spec_num_segments() == num_segments
                &&& d.spec_op_count() == 0
            },
    {
        let seed: u64 = random_seed();
        MyData::with_seed(id, num_segments, seed)
    }

    /// The store's identity.
    pub fn id(&self) -> (r: usize)
        ensures
            r == self.spec_id(),
    {
        self.id
    }

    /// The number of shards.
    pub fn num_segments(&self) -> (r: usize)
        ensures
            r == self.spec_num_segments(),
    {
        self.segments.len()
    }

    /// The number of calls that changed the store, as counted so far.
    pub fn op_count(&self) -> (r: usize)
        ensures
            r == self.spec_op_count(),
    {
        self.op_counter
    }

    fn get_segment_index(&self, key: &String) -> (r: usize)
        requires
            self.wf(),
        ensures
            r == self.route(key@),
            r < self.spec_num_segments(),
    {
        shard_index(key, self.seed, self.segments.len())
    }

    /// Stores `value` under `key` and returns the value it replaced.
    pub fn insert(&mut self, key: String, value: u64) -> (r: Option<u64>)
        requires
            old(self).wf(),
            old(self).spec_op_count() < usize::MAX,
        ensures
            final(self).wf(),
            final(self).view() == old(self).view().insert(key@, value),
            r == (if old(self).view().contains_key(key@) {
                Some(old(self).view()[key@])
            } else {
                None::<u64>
            }),
            final(self).spec_op_count() == old(self).spec_op_count() + 1,
            final(self).spec_id() == old(self).spec_id(),
            final(self).spec_num_segments() == old(self).spec_num_segments(),
            final(self).spec_seed() == old(self).spec_seed(),
    {
        let ghost pre = *self;
        let ghost k = key@;
        proof {
            pre.lemma_view_len();
        }
        self.op_counter = self.op_counter + 1;
        let r = self.put(key, value);
        proof {
            assert(self.view().dom() =~= pre.view().dom().insert(k));
        }
        r
    }

    /// Stores `value` under `key` in its shard, leaving the count alone.
    fn put(&mut self, key: String, value: u64) -> (r: Option<u64>)
        requires
            old(self).well_routed(),
        ensures
            final(self).well_routed(),
            final(self).view() == old(self).view().insert(key@, value),
            r == (if old(self).view().contains_key(key@) {
                Some(old(self).view()[key@])
            } else {
                None::<u64>
            }),
            final(self).op_counter == old(self).op_counter,
            final(self).id == old(self).id,
            final(self).segments@.len() == old(self).segments@.len(),
            final(self).seed == old(self).seed,
    {
        let ghost pre = *self;
        let idx = shard_index(&key, self.seed, self.segments.len());
        let ghost k = key@;
        let r = shard_insert(&mut self.segments[idx], key, value);
        proof {
            assert forall|q: Seq<char>| #[trigger] self.route(q) == pre.route(q) by {}
            assert(self.view() =~= pre.view().insert(k, value)) by {
                assert forall|q: Seq<char>| #[trigger] self.view().contains_key(q)
                    == pre.view().insert(k, value).contains_key(q) by {
                    pre.lemma_route_in_range(q);
                }
            }
        }
        r
    }

    /// The value stored under `key`, if any.
    pub fn get(&self, key: &String) -> (r: Option<u64>)
        requires
            self.wf(),
        ensures
            r == (if self.view().contains_key(key@) {
                Some(self.view()[key@])
            } else {
                None::<u64>
            }),
    {
        self.fetch(key)
    }

    fn fetch(&self, key: &String) -> (r: Option<u64>)
        requires
            self.well_routed(),
        ensures
            r == (if self.view().contains_key(key@) {
                Some(self.view()[key@])
            } else {
                None::<u64>
            }),
    {
        let idx = shard_index(key, self.seed, self.segments.len());
        shard_get(&self.segments[idx], key)
    }

    /// Takes `key` out of the store and returns the value it held. The count
    /// of changes grows only when there was such a value.
    pub fn remove(&mut self, key: &String) -> (r: Option<u64>)
        requires
            old(self).wf(),
            old(self).spec_op_count() < usize::MAX,
        ensures
            final(self).wf(),
            final(self).view() == old(self).view().remove(key@),
            r == (if old(self).view().contains_key(key@) {
                Some(old(self).view()[key@])
            } else {
                None::<u64>
            }),
            final(self).spec_op_count() == old(self).spec_op_count() + (if r is Some { 1int } else { 0int }),
            final(self).spec_id() == old(self).spec_id(),
            final(self).spec_num_segments() == old(self).spec_num_segments(),
            final(self).spec_seed() == old(self).spec_seed(),
    {
        let ghost pre = *self;
        let idx = self.get_segment_index(key);
        let r = shard_remove(&mut self.segments[idx], key);
        if r.is_some() {
            self.op_counter = self.op_counter + 1;
        }
        proof {
            assert forall|q: Seq<char>| #[trigger] self.route(q) == pre.route(q) by {}
            assert(self.view() =~= pre.view().remove(key@)) by {
                assert forall|q: Seq<char>| #[trigger] self.view().contains_key(q)
                    == pre.view().remove(key@).contains_key(q) by {
                    pre.lemma_route_in_range(q);
                }
            }
            pre.lemma_view_len();
            self.lemma_view_len();
        }
        r
    }
}

impl MyData {
    /// The number of entries over all shards.
    pub fn len(&self) -> (r: usize)
        requires
            self.wf(),
        ensures
            r == self.view().len(),
            r == self.shards_total(self.spec_num_segments() as int),
    {
        proof {
            self.lemma_view_len();
        }
        let mut total: usize = 0;
        let mut i: usize = 0;
        while i < self.segments.len()
            invariant
                self.wf(),
                i <= self.segments@.len(),
                total == self.shards_total(i as int),
                self.view().len() == self.shards_total(self.segments@.len() as int),
            decreases self.segments@.len() - i,
        {
            let n = shard_len(&self.segments[i]);
            proof {
                lemma_shards_total_monotonic(self, i as int + 1, self.segments@.len() as int);
            }
            total = total + n;
            i += 1;
        }
        total
    }

    /// Whether no shard holds an entry.
    pub fn is_empty(&self) -> (r: bool)
        requires
            self.wf(),
        ensures
            r == (self.view() == Map::<Seq<char>, u64>::empty()),
    {
        let n = self.len();
        proof {
            self.lemma_view_len();
            if n == 0 {
                assert(self.view().dom() =~= Set::empty()) by {
                    vstd::set_lib::lemma_set_empty_equivalency_len(self.view().dom());
                }
                assert(self.view() =~= Map::<Seq<char>, u64>::empty());
            } else {
                assert(self.view().dom() != Set::<Seq<char>>::empty());
            }
        }
        n == 0
    }

    /// Empties every shard; counts as one change.
    pub fn clear(&mut self)
        requires
            old(self).wf(),
            old(self).spec_op_count() < usize::MAX,
        ensures
            final(self).wf(),
            final(self).view() == Map::<Seq<char>, u64>::empty(),
            final(self).spec_op_count() == old(self).spec_op_count() + 1,
            final(self).spec_id() == old(self).spec_id(),
            final(self).spec_num_segments() == old(self).spec_num_segments(),
            final(self).spec_seed() == old(self).spec_seed(),
    {
        let mut i: usize = 0;
        while i < self.segments.len()
            invariant
                i <= self.segments@.len(),
                self.segments@.len() == old(self).segments@.len(),
                self.seed == old(self).seed,
                self.id == old(self).id,
                self.op_counter == old(self).op_counter,
                old(self).wf(),
                forall|j: int| 0 <= j < i ==> #[trigger] shard_entries(self.segments@[j]) == Map::<Seq<char>, u64>::empty(),
                forall|j: int| i <= j < self.segments@.len() ==> #[trigger] self.segments@[j] == old(self).segments@[j],
            decreases self.segments@.len() - i,
        {
            shard_clear(&mut self.segments[i]);
            i += 1;
        }
        self.op_counter = self.op_counter + 1;
        assert(self.view() =~= Map::<Seq<char>, u64>::empty()) by {
            assert forall|k: Seq<char>| !self.view().contains_key(k) by {
                self.lemma_route_in_range(k);
            }
        }
    }

    /// Every key in the store, each once, in no particular order.
    pub fn keys(&self) -> (r: Vec<String>)
        requires
            self.wf(),
        ensures
            r@.len() == self.view().len(),
            forall|i: int| 0 <= i < r@.len() ==> self.view().contains_key(#[trigger] r@[i]@),
            forall|i: int, j: int| 0 <= i < j < r@.len() ==> r@[i]@ != r@[j]@,
            forall|k: Seq<char>| #[trigger] self.view().contains_key(k)
                ==> exists|i: int| 0 <= i < r@.len() && r@[i]@ == k,
    {
        proof {
            self.lemma_view_len();
        }
        let mut out: Vec<String> = Vec::new();
        let mut i: usize = 0;
        while i < self.segments.len()
            invariant
                self.wf(),
                i <= self.segments@.len(),
                out@.len() == self.shards_total(i as int),
                forall|t: int| 0 <= t < out@.len() ==> self.view().contains_key(#[trigger] out@[t]@),
                forall|t: int| 0 <= t < out@.len() ==> self.route(#[trigger] out@[t]@) < i,
                forall|t: int, u: int| 0 <= t < u < out@.len() ==> out@[t]@ != out@[u]@,
                forall|k: Seq<char>| #[trigger] self.view().contains_key(k) && self.route(k) < i
                    ==> exists|t: int| 0 <= t < out@.len() && out@[t]@ == k,
            decreases self.segments@.len() - i,
        {
            let mut ks = shard_keys(&self.segments[i]);
            let ghost before = out@;
            let ghost added = ks@;
            proof {
                assert forall|t: int| 0 <= t < added.len() implies self.view().contains_key(#[trigger] added[t]@)
                    && self.route(added[t]@) == i by {
                    assert(self.shard(i as int).contains_key(added[t]@));
                }
            }
            out.append(&mut ks);
            proof {
                assert forall|t: int| 0 <= t < out@.len() implies self.view().contains_key(#[trigger] out@[t]@)
                    && self.route(out@[t]@) < i + 1 by {
                    if t >= before.len() {
                        assert(out@[t] == added[t - before.len()]);
                    }
                }
                assert forall|t: int, u: int| 0 <= t < u < out@.len() implies out@[t]@ != out@[u]@ by {
                    if u >= before.len() {
                        assert(out@[u] == added[u - before.len()]);
                        if t >= before.len() {
                            assert(out@[t] == added[t - before.len()]);
                        }
                    }
                }
                assert forall|k: Seq<char>| #[trigger] self.view().contains_key(k) && self.route(k) < i + 1
                    implies exists|t: int| 0 <= t < out@.len() && out@[t]@ == k by {
                    if self.route(k) < i {
                        let t = choose|t: int| 0 <= t < before.len() && before[t]@ == k;
                        assert(out@[t] == before[t]);
                    } else {
                        assert(shard_entries(self.segments@[i as int]).contains_key(k));
                        let t = choose|t: int| 0 <= t < added.len() && added[t]@ == k;
                        assert(out@[before.len() + t] == added[t]);
                    }
                }
            }
            i += 1;
        }
        proof {
            assert forall|k: Seq<char>| #[trigger] self.view().contains_key(k)
                implies exists|t: int| 0 <= t < out@.len() && out@[t]@ == k by {
                self.lemma_route_in_range(k);
            }
        }
        out
    }

    /// A store of its own with the same entries, identity, shard count, seed
    /// and count of changes; later changes to either leave the other alone.
    pub fn clone_data(&self) -> (r: MyData)
        requires
            self.wf(),
        ensures
            r.wf(),
            r.view() == self.view(),
            r.spec_id() == self.spec_id(),
            r.spec_num_segments() == self.spec_num_segments(),
            r.spec_seed() == self.spec_seed(),
            r.spec_op_count() == self.spec_op_count(),
    {
        let mut segments: Vec<DashMap<String, u64>> = Vec::new();
        let mut i: usize = 0;
        while i < self.segments.len()
            invariant
                i <= self.segments@.len(),
                segments@.len() == i,
                forall|j: int| 0 <= j < i ==> #[trigger] shard_entries(segments@[j]) == shard_entries(self.segments@[j]),
            decreases self.segments@.len() - i,
        {
            segments.push(shard_clone(&self.segments[i]));
            i += 1;
        }
        let r = MyData { id: self.id, segments, op_counter: self.op_counter, seed: self.seed };
        assert(r.view() =~= self.view());
        r
    }

    /// Shard `segment_idx`, for reading its entries directly. It holds
    /// exactly the store's entries that the router sends to it, so the
    /// shards share no key and together hold the whole store. The shard
    /// must only be read: a change made through it bypasses the router and
    /// the count of changes.
    pub fn get_segment(&self, segment_idx: usize) -> (r: Option<&DashMap<String, u64>>)
        requires
            self.wf(),
        ensures
            segment_idx < self.spec_num_segments() <==> r is Some,
            r matches Some(m) ==> *m == self.segment(segment_idx as int)
                && shard_entries(*m) == self.shard(segment_idx as int),
            r matches Some(m) ==> forall|k: Seq<char>| #[trigger] shard_entries(*m).contains_key(k)
                <==> (self.view().contains_key(k) && self.route(k) == segment_idx),
            r matches Some(m) ==> forall|k: Seq<char>| #[trigger] shard_entries(*m).contains_key(k)
                ==> shard_entries(*m)[k] == self.view()[k],
    {
        if segment_idx < self.segments.len() {
            proof {
                assert forall|k: Seq<char>| #[trigger] self.shard(segment_idx as int).contains_key(k)
                    <==> (self.view().contains_key(k) && self.route(k) == segment_idx) by {
                    self.lemma_route_in_range(k);
                }
            }
            Some(&self.segments[segment_idx])
        } else {
            None
        }
    }
}

/// `f`, called with a key whose characters are `k` and the value `v0`, may
/// return `v1`.
pub open spec fn updates_to<F: Fn(&String, u64) -> u64>(f: F, k: Seq<char>, v0: u64, v1: u64) -> bool {
    exists|s: String| s@ == k && f.ensures((&s, v0), v1)
}

/// `p`, called with a key whose characters are `k` and the value `v`, may
/// return `b`.
pub open spec fn judges<F: Fn(&String, u64) -> bool>(p: F, k: Seq<char>, v: u64, b: bool) -> bool {
    exists|s: String| s@ == k && p.ensures((&s, v), b)
}

impl MyData {
    /// Runs `f` on the value under `key`, if there is one, and stores the
    /// first part of what it returns there; returns the second part. A
    /// call that finds the key counts as one change.
    pub fn transaction<F, R>(&mut self, key: &String, f: F) -> (r: Option<R>)
        where
            F: FnOnce(&String, u64) -> (u64, R),
        requires
            old(self).wf(),
            old(self).spec_op_count() < usize::MAX,
            old(self).view().contains_key(key@) ==> f.requires((key, old(self).view()[key@])),
        ensures
            final(self).wf(),
            r is Some <==> old(self).view().contains_key(key@),
            r is None ==> final(self).view() == old(self).view()
                && final(self).spec_op_count() == old(self).spec_op_count(),
            r is Some ==> final(self).view() == old(self).view().insert(key@, final(self).view()[key@])
                && f.ensures((key, old(self).view()[key@]), (final(self).view()[key@], r->Some_0)),
            r is Some ==> final(self).spec_op_count() == old(self).spec_op_count() + 1,
            final(self).spec_id() == old(self).spec_id(),
            final(self).spec_num_segments() == old(self).spec_num_segments(),
            final(self).spec_seed() == old(self).spec_seed(),
    {
        match self.get(key) {
            None => None,
            Some(v) => {
                let (nv, out) = f(key, v);
                let ghost pre = *self;
                proof {
                    pre.lemma_view_len();
                }
                let k2 = key.clone();
                assert(k2@ == key@);
                self.put(k2, nv);
                self.op_counter = self.op_counter + 1;
                proof {
                    assert(pre.view().contains_key(key@));
                    assert(self.view() == pre.view().insert(key@, nv));
                    assert(self.view().dom() == pre.view().dom().insert(key@));
                    assert(self.view().dom() =~= pre.view().dom());
                    assert(f.ensures((key, pre.view()[key@]), (nv, out)));
                }
                Some(out)
            },
        }
    }
}

impl MyData {
    /// Replaces each value `v` under a key `k` by `f(k, v)`, shard by shard.
    /// Each shard visited counts as one change.
    pub fn for_each<F>(&mut self, f: F)
        where
            F: Fn(&String, u64) -> u64,
        requires
            old(self).wf(),
            old(self).spec_op_count() + old(self).spec_num_segments() <= usize::MAX,
            forall|k: &String, v: u64| f.requires((k, v)),
        ensures
            final(self).wf(),
            final(self).view().dom() == old(self).view().dom(),
            forall|k: Seq<char>| #[trigger] old(self).view().contains_key(k)
                ==> updates_to(f, k, old(self).view()[k], final(self).view()[k]),
            final(self).spec_op_count() == old(self).spec_op_count() + old(self).spec_num_segments(),
            final(self).spec_id() == old(self).spec_id(),
            final(self).spec_num_segments() == old(self).spec_num_segments(),
            final(self).spec_seed() == old(self).spec_seed(),
    {
        let ghost orig = self.view();
        let n = self.segments.len();
        let mut i: usize = 0;
        while i < n
            invariant
                self.well_routed(),
                old(self).wf(),
                n == self.segments@.len(),
                n == old(self).segments@.len(),
                self.seed == old(self).seed,
                self.id == old(self).id,
                orig == old(self).view(),
                i <= n,
                self.op_counter == old(self).op_counter + i,
                old(self).op_counter + n <= usize::MAX,
                forall|k: &String, v: u64| f.requires((k, v)),
                self.view().dom() == orig.dom(),
                forall|k: Seq<char>| #[trigger] orig.contains_key(k) && self.route(k) < i
                    ==> updates_to(f, k, orig[k], self.view()[k]),
                forall|k: Seq<char>| #[trigger] orig.contains_key(k) && self.route(k) >= i
                    ==> self.view()[k] == orig[k],
            decreases n - i,
        {
            let ks = shard_keys(&self.segments[i]);
            let ghost start = *self;
            proof {
                assert forall|t: int| 0 <= t < ks@.len() implies #[trigger] orig.contains_key(ks@[t]@)
                    && self.route(ks@[t]@) == i by {
                    assert(self.shard(i as int).contains_key(ks@[t]@));
                }
            }
            let mut j: usize = 0;
            while j < ks.len()
                invariant
                    self.well_routed(),
                    n == self.segments@.len(),
                    self.seed == start.seed,
                    self.id == start.id,
                    self.op_counter == start.op_counter,
                    start.segments@.len() == n,
                    i < n,
                    j <= ks@.len(),
                    forall|k: &String, v: u64| f.requires((k, v)),
                    self.view().dom() == orig.dom(),
                    forall|t: int| 0 <= t < ks@.len() ==> #[trigger] orig.contains_key(ks@[t]@)
                        && self.route(ks@[t]@) == i,
                    forall|t: int, u: int| 0 <= t < u < ks@.len() ==> ks@[t]@ != ks@[u]@,
                    forall|k: Seq<char>| #[trigger] shard_entries(start.segments@[i as int]).contains_key(k)
                        ==> exists|t: int| 0 <= t < ks@.len() && ks@[t]@ == k,
                    forall|k: Seq<char>| #[trigger] orig.contains_key(k) && self.route(k) < i
                        ==> updates_to(f, k, orig[k], self.view()[k]),
                    forall|k: Seq<char>| #[trigger] orig.contains_key(k) && self.route(k) > i
                        ==> self.view()[k] == orig[k],
                    forall|t: int| 0 <= t < j ==> updates_to(f, #[trigger] ks@[t]@, orig[ks@[t]@], self.view()[ks@[t]@]),
                    forall|t: int| j <= t < ks@.len() ==> self.view()[#[trigger] ks@[t]@] == orig[ks@[t]@],
                decreases ks@.len() - j,
            {
                let key = &ks[j];
                let cur = self.fetch(key);
                if let Some(v) = cur {
                    let nv = f(key, v);
                    let ghost before = *self;
                    self.put(key.clone(), nv);
                    proof {
                        assert(updates_to(f, ks@[j as int]@, orig[ks@[j as int]@], self.view()[ks@[j as int]@]));
                        assert(self.view().dom() =~= orig.dom());
                        assert forall|t: int| j < t < ks@.len() implies self.view()[#[trigger] ks@[t]@] == orig[ks@[t]@] by {
                            assert(ks@[t]@ != ks@[j as int]@);
                        }
                        assert forall|t: int| 0 <= t < j implies updates_to(f, #[trigger] ks@[t]@, orig[ks@[t]@], self.view()[ks@[t]@]) by {
                            assert(ks@[t]@ != ks@[j as int]@);
                        }
                    }
                }
                j += 1;
            }
            proof {
                assert forall|k: Seq<char>| #[trigger] orig.contains_key(k) && self.route(k) < i + 1
                    implies updates_to(f, k, orig[k], self.view()[k]) by {
                    if self.route(k) == i {
                        old(self).lemma_route_in_range(k);
                        assert(shard_entries(start.segments@[i as int]).contains_key(k));
                        let t = choose|t: int| 0 <= t < ks@.len() && ks@[t]@ == k;
                        assert(updates_to(f, ks@[t]@, orig[ks@[t]@], self.view()[ks@[t]@]));
                    }
                }
            }
            self.op_counter = self.op_counter + 1;
            i += 1;
        }
        proof {
            old(self).lemma_view_len();
            self.lemma_view_len();
            assert forall|k: Seq<char>| #[trigger] orig.contains_key(k)
                implies updates_to(f, k, orig[k], self.view()[k]) by {
                self.lemma_route_in_range(k);
            }
        }
    }
}

/// `found` is what a search of `m` with `p` may return: entries of `m` that
/// `p` accepted, each key once, and every entry left out one that `p`
/// turned down.
pub open spec fn search_result<F: Fn(&String, u64) -> bool>(
    m: Map<Seq<char>, u64>,
    p: F,
    found: Seq<(String, u64)>,
) -> bool {
    &&& forall|t: int| #![trigger found[t]] 0 <= t < found.len() ==> m.contains_key(found[t].0@)
        && m[found[t].0@] == found[t].1
        && p.ensures((&found[t].0, found[t].1), true)
    &&& forall|t: int, u: int| 0 <= t < u < found.len() ==> found[t].0@ != found[u].0@
    &&& forall|k: Seq<char>| #[trigger] m.contains_key(k)
        ==> (exists|t: int| 0 <= t < found.len() && found[t].0@ == k)
            || judges(p, k, m[k], false)
}

impl MyData {
    /// The entries for which `predicate` holds, each once, in no particular
    /// order; an entry left out is one the predicate turned down.
    pub fn find<F>(&self, predicate: F) -> (r: Vec<(String, u64)>)
        where
            F: Fn(&String, u64) -> bool,
        requires
            self.wf(),
            forall|k: &String, v: u64| predicate.requires((k, v)),
        ensures
            search_result(self.view(), predicate, r@),
    {
        let mut out: Vec<(String, u64)> = Vec::new();
        let n = self.segments.len();
        let mut i: usize = 0;
        while i < n
            invariant
                self.wf(),
                n == self.segments@.len(),
                i <= n,
                forall|k: &String, v: u64| predicate.requires((k, v)),
                forall|t: int| #![trigger out@[t]] 0 <= t < out@.len() ==> self.view().contains_key(out@[t].0@)
                    && self.view()[out@[t].0@] == out@[t].1
                    && predicate.ensures((&out@[t].0, out@[t].1), true),
                forall|t: int| 0 <= t < out@.len() ==> self.route(#[trigger] out@[t].0@) < i,
                forall|t: int, u: int| 0 <= t < u < out@.len() ==> out@[t].0@ != out@[u].0@,
                forall|k: Seq<char>| #[trigger] self.view().contains_key(k) && self.route(k) < i
                    ==> (exists|t: int| 0 <= t < out@.len() && out@[t].0@ == k)
                        || judges(predicate, k, self.view()[k], false),
            decreases n - i,
        {
            let ks = shard_keys(&self.segments[i]);
            proof {
                assert forall|t: int| 0 <= t < ks@.len() implies #[trigger] self.view().contains_key(ks@[t]@)
                    && self.route(ks@[t]@) == i by {
                    assert(self.shard(i as int).contains_key(ks@[t]@));
                }
            }
            let ghost base = out@.len();
            let mut j: usize = 0;
            while j < ks.len()
                invariant
                    self.wf(),
                    n == self.segments@.len(),
                    i < n,
                    j <= ks@.len(),
                    base <= out@.len(),
                    forall|k: &String, v: u64| predicate.requires((k, v)),
                    forall|t: int| 0 <= t < ks@.len() ==> #[trigger] self.view().contains_key(ks@[t]@)
                        && self.route(ks@[t]@) == i,
                    forall|t: int, u: int| 0 <= t < u < ks@.len() ==> ks@[t]@ != ks@[u]@,
                    forall|t: int| #![trigger out@[t]] 0 <= t < out@.len() ==> self.view().contains_key(out@[t].0@)
                        && self.view()[out@[t].0@] == out@[t].1
                        && predicate.ensures((&out@[t].0, out@[t].1), true),
                    forall|t: int| 0 <= t < base ==> self.route(#[trigger] out@[t].0@) < i,
                    forall|t: int| #![trigger out@[t]] base <= t < out@.len() ==> exists|u: int| #![trigger ks@[u]] 0 <= u < j && out@[t].0@ == ks@[u]@,
                    forall|t: int, u: int| 0 <= t < u < out@.len() ==> out@[t].0@ != out@[u].0@,
                    forall|k: Seq<char>| #[trigger] self.view().contains_key(k) && self.route(k) < i
                        ==> (exists|t: int| 0 <= t < out@.len() && out@[t].0@ == k)
                            || judges(predicate, k, self.view()[k], false),
                    forall|u: int| 0 <= u < j ==> (exists|t: int| 0 <= t < out@.len() && out@[t].0@ == #[trigger] ks@[u]@)
                        || judges(predicate, ks@[u]@, self.view()[ks@[u]@], false),
                decreases ks@.len() - j,
            {
                let key = &ks[j];
                let cur = self.fetch(key);
                if let Some(v) = cur {
                    let keep = predicate(key, v);
                    let ghost before = out@;
                    if keep {
                        out.push((key.clone(), v));
                        proof {
                            assert(out@[before.len() as int].0@ == ks@[j as int]@);
                            assert forall|t: int, u: int| 0 <= t < u < out@.len() implies out@[t].0@ != out@[u].0@ by {
                                if u == before.len() {
                                    if t >= base {
                                        let w = choose|w: int| 0 <= w < j && before[t].0@ == ks@[w]@;
                                        assert(ks@[w]@ != ks@[j as int]@);
                                    } else {
                                        assert(self.route(before[t].0@) < i);
                                    }
                                }
                            }
                            assert forall|t: int| #![trigger out@[t]] base <= t < out@.len() implies exists|u: int| #![trigger ks@[u]] 0 <= u < j + 1 && out@[t].0@ == ks@[u]@ by {
                                if t == before.len() {
                                    assert(out@[t].0@ == ks@[j as int]@);
                                } else {
                                    assert(out@[t] == before[t]);
                                }
                            }
                            assert forall|u: int| 0 <= u < j + 1 implies (exists|t: int| 0 <= t < out@.len() && out@[t].0@ == #[trigger] ks@[u]@)
                                || judges(predicate, ks@[u]@, self.view()[ks@[u]@], false) by {
                                if u == j {
                                    assert(out@[before.len() as int].0@ == ks@[u]@);
                                } else if exists|t: int| 0 <= t < before.len() && before[t].0@ == ks@[u]@ {
                                    let t = choose|t: int| 0 <= t < before.len() && before[t].0@ == ks@[u]@;
                                    assert(out@[t] == before[t]);
                                }
                            }
                            assert forall|k: Seq<char>| #[trigger] self.view().contains_key(k) && self.route(k) < i
                                implies (exists|t: int| 0 <= t < out@.len() && out@[t].0@ == k)
                                    || judges(predicate, k, self.view()[k], false) by {
                                if exists|t: int| 0 <= t < before.len() && before[t].0@ == k {
                                    let t = choose|t: int| 0 <= t < before.len() && before[t].0@ == k;
                                    assert(out@[t] == before[t]);
                                }
                            }
                        }
                    } else {
                        proof {
                            assert(judges(predicate, ks@[j as int]@, self.view()[ks@[j as int]@], false));
                        }
                    }
                }
                j += 1;
            }
            proof {
                assert forall|t: int| 0 <= t < out@.len() implies self.route(#[trigger] out@[t].0@) < i + 1 by {
                    if t >= base {
                        let u = choose|u: int| 0 <= u < j && out@[t].0@ == ks@[u]@;
                    }
                }
                assert forall|k: Seq<char>| #[trigger] self.view().contains_key(k) && self.route(k) < i + 1
                    implies (exists|t: int| 0 <= t < out@.len() && out@[t].0@ == k)
                        || judges(predicate, k, self.view()[k], false) by {
                    if self.route(k) == i {
                        self.lemma_route_in_range(k);
                        assert(self.shard(i as int).contains_key(k));
                        let u = choose|u: int| 0 <= u < ks@.len() && ks@[u]@ == k;
                        assert((exists|t: int| 0 <= t < out@.len() && out@[t].0@ == ks@[u]@)
                            || judges(predicate, ks@[u]@, self.view()[ks@[u]@], false));
                    }
                }
            }
            i += 1;
        }
        proof {
            assert forall|k: Seq<char>| #[trigger] self.view().contains_key(k)
                implies (exists|t: int| 0 <= t < out@.len() && out@[t].0@ == k)
                    || judges(predicate, k, self.view()[k], false) by {
                self.lemma_route_in_range(k);
            }
        }
        out
    }
}

/// What a lookup of `k` in `m` gives.
pub open spec fn entry_of(m: Map<Seq<char>, u64>, k: Seq<char>) -> Option<u64> {
    if m.contains_key(k) {
        Some(m[k])
    } else {
        None
    }
}

impl MyData {
    /// The shards, in order.
    pub(crate) fn segments(&self) -> (r: &Vec<DashMap<String, u64>>)
        ensures
            r@.len() == self.spec_num_segments(),
            forall|i: int| 0 <= i < r@.len() ==> #[trigger] r@[i] == self.segment(i),
    {
        &self.segments
    }
}

} // verus!
