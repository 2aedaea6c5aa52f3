//! Laws that hold across calls of the store, stated over the model that the
//! store's contracts use.
use vstd::prelude::*;
use crate::store::{entry_of, MyData};

verus! {

/// A change to one key leaves what a lookup of any other key gives as it
/// was: an insert or a removal under `k1` does not touch the entry of `k2`.
pub proof fn law_other_keys_untouched(m: Map<Seq<char>, u64>, k1: Seq<char>, k2: Seq<char>, v: u64)
    requires
        k1 != k2,
    ensures
        entry_of(m.insert(k1, v), k2) == entry_of(m, k2),
        entry_of(m.remove(k1), k2) == entry_of(m, k2),
{
}

/// Adding one to the value under `k`, `n` times in a row, adds `n` to it: no
/// step is lost, and the i-th step sees the first value plus `i`.
pub proof fn law_increments_add_up(states: Seq<Map<Seq<char>, u64>>, k: Seq<char>)
    requires
        states.len() > 0,
        states[0].contains_key(k),
        states[0][k] + states.len() - 1 <= u64::MAX,
        forall|i: int| 0 <= i < states.len() - 1 ==> #[trigger] states[i + 1]
            == states[i].insert(k, (states[i][k] + 1) as u64),
    ensures
        states.last().contains_key(k),
        states.last()[k] == states[0][k] + states.len() - 1,
        forall|i: int| 0 <= i < states.len() ==> #[trigger] states[i].contains_key(k)
            && states[i][k] == states[0][k] + i,
    decreases states.len(),
{
    if states.len() > 1 {
        let prefix = states.drop_last();
        assert forall|i: int| 0 <= i < prefix.len() - 1 implies #[trigger] prefix[i + 1]
            == prefix[i].insert(k, (prefix[i][k] + 1) as u64) by {
            assert(prefix[i + 1] == states[i + 1]);
        }
        law_increments_add_up(prefix, k);
        let i = states.len() - 2;
        assert(states[i + 1] == states[i].insert(k, (states[i][k] + 1) as u64));
        assert(prefix.last() == states[i]);
        assert forall|t: int| 0 <= t < states.len() implies #[trigger] states[t].contains_key(k)
            && states[t][k] == states[0][k] + t by {
            if t < states.len() - 1 {
                assert(states[t] == prefix[t]);
            }
        }
    }
}

/// How many of the calls changed the store.
pub open spec fn count_changes(changed: Seq<bool>) -> nat
    decreases changed.len(),
{
    if changed.len() == 0 {
        0
    } else {
        count_changes(changed.drop_last()) + (if changed.last() { 1nat } else { 0nat })
    }
}

/// The count of changes grows by one for each call that changed the store
/// and by nothing for the others: after a run of calls from a new store, it
/// equals the number of calls that changed something.
pub proof fn law_count_matches_changes(counts: Seq<nat>, changed: Seq<bool>)
    requires
        counts.len() == changed.len() + 1,
        counts[0] == 0,
        forall|i: int| 0 <= i < changed.len() ==> #[trigger] counts[i + 1]
            == counts[i] + (if changed[i] { 1nat } else { 0nat }),
    ensures
        counts.last() == count_changes(changed),
    decreases changed.len(),
{
    if changed.len() > 0 {
        let c2 = changed.drop_last();
        let k2 = counts.drop_last();
        assert forall|i: int| 0 <= i < c2.len() implies #[trigger] k2[i + 1]
            == k2[i] + (if c2[i] { 1nat } else { 0nat }) by {
            assert(k2[i + 1] == counts[i + 1]);
        }
        law_count_matches_changes(k2, c2);
    }
}

/// After the store is emptied, a lookup of any key finds nothing until the
/// key is stored again.
pub proof fn law_cleared_store_finds_nothing(d: MyData, k: Seq<char>)
    requires
        d.view() == Map::<Seq<char>, u64>::empty(),
    ensures
        entry_of(d.view(), k) == None::<u64>,
{
}

/// Two stores with the same entries list the same keys, whatever their
/// shard layout: any two lists that each hold every key of the store once
/// hold the same keys.
pub proof fn law_same_entries_same_keys(a: MyData, b: MyData, ka: Seq<String>, kb: Seq<String>)
    requires
        a.view() == b.view(),
        forall|i: int| 0 <= i < ka.len() ==> a.view().contains_key(#[trigger] ka[i]@),
        forall|k: Seq<char>| #[trigger] a.view().contains_key(k) ==> exists|i: int| 0 <= i < ka.len() && ka[i]@ == k,
        forall|i: int| 0 <= i < kb.len() ==> b.view().contains_key(#[trigger] kb[i]@),
        forall|k: Seq<char>| #[trigger] b.view().contains_key(k) ==> exists|i: int| 0 <= i < kb.len() && kb[i]@ == k,
    ensures
        ka.map_values(|s: String| s@).to_set() == kb.map_values(|s: String| s@).to_set(),
        forall|i: int| 0 <= i < ka.len() ==> #[trigger] a.view()[ka[i]@] == b.view()[ka[i]@],
{
    let ma = ka.map_values(|s: String| s@);
    let mb = kb.map_values(|s: String| s@);
    assert forall|k: Seq<char>| ma.to_set().contains(k) <==> mb.to_set().contains(k) by {
        if ma.contains(k) {
            let i = choose|i: int| 0 <= i < ma.len() && #[trigger] ma[i] == k;
            assert(a.view().contains_key(ka[i]@));
            let j = choose|j: int| 0 <= j < kb.len() && #[trigger] kb[j]@ == k;
            assert(mb[j] == k);
        }
        if mb.contains(k) {
            let j = choose|j: int| 0 <= j < mb.len() && #[trigger] mb[j] == k;
            assert(b.view().contains_key(kb[j]@));
            let i = choose|i: int| 0 <= i < ka.len() && #[trigger] ka[i]@ == k;
            assert(ma[i] == k);
        }
    }
    assert(ma.to_set() =~= mb.to_set());
}

/// A run of inserts, on any keys and in any order: the value under `k` at
/// the end is the one of the last insert under `k`, whatever inserts under
/// other keys came between.
pub proof fn law_last_write_wins(
    states: Seq<Map<Seq<char>, u64>>,
    writes: Seq<(Seq<char>, u64)>,
    k: Seq<char>,
    last: int,
)
    requires
        states.len() == writes.len() + 1,
        forall|i: int| 0 <= i < writes.len() ==> #[trigger] states[i + 1]
            == states[i].insert(writes[i].0, writes[i].1),
        0 <= last < writes.len(),
        writes[last].0 == k,
        forall|i: int| last < i < writes.len() ==> #[trigger] writes[i].0 != k,
    ensures
        states.last().contains_key(k),
        states.last()[k] == writes[last].1,
    decreases writes.len(),
{
    if last < writes.len() - 1 {
        let s2 = states.drop_last();
        let w2 = writes.drop_last();
        assert forall|i: int| 0 <= i < w2.len() implies #[trigger] s2[i + 1]
            == s2[i].insert(w2[i].0, w2[i].1) by {
            assert(s2[i + 1] == states[i + 1]);
        }
        assert forall|i: int| last < i < w2.len() implies #[trigger] w2[i].0 != k by {
            assert(w2[i] == writes[i]);
        }
        law_last_write_wins(s2, w2, k, last);
        let j = writes.len() - 1;
        assert(states[j + 1] == states[j].insert(writes[j].0, writes[j].1));
        assert(writes[j].0 != k);
        assert(s2.last() == states[j]);
    } else {
        let j = writes.len() - 1;
        assert(states[j + 1] == states[j].insert(writes[j].0, writes[j].1));
    }
}

} // verus!
