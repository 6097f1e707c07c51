//! The store of live transactions: a table from correlation id to
//! transaction with constant-time lookup and a sweep that is linear in the
//! number of transactions.
//!
//! The transactions stand in a vector, in no particular order, and a hash
//! table gives the place of each id in it. Taking one out moves the last into
//! its place.

use crate::model::swept;
use crate::model::transaction_for;
use crate::model::StoreView;
use crate::model::TransactionView;
use crate::trx::LogLine;
use crate::trx::Transaction;
use vstd::hash_map::StringHashMap;
use vstd::prelude::*;

verus! {

/// Whether one of `entries` is keyed by `id`.
spec fn holds(entries: Seq<(String, Transaction)>, id: Seq<char>) -> bool {
    exists|i: int| 0 <= i < entries.len() && (#[trigger] entries[i]).0@ == id
}

/// The place of the entry keyed by `id`.
spec fn position(entries: Seq<(String, Transaction)>, id: Seq<char>) -> int {
    choose|i: int| 0 <= i < entries.len() && (#[trigger] entries[i]).0@ == id
}

/// No two of `entries` share a key.
spec fn distinct(entries: Seq<(String, Transaction)>) -> bool {
    forall|i: int, j: int|
        0 <= i < j < entries.len() ==> (#[trigger] entries[i]).0@ != (#[trigger] entries[j]).0@
}

/// The entries as a map from key to transaction.
spec fn as_map(entries: Seq<(String, Transaction)>) -> StoreView {
    Map::new(
        |id: Seq<char>| holds(entries, id),
        |id: Seq<char>| entries[position(entries, id)].1@,
    )
}

/// Each entry is found under its key.
proof fn lemma_entry(entries: Seq<(String, Transaction)>, i: int)
    requires
        distinct(entries),
        0 <= i < entries.len(),
    ensures
        holds(entries, entries[i].0@),
        as_map(entries).contains_key(entries[i].0@),
        as_map(entries)[entries[i].0@] == entries[i].1@,
        position(entries, entries[i].0@) == i,
{
    let id = entries[i].0@;
    assert(holds(entries, id));
    let p = position(entries, id);
    assert(0 <= p < entries.len() && entries[p].0@ == id);
    if p < i {
        assert(entries[p].0@ != entries[i].0@);
    } else if i < p {
        assert(entries[i].0@ != entries[p].0@);
    }
}

/// A new key at the end is an insertion.
proof fn lemma_pushed(entries: Seq<(String, Transaction)>, key: String, trx: Transaction)
    requires
        distinct(entries),
        !holds(entries, key@),
    ensures
        distinct(entries.push((key, trx))),
        as_map(entries.push((key, trx))) == as_map(entries).insert(key@, trx@),
{
    let after = entries.push((key, trx));
    assert forall|i: int, j: int| 0 <= i < j < after.len() implies (#[trigger] after[i]).0@ != (
    #[trigger] after[j]).0@ by {
        if j == entries.len() {
            assert(entries[i].0@ != key@);
        } else {
            assert(entries[i].0@ != entries[j].0@);
        }
    }
    assert forall|id: Seq<char>|
        as_map(after).contains_key(id) == #[trigger] as_map(entries).insert(
            key@,
            trx@,
        ).contains_key(id) by {
        if holds(after, id) {
            let p = position(after, id);
            if p < entries.len() {
                assert(entries[p].0@ == id);
            }
        }
        if holds(entries, id) {
            let p = position(entries, id);
            assert(after[p].0@ == id);
        }
        if id == key@ {
            assert(after[entries.len() as int].0@ == id);
        }
    }
    assert forall|id: Seq<char>| as_map(after).contains_key(id) implies #[trigger] as_map(
        after,
    )[id] == as_map(entries).insert(key@, trx@)[id] by {
        let p = position(after, id);
        lemma_entry(after, p);
        if p < entries.len() {
            lemma_entry(entries, p);
        }
    }
    assert(as_map(after) =~= as_map(entries).insert(key@, trx@));
}

/// A new transaction under an old key is an insertion.
proof fn lemma_updated(entries: Seq<(String, Transaction)>, i: int, trx: Transaction)
    requires
        distinct(entries),
        0 <= i < entries.len(),
    ensures
        distinct(entries.update(i, (entries[i].0, trx))),
        as_map(entries.update(i, (entries[i].0, trx))) == as_map(entries).insert(
            entries[i].0@,
            trx@,
        ),
{
    let key = entries[i].0;
    let after = entries.update(i, (key, trx));
    assert forall|a: int, b: int| 0 <= a < b < after.len() implies (#[trigger] after[a]).0@ != (
    #[trigger] after[b]).0@ by {
        assert(after[a].0@ == entries[a].0@);
        assert(after[b].0@ == entries[b].0@);
    }
    assert forall|id: Seq<char>|
        as_map(after).contains_key(id) == #[trigger] as_map(entries).insert(
            key@,
            trx@,
        ).contains_key(id) by {
        if holds(after, id) {
            let p = position(after, id);
            assert(entries[p].0@ == id);
        }
        if holds(entries, id) {
            let p = position(entries, id);
            assert(after[p].0@ == id);
        }
        if id == key@ {
            assert(after[i].0@ == id);
        }
    }
    assert forall|id: Seq<char>| as_map(after).contains_key(id) implies #[trigger] as_map(
        after,
    )[id] == as_map(entries).insert(key@, trx@)[id] by {
        let p = position(after, id);
        lemma_entry(after, p);
        lemma_entry(entries, p);
        assert(after[p].0@ == entries[p].0@);
    }
    assert(as_map(after) =~= as_map(entries).insert(key@, trx@));
}

/// Moving the last entry into the place of another takes that other's key
/// away.
proof fn lemma_swap_removed(entries: Seq<(String, Transaction)>, i: int)
    requires
        distinct(entries),
        0 <= i < entries.len(),
    ensures
        distinct(entries.update(i, entries.last()).drop_last()),
        as_map(entries.update(i, entries.last()).drop_last()) == as_map(entries).remove(
            entries[i].0@,
        ),
{
    let key = entries[i].0@;
    let n = entries.len() as int;
    let after = entries.update(i, entries.last()).drop_last();
    // where each entry of `after` stood before
    let origin = |a: int| if a == i { n - 1 } else { a };
    assert forall|a: int| 0 <= a < after.len() implies #[trigger] after[a] == entries[origin(a)]
        && origin(a) != i by {}
    assert forall|a: int, b: int| 0 <= a < b < after.len() implies (#[trigger] after[a]).0@ != (
    #[trigger] after[b]).0@ by {
        let oa = origin(a);
        let ob = origin(b);
        assert(after[a] == entries[oa]);
        assert(after[b] == entries[ob]);
        if oa < ob {
            assert(entries[oa].0@ != entries[ob].0@);
        } else {
            assert(entries[ob].0@ != entries[oa].0@);
        }
    }
    assert forall|id: Seq<char>|
        as_map(after).contains_key(id) == #[trigger] as_map(entries).remove(key).contains_key(
            id,
        ) by {
        if holds(after, id) {
            let p = position(after, id);
            let op = origin(p);
            assert(after[p] == entries[op]);
            assert(entries[op].0@ == id);
            if op < i {
                assert(entries[op].0@ != entries[i].0@);
            } else {
                assert(entries[i].0@ != entries[op].0@);
            }
        }
        if holds(entries, id) && id != key {
            let p = position(entries, id);
            if p == n - 1 {
                assert(after[i] == entries[p]);
                assert(after[i].0@ == id);
            } else {
                assert(after[p] == entries[p]);
                assert(after[p].0@ == id);
            }
        }
    }
    assert forall|id: Seq<char>| as_map(after).contains_key(id) implies #[trigger] as_map(
        after,
    )[id] == as_map(entries).remove(key)[id] by {
        let p = position(after, id);
        lemma_entry(after, p);
        assert(after[p] == entries[origin(p)]);
        lemma_entry(entries, origin(p));
    }
    assert(as_map(after) =~= as_map(entries).remove(key));
}

/// There are as many keys as entries.
proof fn lemma_count(entries: Seq<(String, Transaction)>)
    requires
        distinct(entries),
    ensures
        as_map(entries).dom().finite(),
        as_map(entries).len() == entries.len(),
    decreases entries.len(),
{
    if entries.len() == 0 {
        assert(as_map(entries).dom() =~= Set::empty());
    } else {
        let init = entries.drop_last();
        let last = entries.last();
        assert forall|i: int, j: int| 0 <= i < j < init.len() implies (#[trigger] init[i]).0@ != (
        #[trigger] init[j]).0@ by {
            assert(entries[i].0@ != entries[j].0@);
        }
        lemma_count(init);
        if holds(init, last.0@) {
            let p = position(init, last.0@);
            assert(entries[p].0@ != entries[entries.len() - 1].0@);
        }
        lemma_pushed(init, last.0, last.1);
        assert(init.push((last.0, last.1)) =~= entries);
        assert(as_map(entries).dom() =~= as_map(init).dom().insert(last.0@));
    }
}

/// `index` gives the place of every entry, and nothing else.
spec fn indexed(entries: Seq<(String, Transaction)>, index: Map<Seq<char>, usize>) -> bool {
    &&& forall|i: int|
        0 <= i < entries.len() ==> index.contains_key((#[trigger] entries[i]).0@)
            && index[entries[i].0@] == i
    &&& forall|id: Seq<char>| #[trigger]
        index.contains_key(id) ==> index[id] < entries.len() && entries[index[id] as int].0@
            == id
}

/// Indexed entries have distinct keys.
proof fn lemma_indexed_distinct(entries: Seq<(String, Transaction)>, index: Map<Seq<char>, usize>)
    requires
        indexed(entries, index),
    ensures
        distinct(entries),
{
    assert forall|i: int, j: int| 0 <= i < j < entries.len() implies (#[trigger] entries[i]).0@
        != (#[trigger] entries[j]).0@ by {
        assert(index[entries[i].0@] == i);
        assert(index[entries[j].0@] == j);
    }
}

/// A new transaction under an old key leaves the index as it is.
proof fn lemma_index_updated(
    entries: Seq<(String, Transaction)>,
    index: Map<Seq<char>, usize>,
    i: int,
    trx: Transaction,
)
    requires
        indexed(entries, index),
        0 <= i < entries.len(),
    ensures
        indexed(entries.update(i, (entries[i].0, trx)), index),
{
    let after = entries.update(i, (entries[i].0, trx));
    assert forall|k: int| 0 <= k < after.len() implies index.contains_key(
        (#[trigger] after[k]).0@,
    ) && index[after[k].0@] == k by {
        assert(after[k].0@ == entries[k].0@);
    }
    assert forall|id: Seq<char>| #[trigger] index.contains_key(id) implies index[id] < after.len()
        && after[index[id] as int].0@ == id by {
        assert(after[index[id] as int].0@ == entries[index[id] as int].0@);
    }
}

/// A new key at the end is indexed by the old length.
proof fn lemma_index_pushed(
    entries: Seq<(String, Transaction)>,
    index: Map<Seq<char>, usize>,
    key: String,
    trx: Transaction,
)
    requires
        indexed(entries, index),
        !index.contains_key(key@),
        entries.len() <= usize::MAX,
    ensures
        indexed(entries.push((key, trx)), index.insert(key@, entries.len() as usize)),
{
    let after = entries.push((key, trx));
    let index_after = index.insert(key@, entries.len() as usize);
    assert forall|k: int| 0 <= k < after.len() implies index_after.contains_key(
        (#[trigger] after[k]).0@,
    ) && index_after[after[k].0@] == k by {
        if k < entries.len() {
            assert(after[k] == entries[k]);
            assert(index.contains_key(entries[k].0@));
        }
    }
    assert forall|id: Seq<char>| #[trigger] index_after.contains_key(id) implies index_after[id]
        < after.len() && after[index_after[id] as int].0@ == id by {
        if id != key@ {
            assert(index.contains_key(id));
            assert(after[index[id] as int] == entries[index[id] as int]);
        }
    }
}

/// The index after the last entry has moved into the place of another.
spec fn index_without(
    entries: Seq<(String, Transaction)>,
    index: Map<Seq<char>, usize>,
    i: int,
) -> Map<Seq<char>, usize> {
    if i == entries.len() - 1 {
        index.remove(entries[i].0@)
    } else {
        index.remove(entries[i].0@).insert(entries.last().0@, i as usize)
    }
}

/// Moving the last entry into the place of another, and the index with it,
/// keeps the entries indexed.
proof fn lemma_index_swap_removed(
    entries: Seq<(String, Transaction)>,
    index: Map<Seq<char>, usize>,
    i: int,
)
    requires
        indexed(entries, index),
        0 <= i < entries.len(),
    ensures
        indexed(entries.update(i, entries.last()).drop_last(), index_without(entries, index, i)),
{
    lemma_indexed_distinct(entries, index);
    let n = entries.len() as int;
    let after = entries.update(i, entries.last()).drop_last();
    let index_after = index_without(entries, index, i);
    assert(index[entries[i].0@] == i);
    assert(index[entries[n - 1].0@] == n - 1);
    assert forall|k: int| 0 <= k < after.len() implies index_after.contains_key(
        (#[trigger] after[k]).0@,
    ) && index_after[after[k].0@] == k by {
        if k == i {
            assert(after[k] == entries[n - 1]);
        } else {
            assert(after[k] == entries[k]);
            assert(index[entries[k].0@] == k);
        }
    }
    assert forall|id: Seq<char>| #[trigger] index_after.contains_key(id) implies index_after[id]
        < after.len() && after[index_after[id] as int].0@ == id by {
        if i != n - 1 && id == entries[n - 1].0@ {
            assert(after[i] == entries[n - 1]);
        } else {
            assert(index.contains_key(id));
            let p = index[id] as int;
            assert(entries[p].0@ == id);
            assert(p != i);
            assert(p != n - 1);
            assert(after[p] == entries[p]);
        }
    }
}

/// The live transactions, each under its correlation id, and the idle time
/// after which a sweep discards one.
pub struct TrxStore {
    /// The transactions with their ids, in no particular order.
    buffers: Vec<(String, Transaction)>,
    /// The place of each id in `buffers`.
    index: StringHashMap<usize>,
    trx_timeout: u128,
}

impl View for TrxStore {
    type V = StoreView;

    closed spec fn view(&self) -> StoreView {
        as_map(self.buffers@)
    }
}

impl TrxStore {
    /// No correlation id has two transactions, and each is found by its id.
    pub closed spec fn wf(&self) -> bool {
        &&& distinct(self.buffers@)
        &&& indexed(self.buffers@, self.index@)
    }

    /// The idle time, in milliseconds, after which a transaction is swept.
    pub closed spec fn timeout(&self) -> u128 {
        self.trx_timeout
    }

    /// An empty store with the given timeout in milliseconds.
    pub fn new(trx_timeout: u128) -> (r: Self)
        ensures
            r.wf(),
            r@ == Map::<Seq<char>, TransactionView>::empty(),
            r.timeout() == trx_timeout,
    {
        let r = Self { buffers: Vec::new(), index: StringHashMap::new(), trx_timeout };
        assert(r@ =~= Map::<Seq<char>, TransactionView>::empty());
        r
    }

    /// The number of live transactions.
    pub fn len(&self) -> (r: usize)
        requires
            self.wf(),
        ensures
            r == self@.len(),
    {
        proof {
            lemma_count(self.buffers@);
        }
        self.buffers.len()
    }

    /// The place of the transaction of `trace_id`, if it is live.
    fn find(&self, trace_id: &String) -> (r: Option<usize>)
        requires
            self.wf(),
        ensures
            match r {
                Some(i) => i < self.buffers@.len() && self.buffers@[i as int].0@ == trace_id@,
                None => !holds(self.buffers@, trace_id@) && !self.index@.contains_key(trace_id@),
            },
    {
        match self.index.get(trace_id.as_str()) {
            Some(i) => Some(*i),
            None => None,
        }
    }

    /// Takes the entry at `i` out, moving the last entry into its place.
    fn evict(&mut self, i: usize)
        requires
            old(self).wf(),
            i < old(self).buffers@.len(),
        ensures
            final(self).wf(),
            final(self).trx_timeout == old(self).trx_timeout,
            final(self).buffers@ == old(self).buffers@.update(
                i as int,
                old(self).buffers@.last(),
            ).drop_last(),
            final(self)@ == old(self)@.remove(old(self).buffers@[i as int].0@),
    {
        proof {
            lemma_swap_removed(self.buffers@, i as int);
            lemma_index_swap_removed(self.buffers@, self.index@, i as int);
        }
        let last = self.buffers.len() - 1;
        self.index.remove(self.buffers[i].0.as_str());
        if i != last {
            self.index.insert(self.buffers[last].0.clone(), i);
        }
        self.buffers.swap_remove(i);
    }

    /// Whether `trace_id` has a live transaction.
    pub fn contains(&self, trace_id: &String) -> (r: bool)
        requires
            self.wf(),
        ensures
            r == self@.contains_key(trace_id@),
    {
        self.find(trace_id).is_some()
    }

    /// The transaction of the id of `line`, made anew where none is live.
    /// What the caller does to it through the reference is what the store
    /// then holds under that id.
    pub fn get(&mut self, line: &LogLine) -> (trx: &mut Transaction)
        requires
            old(self).wf(),
        ensures
            final(self).wf(),
            final(self).timeout() == old(self).timeout(),
            trx@ == transaction_for(old(self)@, line@.trace_id),
            final(self)@ == old(self)@.insert(line@.trace_id, final(trx)@),
    {
        let key = line.trace_id();
        let i = match self.find(key) {
            Some(i) => {
                proof {
                    lemma_entry(self.buffers@, i as int);
                }
                i
            },
            None => {
                let fresh = Transaction::new();
                let at = self.buffers.len();
                proof {
                    lemma_pushed(self.buffers@, *key, fresh);
                    lemma_index_pushed(self.buffers@, self.index@, *key, fresh);
                }
                self.index.insert(key.clone(), at);
                self.buffers.push((key.clone(), fresh));
                proof {
                    lemma_entry(self.buffers@, at as int);
                }
                at
            },
        };
        let ghost entries = self.buffers@;
        assert(as_map(entries) == old(self)@.insert(line@.trace_id, entries[i as int].1@));
        let trx = &mut self.buffers[i].1;
        proof {
            lemma_updated(entries, i as int, *final(trx));
            lemma_index_updated(entries, self.index@, i as int, *final(trx));
            assert(as_map(entries).insert(line@.trace_id, final(trx)@) =~= old(self)@.insert(
                line@.trace_id,
                final(trx)@,
            ));
        }
        trx
    }

    /// Drops the transaction of `trace_id`, if it is live.
    pub fn remove(&mut self, trace_id: &String)
        requires
            old(self).wf(),
        ensures
            final(self).wf(),
            final(self).timeout() == old(self).timeout(),
            final(self)@ == old(self)@.remove(trace_id@),
    {
        match self.find(trace_id) {
            Some(i) => {
                self.evict(i);
            },
            None => {
                assert(self@ =~= old(self)@.remove(trace_id@));
            },
        }
    }

    /// Discards every transaction that has been idle for longer than the
    /// timeout at `now`. What the discarded ones held is dropped with them.
    pub fn cleanup(&mut self, now: u128)
        requires
            old(self).wf(),
        ensures
            final(self).wf(),
            final(self).timeout() == old(self).timeout(),
            final(self)@ == swept(old(self)@, now, old(self).timeout()),
    {
        let ghost before = self@;
        let timeout = self.trx_timeout;
        let mut i: usize = 0;
        while i < self.buffers.len()
            invariant
                i <= self.buffers.len(),
                self.wf(),
                self.trx_timeout == timeout,
                forall|k: int|
                    0 <= k < i ==> !(#[trigger] self.buffers@[k]).1@.expired(now, timeout),
                forall|id: Seq<char>| #[trigger]
                    as_map(self.buffers@).contains_key(id) ==> before.contains_key(id) && as_map(
                        self.buffers@,
                    )[id] == before[id],
                forall|id: Seq<char>|
                    before.contains_key(id) && !before[id].expired(now, timeout) ==> #[trigger] as_map(
                        self.buffers@,
                    ).contains_key(id),
            decreases self.buffers.len() - i,
        {
            if self.buffers[i].1.age(now) > timeout {
                proof {
                    lemma_entry(self.buffers@, i as int);
                }
                self.evict(i);
            } else {
                i += 1;
            }
        }
        proof {
            let entries = self.buffers@;
            assert forall|id: Seq<char>| #[trigger]
                as_map(entries).contains_key(id) implies !before[id].expired(now, timeout) by {
                let p = position(entries, id);
                lemma_entry(entries, p);
            }
            assert(self@ =~= swept(before, now, timeout));
        }
    }
}

} // verus!
