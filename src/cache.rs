//! An in-memory snapshot cache. The cache, not the caller, stamps each write.

use vstd::prelude::*;
use crate::aggregate::Aggregator;

verus! {

/// A cached aggregate and the ids of the events folded into it.
pub struct Snapshot<T> {
    pub value: T,
    pub applied: Vec<u128>,
}

struct CacheEntry<T> {
    key: String,
    snapshot: Snapshot<T>,
    cached_at: i64,
}

/// The latest write under `key`: value, applied ids, and the time it was written.
pub open spec fn latest<T>(es: Seq<(Seq<char>, T, Seq<u128>, i64)>, key: Seq<char>) -> Option<
    (T, Seq<u128>, i64),
>
    decreases es.len(),
{
    if es.len() == 0 {
        None
    } else if es.last().0 == key {
        Some((es.last().1, es.last().2, es.last().3))
    } else {
        latest(es.drop_last(), key)
    }
}

/// A copy of a list of ids.
pub fn copy_ids(v: &Vec<u128>) -> (r: Vec<u128>)
    ensures
        r@ == v@,
{
    let mut out: Vec<u128> = Vec::new();
    let mut i: usize = 0;
    while i < v.len()
        invariant
            i <= v@.len(),
            out@ == v@.subrange(0, i as int),
        decreases v@.len() - i,
    {
        out.push(v[i]);
        i = i + 1;
    }
    out
}

/// The cache: every write is kept, and a read sees the latest write under its key.
pub struct MemoryCache<T> {
    entries: Vec<CacheEntry<T>>,
}

impl<T> MemoryCache<T> {
    pub closed spec fn entries(&self) -> Seq<(Seq<char>, T, Seq<u128>, i64)> {
        self.entries@.map_values(
            |e: CacheEntry<T>| (e.key@, e.snapshot.value, e.snapshot.applied@, e.cached_at),
        )
    }

    /// What a read of `key` sees.
    pub open spec fn lookup(&self, key: Seq<char>) -> Option<(T, Seq<u128>, i64)> {
        latest(self.entries(), key)
    }

    /// An empty cache.
    pub fn new() -> (r: Self)
        ensures
            forall|k: Seq<char>| r.lookup(k) is None,
    {
        let r = MemoryCache { entries: Vec::new() };
        proof { assert(r.entries() =~= Seq::empty()); }
        r
    }

    /// Reads the snapshot under `key`, with the time it was written.
    pub fn get<E: View, A>(&self, key: &String) -> (r: Option<(Snapshot<T>, i64)>) where
        T: Aggregator<E, A>,
        ensures
            match r {
                Some((s, t)) => self.lookup(key@) == Some((s.value, s.applied@, t)),
                None => self.lookup(key@) is None,
            },
    {
        let mut i: usize = self.entries.len();
        proof { assert(self.entries().subrange(0, i as int) =~= self.entries()); }
        while i > 0
            invariant
                i <= self.entries@.len(),
                self.lookup(key@) == latest(self.entries().subrange(0, i as int), key@),
            decreases i,
        {
            let ghost pre = self.entries().subrange(0, i as int);
            proof {
                assert(pre.drop_last() =~= self.entries().subrange(0, i as int - 1));
            }
            let e = &self.entries[i - 1];
            if e.key == *key {
                let s = Snapshot { value: e.snapshot.value.duplicate(), applied: copy_ids(&e.snapshot.applied) };
                return Some((s, e.cached_at));
            }
            i = i - 1;
        }
        proof { assert(self.entries().subrange(0, 0) =~= Seq::empty()); }
        None
    }

    /// Writes a snapshot under `key`, stamped with the cache's clock reading `now`.
    pub fn put(&mut self, key: String, snapshot: Snapshot<T>, now: i64)
        ensures
            final(self).lookup(key@) == Some((snapshot.value, snapshot.applied@, now)),
            forall|k: Seq<char>| k != key@ ==> final(self).lookup(k) == old(self).lookup(k),
    {
        let ghost k0 = key@;
        let ghost v0 = snapshot.value;
        let ghost a0 = snapshot.applied@;
        self.entries.push(CacheEntry { key, snapshot, cached_at: now });
        proof {
            assert(self.entries().drop_last() =~= old(self).entries());
            assert(self.entries().last() == (k0, v0, a0, now));
        }
    }
}

} // verus!
