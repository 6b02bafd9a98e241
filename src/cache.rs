//! The shared state of a single-flight cache, as decision steps: a value is
//! computed at most once per key, and threads asking for a key whose value
//! is being computed wait for it.
//!
//! A thread that shares the cache keeps it behind a lock. It calls
//! `lookup`: on `Ready` it has the value; on `Pending` it waits on a
//! condition variable and looks up again when woken; on `Missing` it calls
//! `start`, computes the value outside the lock, then calls `finish` and
//! wakes every waiter.

use vstd::prelude::*;
use vstd::std_specs::cmp::PartialEqSpec;

verus! {

/// What the cache holds for a key.
pub enum Entry<V> {
    /// Some thread is computing the value.
    Pending,
    Ready(V),
}

/// What a `lookup` step found.
pub enum Lookup<'a, V> {
    Missing,
    Pending,
    Ready(&'a V),
}

/// Position of the first entry whose key equals `k`.
pub open spec fn find<K: PartialEq, V>(s: Seq<(K, Entry<V>)>, k: K) -> Option<int>
    decreases s.len(),
{
    if s.len() == 0 {
        None
    } else {
        match find(s.drop_last(), k) {
            Some(i) => Some(i),
            None => if s.last().0.eq_spec(&k) {
                Some(s.len() - 1)
            } else {
                None
            },
        }
    }
}

/// What the cache holds for `k`, if anything.
pub open spec fn entry_of<K: PartialEq, V>(s: Seq<(K, Entry<V>)>, k: K) -> Option<Entry<V>> {
    match find(s, k) {
        Some(i) => Some(s[i].1),
        None => None,
    }
}

proof fn lemma_find_bounds<K: PartialEq, V>(s: Seq<(K, Entry<V>)>, k: K)
    ensures
        find(s, k) matches Some(i) ==> 0 <= i < s.len() && s[i].0.eq_spec(&k) && forall|j: int|
            0 <= j < i ==> !(#[trigger] s[j].0).eq_spec(&k),
        find(s, k) is None ==> forall|j: int| 0 <= j < s.len() ==> !(#[trigger] s[j].0).eq_spec(&k),
    decreases s.len(),
{
    if s.len() > 0 {
        let t = s.drop_last();
        lemma_find_bounds(t, k);
        assert forall|j: int| 0 <= j < t.len() implies #[trigger] s[j] == t[j] by {}
    }
}

pub struct Cache<K, V> {
    entries: Vec<(K, Entry<V>)>,
}

impl<K: PartialEq, V> Cache<K, V> {
    /// The entries, in the order their keys were first seen.
    pub closed spec fn entries(&self) -> Seq<(K, Entry<V>)> {
        self.entries@
    }

    /// An empty cache.
    pub fn new() -> (r: Self)
        ensures
            r.entries() == Seq::<(K, Entry<V>)>::empty(),
    {
        Cache { entries: Vec::new() }
    }

    fn position(&self, k: &K) -> (r: Option<usize>)
        requires
            K::obeys_eq_spec(),
        ensures
            r is None <==> find(self.entries(), *k) is None,
            r matches Some(i) ==> find(self.entries(), *k) == Some(i as int) && i
                < self.entries().len(),
    {
        let mut i: usize = 0;
        while i < self.entries.len()
            invariant
                K::obeys_eq_spec(),
                i <= self.entries@.len(),
                forall|j: int| 0 <= j < i ==> !(#[trigger] self.entries@[j].0).eq_spec(k),
            decreases self.entries@.len() - i,
        {
            if self.entries[i].0 == *k {
                proof {
                    lemma_find_bounds(self.entries@, *k);
                    lemma_first_match(self.entries@, *k, i as int);
                }
                return Some(i);
            }
            i = i + 1;
        }
        proof {
            lemma_find_bounds(self.entries@, *k);
        }
        None
    }

    /// What the cache holds for `k`.
    pub fn lookup(&self, k: &K) -> (r: Lookup<'_, V>)
        requires
            K::obeys_eq_spec(),
        ensures
            entry_of(self.entries(), *k) is None ==> r is Missing,
            entry_of(self.entries(), *k) == Some(Entry::<V>::Pending) ==> r is Pending,
            entry_of(self.entries(), *k) matches Some(Entry::Ready(v)) ==> r == Lookup::Ready(&v),
    {
        match self.position(k) {
            None => Lookup::Missing,
            Some(i) => match &self.entries[i].1 {
                Entry::Pending => Lookup::Pending,
                Entry::Ready(v) => Lookup::Ready(v),
            },
        }
    }

    /// Records that the value for `k`, which the cache does not hold yet,
    /// is being computed.
    pub fn start(&mut self, k: K)
        requires
            K::obeys_eq_spec(),
            entry_of(old(self).entries(), k) is None,
        ensures
            final(self).entries() == old(self).entries().push((k, Entry::<V>::Pending)),
    {
        self.entries.push((k, Entry::Pending));
    }

    /// Stores the value computed for `k`, in place of its entry (whose key is
    /// replaced by `k`, an equal one) or as a new entry.
    pub fn finish(&mut self, k: K, v: V)
        requires
            K::obeys_eq_spec(),
        ensures
            find(old(self).entries(), k) matches Some(i) ==> final(self).entries() == old(
                self,
            ).entries().update(i, (k, Entry::Ready(v))),
            find(old(self).entries(), k) is None ==> final(self).entries() == old(
                self,
            ).entries().push((k, Entry::Ready(v))),
    {
        match self.position(&k) {
            Some(i) => {
                self.entries.set(i, (k, Entry::Ready(v)));
            },
            None => {
                self.entries.push((k, Entry::Ready(v)));
            },
        }
    }
}

proof fn lemma_first_match<K: PartialEq, V>(s: Seq<(K, Entry<V>)>, k: K, i: int)
    requires
        0 <= i < s.len(),
        s[i].0.eq_spec(&k),
        forall|j: int| 0 <= j < i ==> !(#[trigger] s[j].0).eq_spec(&k),
    ensures
        find(s, k) == Some(i),
    decreases s.len(),
{
    if i < s.len() - 1 {
        lemma_first_match(s.drop_last(), k, i);
    } else {
        lemma_find_bounds(s.drop_last(), k);
    }
}

} // verus!
