//! The shared state of a joiner, which groups the readings of `n` threads,
//! as decision steps.
//!
//! Each thread supplies a key and a value and gets back all `n` pairs of
//! its group; then the joiner empties itself for the next group. A group
//! has an entry phase, in which the `n` threads supply, and an exit phase,
//! in which they leave with the pairs; no thread enters while a group is
//! leaving. A thread that shares the joiner keeps it behind a lock, calls
//! `supply` until it answers `true` and then `collect` until it answers
//! with the pairs, waiting on a condition variable after each refusal.
//! Every change wakes all waiters.

use vstd::prelude::*;

verus! {

/// Position of the first pair with key `k`.
pub open spec fn key_index<V>(s: Seq<(i32, V)>, k: i32) -> Option<int>
    decreases s.len(),
{
    if s.len() == 0 {
        None
    } else {
        match key_index(s.drop_last(), k) {
            Some(i) => Some(i),
            None => if s.last().0 == k {
                Some(s.len() - 1)
            } else {
                None
            },
        }
    }
}

/// `s` with the value for `k` set to `v`: the first pair with key `k`
/// changed, or a new pair at the end.
pub open spec fn insert_pair<V>(s: Seq<(i32, V)>, k: i32, v: V) -> Seq<(i32, V)> {
    match key_index(s, k) {
        Some(i) => s.update(i, (k, v)),
        None => s.push((k, v)),
    }
}

proof fn lemma_key_index<V>(s: Seq<(i32, V)>, k: i32)
    ensures
        key_index(s, k) matches Some(i) ==> 0 <= i < s.len() && s[i].0 == k && forall|j: int|
            0 <= j < i ==> (#[trigger] s[j]).0 != k,
        key_index(s, k) is None ==> forall|j: int| 0 <= j < s.len() ==> (#[trigger] s[j]).0 != k,
    decreases s.len(),
{
    if s.len() > 0 {
        let t = s.drop_last();
        lemma_key_index(t, k);
        assert forall|j: int| 0 <= j < t.len() implies #[trigger] s[j] == t[j] by {}
    }
}

proof fn lemma_key_index_first<V>(s: Seq<(i32, V)>, k: i32, i: int)
    requires
        0 <= i < s.len(),
        s[i].0 == k,
        forall|j: int| 0 <= j < i ==> (#[trigger] s[j]).0 != k,
    ensures
        key_index(s, k) == Some(i),
    decreases s.len(),
{
    if i < s.len() - 1 {
        let t = s.drop_last();
        assert forall|j: int| 0 <= j < i implies (#[trigger] t[j]).0 != k by {
            assert(t[j] == s[j]);
        }
        lemma_key_index_first(t, k, i);
    } else {
        lemma_key_index(s.drop_last(), k);
        assert forall|j: int| 0 <= j < s.drop_last().len() implies (#[trigger] s.drop_last()[j]).0
            != k by {
            assert(s.drop_last()[j] == s[j]);
        }
    }
}

pub struct Joiner<V> {
    pairs: Vec<(i32, V)>,
    count: u32,
    exiting: bool,
    n_threads: u32,
}

impl<V: Clone> Joiner<V> {
    /// The pairs supplied to the current group, in order of first supply.
    pub closed spec fn pairs(&self) -> Seq<(i32, V)> {
        self.pairs@
    }

    /// Threads of the current group that have not left yet.
    pub closed spec fn inside(&self) -> nat {
        self.count as nat
    }

    pub closed spec fn is_exiting(&self) -> bool {
        self.exiting
    }

    /// Size of a group.
    pub closed spec fn group_size(&self) -> nat {
        self.n_threads as nat
    }

    pub open spec fn wf(&self) -> bool {
        self.group_size() >= 1 && self.inside() <= self.group_size()
    }

    /// A joiner for groups of `n_threads`.
    pub fn new(n_threads: u32) -> (r: Self)
        requires
            n_threads >= 1,
        ensures
            r.wf(),
            r.pairs() == Seq::<(i32, V)>::empty(),
            r.inside() == 0,
            !r.is_exiting(),
            r.group_size() == n_threads,
    {
        Joiner { pairs: Vec::new(), count: 0, exiting: false, n_threads }
    }

    /// Enters the current group with the pair `(k, v)`; refused, with
    /// nothing changed, while a group is leaving or the group is complete.
    pub fn supply(&mut self, k: i32, v: V) -> (r: bool)
        requires
            old(self).wf(),
        ensures
            final(self).wf(),
            final(self).group_size() == old(self).group_size(),
            final(self).is_exiting() == old(self).is_exiting(),
            r == (!old(self).is_exiting() && old(self).inside() < old(self).group_size()),
            r ==> final(self).inside() == old(self).inside() + 1 && final(self).pairs()
                == insert_pair(old(self).pairs(), k, v),
            !r ==> final(self).inside() == old(self).inside() && final(self).pairs() == old(
                self,
            ).pairs(),
    {
        if self.exiting || self.count >= self.n_threads {
            return false;
        }
        self.count += 1;
        let mut i: usize = 0;
        while i < self.pairs.len()
            invariant
                i <= self.pairs@.len(),
                self.pairs@ == old(self).pairs@,
                self.count == old(self).count + 1,
                self.n_threads == old(self).n_threads,
                self.exiting == old(self).exiting,
                !old(self).exiting,
                old(self).count < old(self).n_threads,
                old(self).n_threads >= 1,
                forall|j: int| 0 <= j < i ==> (#[trigger] self.pairs@[j]).0 != k,
            decreases self.pairs@.len() - i,
        {
            if self.pairs[i].0 == k {
                proof { lemma_key_index_first(self.pairs@, k, i as int); }
                self.pairs.set(i, (k, v));
                return true;
            }
            i = i + 1;
        }
        proof { lemma_key_index(self.pairs@, k); }
        assert(key_index(self.pairs@, k) is None) by {
            if key_index(self.pairs@, k) is Some {
                let i = key_index(self.pairs@, k)->0;
                assert(self.pairs@[i].0 != k);
            }
        }
        self.pairs.push((k, v));
        true
    }

    /// Leaves the group once all its threads have supplied, with a copy of
    /// the group's pairs; the first to leave starts the exit phase and the
    /// last one empties the joiner for the next group. `None`, with nothing
    /// changed, while threads are still supplying.
    pub fn collect(&mut self) -> (r: Option<Vec<(i32, V)>>)
        requires
            old(self).wf(),
            old(self).inside() >= 1,
        ensures
            final(self).wf(),
            final(self).group_size() == old(self).group_size(),
            r is Some <==> (old(self).is_exiting() || old(self).inside() == old(self).group_size()),
            r is None ==> *final(self) == *old(self),
            r matches Some(p) ==> p@.len() == old(self).pairs().len() && (forall|i: int|
                0 <= i < p@.len() ==> (#[trigger] p@[i]).0 == old(self).pairs()[i].0 && cloned::<V>(
                    old(self).pairs()[i].1,
                    p@[i].1,
                )) && final(self).inside() == old(self).inside() - 1 && (final(self).inside() == 0
                ==> !final(self).is_exiting() && final(self).pairs() == Seq::<(i32, V)>::empty())
                && (final(self).inside() > 0 ==> final(self).is_exiting() && final(self).pairs()
                == old(self).pairs()),
    {
        if self.count < self.n_threads && !self.exiting {
            return None;
        }
        self.count -= 1;
        let mut res: Vec<(i32, V)> = Vec::new();
        let mut i: usize = 0;
        while i < self.pairs.len()
            invariant
                i <= self.pairs@.len(),
                res@.len() == i,
                forall|j: int|
                    0 <= j < i ==> (#[trigger] res@[j]).0 == self.pairs@[j].0 && cloned::<V>(
                        self.pairs@[j].1,
                        res@[j].1,
                    ),
            decreases self.pairs@.len() - i,
        {
            let value = self.pairs[i].1.clone();
            res.push((self.pairs[i].0, value));
            i = i + 1;
        }
        if self.count == 0 {
            self.exiting = false;
            self.pairs = Vec::new();
        } else {
            self.exiting = true;
        }
        Some(res)
    }
}

} // verus!
