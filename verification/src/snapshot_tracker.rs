//! Snapshot tracker: how many live readers pin each snapshot instant, and
//! the minimum live instant, which gates garbage collection of obsolete
//! versions.
use crate::vec_index_mut;
use vstd::prelude::*;

verus! {

/// The refcount map encoded by a run of `(instant, count)` pairs.
pub open spec fn map_of(s: Seq<(u64, u64)>) -> Map<u64, u64>
    decreases s.len(),
{
    if s.len() == 0 {
        Map::empty()
    } else {
        map_of(s.drop_last()).insert(s.last().0, s.last().1)
    }
}

/// A key is in the map exactly when some pair carries it.
pub proof fn lemma_map_of_contains(s: Seq<(u64, u64)>, k: u64)
    ensures
        map_of(s).dom().contains(k) <==> exists|i: int| 0 <= i < s.len() && (#[trigger] s[i]).0 == k,
    decreases s.len(),
{
    if s.len() > 0 {
        lemma_map_of_contains(s.drop_last(), k);
        if map_of(s).dom().contains(k) {
            if s.last().0 == k {
                assert(s[s.len() - 1].0 == k);
            } else {
                let i = choose|i: int| 0 <= i < s.drop_last().len() && (#[trigger] s.drop_last()[i]).0 == k;
                assert(s[i].0 == k);
            }
        }
        if exists|i: int| 0 <= i < s.len() && (#[trigger] s[i]).0 == k {
            let i = choose|i: int| 0 <= i < s.len() && (#[trigger] s[i]).0 == k;
            if i < s.len() - 1 {
                assert(s.drop_last()[i].0 == k);
            }
        }
    }
}

/// Whether all pair keys are distinct.
pub open spec fn distinct_keys(s: Seq<(u64, u64)>) -> bool {
    forall|i: int, j: int|
        0 <= i < j < s.len() ==> (#[trigger] s[i]).0 != (#[trigger] s[j]).0
}

/// With distinct keys, each pair gives its key's value.
pub proof fn lemma_map_of_index(s: Seq<(u64, u64)>, i: int)
    requires
        distinct_keys(s),
        0 <= i < s.len(),
    ensures
        map_of(s).dom().contains(s[i].0),
        map_of(s)[s[i].0] == s[i].1,
    decreases s.len(),
{
    if i == s.len() - 1 {
        assert(s.last() == s[i]);
    } else {
        assert(distinct_keys(s.drop_last())) by {
            assert(forall|a: int, b: int|
                0 <= a < b < s.drop_last().len() ==> s.drop_last()[a] == s[a] && s.drop_last()[b]
                    == s[b]);
        }
        assert(s.drop_last()[i] == s[i]);
        lemma_map_of_index(s.drop_last(), i);
        assert(s.last().0 != s[i].0);
    }
}

/// With distinct keys, overwriting one pair's count updates that key.
pub proof fn lemma_map_of_update(s: Seq<(u64, u64)>, i: int, v: u64)
    requires
        distinct_keys(s),
        0 <= i < s.len(),
    ensures
        map_of(s.update(i, (s[i].0, v))) == map_of(s).insert(s[i].0, v),
    decreases s.len(),
{
    let t = s.update(i, (s[i].0, v));
    if i == s.len() - 1 {
        assert(t.drop_last() =~= s.drop_last());
        assert(t.last() == (s[i].0, v));
        assert(map_of(t) == map_of(s.drop_last()).insert(s[i].0, v));
        assert(map_of(s.drop_last()).insert(s.last().0, s.last().1).insert(s[i].0, v) =~= map_of(
            s.drop_last(),
        ).insert(s[i].0, v));
    } else {
        assert(distinct_keys(s.drop_last())) by {
            assert(forall|a: int, b: int|
                0 <= a < b < s.drop_last().len() ==> s.drop_last()[a] == s[a] && s.drop_last()[b]
                    == s[b]);
        }
        assert(t.drop_last() =~= s.drop_last().update(i, (s[i].0, v)));
        assert(s.drop_last()[i] == s[i]);
        lemma_map_of_update(s.drop_last(), i, v);
        assert(t.last() == s.last());
        assert(map_of(s.drop_last()).insert(s[i].0, v).insert(s.last().0, s.last().1) =~= map_of(
            s.drop_last(),
        ).insert(s.last().0, s.last().1).insert(s[i].0, v)) by {
            assert(s.last().0 != s[i].0);
        }
    }
}

/// With distinct keys, dropping one pair removes exactly that key.
pub proof fn lemma_map_of_remove(s: Seq<(u64, u64)>, i: int)
    requires
        distinct_keys(s),
        0 <= i < s.len(),
    ensures
        map_of(s.remove(i)) == map_of(s).remove(s[i].0),
    decreases s.len(),
{
    let t = s.remove(i);
    if i == s.len() - 1 {
        assert(t =~= s.drop_last());
        lemma_map_of_contains(s.drop_last(), s[i].0);
        assert(forall|j: int|
            0 <= j < s.drop_last().len() ==> (#[trigger] s.drop_last()[j]) == s[j]);
        assert(!map_of(s.drop_last()).dom().contains(s[i].0));
        assert(map_of(s.drop_last()).insert(s.last().0, s.last().1).remove(s[i].0) =~= map_of(
            s.drop_last(),
        ));
    } else {
        assert(distinct_keys(s.drop_last())) by {
            assert(forall|a: int, b: int|
                0 <= a < b < s.drop_last().len() ==> s.drop_last()[a] == s[a] && s.drop_last()[b]
                    == s[b]);
        }
        assert(t.drop_last() =~= s.drop_last().remove(i));
        assert(t.last() == s.last());
        assert(s.drop_last()[i] == s[i]);
        lemma_map_of_remove(s.drop_last(), i);
        assert(map_of(s.drop_last()).remove(s[i].0).insert(s.last().0, s.last().1) =~= map_of(
            s.drop_last(),
        ).insert(s.last().0, s.last().1).remove(s[i].0)) by {
            assert(s.last().0 != s[i].0);
        }
    }
}

/// Tracks, for each snapshot instant, how many live readers hold it.
/// Viewed as a map from instant to reader count; only nonzero counts are
/// kept.
pub struct SnapshotTracker {
    entries: Vec<(u64, u64)>,
}

impl View for SnapshotTracker {
    type V = Map<u64, u64>;

    closed spec fn view(&self) -> Map<u64, u64> {
        map_of(self.entries@)
    }
}

impl SnapshotTracker {
    /// Pair keys are distinct and every kept count is nonzero.
    pub closed spec fn wf(self) -> bool {
        distinct_keys(self.entries@) && forall|i: int|
            0 <= i < self.entries@.len() ==> (#[trigger] self.entries@[i]).1 >= 1
    }

    /// An empty tracker: no reader holds any instant.
    pub fn new() -> (r: SnapshotTracker)
        ensures
            r.wf(),
            r@ == Map::<u64, u64>::empty(),
    {
        SnapshotTracker { entries: Vec::new() }
    }

    /// Registers one more reader at `instant`.
    pub fn register(&mut self, instant: u64)
        requires
            old(self).wf(),
            old(self)@.contains_key(instant) ==> old(self)@[instant] < u64::MAX,
        ensures
            final(self).wf(),
            final(self)@ == old(self)@.insert(
                instant,
                if old(self)@.contains_key(instant) {
                    (old(self)@[instant] + 1) as u64
                } else {
                    1u64
                },
            ),
    {
        let ghost s0 = self.entries@;
        let mut i: usize = 0;
        while i < self.entries.len()
            invariant
                self == old(self),
                s0 == self.entries@,
                old(self).wf(),
                old(self)@.contains_key(instant) ==> old(self)@[instant] < u64::MAX,
                i <= self.entries@.len(),
                forall|j: int| 0 <= j < i ==> (#[trigger] self.entries@[j]).0 != instant,
            decreases self.entries@.len() - i,
        {
            if self.entries[i].0 == instant {
                proof {
                    lemma_map_of_index(s0, i as int);
                    lemma_map_of_update(s0, i as int, (s0[i as int].1 + 1) as u64);
                }
                let e = vec_index_mut(&mut self.entries, i);
                let c = e.1;
                *e = (instant, c + 1);
                return ;
            }
            i += 1;
        }
        proof {
            lemma_map_of_contains(s0, instant);
            assert(!old(self)@.contains_key(instant));
        }
        self.entries.push((instant, 1));
        proof {
            assert(self.entries@.drop_last() =~= s0);
            assert(self.entries@.last() == (instant, 1u64));
        }
    }

    /// Releases one reader of `instant`; the entry disappears when its
    /// count reaches zero.
    pub fn release(&mut self, instant: u64)
        requires
            old(self).wf(),
            old(self)@.contains_key(instant),
        ensures
            final(self).wf(),
            final(self)@ == if old(self)@[instant] > 1 {
                old(self)@.insert(instant, (old(self)@[instant] - 1) as u64)
            } else {
                old(self)@.remove(instant)
            },
    {
        let ghost s0 = self.entries@;
        proof {
            lemma_map_of_contains(s0, instant);
        }
        let mut i: usize = 0;
        while i < self.entries.len()
            invariant
                self == old(self),
                s0 == self.entries@,
                old(self).wf(),
                old(self)@.contains_key(instant),
                i <= self.entries@.len(),
                forall|j: int| 0 <= j < i ==> (#[trigger] self.entries@[j]).0 != instant,
                exists|j: int| 0 <= j < self.entries@.len() && (#[trigger] self.entries@[j]).0 == instant,
            decreases self.entries@.len() - i,
        {
            if self.entries[i].0 == instant {
                proof {
                    lemma_map_of_index(s0, i as int);
                }
                let c = self.entries[i].1;
                if c > 1 {
                    proof {
                        lemma_map_of_update(s0, i as int, (s0[i as int].1 - 1) as u64);
                    }
                    let e = vec_index_mut(&mut self.entries, i);
                    *e = (instant, c - 1);
                } else {
                    proof {
                        lemma_map_of_remove(s0, i as int);
                    }
                    self.entries.remove(i);
                    proof {
                        assert(forall|a: int, b: int|
                            0 <= a < b < self.entries@.len() ==> exists|a2: int, b2: int|
                                0 <= a2 < b2 < s0.len() && s0[a2] == #[trigger] self.entries@[a]
                                    && s0[b2] == #[trigger] self.entries@[b]);
                        assert(distinct_keys(self.entries@)) by {
                            assert forall|a: int, b: int|
                                0 <= a < b < self.entries@.len() implies (#[trigger] self.entries@[a]).0
                                != (#[trigger] self.entries@[b]).0 by {
                                let a2 = if a < i as int { a } else { a + 1 };
                                let b2 = if b < i as int { b } else { b + 1 };
                                assert(self.entries@[a] == s0[a2]);
                                assert(self.entries@[b] == s0[b2]);
                            }
                        }
                        assert(forall|j: int|
                            0 <= j < self.entries@.len() ==> (#[trigger] self.entries@[j]).1 >= 1) by {
                            assert forall|j: int|
                                0 <= j < self.entries@.len() implies (#[trigger] self.entries@[j]).1
                                >= 1 by {
                                let j2 = if j < i as int { j } else { j + 1 };
                                assert(self.entries@[j] == s0[j2]);
                            }
                        }
                    }
                }
                return ;
            }
            i += 1;
        }
        proof {
            let j = choose|j: int| 0 <= j < s0.len() && (#[trigger] s0[j]).0 == instant;
            assert(false);
        }
    }

    /// The smallest instant any live reader holds, if one exists.
    pub fn min_live(&self) -> (r: Option<u64>)
        requires
            self.wf(),
        ensures
            match r {
                Some(m) => self@.dom().contains(m) && forall|x: u64| self@.dom().contains(x) ==> m
                    <= x,
                None => self@ == Map::<u64, u64>::empty(),
            },
    {
        if self.entries.len() == 0 {
            proof {
                assert(self@ =~= Map::<u64, u64>::empty());
            }
            return None;
        }
        let mut m: u64 = self.entries[0].0;
        let mut i: usize = 1;
        while i < self.entries.len()
            invariant
                self.wf(),
                1 <= i <= self.entries@.len(),
                exists|j: int| 0 <= j < i && (#[trigger] self.entries@[j]).0 == m,
                forall|j: int| 0 <= j < i ==> m <= (#[trigger] self.entries@[j]).0,
            decreases self.entries@.len() - i,
        {
            if self.entries[i].0 < m {
                m = self.entries[i].0;
            }
            i += 1;
        }
        proof {
            lemma_map_of_contains(self.entries@, m);
            assert forall|x: u64| self@.dom().contains(x) implies m <= x by {
                lemma_map_of_contains(self.entries@, x);
            }
        }
        Some(m)
    }
}

/// A registration token pinning one snapshot instant for a reader's
/// lifetime: taken out at registration, handed back at release.
pub struct SnapshotNonce {
    /// The pinned snapshot instant.
    pub instant: u64,
}

} // verus!
