//! The mathematical model of a partition's contents: a log of versions,
//! one entry per applied record, in application order. Each entry is
//! `(seqno, key, value)`, where `None` marks a tombstone.
//!
//! A reader at snapshot instant `snap` sees, for each key, the newest
//! version with a sequence number strictly below `snap`; a tombstone
//! reads as absent. The laws at the end say how commits relate to
//! snapshots: entries at or above `snap` are invisible, and a batch of
//! entries below `snap` is visible as a whole.
use vstd::prelude::*;

verus! {

/// The newest version of `key` strictly below `snap`, if any.
pub open spec fn latest_version(
    log: Seq<(u64, Seq<u8>, Option<Seq<u8>>)>,
    key: Seq<u8>,
    snap: u64,
) -> Option<Option<Seq<u8>>>
    decreases log.len(),
{
    if log.len() == 0 {
        None
    } else if log.last().1 == key && log.last().0 < snap {
        Some(log.last().2)
    } else {
        latest_version(log.drop_last(), key, snap)
    }
}

/// A version read as a user sees it: a tombstone or a missing key is
/// absent.
pub open spec fn flatten_version(v: Option<Option<Seq<u8>>>) -> Option<Seq<u8>> {
    match v {
        Some(Some(x)) => Some(x),
        _ => None,
    }
}

/// What a reader at snapshot `snap` sees for `key`.
pub open spec fn visible_value(
    log: Seq<(u64, Seq<u8>, Option<Seq<u8>>)>,
    key: Seq<u8>,
    snap: u64,
) -> Option<Seq<u8>> {
    flatten_version(latest_version(log, key, snap))
}

/// What a write transaction sees for `key`: its own staged write if it
/// has one, else the tree at its snapshot.
pub open spec fn merged_value(
    log: Seq<(u64, Seq<u8>, Option<Seq<u8>>)>,
    staging: Map<Seq<u8>, Option<Seq<u8>>>,
    key: Seq<u8>,
    snap: u64,
) -> Option<Seq<u8>> {
    if staging.contains_key(key) {
        match staging[key] {
            Some(v) => Some(v),
            None => None,
        }
    } else {
        visible_value(log, key, snap)
    }
}

/// The last write of `key` within a run of entries, if any.
pub open spec fn last_write(
    adds: Seq<(u64, Seq<u8>, Option<Seq<u8>>)>,
    key: Seq<u8>,
) -> Option<Option<Seq<u8>>>
    decreases adds.len(),
{
    if adds.len() == 0 {
        None
    } else if adds.last().1 == key {
        Some(adds.last().2)
    } else {
        last_write(adds.drop_last(), key)
    }
}

/// The bytes of an optional value.
pub open spec fn opt_bytes(v: Option<Vec<u8>>) -> Option<Seq<u8>> {
    match v {
        Some(x) => Some(x@),
        None => None,
    }
}

/// The key window that admits every key.
pub open spec fn all_keys() -> spec_fn(Seq<u8>) -> bool {
    |k: Seq<u8>| true
}

/// The staging map of a transaction that has staged nothing.
pub open spec fn empty_staging() -> Map<Seq<u8>, Option<Seq<u8>>> {
    Map::empty()
}

/// Strict byte-lexicographic order.
pub open spec fn lex_lt(a: Seq<u8>, b: Seq<u8>) -> bool
    decreases a.len(),
{
    if b.len() == 0 {
        false
    } else if a.len() == 0 {
        true
    } else if a[0] < b[0] {
        true
    } else if a[0] > b[0] {
        false
    } else {
        lex_lt(a.drop_first(), b.drop_first())
    }
}

pub open spec fn lex_le(a: Seq<u8>, b: Seq<u8>) -> bool {
    a == b || lex_lt(a, b)
}

/// Whether `p` is a prefix of `k`.
pub open spec fn is_prefix_of(p: Seq<u8>, k: Seq<u8>) -> bool {
    p.len() <= k.len() && k.subrange(0, p.len() as int) == p
}

/// An entry appended at or above the snapshot instant changes nothing a
/// reader at that instant sees.
pub proof fn lemma_append_above_snapshot_invisible(
    log: Seq<(u64, Seq<u8>, Option<Seq<u8>>)>,
    e: (u64, Seq<u8>, Option<Seq<u8>>),
    key: Seq<u8>,
    snap: u64,
)
    requires
        e.0 >= snap,
    ensures
        latest_version(log.push(e), key, snap) == latest_version(log, key, snap),
{
    assert(log.push(e).last() == e);
    assert(log.push(e).drop_last() =~= log);
}

/// A run of entries all at or above the snapshot instant changes nothing
/// a reader at that instant sees: readers never observe any part of a
/// commit that happened after their snapshot was taken.
pub proof fn theorem_later_commits_invisible(
    log: Seq<(u64, Seq<u8>, Option<Seq<u8>>)>,
    adds: Seq<(u64, Seq<u8>, Option<Seq<u8>>)>,
    key: Seq<u8>,
    snap: u64,
)
    requires
        forall|i: int| 0 <= i < adds.len() ==> (#[trigger] adds[i]).0 >= snap,
    ensures
        latest_version(log + adds, key, snap) == latest_version(log, key, snap),
        visible_value(log + adds, key, snap) == visible_value(log, key, snap),
    decreases adds.len(),
{
    if adds.len() == 0 {
        assert(log + adds =~= log);
    } else {
        let e = adds.last();
        let shorter = adds.drop_last();
        assert(log + adds =~= (log + shorter).push(e));
        assert(adds[adds.len() - 1] == e);
        lemma_append_above_snapshot_invisible(log + shorter, e, key, snap);
        assert(forall|i: int| 0 <= i < shorter.len() ==> (#[trigger] shorter[i]) == adds[i]);
        theorem_later_commits_invisible(log, shorter, key, snap);
    }
}

/// For a reader whose snapshot lies above every entry of an appended run,
/// each key written by the run reads as its last write in the run, and
/// every other key is unaffected.
pub proof fn lemma_append_below_snapshot_visible(
    log: Seq<(u64, Seq<u8>, Option<Seq<u8>>)>,
    adds: Seq<(u64, Seq<u8>, Option<Seq<u8>>)>,
    key: Seq<u8>,
    snap: u64,
)
    requires
        forall|i: int| 0 <= i < adds.len() ==> (#[trigger] adds[i]).0 < snap,
    ensures
        latest_version(log + adds, key, snap) == (match last_write(adds, key) {
            Some(v) => Some(v),
            None => latest_version(log, key, snap),
        }),
    decreases adds.len(),
{
    if adds.len() == 0 {
        assert(log + adds =~= log);
    } else {
        let e = adds.last();
        let shorter = adds.drop_last();
        assert(log + adds =~= (log + shorter).push(e));
        assert(adds[adds.len() - 1] == e);
        assert((log + adds).last() == e) by {
            assert((log + shorter).push(e).last() == e);
        }
        assert((log + shorter).push(e).drop_last() =~= log + shorter);
        assert(forall|i: int| 0 <= i < shorter.len() ==> (#[trigger] shorter[i]) == adds[i]);
        lemma_append_below_snapshot_visible(log, shorter, key, snap);
    }
}

/// Commit atomicity: a commit applies every record of a batch under one
/// sequence number `s`. A reader either sees none of the batch (its
/// snapshot is at or below `s`) or sees all of it (each written key reads
/// as the batch's last write of that key; unwritten keys are untouched).
/// No reader observes a strict subset of the batch.
pub proof fn theorem_commit_atomicity(
    log: Seq<(u64, Seq<u8>, Option<Seq<u8>>)>,
    adds: Seq<(u64, Seq<u8>, Option<Seq<u8>>)>,
    key: Seq<u8>,
    snap: u64,
    s: u64,
)
    requires
        forall|i: int| 0 <= i < adds.len() ==> (#[trigger] adds[i]).0 == s,
    ensures
        snap <= s ==> visible_value(log + adds, key, snap) == visible_value(log, key, snap),
        snap > s ==> visible_value(log + adds, key, snap) == (match last_write(adds, key) {
            Some(v) => flatten_version(Some(v)),
            None => visible_value(log, key, snap),
        }),
{
    if snap <= s {
        theorem_later_commits_invisible(log, adds, key, snap);
    } else {
        lemma_append_below_snapshot_visible(log, adds, key, snap);
    }
}

/// Commit sequence numbers grow strictly: a commit is stamped with the
/// keyspace's next sequence number, which every commit then advances, so
/// of two commits the later one in real time carries the larger number.
pub proof fn theorem_commit_seqnos_monotonic(s1: u64, next1: u64, s2: u64, next2: u64)
    requires
        s1 == next1,
        next2 >= next1 + 1,
        s2 == next2,
    ensures
        s1 < s2,
{
}

} // verus!
