//! Write transactions: single-writer, cross-partition transactions with
//! read-your-own-writes.
//!
//! Staged writes live in private per-partition staging tables and shadow
//! the snapshot the transaction was opened at. `commit` turns all
//! staged writes into one journaled batch applied under one freshly
//! allocated sequence number; dropping the staging through `rollback`
//! discards it without journaling anything.
use crate::keyspace::Keyspace;
use crate::listing::{clone_bytes, listing_first, listing_last, opt_bytes_eq};
use crate::partition::TxPartitionHandle;
use crate::snapshot_tracker::SnapshotNonce;
use crate::tree::{
    entry_value, snapshot_listing, staging_delete, staging_entries, staging_get, staging_new,
    staging_opt, staging_set, staging_view, tree_get, tree_iter, tree_prefix, tree_range,
    InternalEntry, StagingTable,
};
use crate::vec_index_mut;
use crate::version_log::{
    empty_staging, is_prefix_of, lex_le, merged_value, opt_bytes, visible_value,
};
use crate::KvError;
use crate::PersistMode;
use vstd::prelude::*;

verus! {

/// Interprets a record read from a staging table: a tombstone hides the
/// key.
pub fn ignore_tombstone_value(item: InternalEntry) -> (r: Option<InternalEntry>)
    ensures
        (match r {
            Some(x) => x == item && !item.is_tombstone,
            None => item.is_tombstone,
        }),
{
    if item.is_tombstone {
        None
    } else {
        Some(item)
    }
}

/// Everything one commit does to the keyspace, stated over the state
/// `pre` before and `post` after the call.
///
/// The counter advances by one and the batch is stamped with `pre`'s
/// next sequence number. Each partition's log grows by exactly the
/// transaction's staged writes for it ([`commit_extends`]); a reader at
/// the new instant sees every staged write and nothing else new, while
/// readers at snapshots at or below the commit's number see no change
/// at all — commits are atomic. The transaction's snapshot is released,
/// and one journal shard gains one framed batch record listing exactly
/// the staged writes, partition by partition.
pub open spec fn commit_post(tx: WriteTransaction, pre: Keyspace, post: Keyspace) -> bool {
    &&& post.next_seqno == pre.next_seqno + 1
    &&& post.partitions.len() == pre.partitions.len()
    &&& forall|p: int|
        0 <= p < pre.partitions.len() ==> (#[trigger] post.partitions@[p]).name
            == pre.partitions@[p].name && post.partitions@[p].max_memtable_size
            == pre.partitions@[p].max_memtable_size
    &&& forall|p: int|
        0 <= p < pre.partitions.len() ==> commit_extends(
            pre.plog(p),
            #[trigger] post.plog(p),
            tx.staging_map(p),
            pre.next_seqno,
        )
    &&& forall|p: int, k: Seq<u8>|
        0 <= p < pre.partitions.len() ==> #[trigger] visible_value(
            post.plog(p),
            k,
            post.next_seqno,
        ) == (if tx.staging_map(p).contains_key(k) {
            (match tx.staging_map(p)[k] {
                Some(v) => Some(v),
                None => None,
            })
        } else {
            visible_value(pre.plog(p), k, pre.next_seqno)
        })
    &&& forall|p: int, k: Seq<u8>, snap: u64|
        0 <= p < pre.partitions.len() && snap <= pre.next_seqno ==> #[trigger] visible_value(
            post.plog(p),
            k,
            snap,
        ) == visible_value(pre.plog(p), k, snap)
    &&& post.tracker@ == (if pre.tracker@[tx.nonce.instant] > 1 {
        pre.tracker@.insert(tx.nonce.instant, (pre.tracker@[tx.nonce.instant] - 1) as u64)
    } else {
        pre.tracker@.remove(tx.nonce.instant)
    })
    &&& exists|widx: int, items: Seq<crate::marker::ItemModel>|
        #![trigger post.journal.shards@[widx], crate::marker::items_enc(items)]
        0 <= widx < crate::journal::SHARD_COUNT as int && post.journal.shards@[widx].contents@
            == pre.journal.shards@[widx].contents@ + crate::marker::batch_enc(
            items,
            pre.next_seqno,
        ) && (forall|j: int|
            0 <= j < crate::journal::SHARD_COUNT as int && j != widx
                ==> (#[trigger] post.journal.shards@[j]).contents@
                == pre.journal.shards@[j].contents@) && batch_covers_staging(
            items,
            tx,
            pre.partitions@.map_values(|pt: crate::partition::Partition| pt.name@),
        )
}

/// What one commit contributes to a partition's log: a run of entries,
/// all at the commit's sequence number, whose last write per key is
/// exactly the staged value; unstaged keys get no entry.
pub open spec fn commit_extends(
    old_log: Seq<(u64, Seq<u8>, Option<Seq<u8>>)>,
    new_log: Seq<(u64, Seq<u8>, Option<Seq<u8>>)>,
    staged: Map<Seq<u8>, Option<Seq<u8>>>,
    s: u64,
) -> bool {
    exists|adds: Seq<(u64, Seq<u8>, Option<Seq<u8>>)>|
        #![trigger old_log + adds]
        new_log == old_log + adds && (forall|i: int|
            0 <= i < adds.len() ==> (#[trigger] adds[i]).0 == s) && (forall|k: Seq<u8>|
            #[trigger] crate::version_log::last_write(adds, k) == (if staged.contains_key(k) {
                Some(staged[k])
            } else {
                None
            }))
}

/// The journaled batch lists exactly the staged writes: every item is a
/// staged write of the partition it names, and every staged write of
/// every partition appears as an item.
pub open spec fn batch_covers_staging(
    items: Seq<crate::marker::ItemModel>,
    tx: WriteTransaction,
    names: Seq<Seq<u8>>,
) -> bool {
    items_sound(items, tx, names) && items_complete_upto(items, tx, names, names.len() as int)
}


/// The partition-name projection, used to tag batch items.
pub open spec fn ppname() -> spec_fn(crate::partition::Partition) -> Seq<u8> {
    |pt: crate::partition::Partition| pt.name@
}

/// The first `e` staged entries of a run all have a matching item,
/// tagged with the partition name `name`.
pub open spec fn entry_keys_covered(
    items: Seq<crate::marker::ItemModel>,
    es: Seq<InternalEntry>,
    name: Seq<u8>,
    e: int,
) -> bool {
    forall|i: int|
        0 <= i < e ==> (exists|j: int|
            0 <= j < items.len() && (#[trigger] items[j]).partition == name && items[j].key == (
            #[trigger] es[i]).key@)
}

/// Loop facts of [`WriteTransaction::commit`], named so the loop
/// headers stay readable: `entries` lists each partition's staged
/// writes.
pub open spec fn entries_listed(tx: WriteTransaction, entries: Seq<Vec<InternalEntry>>) -> bool {
    forall|q: int|
        0 <= q < entries.len() ==> crate::tree::staging_listing(
            tx.staging_map(q),
            (#[trigger] entries[q])@,
        )
}

/// Every staged write respects the tree's record caps. This holds of
/// every transaction the keyspace hands out, because `insert` and
/// `remove` refuse anything else.
pub open spec fn staging_wf(tx: WriteTransaction) -> bool {
    forall|p: int, k: Seq<u8>|
        #[trigger] tx.staging_map(p).contains_key(k) ==> crate::tree::valid_key(k) && (
        match tx.staging_map(p)[k] {
            Some(v) => crate::tree::valid_value(v),
            None => true,
        })
}

/// Every assembled item so far is a staged write of the partition it
/// names.
pub open spec fn items_sound(
    items: Seq<crate::marker::ItemModel>,
    tx: WriteTransaction,
    names: Seq<Seq<u8>>,
) -> bool {
    forall|j: int|
        0 <= j < items.len() ==> (exists|q: int|
            0 <= q < names.len() && #[trigger] names[q] == (#[trigger] items[j]).partition
                && tx.staging_map(q).contains_key(items[j].key) && tx.staging_map(q)[items[j].key]
                == (if items[j].tombstone {
                None
            } else {
                Some(items[j].value)
            }))
}

/// Every staged write of the partitions before `p` appears among the
/// assembled items.
pub open spec fn items_complete_upto(
    items: Seq<crate::marker::ItemModel>,
    tx: WriteTransaction,
    names: Seq<Seq<u8>>,
    p: int,
) -> bool {
    forall|q: int, k: Seq<u8>|
        0 <= q < p && #[trigger] tx.staging_map(q).contains_key(k) ==> (exists|j: int|
            0 <= j < items.len() && (#[trigger] items[j]).partition == names[q] && items[j].key
                == k)
}

/// The partitions' count, names and options are those of `pre`.
pub open spec fn partitions_meta_of(pre: Keyspace, cur: Keyspace) -> bool {
    cur.partitions.len() == pre.partitions.len() && forall|q: int|
        0 <= q < pre.partitions.len() ==> (#[trigger] cur.partitions@[q]).name
            == pre.partitions@[q].name && cur.partitions@[q].max_memtable_size
            == pre.partitions@[q].max_memtable_size
}

/// The batch has been applied to the partitions before `p`; the
/// partitions after `p` are untouched, and partition `p` itself is
/// constrained separately.
pub open spec fn logs_applied_except(
    pre: Keyspace,
    cur: Keyspace,
    entries: Seq<Vec<InternalEntry>>,
    s: u64,
    p: int,
) -> bool {
    &&& forall|q: int|
        0 <= q < p ==> crate::tree::tree_log((#[trigger] cur.partitions@[q]).tree)
            == crate::tree::tree_log(pre.partitions@[q].tree) + crate::listing::staged_adds(
            entries[q]@,
            s,
        )
    &&& forall|q: int|
        p < q < pre.partitions.len() ==> (#[trigger] cur.partitions@[q]).tree
            == pre.partitions@[q].tree
}

/// The batch has been applied to the partitions before `p`; later
/// partitions are untouched.
pub open spec fn logs_applied_upto(
    pre: Keyspace,
    cur: Keyspace,
    entries: Seq<Vec<InternalEntry>>,
    s: u64,
    p: int,
) -> bool {
    &&& forall|q: int|
        0 <= q < p ==> crate::tree::tree_log((#[trigger] cur.partitions@[q]).tree)
            == crate::tree::tree_log(pre.partitions@[q].tree) + crate::listing::staged_adds(
            entries[q]@,
            s,
        )
    &&& forall|q: int|
        p <= q < pre.partitions.len() ==> (#[trigger] cur.partitions@[q]).tree
            == pre.partitions@[q].tree
}

/// One partition's share of a commit: appending a staged run under one
/// fresh sequence number keeps the log bounded, extends it as
/// [`commit_extends`] says, makes every staged write (and nothing else)
/// visible at the next instant, and leaves older snapshots untouched.
proof fn lemma_commit_partition(
    pre_log: Seq<(u64, Seq<u8>, Option<Seq<u8>>)>,
    es: Seq<InternalEntry>,
    m: Map<Seq<u8>, Option<Seq<u8>>>,
    s: u64,
)
    requires
        crate::tree::staging_listing(m, es),
        crate::keyspace::log_bounded(pre_log, s),
        s < u64::MAX,
    ensures
        crate::keyspace::log_bounded(
            pre_log + crate::listing::staged_adds(es, s),
            (s + 1) as u64,
        ),
        commit_extends(pre_log, pre_log + crate::listing::staged_adds(es, s), m, s),
        forall|k: Seq<u8>|
            #[trigger] visible_value(pre_log + crate::listing::staged_adds(es, s), k, (s + 1) as u64)
                == (if m.contains_key(k) {
                (match m[k] {
                    Some(v) => Some(v),
                    None => None,
                })
            } else {
                visible_value(pre_log, k, s)
            }),
        forall|k: Seq<u8>, snap: u64|
            snap <= s ==> #[trigger] visible_value(
                pre_log + crate::listing::staged_adds(es, s),
                k,
                snap,
            ) == visible_value(pre_log, k, snap),
{
    let adds = crate::listing::staged_adds(es, s);
    let newlog = pre_log + adds;
    assert forall|i: int, j: int|
        0 <= i < j < es.len() implies (#[trigger] es[i]).key@ != (#[trigger] es[j]).key@ by {
        if es[i].key@ == es[j].key@ {
            crate::listing::lemma_lex_lt_irrefl(es[i].key@);
        }
    }
    assert(forall|i: int| 0 <= i < adds.len() ==> (#[trigger] adds[i]).0 == s);
    assert forall|i: int| 0 <= i < newlog.len() implies (#[trigger] newlog[i]).0 < s + 1 by {
        if i < pre_log.len() {
            assert(newlog[i] == pre_log[i]);
        } else {
            assert(newlog[i] == adds[i - pre_log.len()]);
        }
    }
    assert forall|k: Seq<u8>| #[trigger] crate::version_log::last_write(adds, k) == (
    if m.contains_key(k) {
        Some(m[k])
    } else {
        None
    }) by {
        crate::listing::lemma_last_write_of_entries(es, m, s, k);
        if m.contains_key(k) {
            assert(exists|i: int| 0 <= i < es.len() && (#[trigger] es[i]).key@ == k);
        }
    }
    assert(commit_extends(pre_log, newlog, m, s));
    assert forall|k: Seq<u8>|
        #[trigger] visible_value(newlog, k, (s + 1) as u64) == (if m.contains_key(k) {
            (match m[k] {
                Some(v) => Some(v),
                None => None,
            })
        } else {
            visible_value(pre_log, k, s)
        }) by {
        crate::version_log::theorem_commit_atomicity(pre_log, adds, k, (s + 1) as u64, s);
        if !m.contains_key(k) {
            crate::listing::lemma_bounded_log_snapshot_stable(pre_log, s, k, (s + 1) as u64, s);
        }
    }
    assert forall|k: Seq<u8>, snap: u64|
        snap <= s implies #[trigger] visible_value(newlog, k, snap) == visible_value(
        pre_log,
        k,
        snap,
    ) by {
        crate::version_log::theorem_commit_atomicity(pre_log, adds, k, snap, s);
    }
}

/// Assembles the whole commit summary: given what the commit's phases
/// each did, the keyspace is well formed again and [`commit_post`]
/// holds.
#[verifier::rlimit(100)]
proof fn lemma_commit_establishes_post(
    tx: WriteTransaction,
    pre: Keyspace,
    post: Keyspace,
    entries: Seq<Vec<InternalEntry>>,
    items: Seq<crate::marker::Item>,
    widx: int,
)
    requires
        pre.wf(),
        tx.staging_len() == pre.partitions.len() as int,
        pre.tracker@.contains_key(tx.nonce.instant),
        pre.next_seqno < crate::tree::STAGE_SEQNO,
        entries.len() == pre.partitions.len(),
        entries_listed(tx, entries),
        items_sound(crate::marker::item_models(items), tx, pre.partitions@.map_values(ppname())),
        items_complete_upto(
            crate::marker::item_models(items),
            tx,
            pre.partitions@.map_values(ppname()),
            pre.partitions.len() as int,
        ),
        partitions_meta_of(pre, post),
        logs_applied_upto(pre, post, entries, pre.next_seqno, entries.len() as int),
        post.next_seqno == pre.next_seqno + 1,
        post.journal.wf(),
        post.tracker.wf(),
        post.tracker@ == (if pre.tracker@[tx.nonce.instant] > 1 {
            pre.tracker@.insert(tx.nonce.instant, (pre.tracker@[tx.nonce.instant] - 1) as u64)
        } else {
            pre.tracker@.remove(tx.nonce.instant)
        }),
        forall|i: int|
            0 <= i < post.compaction@.len() ==> (#[trigger] post.compaction@[i])
                < post.partitions.len(),
        0 <= widx,
        widx < crate::journal::SHARD_COUNT as int,
        post.journal.shards@[widx].contents@ == pre.journal.shards@[widx].contents@
            + crate::marker::batch_enc(crate::marker::item_models(items), pre.next_seqno),
        forall|j: int|
            0 <= j < crate::journal::SHARD_COUNT as int && j != widx
                ==> (#[trigger] post.journal.shards@[j]).contents@
                == pre.journal.shards@[j].contents@,
    ensures
        post.wf(),
        commit_post(tx, pre, post),
{
    let names = pre.partitions@.map_values(ppname());
    let s = pre.next_seqno;

    assert forall|p: int| 0 <= p < post.partitions.len() implies crate::keyspace::log_bounded(
        crate::tree::tree_log((#[trigger] post.partitions@[p]).tree),
        post.next_seqno,
    ) && commit_extends(pre.plog(p), post.plog(p), tx.staging_map(p), s) by {
        assert(crate::tree::staging_listing(tx.staging_map(p), entries[p]@));
        assert(post.plog(p) == pre.plog(p) + crate::listing::staged_adds(entries[p]@, s));
        assert(crate::keyspace::log_bounded(pre.plog(p), s));
        lemma_commit_partition(pre.plog(p), entries[p]@, tx.staging_map(p), s);
    }

    assert forall|p: int, k: Seq<u8>| 0 <= p < pre.partitions.len() implies #[trigger] visible_value(
        post.plog(p),
        k,
        post.next_seqno,
    ) == (if tx.staging_map(p).contains_key(k) {
        (match tx.staging_map(p)[k] {
            Some(v) => Some(v),
            None => None,
        })
    } else {
        visible_value(pre.plog(p), k, s)
    }) by {
        assert(crate::tree::staging_listing(tx.staging_map(p), entries[p]@));
        assert(post.plog(p) == pre.plog(p) + crate::listing::staged_adds(entries[p]@, s));
        assert(crate::keyspace::log_bounded(pre.plog(p), s));
        lemma_commit_partition(pre.plog(p), entries[p]@, tx.staging_map(p), s);
    }

    assert forall|p: int, k: Seq<u8>, snap: u64|
        0 <= p < pre.partitions.len() && snap <= s implies #[trigger] visible_value(
        post.plog(p),
        k,
        snap,
    ) == visible_value(pre.plog(p), k, snap) by {
        assert(crate::tree::staging_listing(tx.staging_map(p), entries[p]@));
        assert(post.plog(p) == pre.plog(p) + crate::listing::staged_adds(entries[p]@, s));
        assert(crate::keyspace::log_bounded(pre.plog(p), s));
        lemma_commit_partition(pre.plog(p), entries[p]@, tx.staging_map(p), s);
    }

    assert forall|x: u64| post.tracker@.contains_key(x) implies 1 <= x <= post.next_seqno by {
        if pre.tracker@[tx.nonce.instant] > 1 {
            assert(pre.tracker@.contains_key(x));
        } else {
            assert(pre.tracker@.contains_key(x));
        }
    }

    let items_m = crate::marker::item_models(items);
    assert(batch_covers_staging(items_m, tx, names));
    assert((widx as int) < (crate::journal::SHARD_COUNT as int)
        && post.journal.shards@[widx].contents@ == pre.journal.shards@[widx].contents@
        + crate::marker::batch_enc(items_m, s) && (forall|j: int|
        0 <= j < crate::journal::SHARD_COUNT as int && j != widx
            ==> (#[trigger] post.journal.shards@[j]).contents@
            == pre.journal.shards@[j].contents@) && batch_covers_staging(items_m, tx, names));
}

/// A single-writer (serialized) cross-partition transaction.
///
/// Use [`WriteTransaction::commit`] to publish the staged changes, or
/// [`WriteTransaction::rollback`] to discard them.
pub struct WriteTransaction {
    /// The registration token pinning this transaction's snapshot.
    pub nonce: SnapshotNonce,
    /// The per-transaction durability override.
    pub durability: Option<PersistMode>,
    /// One staging slot per partition, filled on first write.
    pub staging: Vec<Option<StagingTable>>,
}

impl WriteTransaction {
    /// Number of partition slots the transaction carries.
    pub closed spec fn staging_len(self) -> int {
        self.staging@.len() as int
    }

    /// The staged writes for partition `p`: key to value, `None` marking
    /// a staged delete.
    pub closed spec fn staging_map(self, p: int) -> Map<Seq<u8>, Option<Seq<u8>>> {
        if 0 <= p < self.staging@.len() {
            match self.staging@[p] {
                Some(t) => staging_view(t),
                None => Map::empty(),
            }
        } else {
            Map::empty()
        }
    }

    /// The transaction's durability override, if set.
    pub closed spec fn durability_of(self) -> Option<PersistMode> {
        self.durability
    }

    pub(crate) fn new(nonce: SnapshotNonce, staging: Vec<Option<StagingTable>>) -> (r: Self)
        requires
            forall|p: int| 0 <= p < staging@.len() ==> (#[trigger] staging@[p]) is None,
        ensures
            r.nonce == nonce,
            r.staging_len() == staging@.len(),
            forall|p: int| #[trigger] r.staging_map(p) == empty_staging(),
            staging_wf(r),
            r.durability_of() is None,
    {
        let r = WriteTransaction { nonce, durability: None, staging };
        proof {
            assert forall|p: int, k: Seq<u8>|
                #[trigger] r.staging_map(p).contains_key(k) implies crate::tree::valid_key(k) && (
            match r.staging_map(p)[k] {
                Some(v) => crate::tree::valid_value(v),
                None => true,
            }) by {
                assert(r.staging_map(p) == empty_staging());
            }
        }
        r
    }

    /// Records the durability level this transaction's commit asks for:
    /// the level at which the surrounding program syncs the journaled
    /// record. `None` leaves the level to the keyspace's surroundings.
    pub fn durability(self, mode: Option<PersistMode>) -> (r: Self)
        ensures
            r.nonce == self.nonce,
            r.staging_len() == self.staging_len(),
            forall|p: int| #[trigger] r.staging_map(p) == self.staging_map(p),
            staging_wf(self) ==> staging_wf(r),
            r.durability_of() == mode,
    {
        let r = WriteTransaction { nonce: self.nonce, durability: mode, staging: self.staging };
        proof {
            if staging_wf(self) {
                assert forall|p: int, k: Seq<u8>|
                    #[trigger] r.staging_map(p).contains_key(k) implies crate::tree::valid_key(k)
                    && (match r.staging_map(p)[k] {
                    Some(v) => crate::tree::valid_value(v),
                    None => true,
                }) by {
                    assert(r.staging_map(p) == self.staging_map(p));
                }
            }
        }
        r
    }

    /// Stages `key -> value` for the partition, shadowing both the tree
    /// and any earlier staged write of the key. Nothing is published
    /// until commit. Refuses, with `InvalidInput` and no effect, an
    /// empty key, a key over the tree's cap, or a value over the tree's
    /// cap.
    pub fn insert(&mut self, partition: &TxPartitionHandle, key: &[u8], value: &[u8]) -> (r: Result<
        (),
        KvError,
    >)
        requires
            partition.idx < old(self).staging_len(),
        ensures
            final(self).nonce == old(self).nonce,
            final(self).durability_of() == old(self).durability_of(),
            final(self).staging_len() == old(self).staging_len(),
            ((r is Ok) <==> crate::tree::valid_key(key@) && crate::tree::valid_value(value@)),
            r matches Err(e) ==> e is InvalidInput && *final(self) == *old(self),
            r is Ok ==> final(self).staging_map(partition.idx as int) == old(self).staging_map(
                partition.idx as int,
            ).insert(key@, Some(value@)),
            forall|p: int|
                p != partition.idx as int ==> #[trigger] final(self).staging_map(p) == old(self).staging_map(p),
            staging_wf(*old(self)) ==> staging_wf(*final(self)),
    {
        if key.len() == 0 || key.len() > crate::tree::MAX_KEY_LEN || value.len()
            > crate::tree::MAX_VALUE_LEN {
            return Err(KvError::InvalidInput);
        }
        let kv = vstd::slice::slice_to_vec(key);
        let vv = vstd::slice::slice_to_vec(value);
        let slot = vec_index_mut(&mut self.staging, partition.idx);
        match slot {
            Some(t) => {
                staging_set(t, &kv, &vv);
            }
            None => {
                let mut t = staging_new();
                staging_set(&mut t, &kv, &vv);
                *slot = Some(t);
                proof {
                    assert(Map::<Seq<u8>, Option<Seq<u8>>>::empty().insert(key@, Some(value@))
                        =~= empty_staging().insert(key@, Some(value@)));
                }
            }
        }
        proof {
            if staging_wf(*old(self)) {
                assert forall|p: int, k: Seq<u8>|
                    #[trigger] self.staging_map(p).contains_key(k) implies crate::tree::valid_key(
                    k,
                ) && (match self.staging_map(p)[k] {
                    Some(v) => crate::tree::valid_value(v),
                    None => true,
                }) by {
                    if p == partition.idx as int {
                        if k != key@ {
                            assert(old(self).staging_map(p).contains_key(k));
                        }
                    } else {
                        assert(self.staging_map(p) == old(self).staging_map(p));
                    }
                }
            }
        }
        Ok(())
    }

    /// Stages a delete of `key` for the partition; reads within the
    /// transaction then miss the key, and commit writes a tombstone.
    /// Refuses, with `InvalidInput` and no effect, an empty key or a key
    /// over the tree's cap.
    pub fn remove(&mut self, partition: &TxPartitionHandle, key: &[u8]) -> (r: Result<(), KvError>)
        requires
            partition.idx < old(self).staging_len(),
        ensures
            final(self).nonce == old(self).nonce,
            final(self).durability_of() == old(self).durability_of(),
            final(self).staging_len() == old(self).staging_len(),
            ((r is Ok) <==> crate::tree::valid_key(key@)),
            r matches Err(e) ==> e is InvalidInput && *final(self) == *old(self),
            r is Ok ==> final(self).staging_map(partition.idx as int) == old(self).staging_map(
                partition.idx as int,
            ).insert(key@, None),
            forall|p: int|
                p != partition.idx as int ==> #[trigger] final(self).staging_map(p) == old(self).staging_map(p),
            staging_wf(*old(self)) ==> staging_wf(*final(self)),
    {
        if key.len() == 0 || key.len() > crate::tree::MAX_KEY_LEN {
            return Err(KvError::InvalidInput);
        }
        let kv = vstd::slice::slice_to_vec(key);
        let slot = vec_index_mut(&mut self.staging, partition.idx);
        match slot {
            Some(t) => {
                staging_delete(t, &kv);
            }
            None => {
                let mut t = staging_new();
                staging_delete(&mut t, &kv);
                *slot = Some(t);
            }
        }
        proof {
            if staging_wf(*old(self)) {
                assert forall|p: int, k: Seq<u8>|
                    #[trigger] self.staging_map(p).contains_key(k) implies crate::tree::valid_key(
                    k,
                ) && (match self.staging_map(p)[k] {
                    Some(v) => crate::tree::valid_value(v),
                    None => true,
                }) by {
                    if p == partition.idx as int {
                        if k != key@ {
                            assert(old(self).staging_map(p).contains_key(k));
                        }
                    } else {
                        assert(self.staging_map(p) == old(self).staging_map(p));
                    }
                }
            }
        }
        Ok(())
    }

    /// Retrieves an item from the transaction's state: the staged write
    /// of the key if there is one (read-your-own-writes), else the
    /// partition at the transaction's snapshot. A key over the tree's
    /// cap is refused up front; a staged read makes no storage call and
    /// always succeeds.
    pub fn get(&self, ks: &Keyspace, partition: &TxPartitionHandle, key: &[u8]) -> (r: Result<
        Option<Vec<u8>>,
        KvError,
    >)
        requires
            ks.wf(),
            partition.idx < ks.partitions.len(),
            partition.idx < self.staging_len(),
            1 <= self.nonce.instant,
        ensures
            r matches Ok(v) ==> opt_bytes(v) == merged_value(
                ks.plog(partition.idx as int),
                self.staging_map(partition.idx as int),
                key@,
                self.nonce.instant,
            ),
            ((key@.len() > crate::tree::MAX_KEY_LEN) <==> (r matches Err(e) && e is InvalidInput)),
            key@.len() <= crate::tree::MAX_KEY_LEN && self.staging_map(
                partition.idx as int,
            ).contains_key(key@) ==> (r is Ok),
    {
        if key.len() > crate::tree::MAX_KEY_LEN {
            return Err(KvError::InvalidInput);
        }
        let kv = vstd::slice::slice_to_vec(key);
        match &self.staging[partition.idx] {
            Some(t) => {
                match staging_get(t, &kv) {
                    Some(e) => {
                        return Ok(
                            match ignore_tombstone_value(e) {
                                Some(x) => Some(x.value),
                                None => None,
                            },
                        );
                    }
                    None => {}
                }
            }
            None => {}
        }
        match tree_get(&ks.partitions[partition.idx].tree, &kv, self.nonce.instant) {
            Ok(v) => Ok(v),
            Err(e) => Err(KvError::Storage(e)),
        }
    }

    /// Whether the transaction's state contains the key.
    pub fn contains_key(&self, ks: &Keyspace, partition: &TxPartitionHandle, key: &[u8]) -> (r:
        Result<bool, KvError>)
        requires
            ks.wf(),
            partition.idx < ks.partitions.len(),
            partition.idx < self.staging_len(),
            1 <= self.nonce.instant,
        ensures
            r matches Ok(b) ==> (b <==> merged_value(
                ks.plog(partition.idx as int),
                self.staging_map(partition.idx as int),
                key@,
                self.nonce.instant,
            ) is Some),
            ((key@.len() > crate::tree::MAX_KEY_LEN) <==> (r matches Err(e) && e is InvalidInput)),
            key@.len() <= crate::tree::MAX_KEY_LEN && self.staging_map(
                partition.idx as int,
            ).contains_key(key@) ==> (r is Ok),
    {
        if key.len() > crate::tree::MAX_KEY_LEN {
            return Err(KvError::InvalidInput);
        }
        let kv = vstd::slice::slice_to_vec(key);
        match &self.staging[partition.idx] {
            Some(t) => {
                match staging_get(t, &kv) {
                    Some(e) => {
                        return Ok(!e.is_tombstone);
                    }
                    None => {}
                }
            }
            None => {}
        }
        match tree_get(&ks.partitions[partition.idx].tree, &kv, self.nonce.instant) {
            Ok(v) => Ok(v.is_some()),
            Err(e) => Err(KvError::Storage(e)),
        }
    }

    /// Removes an item and returns its previous value, if any. A key the
    /// tree refuses yields `InvalidInput` with no effect; a key held in
    /// staging makes no storage call and always succeeds.
    pub fn take(&mut self, ks: &Keyspace, partition: &TxPartitionHandle, key: &[u8]) -> (r: Result<
        Option<Vec<u8>>,
        KvError,
    >)
        requires
            ks.wf(),
            partition.idx < ks.partitions.len(),
            partition.idx < old(self).staging_len(),
            1 <= old(self).nonce.instant,
        ensures
            final(self).nonce == old(self).nonce,
            final(self).durability_of() == old(self).durability_of(),
            final(self).staging_len() == old(self).staging_len(),
            r matches Ok(prev) ==> opt_bytes(prev) == merged_value(
                ks.plog(partition.idx as int),
                old(self).staging_map(partition.idx as int),
                key@,
                old(self).nonce.instant,
            ),
            r matches Ok(prev) ==> final(self).staging_map(partition.idx as int) == (if prev
                is Some {
                old(self).staging_map(partition.idx as int).insert(key@, None)
            } else {
                old(self).staging_map(partition.idx as int)
            }),
            forall|p: int|
                p != partition.idx as int ==> #[trigger] final(self).staging_map(p) == old(self).staging_map(p),
            r is Err ==> *final(self) == *old(self),
            key@.len() > crate::tree::MAX_KEY_LEN ==> (r matches Err(e) && e is InvalidInput),
            (r matches Err(e) && e is InvalidInput) ==> !crate::tree::valid_key(key@),
            crate::tree::valid_key(key@) && old(self).staging_map(partition.idx as int).contains_key(
                key@,
            ) ==> (r is Ok),
            staging_wf(*old(self)) ==> staging_wf(*final(self)),
    {
        let prev = match self.get(ks, partition, key) {
            Ok(v) => v,
            Err(e) => {
                return Err(e);
            }
        };
        if prev.is_some() {
            match self.remove(partition, key) {
                Ok(u) => u,
                Err(e) => {
                    return Err(e);
                }
            };
        }
        Ok(prev)
    }

    /// Atomically updates an item and returns the previous value. `f`
    /// maps the current value to the new one; `None` removes the item.
    /// A write that would not change the value is skipped, keeping the
    /// journal small: the staging is then untouched. Refused with
    /// `InvalidInput` and no effect: a key the tree refuses, or an
    /// update value over the tree's cap.
    pub fn fetch_update<F: Fn(Option<Vec<u8>>) -> Option<Vec<u8>>>(
        &mut self,
        ks: &Keyspace,
        partition: &TxPartitionHandle,
        key: &[u8],
        f: F,
    ) -> (r: Result<Option<Vec<u8>>, KvError>)
        requires
            ks.wf(),
            partition.idx < ks.partitions.len(),
            partition.idx < old(self).staging_len(),
            1 <= old(self).nonce.instant,
            forall|arg: Option<Vec<u8>>| #[trigger] f.requires((arg,)),
        ensures
            final(self).nonce == old(self).nonce,
            final(self).durability_of() == old(self).durability_of(),
            final(self).staging_len() == old(self).staging_len(),
            forall|p: int|
                p != partition.idx as int ==> #[trigger] final(self).staging_map(p) == old(self).staging_map(p),
            r matches Ok(prev) ==> opt_bytes(prev) == merged_value(
                ks.plog(partition.idx as int),
                old(self).staging_map(partition.idx as int),
                key@,
                old(self).nonce.instant,
            ) && (exists|pv: Option<Vec<u8>>, up: Option<Vec<u8>>|
                {
                    &&& opt_bytes(pv) == opt_bytes(prev)
                    &&& #[trigger] f.ensures((pv,), up)
                    &&& final(self).staging_map(partition.idx as int) == (if opt_bytes(up)
                        == opt_bytes(pv) {
                        old(self).staging_map(partition.idx as int)
                    } else {
                        (match up {
                            Some(v) => old(self).staging_map(partition.idx as int).insert(
                                key@,
                                Some(v@),
                            ),
                            None => old(self).staging_map(partition.idx as int).insert(key@, None),
                        })
                    })
                }),
            r is Err ==> *final(self) == *old(self),
            key@.len() > crate::tree::MAX_KEY_LEN ==> (r matches Err(e) && e is InvalidInput),
            crate::tree::valid_key(key@) && old(self).staging_map(partition.idx as int).contains_key(
                key@,
            ) ==> !(r matches Err(e) && e is Storage),
            (r matches Err(e) && e is InvalidInput) ==> !crate::tree::valid_key(key@) || (exists|
                pv: Option<Vec<u8>>,
                up: Option<Vec<u8>>,
            |
                {
                    &&& opt_bytes(pv) == merged_value(
                        ks.plog(partition.idx as int),
                        old(self).staging_map(partition.idx as int),
                        key@,
                        old(self).nonce.instant,
                    )
                    &&& #[trigger] f.ensures((pv,), up)
                    &&& (up matches Some(v) && !crate::tree::valid_value(v@))
                }),
            staging_wf(*old(self)) ==> staging_wf(*final(self)),
    {
        let prev = match self.get(ks, partition, key) {
            Ok(v) => v,
            Err(e) => {
                return Err(e);
            }
        };
        let prev_for_f = match &prev {
            Some(v) => Some(clone_bytes(v)),
            None => None,
        };
        let ghost pv = prev_for_f;
        let updated = f(prev_for_f);
        match &updated {
            Some(value) => {
                if !opt_bytes_eq(&updated, &prev) {
                    match self.insert(partition, key, value.as_slice()) {
                        Ok(u) => u,
                        Err(e) => {
                            return Err(e);
                        }
                    };
                } else {
                    proof {
                        assert(opt_bytes(updated) == opt_bytes(pv));
                    }
                }
            }
            None => {
                if prev.is_some() {
                    match self.remove(partition, key) {
                        Ok(u) => u,
                        Err(e) => {
                            return Err(e);
                        }
                    };
                } else {
                    proof {
                        assert(opt_bytes(updated) == opt_bytes(pv));
                    }
                }
            }
        }
        Ok(prev)
    }

    /// Atomically updates an item and returns the new value. `f` maps
    /// the current value to the new one; `None` removes the item. A
    /// write that would not change the value is skipped: the staging is
    /// then untouched. Refused with `InvalidInput` and no effect: a key
    /// the tree refuses, or an update value over the tree's cap.
    pub fn update_fetch<F: Fn(Option<Vec<u8>>) -> Option<Vec<u8>>>(
        &mut self,
        ks: &Keyspace,
        partition: &TxPartitionHandle,
        key: &[u8],
        f: F,
    ) -> (r: Result<Option<Vec<u8>>, KvError>)
        requires
            ks.wf(),
            partition.idx < ks.partitions.len(),
            partition.idx < old(self).staging_len(),
            1 <= old(self).nonce.instant,
            forall|arg: Option<Vec<u8>>| #[trigger] f.requires((arg,)),
        ensures
            final(self).nonce == old(self).nonce,
            final(self).durability_of() == old(self).durability_of(),
            final(self).staging_len() == old(self).staging_len(),
            forall|p: int|
                p != partition.idx as int ==> #[trigger] final(self).staging_map(p) == old(self).staging_map(p),
            r matches Ok(updated) ==> (exists|pv: Option<Vec<u8>>, up: Option<Vec<u8>>|
                {
                    &&& opt_bytes(pv) == merged_value(
                        ks.plog(partition.idx as int),
                        old(self).staging_map(partition.idx as int),
                        key@,
                        old(self).nonce.instant,
                    )
                    &&& #[trigger] f.ensures((pv,), up)
                    &&& opt_bytes(up) == opt_bytes(updated)
                    &&& final(self).staging_map(partition.idx as int) == (if opt_bytes(up)
                        == opt_bytes(pv) {
                        old(self).staging_map(partition.idx as int)
                    } else {
                        (match up {
                            Some(v) => old(self).staging_map(partition.idx as int).insert(
                                key@,
                                Some(v@),
                            ),
                            None => old(self).staging_map(partition.idx as int).insert(key@, None),
                        })
                    })
                }),
            r is Err ==> *final(self) == *old(self),
            key@.len() > crate::tree::MAX_KEY_LEN ==> (r matches Err(e) && e is InvalidInput),
            crate::tree::valid_key(key@) && old(self).staging_map(partition.idx as int).contains_key(
                key@,
            ) ==> !(r matches Err(e) && e is Storage),
            (r matches Err(e) && e is InvalidInput) ==> !crate::tree::valid_key(key@) || (exists|
                pv: Option<Vec<u8>>,
                up: Option<Vec<u8>>,
            |
                {
                    &&& opt_bytes(pv) == merged_value(
                        ks.plog(partition.idx as int),
                        old(self).staging_map(partition.idx as int),
                        key@,
                        old(self).nonce.instant,
                    )
                    &&& #[trigger] f.ensures((pv,), up)
                    &&& (up matches Some(v) && !crate::tree::valid_value(v@))
                }),
            staging_wf(*old(self)) ==> staging_wf(*final(self)),
    {
        let prev = match self.get(ks, partition, key) {
            Ok(v) => v,
            Err(e) => {
                return Err(e);
            }
        };
        let prev_for_f = match &prev {
            Some(v) => Some(clone_bytes(v)),
            None => None,
        };
        let ghost pv = prev_for_f;
        let updated = f(prev_for_f);
        match &updated {
            Some(value) => {
                if !opt_bytes_eq(&updated, &prev) {
                    match self.insert(partition, key, value.as_slice()) {
                        Ok(u) => u,
                        Err(e) => {
                            return Err(e);
                        }
                    };
                } else {
                    proof {
                        assert(opt_bytes(updated) == opt_bytes(pv));
                    }
                }
            }
            None => {
                if prev.is_some() {
                    match self.remove(partition, key) {
                        Ok(u) => u,
                        Err(e) => {
                            return Err(e);
                        }
                    };
                } else {
                    proof {
                        assert(opt_bytes(updated) == opt_bytes(pv));
                    }
                }
            }
        }
        Ok(updated)
    }

    /// Every key-value pair of the transaction's state, staged writes
    /// shadowing the snapshot, in ascending key order.
    pub fn iter(&self, ks: &Keyspace, partition: &TxPartitionHandle) -> (r: Result<
        Vec<(Vec<u8>, Vec<u8>)>,
        KvError,
    >)
        requires
            ks.wf(),
            partition.idx < ks.partitions.len(),
            partition.idx < self.staging_len(),
            1 <= self.nonce.instant,
            self.nonce.instant <= crate::tree::STAGE_SEQNO,
        ensures
            r matches Ok(pairs) ==> snapshot_listing(
                ks.plog(partition.idx as int),
                self.staging_map(partition.idx as int),
                self.nonce.instant,
                crate::version_log::all_keys(),
                pairs@,
            ),
    {
        let st: Option<&StagingTable> = match &self.staging[partition.idx] {
            Some(t) => Some(t),
            None => None,
        };
        proof {
            assert(staging_opt(st) =~= self.staging_map(partition.idx as int));
        }
        match tree_iter(&ks.partitions[partition.idx].tree, self.nonce.instant, st) {
            Ok(pairs) => Ok(pairs),
            Err(e) => Err(KvError::Storage(e)),
        }
    }

    /// The keys of the transaction's state, in ascending order.
    pub fn keys(&self, ks: &Keyspace, partition: &TxPartitionHandle) -> (r: Result<
        Vec<Vec<u8>>,
        KvError,
    >)
        requires
            ks.wf(),
            partition.idx < ks.partitions.len(),
            partition.idx < self.staging_len(),
            1 <= self.nonce.instant,
            self.nonce.instant <= crate::tree::STAGE_SEQNO,
        ensures
            r matches Ok(v) ==> exists|pairs: Seq<(Vec<u8>, Vec<u8>)>|
                #[trigger] snapshot_listing(
                    ks.plog(partition.idx as int),
                    self.staging_map(partition.idx as int),
                    self.nonce.instant,
                    crate::version_log::all_keys(),
                    pairs,
                ) && v@.len() == pairs.len() && (forall|i: int|
                    0 <= i < pairs.len() ==> (#[trigger] v@[i])@ == pairs[i].0@),
    {
        let pairs = self.iter(ks, partition)?;
        let mut out: Vec<Vec<u8>> = Vec::new();
        let mut i: usize = 0;
        while i < pairs.len()
            invariant
                i <= pairs.len(),
                out.len() == i,
                forall|j: int| 0 <= j < i ==> (#[trigger] out@[j])@ == pairs@[j].0@,
            decreases pairs.len() - i,
        {
            out.push(clone_bytes(&pairs[i].0));
            i += 1;
        }
        Ok(out)
    }

    /// The values of the transaction's state, ordered by their keys.
    pub fn values(&self, ks: &Keyspace, partition: &TxPartitionHandle) -> (r: Result<
        Vec<Vec<u8>>,
        KvError,
    >)
        requires
            ks.wf(),
            partition.idx < ks.partitions.len(),
            partition.idx < self.staging_len(),
            1 <= self.nonce.instant,
            self.nonce.instant <= crate::tree::STAGE_SEQNO,
        ensures
            r matches Ok(v) ==> exists|pairs: Seq<(Vec<u8>, Vec<u8>)>|
                #[trigger] snapshot_listing(
                    ks.plog(partition.idx as int),
                    self.staging_map(partition.idx as int),
                    self.nonce.instant,
                    crate::version_log::all_keys(),
                    pairs,
                ) && v@.len() == pairs.len() && (forall|i: int|
                    0 <= i < pairs.len() ==> (#[trigger] v@[i])@ == pairs[i].1@),
    {
        let pairs = self.iter(ks, partition)?;
        let mut out: Vec<Vec<u8>> = Vec::new();
        let mut i: usize = 0;
        while i < pairs.len()
            invariant
                i <= pairs.len(),
                out.len() == i,
                forall|j: int| 0 <= j < i ==> (#[trigger] out@[j])@ == pairs@[j].1@,
            decreases pairs.len() - i,
        {
            out.push(clone_bytes(&pairs[i].1));
            i += 1;
        }
        Ok(out)
    }

    /// The pair with the minimum key in the transaction's state.
    pub fn first_key_value(&self, ks: &Keyspace, partition: &TxPartitionHandle) -> (r: Result<
        Option<(Vec<u8>, Vec<u8>)>,
        KvError,
    >)
        requires
            ks.wf(),
            partition.idx < ks.partitions.len(),
            partition.idx < self.staging_len(),
            1 <= self.nonce.instant,
            self.nonce.instant <= crate::tree::STAGE_SEQNO,
        ensures
            r matches Ok(v) ==> (match v {
                Some(kv) => merged_value(
                    ks.plog(partition.idx as int),
                    self.staging_map(partition.idx as int),
                    kv.0@,
                    self.nonce.instant,
                ) == Some(kv.1@) && forall|k2: Seq<u8>|
                    (#[trigger] merged_value(
                        ks.plog(partition.idx as int),
                        self.staging_map(partition.idx as int),
                        k2,
                        self.nonce.instant,
                    )) is Some ==> lex_le(kv.0@, k2),
                None => forall|k2: Seq<u8>|
                    !((#[trigger] merged_value(
                        ks.plog(partition.idx as int),
                        self.staging_map(partition.idx as int),
                        k2,
                        self.nonce.instant,
                    )) is Some),
            }),
    {
        let pairs = self.iter(ks, partition)?;
        Ok(
            listing_first(
                &pairs,
                Ghost(ks.plog(partition.idx as int)),
                Ghost(self.staging_map(partition.idx as int)),
                Ghost(self.nonce.instant),
            ),
        )
    }

    /// The pair with the maximum key in the transaction's state.
    pub fn last_key_value(&self, ks: &Keyspace, partition: &TxPartitionHandle) -> (r: Result<
        Option<(Vec<u8>, Vec<u8>)>,
        KvError,
    >)
        requires
            ks.wf(),
            partition.idx < ks.partitions.len(),
            partition.idx < self.staging_len(),
            1 <= self.nonce.instant,
            self.nonce.instant <= crate::tree::STAGE_SEQNO,
        ensures
            r matches Ok(v) ==> (match v {
                Some(kv) => merged_value(
                    ks.plog(partition.idx as int),
                    self.staging_map(partition.idx as int),
                    kv.0@,
                    self.nonce.instant,
                ) == Some(kv.1@) && forall|k2: Seq<u8>|
                    (#[trigger] merged_value(
                        ks.plog(partition.idx as int),
                        self.staging_map(partition.idx as int),
                        k2,
                        self.nonce.instant,
                    )) is Some ==> lex_le(k2, kv.0@),
                None => forall|k2: Seq<u8>|
                    !((#[trigger] merged_value(
                        ks.plog(partition.idx as int),
                        self.staging_map(partition.idx as int),
                        k2,
                        self.nonce.instant,
                    )) is Some),
            }),
    {
        let pairs = self.iter(ks, partition)?;
        Ok(
            listing_last(
                &pairs,
                Ghost(ks.plog(partition.idx as int)),
                Ghost(self.staging_map(partition.idx as int)),
                Ghost(self.nonce.instant),
            ),
        )
    }

    /// Scans the entire partition, returning the number of items the
    /// transaction sees, its own staged writes included.
    pub fn len(&self, ks: &Keyspace, partition: &TxPartitionHandle) -> (r: Result<usize, KvError>)
        requires
            ks.wf(),
            partition.idx < ks.partitions.len(),
            partition.idx < self.staging_len(),
            1 <= self.nonce.instant,
            self.nonce.instant <= crate::tree::STAGE_SEQNO,
        ensures
            r matches Ok(n) ==> exists|pairs: Seq<(Vec<u8>, Vec<u8>)>|
                #[trigger] snapshot_listing(
                    ks.plog(partition.idx as int),
                    self.staging_map(partition.idx as int),
                    self.nonce.instant,
                    crate::version_log::all_keys(),
                    pairs,
                ) && n == pairs.len(),
    {
        let pairs = self.iter(ks, partition)?;
        Ok(pairs.len())
    }

    /// The pairs whose keys lie in the inclusive range `lo..=hi`, staged
    /// writes shadowing the snapshot, in ascending key order.
    pub fn range(&self, ks: &Keyspace, partition: &TxPartitionHandle, lo: &[u8], hi: &[u8]) -> (r:
        Result<Vec<(Vec<u8>, Vec<u8>)>, KvError>)
        requires
            ks.wf(),
            partition.idx < ks.partitions.len(),
            partition.idx < self.staging_len(),
            1 <= self.nonce.instant,
            self.nonce.instant <= crate::tree::STAGE_SEQNO,
        ensures
            r matches Ok(pairs) ==> snapshot_listing(
                ks.plog(partition.idx as int),
                self.staging_map(partition.idx as int),
                self.nonce.instant,
                (|k: Seq<u8>| lex_le(lo@, k) && lex_le(k, hi@)),
                pairs@,
            ),
            ((lo@.len() > crate::tree::MAX_KEY_LEN || hi@.len() > crate::tree::MAX_KEY_LEN) <==> (
            r matches Err(e) && e is InvalidInput)),
    {
        if lo.len() > crate::tree::MAX_KEY_LEN || hi.len() > crate::tree::MAX_KEY_LEN {
            return Err(KvError::InvalidInput);
        }
        let lov = vstd::slice::slice_to_vec(lo);
        let hiv = vstd::slice::slice_to_vec(hi);
        let st: Option<&StagingTable> = match &self.staging[partition.idx] {
            Some(t) => Some(t),
            None => None,
        };
        proof {
            assert(staging_opt(st) =~= self.staging_map(partition.idx as int));
        }
        match tree_range(&ks.partitions[partition.idx].tree, &lov, &hiv, self.nonce.instant, st) {
            Ok(pairs) => Ok(pairs),
            Err(e) => Err(KvError::Storage(e)),
        }
    }

    /// The pairs whose keys start with `prefix`, staged writes shadowing
    /// the snapshot, in ascending key order.
    pub fn prefix(&self, ks: &Keyspace, partition: &TxPartitionHandle, prefix: &[u8]) -> (r: Result<
        Vec<(Vec<u8>, Vec<u8>)>,
        KvError,
    >)
        requires
            ks.wf(),
            partition.idx < ks.partitions.len(),
            partition.idx < self.staging_len(),
            1 <= self.nonce.instant,
            self.nonce.instant <= crate::tree::STAGE_SEQNO,
        ensures
            r matches Ok(pairs) ==> snapshot_listing(
                ks.plog(partition.idx as int),
                self.staging_map(partition.idx as int),
                self.nonce.instant,
                (|k: Seq<u8>| is_prefix_of(prefix@, k)),
                pairs@,
            ),
            ((prefix@.len() > crate::tree::MAX_KEY_LEN) <==> (r matches Err(e) && e is InvalidInput)),
    {
        if prefix.len() > crate::tree::MAX_KEY_LEN {
            return Err(KvError::InvalidInput);
        }
        let pv = vstd::slice::slice_to_vec(prefix);
        let st: Option<&StagingTable> = match &self.staging[partition.idx] {
            Some(t) => Some(t),
            None => None,
        };
        proof {
            assert(staging_opt(st) =~= self.staging_map(partition.idx as int));
        }
        match tree_prefix(&ks.partitions[partition.idx].tree, &pv, self.nonce.instant, st) {
            Ok(pairs) => Ok(pairs),
            Err(e) => Err(KvError::Storage(e)),
        }
    }


    /// Collects each partition's staged records, in ascending key
    /// order; partitions without staged writes get an empty run.
    fn collect_entries(&self) -> (entries: Vec<Vec<InternalEntry>>)
        ensures
            entries@.len() == self.staging_len(),
            entries_listed(*self, entries@),
    {
        let mut entries: Vec<Vec<InternalEntry>> = Vec::new();
        let mut p: usize = 0;
        while p < self.staging.len()
            invariant
                p == entries.len(),
                p <= self.staging@.len(),
                entries_listed(*self, entries@),
            decreases self.staging@.len() - p,
        {
            match &self.staging[p] {
                Some(t) => {
                    let es = staging_entries(t);
                    entries.push(es);
                }
                None => {
                    let es: Vec<InternalEntry> = Vec::new();
                    proof {
                        assert(crate::tree::staging_listing(self.staging_map(p as int), es@));
                    }
                    entries.push(es);
                }
            }
            p += 1;
        }
        entries
    }

    /// Assembles the batch record: every staged write of every
    /// partition, tagged with its partition's name.
    #[verifier::rlimit(100)]
    fn assemble_batch(&self, ks: &Keyspace, entries: &Vec<Vec<InternalEntry>>) -> (items: Vec<
        crate::marker::Item,
    >)
        requires
            ks.wf(),
            self.staging_len() == ks.partitions.len() as int,
            entries@.len() == ks.partitions.len(),
            entries_listed(*self, entries@),
        ensures
            items_sound(
                crate::marker::item_models(items@),
                *self,
                ks.partitions@.map_values(ppname()),
            ),
            items_complete_upto(
                crate::marker::item_models(items@),
                *self,
                ks.partitions@.map_values(ppname()),
                ks.partitions.len() as int,
            ),
    {
        let ghost names = ks.partitions@.map_values(ppname());
        let mut items: Vec<crate::marker::Item> = Vec::new();
        let mut p: usize = 0;
        while p < entries.len()
            invariant
                ks.wf(),
                self.staging_len() == ks.partitions.len() as int,
                names == ks.partitions@.map_values(ppname()),
                entries@.len() == ks.partitions.len(),
                p <= entries@.len(),
                entries_listed(*self, entries@),
                items_sound(crate::marker::item_models(items@), *self, names),
                items_complete_upto(crate::marker::item_models(items@), *self, names, p as int),
            decreases entries@.len() - p,
        {
            let mut e: usize = 0;
            while e < entries[p].len()
                invariant
                    ks.wf(),
                    self.staging_len() == ks.partitions.len() as int,
                    names == ks.partitions@.map_values(ppname()),
                    entries@.len() == ks.partitions.len(),
                    p < entries@.len(),
                    e <= entries@[p as int]@.len(),
                    entries_listed(*self, entries@),
                    items_sound(crate::marker::item_models(items@), *self, names),
                    items_complete_upto(
                        crate::marker::item_models(items@),
                        *self,
                        names,
                        p as int,
                    ),
                    entry_keys_covered(
                        crate::marker::item_models(items@),
                        entries@[p as int]@,
                        names[p as int],
                        e as int,
                    ),
                decreases entries@[p as int]@.len() - e,
            {
                let ent_is_tomb = entries[p][e].is_tombstone;
                let kind = if ent_is_tomb {
                    crate::marker::ValueKind::Tombstone
                } else {
                    crate::marker::ValueKind::Value
                };
                let item = crate::marker::Item::new(
                    ks.partitions[p].name.as_slice(),
                    entries[p][e].key.as_slice(),
                    entries[p][e].value.as_slice(),
                    kind,
                );
                let ghost prev_m = crate::marker::item_models(items@);
                let ghost es = entries@[p as int]@;
                proof {
                    assert(names[p as int] == ks.partitions@[p as int].name@);
                    assert(self.staging_map(p as int).contains_key(es[e as int].key@)
                        && self.staging_map(p as int)[es[e as int].key@] == entry_value(
                        es[e as int],
                    ));
                }
                items.push(item);
                proof {
                    let m = crate::marker::item_models(items@);
                    assert(m =~= prev_m.push(item@));
                    assert(forall|j: int|
                        0 <= j < prev_m.len() ==> (#[trigger] m[j]) == prev_m[j]);
                    let newj = prev_m.len() as int;
                    assert(m[newj] == item@);
                    assert(item@.partition == names[p as int] && item@.key == es[e as int].key@
                        && self.staging_map(p as int).contains_key(item@.key)
                        && self.staging_map(p as int)[item@.key] == (if item@.tombstone {
                        None
                    } else {
                        Some(item@.value)
                    }));
                    assert forall|j: int| 0 <= j < m.len() implies (exists|q: int|
                        0 <= q < names.len() && #[trigger] names[q] == (#[trigger] m[j]).partition
                            && self.staging_map(q).contains_key(m[j].key)
                            && self.staging_map(q)[m[j].key] == (if m[j].tombstone {
                            None
                        } else {
                            Some(m[j].value)
                        })) by {
                        if j < newj {
                            assert(m[j] == prev_m[j]);
                        } else {
                            assert(m[j] == item@);
                            assert((p as int) < names.len());
                        }
                    }
                    assert forall|q: int, k: Seq<u8>|
                        0 <= q < p as int && #[trigger] self.staging_map(q).contains_key(k)
                        implies (exists|j: int|
                        0 <= j < m.len() && (#[trigger] m[j]).partition == names[q] && m[j].key
                            == k) by {
                        let j0 = choose|j: int|
                            0 <= j < prev_m.len() && (#[trigger] prev_m[j]).partition == names[q]
                                && prev_m[j].key == k;
                        assert(m[j0] == prev_m[j0]);
                    }
                    assert forall|i: int| 0 <= i < e as int + 1 implies (exists|j: int|
                        0 <= j < m.len() && (#[trigger] m[j]).partition == names[p as int]
                            && m[j].key == (#[trigger] es[i]).key@) by {
                        if i < e as int {
                            let j0 = choose|j: int|
                                0 <= j < prev_m.len() && (#[trigger] prev_m[j]).partition
                                    == names[p as int] && prev_m[j].key == es[i].key@;
                            assert(m[j0] == prev_m[j0]);
                        } else {
                            assert(m[newj].partition == names[p as int] && m[newj].key
                                == es[i].key@);
                        }
                    }
                }
                e += 1;
            }
            proof {
                let m = crate::marker::item_models(items@);
                assert forall|k: Seq<u8>|
                    #[trigger] self.staging_map(p as int).contains_key(k) implies (exists|j: int|
                    0 <= j < m.len() && (#[trigger] m[j]).partition == names[p as int] && m[j].key
                        == k) by {
                    let es = entries@[p as int]@;
                    let i = choose|i: int| 0 <= i < es.len() && (#[trigger] es[i]).key@ == k;
                }
            }
            p += 1;
        }
        items
    }

    /// Applies the staged runs to each partition's live tree, grouped by
    /// partition, all under the sequence number `seqno`, which lies at
    /// or above everything the trees already hold. Every record obeys
    /// the tree's caps. Nothing else of the keyspace changes.
    #[verifier::rlimit(100)]
    fn apply_batch(ks: &mut Keyspace, entries: &Vec<Vec<InternalEntry>>, seqno: u64)
        requires
            entries@.len() == old(ks).partitions.len(),
            forall|q: int, i: int|
                0 <= q < old(ks).partitions.len() && 0 <= i < crate::tree::tree_log(
                    old(ks).partitions@[q].tree,
                ).len() ==> (#[trigger] crate::tree::tree_log(old(ks).partitions@[q].tree)[i]).0
                    <= seqno,
            forall|q: int, i: int|
                0 <= q < entries@.len() && 0 <= i < entries@[q]@.len() ==> crate::tree::valid_key(
                    (#[trigger] entries@[q]@[i]).key@,
                ) && (!entries@[q]@[i].is_tombstone ==> crate::tree::valid_value(
                    entries@[q]@[i].value@,
                )),
        ensures
            final(ks).journal == old(ks).journal,
            final(ks).tracker == old(ks).tracker,
            final(ks).next_seqno == old(ks).next_seqno,
            final(ks).compaction == old(ks).compaction,
            partitions_meta_of(*old(ks), *final(ks)),
            logs_applied_upto(*old(ks), *final(ks), entries@, seqno, entries@.len() as int),
    {
        let mut p: usize = 0;
        while p < entries.len()
            invariant
                entries@.len() == old(ks).partitions.len(),
                p <= entries@.len(),
                ks.journal == old(ks).journal,
                ks.tracker == old(ks).tracker,
                ks.next_seqno == old(ks).next_seqno,
                ks.compaction == old(ks).compaction,
                partitions_meta_of(*old(ks), *ks),
                logs_applied_upto(*old(ks), *ks, entries@, seqno, p as int),
                forall|q: int, i: int|
                    0 <= q < old(ks).partitions.len() && 0 <= i < crate::tree::tree_log(
                        old(ks).partitions@[q].tree,
                    ).len() ==> (#[trigger] crate::tree::tree_log(old(ks).partitions@[q].tree)[i]).0
                        <= seqno,
                forall|q: int, i: int|
                    0 <= q < entries@.len() && 0 <= i < entries@[q]@.len()
                        ==> crate::tree::valid_key((#[trigger] entries@[q]@[i]).key@) && (
                    !entries@[q]@[i].is_tombstone ==> crate::tree::valid_value(
                        entries@[q]@[i].value@,
                    )),
            decreases entries@.len() - p,
        {
            proof {
                assert(crate::listing::staged_adds(entries@[p as int]@.subrange(0, 0), seqno)
                    =~= Seq::<(u64, Seq<u8>, Option<Seq<u8>>)>::empty());
                assert(crate::tree::tree_log(ks.partitions@[p as int].tree)
                    =~= crate::tree::tree_log(old(ks).partitions@[p as int].tree)
                    + crate::listing::staged_adds(entries@[p as int]@.subrange(0, 0), seqno));
            }
            let mut e: usize = 0;
            while e < entries[p].len()
                invariant
                    entries@.len() == old(ks).partitions.len(),
                    p < entries@.len(),
                    e <= entries@[p as int]@.len(),
                    ks.journal == old(ks).journal,
                    ks.tracker == old(ks).tracker,
                    ks.next_seqno == old(ks).next_seqno,
                    ks.compaction == old(ks).compaction,
                    partitions_meta_of(*old(ks), *ks),
                    logs_applied_except(*old(ks), *ks, entries@, seqno, p as int),
                    crate::tree::tree_log(ks.partitions@[p as int].tree) == crate::tree::tree_log(
                        old(ks).partitions@[p as int].tree,
                    ) + crate::listing::staged_adds(
                        entries@[p as int]@.subrange(0, e as int),
                        seqno,
                    ),
                    forall|q: int, i: int|
                        0 <= q < old(ks).partitions.len() && 0 <= i < crate::tree::tree_log(
                            old(ks).partitions@[q].tree,
                        ).len() ==> (#[trigger] crate::tree::tree_log(
                            old(ks).partitions@[q].tree,
                        )[i]).0 <= seqno,
                    forall|q: int, i: int|
                        0 <= q < entries@.len() && 0 <= i < entries@[q]@.len()
                            ==> crate::tree::valid_key((#[trigger] entries@[q]@[i]).key@) && (
                        !entries@[q]@[i].is_tombstone ==> crate::tree::valid_value(
                            entries@[q]@[i].value@,
                        )),
                decreases entries@[p as int]@.len() - e,
            {
                proof {
                    let cur_log = crate::tree::tree_log(ks.partitions@[p as int].tree);
                    let pre_log = crate::tree::tree_log(old(ks).partitions@[p as int].tree);
                    let adds = crate::listing::staged_adds(
                        entries@[p as int]@.subrange(0, e as int),
                        seqno,
                    );
                    assert forall|i: int| 0 <= i < cur_log.len() implies (#[trigger] cur_log[i]).0
                        <= seqno by {
                        if i < pre_log.len() {
                            assert(cur_log[i] == pre_log[i]);
                        } else {
                            assert(cur_log[i] == adds[i - pre_log.len()]);
                        }
                    }
                    assert(crate::tree::valid_key(entries@[p as int]@[e as int].key@));
                }
                let ent_is_tomb = entries[p][e].is_tombstone;
                let part = vec_index_mut(&mut ks.partitions, p);
                if ent_is_tomb {
                    crate::tree::tree_remove(&mut part.tree, &entries[p][e].key, seqno);
                } else {
                    crate::tree::tree_insert(
                        &mut part.tree,
                        &entries[p][e].key,
                        &entries[p][e].value,
                        seqno,
                    );
                }
                proof {
                    let es = entries@[p as int]@;
                    let ent = es[e as int];
                    assert(crate::listing::staged_adds(es.subrange(0, e as int + 1), seqno)
                        =~= crate::listing::staged_adds(es.subrange(0, e as int), seqno).push(
                        (seqno, ent.key@, entry_value(ent)),
                    ));
                    assert(crate::tree::tree_log(ks.partitions@[p as int].tree)
                        =~= crate::tree::tree_log(old(ks).partitions@[p as int].tree)
                        + crate::listing::staged_adds(es.subrange(0, e as int + 1), seqno));
                }
                e += 1;
            }
            proof {
                assert(entries@[p as int]@.subrange(0, entries@[p as int]@.len() as int)
                    =~= entries@[p as int]@);
            }
            p += 1;
        }
    }

    /// Assembles this transaction's staged writes into a pending
    /// commit: the write-ahead half of a commit. The surrounding
    /// program appends [`PendingCommit::encoded_record`]'s bytes to the
    /// shard file that the journal's `next_writer` names and syncs them
    /// at the wanted durability, then calls [`PendingCommit::apply`] on
    /// success — or [`PendingCommit::abort`] on an I/O failure, which
    /// leaves every memtable untouched.
    pub fn prepare(self, ks: &Keyspace) -> (pc: PendingCommit)
        requires
            ks.wf(),
            self.staging_len() == ks.partitions.len() as int,
            staging_wf(self),
        ensures
            pc.tx == self,
            prepared_for(pc, *ks),
    {
        let entries = self.collect_entries();
        let items = self.assemble_batch(ks, &entries);
        PendingCommit { tx: self, entries, items }
    }

    /// Commits the transaction in one call: all staged writes become
    /// one batch, journaled as a single framed record and applied to
    /// every touched partition under one freshly allocated sequence
    /// number, so they become visible together; see [`commit_post`] for
    /// the full statement. The transaction's snapshot is released.
    ///
    /// The record lands in a journal shard's modeled content; a program
    /// that must have the bytes on disk before the memtables change
    /// splits the commit with [`WriteTransaction::prepare`] instead and
    /// applies only after its own append and sync succeeded.
    pub fn commit(self, ks: &mut Keyspace) -> (r: Result<(), KvError>)
        requires
            old(ks).wf(),
            self.staging_len() == old(ks).partitions.len() as int,
            staging_wf(self),
            old(ks).tracker@.contains_key(self.nonce.instant),
            old(ks).next_seqno < crate::tree::STAGE_SEQNO,
        ensures
            final(ks).wf(),
            (r is Ok),
            commit_post(self, *old(ks), *final(ks)),
    {
        let pending = self.prepare(ks);
        pending.apply(ks)
    }

    /// Discards the staged writes without journaling anything and
    /// releases the transaction's snapshot.
    pub fn rollback(self, ks: &mut Keyspace)
        requires
            old(ks).wf(),
            old(ks).tracker@.contains_key(self.nonce.instant),
        ensures
            final(ks).wf(),
            final(ks).partitions == old(ks).partitions,
            final(ks).journal == old(ks).journal,
            final(ks).next_seqno == old(ks).next_seqno,
            final(ks).compaction == old(ks).compaction,
            final(ks).tracker@ == (if old(ks).tracker@[self.nonce.instant] > 1 {
                old(ks).tracker@.insert(
                    self.nonce.instant,
                    (old(ks).tracker@[self.nonce.instant] - 1) as u64,
                )
            } else {
                old(ks).tracker@.remove(self.nonce.instant)
            }),
    {
        ks.tracker.release(self.nonce.instant);
    }
}

/// A commit prepared but not yet applied: the staged writes collected
/// and the batch record assembled. This is the seam a program uses to
/// make the journal bytes durable before any memtable changes: append
/// [`PendingCommit::encoded_record`] to the shard file named by the
/// journal's `next_writer`, sync it, and only then [`PendingCommit::apply`];
/// on an I/O failure, [`PendingCommit::abort`] discards the batch with
/// no effect beyond releasing the snapshot. The keyspace must not be
/// touched between `prepare` and `apply`.
pub struct PendingCommit {
    /// The transaction the batch was assembled from.
    pub tx: WriteTransaction,
    /// Each partition's staged records, in ascending key order.
    pub entries: Vec<Vec<InternalEntry>>,
    /// The assembled batch items, partition by partition.
    pub items: Vec<crate::marker::Item>,
}

/// What [`WriteTransaction::prepare`] guarantees of a pending commit
/// against the keyspace it was prepared for.
pub open spec fn prepared_for(pc: PendingCommit, ks: Keyspace) -> bool {
    &&& pc.tx.staging_len() == ks.partitions.len() as int
    &&& staging_wf(pc.tx)
    &&& pc.entries@.len() == ks.partitions.len()
    &&& entries_listed(pc.tx, pc.entries@)
    &&& items_sound(
        crate::marker::item_models(pc.items@),
        pc.tx,
        ks.partitions@.map_values(ppname()),
    )
    &&& items_complete_upto(
        crate::marker::item_models(pc.items@),
        pc.tx,
        ks.partitions@.map_values(ppname()),
        ks.partitions.len() as int,
    )
}

impl PendingCommit {
    /// The framed batch record the journal will hold for this commit:
    /// exactly the bytes the surrounding program appends to the shard
    /// file before applying.
    pub fn encoded_record(&self, ks: &Keyspace) -> (r: Vec<u8>)
        ensures
            r@ == crate::marker::batch_enc(
                crate::marker::item_models(self.items@),
                ks.next_seqno,
            ),
    {
        crate::marker::encode_batch(&self.items, ks.next_seqno)
    }

    /// Publishes the prepared batch: appends its record to the modeled
    /// journal, applies every staged write under one fresh sequence
    /// number, and releases the snapshot; see [`commit_post`].
    #[verifier::rlimit(100)]
    pub fn apply(self, ks: &mut Keyspace) -> (r: Result<(), KvError>)
        requires
            old(ks).wf(),
            prepared_for(self, *old(ks)),
            old(ks).tracker@.contains_key(self.tx.nonce.instant),
            old(ks).next_seqno < crate::tree::STAGE_SEQNO,
        ensures
            final(ks).wf(),
            (r is Ok),
            commit_post(self.tx, *old(ks), *final(ks)),
    {
        let ghost s_commit = old(ks).next_seqno;
        let ghost names = old(ks).partitions@.map_values(ppname());

        // Journal the batch: the write-ahead step in the model. The
        // shard stays marked as needing a sync until the surrounding
        // program acknowledges one through the keyspace.
        let seqno = ks.next_seqno;
        let widx = ks.journal.get_writer();
        ks.journal.write_batch(widx, &self.items, seqno);
        let ghost journal_after = ks.journal;
        proof {
            assert(ks.journal.shards@[widx as int].contents@ == old(
                ks,
            ).journal.shards@[widx as int].contents@ + crate::marker::batch_enc(
                crate::marker::item_models(self.items@),
                s_commit,
            ));
            assert(forall|j: int|
                0 <= j < crate::journal::SHARD_COUNT as int && j != widx as int
                    ==> (#[trigger] ks.journal.shards@[j]).contents@ == old(
                    ks,
                ).journal.shards@[j].contents@);
        }

        // Apply the batch to each partition's live memtable.
        proof {
            assert forall|q: int, i: int|
                0 <= q < old(ks).partitions.len() && 0 <= i < crate::tree::tree_log(
                    old(ks).partitions@[q].tree,
                ).len() implies (#[trigger] crate::tree::tree_log(old(ks).partitions@[q].tree)[i]).0
                <= seqno by {
                assert(crate::keyspace::log_bounded(
                    crate::tree::tree_log(old(ks).partitions@[q].tree),
                    s_commit,
                ));
            }
            assert forall|q: int, i: int|
                0 <= q < self.entries@.len() && 0 <= i < self.entries@[q]@.len() implies crate::tree::valid_key(
                (#[trigger] self.entries@[q]@[i]).key@,
            ) && (!self.entries@[q]@[i].is_tombstone ==> crate::tree::valid_value(
                self.entries@[q]@[i].value@,
            )) by {
                let es = self.entries@[q]@;
                assert(crate::tree::staging_listing(self.tx.staging_map(q), es));
                assert(self.tx.staging_map(q).contains_key(es[i].key@) && self.tx.staging_map(q)[es[i].key@]
                    == entry_value(es[i]));
            }
        }
        WriteTransaction::apply_batch(ks, &self.entries, seqno);

        // Ask for compaction wherever a live memtable has outgrown its
        // threshold.
        let mut p: usize = 0;
        let ghost parts_after = ks.partitions;
        while p < ks.partitions.len()
            invariant
                p <= ks.partitions.len(),
                ks.partitions == parts_after,
                ks.partitions.len() == old(ks).partitions.len(),
                ks.journal == journal_after,
                ks.tracker == old(ks).tracker,
                ks.next_seqno == old(ks).next_seqno,
                forall|i: int|
                    0 <= i < ks.compaction@.len() ==> (#[trigger] ks.compaction@[i])
                        < ks.partitions.len(),
            decreases ks.partitions.len() - p,
        {
            if crate::tree::tree_active_memtable_size(&ks.partitions[p].tree)
                > ks.partitions[p].max_memtable_size {
                ks.compaction.notify(p);
            }
            p += 1;
        }

        // Publish: advance the counter, shadow it into the trees'
        // shared counters so their version histories keep every live
        // snapshot reachable, and release this snapshot.
        ks.next_seqno = seqno + 1;
        crate::tree::counter_fetch_max(&ks.tree_seqno, ks.next_seqno);
        crate::tree::counter_fetch_max(&ks.tree_visible_seqno, ks.next_seqno);
        ks.tracker.release(self.tx.nonce.instant);
        proof {
            lemma_commit_establishes_post(
                self.tx,
                *old(ks),
                *ks,
                self.entries@,
                self.items@,
                widx as int,
            );
        }
        Ok(())
    }

    /// Discards a prepared batch after a failed journal append: no
    /// partition was touched, nothing was journaled in the model, and
    /// the transaction's snapshot is released. The allocated number was
    /// never published; sequence-number gaps are harmless.
    pub fn abort(self, ks: &mut Keyspace)
        requires
            old(ks).wf(),
            old(ks).tracker@.contains_key(self.tx.nonce.instant),
        ensures
            final(ks).wf(),
            final(ks).partitions == old(ks).partitions,
            final(ks).journal == old(ks).journal,
            final(ks).next_seqno == old(ks).next_seqno,
            final(ks).compaction == old(ks).compaction,
            final(ks).tracker@ == (if old(ks).tracker@[self.tx.nonce.instant] > 1 {
                old(ks).tracker@.insert(
                    self.tx.nonce.instant,
                    (old(ks).tracker@[self.tx.nonce.instant] - 1) as u64,
                )
            } else {
                old(ks).tracker@.remove(self.tx.nonce.instant)
            }),
    {
        ks.tracker.release(self.tx.nonce.instant);
    }
}

} // verus!
