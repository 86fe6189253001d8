//! The keyspace: the top-level container owning the partitions, the
//! sharded journal, the snapshot tracker, the sequence-number counter and
//! the compaction queue.
//!
//! Sequence numbers start at 1 and stay below the staging sentinel, so a
//! snapshot instant is never 0 and staged writes always dominate
//! committed versions. A snapshot instant is the keyspace's next
//! sequence number at registration time: a reader sees exactly the
//! commits stamped strictly below its instant.
use crate::compaction::CompactionManager;
use crate::journal::Journal;
use crate::partition::{CreateOptions, Partition, TxPartitionHandle};
use crate::read_tx::ReadTransaction;
use crate::snapshot_tracker::{SnapshotNonce, SnapshotTracker};
use crate::tree::{
    counter_fetch_max, counter_new, tree_highest_seqno, tree_log, tree_open, StagingTable,
    STAGE_SEQNO,
};
use crate::write_tx::WriteTransaction;
use crate::KvError;
use vstd::prelude::*;

verus! {

/// Every sequence number in a partition's log lies strictly below
/// `bound`.
pub open spec fn log_bounded(log: Seq<(u64, Seq<u8>, Option<Seq<u8>>)>, bound: u64) -> bool {
    forall|i: int| 0 <= i < log.len() ==> (#[trigger] log[i]).0 < bound
}

/// The keyspace.
pub struct Keyspace {
    /// The open partitions; a [`TxPartitionHandle`] indexes into this.
    pub partitions: Vec<Partition>,
    /// The sharded write-ahead journal.
    pub journal: Journal,
    /// Reference counts of live snapshot instants.
    pub tracker: SnapshotTracker,
    /// The next sequence number a commit will be stamped with; also the
    /// snapshot instant handed to new transactions.
    pub next_seqno: u64,
    /// Partitions awaiting compaction.
    pub compaction: CompactionManager,
    /// Operational shadow of `next_seqno`, shared with every opened
    /// tree so its version history knows which snapshots are live.
    pub tree_seqno: lsm_tree::SequenceNumberCounter,
    /// Operational visibility counter shared with every opened tree.
    pub tree_visible_seqno: lsm_tree::SequenceNumberCounter,
}

impl Keyspace {
    /// The version log of partition `p`.
    pub open spec fn plog(self, p: int) -> Seq<(u64, Seq<u8>, Option<Seq<u8>>)> {
        tree_log(self.partitions@[p].tree)
    }

    /// Well-formedness: the counter starts at 1 and stays below the
    /// staging sentinel; every version in every partition is stamped
    /// below the counter; every live snapshot instant is between 1 and
    /// the counter; partition names are nonempty and distinct; the
    /// compaction queue names open partitions.
    pub open spec fn wf(self) -> bool {
        &&& 1 <= self.next_seqno <= STAGE_SEQNO
        &&& self.journal.wf()
        &&& self.tracker.wf()
        &&& forall|p: int|
            0 <= p < self.partitions.len() ==> log_bounded(
                tree_log((#[trigger] self.partitions@[p]).tree),
                self.next_seqno,
            )
        &&& forall|x: u64| self.tracker@.contains_key(x) ==> 1 <= x <= self.next_seqno
        &&& forall|p: int|
            0 <= p < self.partitions.len() ==> (#[trigger] self.partitions@[p]).name@.len() > 0
        &&& forall|p: int, q: int|
            0 <= p < q < self.partitions.len() ==> (#[trigger] self.partitions@[p]).name@ != (
            #[trigger] self.partitions@[q]).name@
        &&& forall|i: int|
            0 <= i < self.compaction@.len() ==> (#[trigger] self.compaction@[i])
                < self.partitions.len()
    }

    /// Creates a fresh keyspace: no partitions, an empty journal, no
    /// live snapshots, and sequence numbers starting at 1.
    pub fn create() -> (r: Keyspace)
        ensures
            r.wf(),
            r.partitions.len() == 0,
            r.next_seqno == 1,
            r.tracker@ == Map::<u64, u64>::empty(),
            r.compaction@ == Seq::<usize>::empty(),
            forall|i: int|
                0 <= i < crate::journal::SHARD_COUNT as int ==> (#[trigger] r.journal.shards@[i]).contents@
                    == Seq::<u8>::empty(),
    {
        let tree_seqno = counter_new();
        let tree_visible_seqno = counter_new();
        counter_fetch_max(&tree_seqno, 1);
        counter_fetch_max(&tree_visible_seqno, 1);
        Keyspace {
            partitions: Vec::new(),
            journal: Journal::create_new(),
            tracker: SnapshotTracker::new(),
            next_seqno: 1,
            compaction: CompactionManager::new(),
            tree_seqno,
            tree_visible_seqno,
        }
    }

    /// Opens the partition named `name`, creating it at `path` if the
    /// keyspace does not hold it yet. An existing partition is returned
    /// as it is; a new one is backed by the LSM tree stored under
    /// `path`, and the keyspace counter moves past every sequence number
    /// the tree already holds. Fails with `InvalidInput` on an empty
    /// name or a recovered tree whose versions reach the staging
    /// sentinel, and with `Storage` when the tree cannot be opened.
    pub fn open_partition(&mut self, name: &[u8], path: &str, opts: CreateOptions) -> (r: Result<
        TxPartitionHandle,
        KvError,
    >)
        requires
            old(self).wf(),
        ensures
            final(self).wf(),
            final(self).tracker == old(self).tracker,
            final(self).journal == old(self).journal,
            final(self).compaction == old(self).compaction,
            final(self).next_seqno >= old(self).next_seqno,
            name@.len() == 0 ==> (r is Err && *final(self) == *old(self)),
            r matches Ok(h) ==> h.idx < final(self).partitions.len() && final(self).partitions@[h.idx as int].name@ == name@,
            r matches Ok(h) ==> (forall|p: int|
                0 <= p < old(self).partitions.len() ==> (#[trigger] final(self).partitions@[p])
                    == old(self).partitions@[p]),
            r is Err ==> *final(self) == *old(self),
            (exists|q: int|
                0 <= q < old(self).partitions.len() && (#[trigger] old(self).partitions@[q]).name@
                    == name@) ==> (r is Ok),
    {
        if name.len() == 0 {
            proof {
                if exists|q: int|
                    0 <= q < self.partitions.len() && (#[trigger] self.partitions@[q]).name@
                        == name@ {
                    let q = choose|q: int|
                        0 <= q < self.partitions.len() && (#[trigger] self.partitions@[q]).name@
                            == name@;
                    assert(self.partitions@[q].name@.len() > 0);
                }
            }
            return Err(KvError::InvalidInput);
        }
        let mut p: usize = 0;
        while p < self.partitions.len()
            invariant
                self == old(self),
                old(self).wf(),
                name@.len() > 0,
                p <= self.partitions.len(),
                forall|q: int|
                    0 <= q < p ==> (#[trigger] self.partitions@[q]).name@ != name@,
            decreases self.partitions.len() - p,
        {
            if crate::listing::bytes_eq_slice(&self.partitions[p].name, name) {
                return Ok(TxPartitionHandle { idx: p });
            }
            p += 1;
        }
        let tree = match tree_open(path, &self.tree_seqno, &self.tree_visible_seqno) {
            Ok(t) => t,
            Err(e) => {
                return Err(KvError::Storage(e));
            }
        };
        let highest = tree_highest_seqno(&tree);
        if highest >= STAGE_SEQNO {
            return Err(KvError::InvalidInput);
        }
        if highest >= self.next_seqno {
            self.next_seqno = highest + 1;
        }
        counter_fetch_max(&self.tree_seqno, self.next_seqno);
        counter_fetch_max(&self.tree_visible_seqno, self.next_seqno);
        let idx = self.partitions.len();
        self.partitions.push(
            Partition {
                name: vstd::slice::slice_to_vec(name),
                tree,
                max_memtable_size: opts.max_memtable_size,
            },
        );
        proof {
            assert forall|q: int|
                0 <= q < self.partitions.len() implies log_bounded(
                tree_log((#[trigger] self.partitions@[q]).tree),
                self.next_seqno,
            ) by {
                if q < idx as int {
                    assert(self.partitions@[q] == old(self).partitions@[q]);
                    assert(log_bounded(tree_log(self.partitions@[q].tree), old(self).next_seqno));
                }
            }
        }
        Ok(TxPartitionHandle { idx })
    }

    /// Begins a read transaction: registers a snapshot at the current
    /// instant. The transaction must be handed back through
    /// [`ReadTransaction::close`].
    pub fn read_tx(&mut self) -> (r: ReadTransaction)
        requires
            old(self).wf(),
            old(self).tracker@.contains_key(old(self).next_seqno) ==> old(self).tracker@[old(self).next_seqno] < u64::MAX,
        ensures
            final(self).wf(),
            r.nonce.instant == old(self).next_seqno,
            final(self).partitions == old(self).partitions,
            final(self).journal == old(self).journal,
            final(self).next_seqno == old(self).next_seqno,
            final(self).compaction == old(self).compaction,
            final(self).tracker@ == old(self).tracker@.insert(
                r.nonce.instant,
                if old(self).tracker@.contains_key(r.nonce.instant) {
                    (old(self).tracker@[r.nonce.instant] + 1) as u64
                } else {
                    1u64
                },
            ),
    {
        let instant = self.next_seqno;
        self.tracker.register(instant);
        ReadTransaction::new(SnapshotNonce { instant })
    }

    /// Begins a write transaction: registers a snapshot at the current
    /// instant and hands out empty staging, one slot per partition. The
    /// transaction ends through `commit` or `rollback`.
    pub fn write_tx(&mut self) -> (r: WriteTransaction)
        requires
            old(self).wf(),
            old(self).tracker@.contains_key(old(self).next_seqno) ==> old(self).tracker@[old(self).next_seqno] < u64::MAX,
        ensures
            final(self).wf(),
            r.nonce.instant == old(self).next_seqno,
            r.staging_len() == final(self).partitions.len(),
            forall|p: int|
                0 <= p < final(self).partitions.len() ==> #[trigger] r.staging_map(p)
                    == crate::version_log::empty_staging(),
            crate::write_tx::staging_wf(r),
            r.durability_of() is None,
            final(self).partitions == old(self).partitions,
            final(self).journal == old(self).journal,
            final(self).next_seqno == old(self).next_seqno,
            final(self).compaction == old(self).compaction,
            final(self).tracker@ == old(self).tracker@.insert(
                r.nonce.instant,
                if old(self).tracker@.contains_key(r.nonce.instant) {
                    (old(self).tracker@[r.nonce.instant] + 1) as u64
                } else {
                    1u64
                },
            ),
    {
        let instant = self.next_seqno;
        self.tracker.register(instant);
        let mut staging: Vec<Option<StagingTable>> = Vec::new();
        let mut p: usize = 0;
        while p < self.partitions.len()
            invariant
                staging.len() == p,
                p <= self.partitions.len(),
                forall|q: int| 0 <= q < p ==> (#[trigger] staging@[q]) is None,
            decreases self.partitions.len() - p,
        {
            staging.push(None);
            p += 1;
        }
        WriteTransaction::new(SnapshotNonce { instant }, staging)
    }

    /// The sequence number below which versions are safe to discard
    /// during compaction, provided a newer version of the key survives:
    /// the smallest live snapshot instant, or the next sequence number
    /// when no snapshot is live. Never exceeds any live instant.
    pub fn get_seqno_safe_to_gc(&self) -> (r: u64)
        requires
            self.wf(),
        ensures
            forall|x: u64| self.tracker@.contains_key(x) ==> r <= x,
            (exists|x: u64| self.tracker@.contains_key(x)) ==> self.tracker@.contains_key(r),
            !(exists|x: u64| self.tracker@.contains_key(x)) ==> r == self.next_seqno,
    {
        match self.tracker.min_live() {
            Some(m) => m,
            None => self.next_seqno,
        }
    }

    /// Flushes the journal at the given durability level, clearing the
    /// shards' sync flags unless the level is `Buffer`. Shard contents
    /// never change; the surrounding program performs the actual file
    /// syncs.
    pub fn persist(&mut self, mode: crate::PersistMode)
        requires
            old(self).wf(),
        ensures
            final(self).wf(),
            final(self).partitions == old(self).partitions,
            final(self).tracker == old(self).tracker,
            final(self).next_seqno == old(self).next_seqno,
            final(self).compaction == old(self).compaction,
            forall|i: int|
                0 <= i < crate::journal::SHARD_COUNT as int ==> (#[trigger] final(self).journal.shards@[i]).contents == old(self).journal.shards@[i].contents,
    {
        self.journal.flush(mode);
    }
}

} // verus!
