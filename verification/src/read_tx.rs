//! Read transactions: cross-partition, snapshot-isolated reads.
//!
//! A read transaction pins one snapshot instant. Every lookup returns
//! what was committed strictly before that instant; commits made after
//! the transaction began never show (see the laws in `version_log`), so
//! reads are repeatable for the transaction's whole lifetime.
use crate::keyspace::Keyspace;
use crate::listing::{clone_bytes, listing_first, listing_last};
use crate::partition::TxPartitionHandle;
use crate::snapshot_tracker::SnapshotNonce;
use crate::tree::{snapshot_listing, tree_get, tree_iter, tree_prefix, tree_range};
use crate::version_log::{
    empty_staging, is_prefix_of, lex_le, merged_value, opt_bytes, visible_value,
};
use crate::KvError;
use vstd::prelude::*;

verus! {

/// A cross-partition, read-only transaction (snapshot).
pub struct ReadTransaction {
    /// The registration token pinning this transaction's instant.
    pub nonce: SnapshotNonce,
}

impl ReadTransaction {
    pub(crate) fn new(nonce: SnapshotNonce) -> (r: Self)
        ensures
            r.nonce == nonce,
    {
        ReadTransaction { nonce }
    }

    /// Retrieves an item from the transaction's state: the value most
    /// recently committed before this transaction's instant, or nothing
    /// if there is none or the newest version is a tombstone. A key over
    /// the tree's cap is refused up front.
    pub fn get(&self, ks: &Keyspace, partition: &TxPartitionHandle, key: &[u8]) -> (r: Result<
        Option<Vec<u8>>,
        KvError,
    >)
        requires
            ks.wf(),
            partition.idx < ks.partitions.len(),
            1 <= self.nonce.instant,
        ensures
            r matches Ok(v) ==> opt_bytes(v) == visible_value(
                ks.plog(partition.idx as int),
                key@,
                self.nonce.instant,
            ),
            ((key@.len() > crate::tree::MAX_KEY_LEN) <==> (r matches Err(e) && e is InvalidInput)),
    {
        if key.len() > crate::tree::MAX_KEY_LEN {
            return Err(KvError::InvalidInput);
        }
        let kv = vstd::slice::slice_to_vec(key);
        match tree_get(&ks.partitions[partition.idx].tree, &kv, self.nonce.instant) {
            Ok(v) => Ok(v),
            Err(e) => Err(KvError::Storage(e)),
        }
    }

    /// Whether the transaction's state contains the key.
    pub fn contains_key(&self, ks: &Keyspace, partition: &TxPartitionHandle, key: &[u8]) -> (r:
        Result<bool, KvError>)
        requires
            ks.wf(),
            partition.idx < ks.partitions.len(),
            1 <= self.nonce.instant,
        ensures
            r matches Ok(b) ==> (b <==> visible_value(
                ks.plog(partition.idx as int),
                key@,
                self.nonce.instant,
            ) is Some),
            ((key@.len() > crate::tree::MAX_KEY_LEN) <==> (r matches Err(e) && e is InvalidInput)),
    {
        if key.len() > crate::tree::MAX_KEY_LEN {
            return Err(KvError::InvalidInput);
        }
        let kv = vstd::slice::slice_to_vec(key);
        match tree_get(&ks.partitions[partition.idx].tree, &kv, self.nonce.instant) {
            Ok(v) => Ok(v.is_some()),
            Err(e) => Err(KvError::Storage(e)),
        }
    }

    /// Every key-value pair in the transaction's state, in ascending key
    /// order.
    pub fn iter(&self, ks: &Keyspace, partition: &TxPartitionHandle) -> (r: Result<
        Vec<(Vec<u8>, Vec<u8>)>,
        KvError,
    >)
        requires
            ks.wf(),
            partition.idx < ks.partitions.len(),
            1 <= self.nonce.instant,
            self.nonce.instant <= crate::tree::STAGE_SEQNO,
        ensures
            r matches Ok(pairs) ==> snapshot_listing(
                ks.plog(partition.idx as int),
                empty_staging(),
                self.nonce.instant,
                crate::version_log::all_keys(),
                pairs@,
            ),
    {
        match tree_iter(&ks.partitions[partition.idx].tree, self.nonce.instant, None) {
            Ok(pairs) => Ok(pairs),
            Err(e) => Err(KvError::Storage(e)),
        }
    }

    /// The keys of the transaction's state, in ascending order.
    pub fn keys(&self, ks: &Keyspace, partition: &TxPartitionHandle) -> (r: Result<
        Vec<Vec<u8>>,
        KvError,
    >)
        requires
            ks.wf(),
            partition.idx < ks.partitions.len(),
            1 <= self.nonce.instant,
            self.nonce.instant <= crate::tree::STAGE_SEQNO,
        ensures
            r matches Ok(v) ==> exists|pairs: Seq<(Vec<u8>, Vec<u8>)>|
                #[trigger] snapshot_listing(
                    ks.plog(partition.idx as int),
                    empty_staging(),
                    self.nonce.instant,
                    crate::version_log::all_keys(),
                    pairs,
                ) && v@.len() == pairs.len() && (forall|i: int|
                    0 <= i < pairs.len() ==> (#[trigger] v@[i])@ == pairs[i].0@),
    {
        let pairs = self.iter(ks, partition)?;
        let mut out: Vec<Vec<u8>> = Vec::new();
        let mut i: usize = 0;
        while i < pairs.len()
            invariant
                i <= pairs.len(),
                out.len() == i,
                forall|j: int| 0 <= j < i ==> (#[trigger] out@[j])@ == pairs@[j].0@,
            decreases pairs.len() - i,
        {
            out.push(clone_bytes(&pairs[i].0));
            i += 1;
        }
        Ok(out)
    }

    /// The values of the transaction's state, ordered by their keys.
    pub fn values(&self, ks: &Keyspace, partition: &TxPartitionHandle) -> (r: Result<
        Vec<Vec<u8>>,
        KvError,
    >)
        requires
            ks.wf(),
            partition.idx < ks.partitions.len(),
            1 <= self.nonce.instant,
            self.nonce.instant <= crate::tree::STAGE_SEQNO,
        ensures
            r matches Ok(v) ==> exists|pairs: Seq<(Vec<u8>, Vec<u8>)>|
                #[trigger] snapshot_listing(
                    ks.plog(partition.idx as int),
                    empty_staging(),
                    self.nonce.instant,
                    crate::version_log::all_keys(),
                    pairs,
                ) && v@.len() == pairs.len() && (forall|i: int|
                    0 <= i < pairs.len() ==> (#[trigger] v@[i])@ == pairs[i].1@),
    {
        let pairs = self.iter(ks, partition)?;
        let mut out: Vec<Vec<u8>> = Vec::new();
        let mut i: usize = 0;
        while i < pairs.len()
            invariant
                i <= pairs.len(),
                out.len() == i,
                forall|j: int| 0 <= j < i ==> (#[trigger] out@[j])@ == pairs@[j].1@,
            decreases pairs.len() - i,
        {
            out.push(clone_bytes(&pairs[i].1));
            i += 1;
        }
        Ok(out)
    }

    /// The pair with the minimum key in the transaction's state.
    pub fn first_key_value(&self, ks: &Keyspace, partition: &TxPartitionHandle) -> (r: Result<
        Option<(Vec<u8>, Vec<u8>)>,
        KvError,
    >)
        requires
            ks.wf(),
            partition.idx < ks.partitions.len(),
            1 <= self.nonce.instant,
            self.nonce.instant <= crate::tree::STAGE_SEQNO,
        ensures
            r matches Ok(v) ==> (match v {
                Some(kv) => visible_value(ks.plog(partition.idx as int), kv.0@, self.nonce.instant)
                    == Some(kv.1@) && forall|k2: Seq<u8>|
                    (#[trigger] visible_value(
                        ks.plog(partition.idx as int),
                        k2,
                        self.nonce.instant,
                    )) is Some ==> lex_le(kv.0@, k2),
                None => forall|k2: Seq<u8>|
                    !((#[trigger] visible_value(
                        ks.plog(partition.idx as int),
                        k2,
                        self.nonce.instant,
                    )) is Some),
            }),
    {
        let pairs = self.iter(ks, partition)?;
        let r = listing_first(
            &pairs,
            Ghost(ks.plog(partition.idx as int)),
            Ghost(empty_staging()),
            Ghost(self.nonce.instant),
        );
        proof {
            assert(forall|k2: Seq<u8>|
                merged_value(ks.plog(partition.idx as int), empty_staging(), k2, self.nonce.instant)
                    == #[trigger] visible_value(
                    ks.plog(partition.idx as int),
                    k2,
                    self.nonce.instant,
                ));
        }
        Ok(r)
    }

    /// The pair with the maximum key in the transaction's state.
    pub fn last_key_value(&self, ks: &Keyspace, partition: &TxPartitionHandle) -> (r: Result<
        Option<(Vec<u8>, Vec<u8>)>,
        KvError,
    >)
        requires
            ks.wf(),
            partition.idx < ks.partitions.len(),
            1 <= self.nonce.instant,
            self.nonce.instant <= crate::tree::STAGE_SEQNO,
        ensures
            r matches Ok(v) ==> (match v {
                Some(kv) => visible_value(ks.plog(partition.idx as int), kv.0@, self.nonce.instant)
                    == Some(kv.1@) && forall|k2: Seq<u8>|
                    (#[trigger] visible_value(
                        ks.plog(partition.idx as int),
                        k2,
                        self.nonce.instant,
                    )) is Some ==> lex_le(k2, kv.0@),
                None => forall|k2: Seq<u8>|
                    !((#[trigger] visible_value(
                        ks.plog(partition.idx as int),
                        k2,
                        self.nonce.instant,
                    )) is Some),
            }),
    {
        let pairs = self.iter(ks, partition)?;
        let r = listing_last(
            &pairs,
            Ghost(ks.plog(partition.idx as int)),
            Ghost(empty_staging()),
            Ghost(self.nonce.instant),
        );
        proof {
            assert(forall|k2: Seq<u8>|
                merged_value(ks.plog(partition.idx as int), empty_staging(), k2, self.nonce.instant)
                    == #[trigger] visible_value(
                    ks.plog(partition.idx as int),
                    k2,
                    self.nonce.instant,
                ));
        }
        Ok(r)
    }

    /// Scans the entire partition, returning the number of items. Linear
    /// in the partition's size; to test for emptiness use
    /// [`ReadTransaction::is_empty`].
    pub fn len(&self, ks: &Keyspace, partition: &TxPartitionHandle) -> (r: Result<usize, KvError>)
        requires
            ks.wf(),
            partition.idx < ks.partitions.len(),
            1 <= self.nonce.instant,
            self.nonce.instant <= crate::tree::STAGE_SEQNO,
        ensures
            r matches Ok(n) ==> exists|pairs: Seq<(Vec<u8>, Vec<u8>)>|
                #[trigger] snapshot_listing(
                    ks.plog(partition.idx as int),
                    empty_staging(),
                    self.nonce.instant,
                    crate::version_log::all_keys(),
                    pairs,
                ) && n == pairs.len(),
    {
        let pairs = self.iter(ks, partition)?;
        Ok(pairs.len())
    }

    /// Whether the transaction's state holds no key at all.
    pub fn is_empty(&self, ks: &Keyspace, partition: &TxPartitionHandle) -> (r: Result<bool, KvError>)
        requires
            ks.wf(),
            partition.idx < ks.partitions.len(),
            1 <= self.nonce.instant,
            self.nonce.instant <= crate::tree::STAGE_SEQNO,
        ensures
            r matches Ok(b) ==> (b <==> forall|k: Seq<u8>|
                !((#[trigger] visible_value(
                    ks.plog(partition.idx as int),
                    k,
                    self.nonce.instant,
                )) is Some)),
    {
        let r = self.first_key_value(ks, partition)?;
        match r {
            Some(kv) => {
                proof {
                    assert(visible_value(
                        ks.plog(partition.idx as int),
                        kv.0@,
                        self.nonce.instant,
                    ) is Some);
                }
                Ok(false)
            }
            None => Ok(true),
        }
    }

    /// The pairs whose keys lie in the inclusive range `lo..=hi`, in
    /// ascending key order.
    pub fn range(&self, ks: &Keyspace, partition: &TxPartitionHandle, lo: &[u8], hi: &[u8]) -> (r:
        Result<Vec<(Vec<u8>, Vec<u8>)>, KvError>)
        requires
            ks.wf(),
            partition.idx < ks.partitions.len(),
            1 <= self.nonce.instant,
            self.nonce.instant <= crate::tree::STAGE_SEQNO,
        ensures
            r matches Ok(pairs) ==> snapshot_listing(
                ks.plog(partition.idx as int),
                empty_staging(),
                self.nonce.instant,
                (|k: Seq<u8>| lex_le(lo@, k) && lex_le(k, hi@)),
                pairs@,
            ),
            ((lo@.len() > crate::tree::MAX_KEY_LEN || hi@.len() > crate::tree::MAX_KEY_LEN) <==> (
            r matches Err(e) && e is InvalidInput)),
    {
        if lo.len() > crate::tree::MAX_KEY_LEN || hi.len() > crate::tree::MAX_KEY_LEN {
            return Err(KvError::InvalidInput);
        }
        let lov = vstd::slice::slice_to_vec(lo);
        let hiv = vstd::slice::slice_to_vec(hi);
        match tree_range(&ks.partitions[partition.idx].tree, &lov, &hiv, self.nonce.instant, None) {
            Ok(pairs) => Ok(pairs),
            Err(e) => Err(KvError::Storage(e)),
        }
    }

    /// The pairs whose keys start with `prefix`, in ascending key order.
    pub fn prefix(&self, ks: &Keyspace, partition: &TxPartitionHandle, prefix: &[u8]) -> (r: Result<
        Vec<(Vec<u8>, Vec<u8>)>,
        KvError,
    >)
        requires
            ks.wf(),
            partition.idx < ks.partitions.len(),
            1 <= self.nonce.instant,
            self.nonce.instant <= crate::tree::STAGE_SEQNO,
        ensures
            r matches Ok(pairs) ==> snapshot_listing(
                ks.plog(partition.idx as int),
                empty_staging(),
                self.nonce.instant,
                (|k: Seq<u8>| is_prefix_of(prefix@, k)),
                pairs@,
            ),
            ((prefix@.len() > crate::tree::MAX_KEY_LEN) <==> (r matches Err(e) && e is InvalidInput)),
    {
        if prefix.len() > crate::tree::MAX_KEY_LEN {
            return Err(KvError::InvalidInput);
        }
        let pv = vstd::slice::slice_to_vec(prefix);
        match tree_prefix(&ks.partitions[partition.idx].tree, &pv, self.nonce.instant, None) {
            Ok(pairs) => Ok(pairs),
            Err(e) => Err(KvError::Storage(e)),
        }
    }

    /// Ends the transaction: releases its snapshot instant so garbage
    /// collection may move past it.
    pub fn close(self, ks: &mut Keyspace)
        requires
            old(ks).wf(),
            old(ks).tracker@.contains_key(self.nonce.instant),
        ensures
            final(ks).wf(),
            final(ks).partitions == old(ks).partitions,
            final(ks).journal == old(ks).journal,
            final(ks).next_seqno == old(ks).next_seqno,
            final(ks).compaction == old(ks).compaction,
            final(ks).tracker@ == (if old(ks).tracker@[self.nonce.instant] > 1 {
                old(ks).tracker@.insert(
                    self.nonce.instant,
                    (old(ks).tracker@[self.nonce.instant] - 1) as u64,
                )
            } else {
                old(ks).tracker@.remove(self.nonce.instant)
            }),
    {
        ks.tracker.release(self.nonce.instant);
    }
}

} // verus!
