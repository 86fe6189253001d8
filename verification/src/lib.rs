//! Core of an embedded key-value keyspace: a sharded write-ahead journal
//! with corruption-tolerant recovery, snapshot-isolated read and write
//! transactions over LSM-tree partitions, and a compaction queue gated by
//! a snapshot tracker.
use vstd::prelude::*;

pub mod checksum;
pub mod compaction;
pub mod journal;
pub mod keyspace;
pub mod listing;
pub mod marker;
pub mod partition;
pub mod read_tx;
pub mod reader;
pub mod shard;
pub mod snapshot_tracker;
pub mod tree;
pub mod varint;
pub mod version_log;
pub mod write_tx;

verus! {

/// Errors surfaced to callers of the keyspace.
#[derive(Debug)]
pub enum KvError {
    /// The LSM-tree primitive reported a failure.
    Storage(lsm_tree::Error),
    /// A caller handed over an input the keyspace refuses: an empty
    /// partition name; an empty key, or a key over the tree's
    /// 65535-byte cap, on a write; a key over that cap on a read; a
    /// value over the 4 GiB cap; or a recovered tree whose sequence
    /// numbers reach the staging sentinel.
    InvalidInput,
}

/// Durability level requested for a journal flush.
///
/// `Buffer` leaves appended bytes in the in-process buffer, `SyncData`
/// asks for file data to be persisted, and `SyncAll` additionally asks
/// for file metadata to be persisted.
#[derive(Clone, Copy, Debug, PartialEq, Eq, Structural)]
pub enum PersistMode {
    Buffer,
    SyncData,
    SyncAll,
}

/// A mutable borrow of one vector element.
pub(crate) fn vec_index_mut<T>(vec: &mut Vec<T>, i: usize) -> (element: &mut T)
    requires
        i < old(vec).len(),
    ensures
        *element == old(vec)@[i as int],
        final(vec)@ == old(vec)@.update(i as int, *final(element)),
{
    &mut vec[i]
}

} // verus!
