//! Partitions: named LSM trees within the keyspace, each with its own
//! configuration.
use crate::tree::LsmTree;
use vstd::prelude::*;

verus! {

/// A handle naming one partition; handed out when the partition is
/// opened and passed to transaction operations.
#[derive(Clone, Copy, Debug, PartialEq, Eq, Structural)]
pub struct TxPartitionHandle {
    /// Index of the partition within the keyspace.
    pub idx: usize,
}

/// Options a partition is created with.
#[derive(Clone, Copy, Debug)]
pub struct CreateOptions {
    /// Size in bytes above which the partition's live memtable asks for
    /// compaction after a commit.
    pub max_memtable_size: u64,
}

impl Default for CreateOptions {
    /// The default memtable threshold: sixteen mebibytes.
    fn default() -> (r: Self)
        ensures
            r.max_memtable_size == 16777216u64,
    {
        CreateOptions { max_memtable_size: 16777216 }
    }
}

/// One partition: its name, its LSM tree, and its configuration.
pub struct Partition {
    /// The partition's name; distinct within the keyspace and never
    /// empty.
    pub name: Vec<u8>,
    /// The LSM tree holding the partition's records.
    pub tree: LsmTree,
    /// See [`CreateOptions::max_memtable_size`].
    pub max_memtable_size: u64,
}

} // verus!
