//! One journal shard: an append-only stream of framed batch records.
//!
//! The shard holds the byte content of its backing file as the library
//! sees it. The surrounding program appends the same bytes to durable
//! storage and performs the actual file syncs; `should_sync` tells it
//! which shards have unsynced appends.
use crate::marker::{batch_enc, Item};
use crate::PersistMode;
use vstd::prelude::*;

verus! {

/// One shard of the sharded journal.
pub struct JournalShard {
    /// The bytes of the shard file.
    pub contents: Vec<u8>,
    /// True after an append that has not been followed by a non-`Buffer`
    /// flush.
    pub should_sync: bool,
}

impl JournalShard {
    /// Creates a fresh, empty shard.
    pub fn create_new() -> (r: JournalShard)
        ensures
            r.contents@ == Seq::<u8>::empty(),
            !r.should_sync,
    {
        JournalShard { contents: Vec::new(), should_sync: false }
    }

    /// Opens a shard over the bytes of an existing file, keeping its
    /// content.
    pub fn from_bytes(bytes: Vec<u8>) -> (r: JournalShard)
        ensures
            r.contents == bytes,
            !r.should_sync,
    {
        JournalShard { contents: bytes, should_sync: false }
    }

    /// The shard's bytes.
    pub fn contents(&self) -> (r: &Vec<u8>)
        ensures
            r == self.contents,
    {
        &self.contents
    }

    /// Appends one framed batch record holding `items` under the batch
    /// sequence number `seqno`.
    pub fn write_batch(&mut self, items: &Vec<Item>, seqno: u64)
        ensures
            final(self).contents@ == old(self).contents@ + batch_enc(
                crate::marker::item_models(items@),
                seqno,
            ),
            final(self).should_sync,
    {
        let record = crate::marker::encode_batch(items, seqno);
        crate::marker::append_bytes(&mut self.contents, &record);
        self.should_sync = true;
    }

    /// Durability escalator: with `Buffer` nothing changes; any stronger
    /// mode marks the shard as synced. Idempotent.
    pub fn flush(&mut self, mode: PersistMode)
        ensures
            final(self).contents == old(self).contents,
            final(self).should_sync == (old(self).should_sync && mode is Buffer),
    {
        if !matches!(mode, PersistMode::Buffer) {
            self.should_sync = false;
        }
    }

    /// Seals the current content and starts a fresh, empty file; returns
    /// the sealed bytes. The old file stays readable through them.
    pub fn rotate(&mut self) -> (sealed: Vec<u8>)
        ensures
            sealed@ == old(self).contents@,
            final(self).contents@ == Seq::<u8>::empty(),
            !final(self).should_sync,
    {
        let sealed = crate::reader::copy_range(&self.contents, 0, self.contents.len());
        self.contents = Vec::new();
        self.should_sync = false;
        sealed
    }
}

} // verus!
