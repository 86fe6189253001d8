//! The sharded write-ahead journal: a fixed number of shards, each an
//! append-only stream of batch records.
//!
//! Each write goes to one shard picked in round-robin order; flush and
//! rotation walk all shards in index order. The surrounding program
//! mirrors shard contents to files and performs the actual syncs.
use crate::marker::{batch_enc, Item};
use crate::reader::JournalReader;
use crate::shard::JournalShard;
use crate::vec_index_mut;
use crate::PersistMode;
use vstd::prelude::*;

verus! {

/// Number of shards the journal is split into.
pub const SHARD_COUNT: u8 = 4;

/// The sharded journal.
pub struct Journal {
    /// The shards, in index order.
    pub shards: Vec<JournalShard>,
    /// Index of the shard the next writer is routed to.
    pub next_writer: usize,
}

impl Journal {
    /// The journal always holds exactly [`SHARD_COUNT`] shards and routes
    /// the next writer to one of them.
    pub open spec fn wf(self) -> bool {
        self.shards.len() == SHARD_COUNT as int && self.next_writer < SHARD_COUNT as int
    }

    /// Creates a journal of fresh, empty shards.
    pub fn create_new() -> (r: Journal)
        ensures
            r.wf(),
            forall|i: int|
                0 <= i < SHARD_COUNT as int ==> (#[trigger] r.shards@[i]).contents@
                    == Seq::<u8>::empty() && !r.shards@[i].should_sync,
            r.next_writer == 0,
    {
        let mut shards: Vec<JournalShard> = Vec::new();
        let mut i: usize = 0;
        while i < SHARD_COUNT as usize
            invariant
                i <= SHARD_COUNT as int,
                shards.len() == i,
                forall|j: int|
                    0 <= j < i ==> (#[trigger] shards@[j]).contents@ == Seq::<u8>::empty()
                        && !shards@[j].should_sync,
            decreases SHARD_COUNT as int - i,
        {
            shards.push(JournalShard::create_new());
            i += 1;
        }
        Journal { shards, next_writer: 0 }
    }

    /// Opens a journal over the bytes of its existing shard files,
    /// preserving their content.
    pub fn restore_existing(shard_contents: &Vec<Vec<u8>>) -> (r: Journal)
        requires
            shard_contents.len() == SHARD_COUNT as int,
        ensures
            r.wf(),
            forall|i: int|
                0 <= i < SHARD_COUNT as int ==> (#[trigger] r.shards@[i]).contents@
                    == shard_contents@[i]@ && !r.shards@[i].should_sync,
            r.next_writer == 0,
    {
        let mut shards: Vec<JournalShard> = Vec::new();
        let mut i: usize = 0;
        while i < SHARD_COUNT as usize
            invariant
                i <= SHARD_COUNT as int,
                shard_contents.len() == SHARD_COUNT as int,
                shards.len() == i,
                forall|j: int|
                    0 <= j < i ==> (#[trigger] shards@[j]).contents@ == shard_contents@[j]@
                        && !shards@[j].should_sync,
            decreases SHARD_COUNT as int - i,
        {
            let bytes = crate::reader::copy_range(&shard_contents[i], 0, shard_contents[i].len());
            shards.push(JournalShard::from_bytes(bytes));
            i += 1;
        }
        Journal { shards, next_writer: 0 }
    }

    /// Recovers the committed batches of one shard from its bytes.
    pub fn get_reader(shard_bytes: &Vec<u8>) -> (r: JournalReader)
        ensures
            r.batches@.map_values(|x: crate::reader::RecoveredBatch| x@) == crate::reader::spec_recover(
                shard_bytes@,
                0,
            ),
    {
        JournalReader::new(shard_bytes)
    }

    /// Picks the shard the next batch is routed to, in round-robin order,
    /// and marks it as needing a sync.
    pub fn get_writer(&mut self) -> (idx: usize)
        requires
            old(self).wf(),
        ensures
            final(self).wf(),
            idx == old(self).next_writer,
            idx < SHARD_COUNT as int,
            final(self).next_writer == (idx + 1) % (SHARD_COUNT as int),
            final(self).shards@ == old(self).shards@.update(
                idx as int,
                JournalShard { should_sync: true, ..old(self).shards@[idx as int] },
            ),
    {
        let idx = self.next_writer;
        self.next_writer = (idx + 1) % (SHARD_COUNT as usize);
        let shard = vec_index_mut(&mut self.shards, idx);
        shard.should_sync = true;
        idx
    }

    /// Appends one framed batch record to the shard `idx`.
    pub fn write_batch(&mut self, idx: usize, items: &Vec<Item>, seqno: u64)
        requires
            old(self).wf(),
            idx < SHARD_COUNT as int,
        ensures
            final(self).wf(),
            final(self).next_writer == old(self).next_writer,
            final(self).shards@ == old(self).shards@.update(
                idx as int,
                JournalShard {
                    contents: final(self).shards@[idx as int].contents,
                    should_sync: true,
                },
            ),
            final(self).shards@[idx as int].contents@ == old(self).shards@[idx as int].contents@
                + batch_enc(crate::marker::item_models(items@), seqno),
    {
        let shard = vec_index_mut(&mut self.shards, idx);
        shard.write_batch(items, seqno);
    }

    /// Flushes every shard that has unsynced appends, in index order.
    /// With a mode other than `Buffer` the shards come out marked synced;
    /// contents never change.
    pub fn flush(&mut self, mode: PersistMode)
        requires
            old(self).wf(),
        ensures
            final(self).wf(),
            final(self).next_writer == old(self).next_writer,
            final(self).shards@.len() == old(self).shards@.len(),
            forall|i: int|
                0 <= i < SHARD_COUNT as int ==> (#[trigger] final(self).shards@[i]).contents
                    == old(self).shards@[i].contents && final(self).shards@[i].should_sync == (old(self).shards@[i].should_sync && mode is Buffer),
    {
        let mut i: usize = 0;
        while i < self.shards.len()
            invariant
                self.shards.len() == SHARD_COUNT as int,
                self.next_writer == old(self).next_writer,
                i <= SHARD_COUNT as int,
                forall|j: int|
                    0 <= j < i ==> (#[trigger] self.shards@[j]).contents
                        == old(self).shards@[j].contents && self.shards@[j].should_sync == (old(self).shards@[j].should_sync && mode is Buffer),
                forall|j: int|
                    i <= j < SHARD_COUNT as int ==> #[trigger] self.shards@[j] == old(self).shards@[j],
            decreases self.shards.len() - i,
        {
            let shard = vec_index_mut(&mut self.shards, i);
            if shard.should_sync {
                shard.flush(mode);
            }
            i += 1;
        }
    }

    /// Rotates every shard in index order: seals each shard's bytes and
    /// starts fresh, empty files. Returns the sealed contents, one per
    /// shard.
    pub fn rotate(&mut self) -> (sealed: Vec<Vec<u8>>)
        requires
            old(self).wf(),
        ensures
            final(self).wf(),
            final(self).next_writer == old(self).next_writer,
            sealed.len() == SHARD_COUNT as int,
            forall|i: int|
                0 <= i < SHARD_COUNT as int ==> (#[trigger] sealed@[i])@ == old(self).shards@[i].contents@,
            forall|i: int|
                0 <= i < SHARD_COUNT as int ==> (#[trigger] final(self).shards@[i]).contents@
                    == Seq::<u8>::empty() && !final(self).shards@[i].should_sync,
    {
        let mut sealed: Vec<Vec<u8>> = Vec::new();
        let mut i: usize = 0;
        while i < self.shards.len()
            invariant
                self.shards.len() == SHARD_COUNT as int,
                self.next_writer == old(self).next_writer,
                i <= SHARD_COUNT as int,
                sealed.len() == i,
                forall|j: int|
                    0 <= j < i ==> (#[trigger] sealed@[j])@ == old(self).shards@[j].contents@,
                forall|j: int|
                    0 <= j < i ==> (#[trigger] self.shards@[j]).contents@ == Seq::<u8>::empty()
                        && !self.shards@[j].should_sync,
                forall|j: int|
                    i <= j < SHARD_COUNT as int ==> #[trigger] self.shards@[j] == old(self).shards@[j],
            decreases self.shards.len() - i,
        {
            let shard = vec_index_mut(&mut self.shards, i);
            let bytes = shard.rotate();
            sealed.push(bytes);
            i += 1;
        }
        sealed
    }
}

} // verus!
