//! The compaction manager: a first-in-first-out queue of partitions that
//! asked for compaction, paired with a counting semaphore so worker
//! threads can block until work exists; and a single worker run.
use crate::keyspace::Keyspace;
use crate::tree::tree_compact;
use crate::vec_index_mut;
use crate::version_log::visible_value;
use vstd::prelude::*;

verus! {

/// Counting semaphore of the `std-semaphore` crate.
#[verifier::external_type_specification]
#[verifier::external_body]
pub struct ExSemaphore(std_semaphore::Semaphore);

/// Relies on `Semaphore::new`: a counting semaphore starting at `count`.
#[verifier::external_body]
fn semaphore_new(count: isize) -> std_semaphore::Semaphore {
    std_semaphore::Semaphore::new(count)
}

/// Relies on `Semaphore::acquire`: blocks until the count is positive,
/// then decrements it.
#[verifier::external_body]
fn semaphore_acquire(s: &std_semaphore::Semaphore) {
    s.acquire()
}

/// Relies on `Semaphore::release`: increments the count, waking one
/// blocked acquirer.
#[verifier::external_body]
fn semaphore_release(s: &std_semaphore::Semaphore) {
    s.release()
}

/// The queue of partitions awaiting compaction, viewed as the sequence
/// of their indices in notification order. Duplicates are allowed:
/// workers tolerate revisiting a partition.
pub struct CompactionManager {
    queue: Vec<usize>,
    semaphore: std_semaphore::Semaphore,
}

impl View for CompactionManager {
    type V = Seq<usize>;

    closed spec fn view(&self) -> Seq<usize> {
        self.queue@
    }
}

impl CompactionManager {
    /// An empty queue; the semaphore starts at zero.
    pub fn new() -> (r: CompactionManager)
        ensures
            r@ == Seq::<usize>::empty(),
    {
        CompactionManager { queue: Vec::new(), semaphore: semaphore_new(0) }
    }

    /// Enqueues one partition and raises the semaphore.
    pub fn notify(&mut self, partition: usize)
        ensures
            final(self)@ == old(self)@.push(partition),
    {
        self.queue.push(partition);
        semaphore_release(&self.semaphore);
    }

    /// Blocks until the queue has seen as many notifications as
    /// acquisitions.
    pub fn wait_for(&self) {
        semaphore_acquire(&self.semaphore);
    }

    /// Dequeues the oldest enqueued partition, if any, without blocking.
    pub fn pop(&mut self) -> (r: Option<usize>)
        ensures
            (match r {
                Some(p) => old(self)@.len() > 0 && p == old(self)@[0] && final(self)@ == old(self)@.drop_first(),
                None => old(self)@.len() == 0 && final(self)@ == old(self)@,
            }),
    {
        if self.queue.len() == 0 {
            None
        } else {
            let p = self.queue.remove(0);
            proof {
                assert(self.queue@ =~= old(self)@.drop_first());
            }
            Some(p)
        }
    }
}

/// Runs a single run of compaction: dequeues one partition, if any, and
/// compacts its tree with the keyspace's safe-to-collect watermark.
/// Whatever versions compaction drops, every reader at or above the
/// watermark — in particular every live snapshot — sees the partition
/// unchanged. A compaction failure leaves the tree readable and is
/// dropped, as the worker loop must survive it.
pub fn run(ks: &mut Keyspace)
    requires
        old(ks).wf(),
    ensures
        final(ks).wf(),
        final(ks).next_seqno == old(ks).next_seqno,
        final(ks).tracker == old(ks).tracker,
        final(ks).journal == old(ks).journal,
        final(ks).partitions.len() == old(ks).partitions.len(),
        final(ks).compaction@ == (if old(ks).compaction@.len() == 0 {
            old(ks).compaction@
        } else {
            old(ks).compaction@.drop_first()
        }),
        forall|p: int|
            0 <= p < old(ks).partitions.len() ==> (#[trigger] final(ks).partitions@[p]).name == old(ks).partitions@[p].name && final(ks).partitions@[p].max_memtable_size == old(ks).partitions@[p].max_memtable_size,
        forall|p: int, k: Seq<u8>, x: u64|
            0 <= p < old(ks).partitions.len() && old(ks).tracker@.contains_key(x)
                ==> #[trigger] visible_value(crate::tree::tree_log(final(ks).partitions@[p].tree), k, x)
                == visible_value(crate::tree::tree_log(old(ks).partitions@[p].tree), k, x),
        forall|p: int, k: Seq<u8>, snap: u64|
            0 <= p < old(ks).partitions.len() && old(ks).next_seqno <= snap
                ==> #[trigger] visible_value(
                crate::tree::tree_log(final(ks).partitions@[p].tree),
                k,
                snap,
            ) == visible_value(crate::tree::tree_log(old(ks).partitions@[p].tree), k, snap),
{
    let watermark = ks.get_seqno_safe_to_gc();
    let popped = ks.compaction.pop();
    match popped {
        None => {}
        Some(p) => {
            if p < ks.partitions.len() {
                let part = vec_index_mut(&mut ks.partitions, p);
                let _ = tree_compact(&mut part.tree, watermark);
            }
        }
    }
}

} // verus!
