//! The trusted boundary to the LSM-tree primitive that backs each
//! partition, and to the staging memtables of write transactions.
//!
//! The tree's contents are named by [`tree_log`]: the versions it holds,
//! in application order. Each wrapper's contract says what the called
//! routine does to that log, as the crate's source shows it; nothing
//! else about the primitive is assumed.
use crate::version_log::{
    is_prefix_of, lex_le, lex_lt, merged_value, visible_value,
};
use lsm_tree::AbstractTree;
use vstd::prelude::*;

verus! {

/// Error type of the LSM-tree primitive.
#[verifier::external_type_specification]
#[verifier::external_body]
pub struct ExLsmError(lsm_tree::Error);

/// Shared sequence-number counter of the LSM-tree primitive. The
/// keyspace hands clones of its counters to every tree it opens and
/// keeps them at its own next sequence number, so the trees' version
/// histories know which snapshots are live.
#[verifier::external_type_specification]
#[verifier::external_body]
pub struct ExSeqnoCounter(lsm_tree::SequenceNumberCounter);

/// Sentinel sequence number for staged writes: above every sequence
/// number a commit can allocate, so staged versions dominate the tree,
/// while still readable under the maximum snapshot.
pub const STAGE_SEQNO: u64 = 0xffff_ffff_ffff_fffe;

/// Longest key the tree accepts, in bytes.
pub const MAX_KEY_LEN: usize = 65535;

/// Longest value the tree accepts, in bytes.
pub const MAX_VALUE_LEN: usize = 0xffff_ffff;

/// A key the tree stores: nonempty and at most [`MAX_KEY_LEN`] bytes.
/// The tree primitive refuses anything else.
pub open spec fn valid_key(k: Seq<u8>) -> bool {
    1 <= k.len() <= MAX_KEY_LEN
}

/// A value the tree stores: at most [`MAX_VALUE_LEN`] bytes.
pub open spec fn valid_value(v: Seq<u8>) -> bool {
    v.len() <= MAX_VALUE_LEN
}

/// One partition's LSM tree.
#[verifier::external_body]
pub struct LsmTree {
    tree: lsm_tree::AnyTree,
}

/// A write transaction's private staging table for one partition.
#[verifier::external_body]
pub struct StagingTable {
    memtable: std::sync::Arc<lsm_tree::Memtable>,
}

/// The versions a tree holds, in application order: sequence number,
/// key, and value, where `None` marks a tombstone.
pub uninterp spec fn tree_log(t: LsmTree) -> Seq<(u64, Seq<u8>, Option<Seq<u8>>)>;

/// The staged write per key that a staging table holds; `None` marks a
/// staged delete.
pub uninterp spec fn staging_view(s: StagingTable) -> Map<Seq<u8>, Option<Seq<u8>>>;

/// One record handed back from a staging table: a key, a value, and
/// whether the record is a tombstone.
pub struct InternalEntry {
    pub key: Vec<u8>,
    pub value: Vec<u8>,
    pub is_tombstone: bool,
}

/// The staged write an entry stands for.
pub open spec fn entry_value(e: InternalEntry) -> Option<Seq<u8>> {
    if e.is_tombstone {
        None
    } else {
        Some(e.value@)
    }
}

/// The staging map of an optional staging table; a missing table stages
/// nothing.
pub open spec fn staging_opt(s: Option<&StagingTable>) -> Map<Seq<u8>, Option<Seq<u8>>> {
    match s {
        Some(t) => staging_view(*t),
        None => Map::empty(),
    }
}

/// `es` lists exactly the staged writes of `m`, in ascending key order.
pub open spec fn staging_listing(m: Map<Seq<u8>, Option<Seq<u8>>>, es: Seq<InternalEntry>) -> bool {
    &&& forall|i: int, j: int|
        0 <= i < j < es.len() ==> lex_lt((#[trigger] es[i]).key@, (#[trigger] es[j]).key@)
    &&& forall|i: int|
        0 <= i < es.len() ==> m.contains_key((#[trigger] es[i]).key@) && m[es[i].key@]
            == entry_value(es[i])
    &&& forall|k: Seq<u8>| m.contains_key(k) ==> exists|i: int| 0 <= i < es.len() && (#[trigger] es[i]).key@ == k
}

/// `pairs` lists exactly the keys visible at `snap` (staged writes
/// shadowing the tree, tombstones hidden), with their values, in
/// ascending key order, restricted to keys satisfying `in_window`.
pub open spec fn snapshot_listing(
    log: Seq<(u64, Seq<u8>, Option<Seq<u8>>)>,
    staging: Map<Seq<u8>, Option<Seq<u8>>>,
    snap: u64,
    in_window: spec_fn(Seq<u8>) -> bool,
    pairs: Seq<(Vec<u8>, Vec<u8>)>,
) -> bool {
    &&& forall|i: int, j: int|
        0 <= i < j < pairs.len() ==> lex_lt((#[trigger] pairs[i]).0@, (#[trigger] pairs[j]).0@)
    &&& forall|i: int|
        0 <= i < pairs.len() ==> in_window((#[trigger] pairs[i]).0@) && merged_value(
            log,
            staging,
            pairs[i].0@,
            snap,
        ) == Some(pairs[i].1@)
    &&& forall|k: Seq<u8>|
        in_window(k) && (#[trigger] merged_value(log, staging, k, snap)) is Some ==> exists|i: int|
            0 <= i < pairs.len() && (#[trigger] pairs[i]).0@ == k
}

/// Relies on `SequenceNumberCounter::default`: a fresh counter at zero.
/// Purely operational; nothing is stated of its value.
#[verifier::external_body]
pub(crate) fn counter_new() -> lsm_tree::SequenceNumberCounter {
    lsm_tree::SequenceNumberCounter::default()
}

/// Relies on `SequenceNumberCounter::fetch_max`: raises the shared
/// counter to at least `v`. Purely operational; the trees' version
/// histories read it to keep pre-compaction table sets reachable for
/// snapshots at or below it.
#[verifier::external_body]
pub(crate) fn counter_fetch_max(c: &lsm_tree::SequenceNumberCounter, v: u64) {
    c.fetch_max(v);
}

/// Relies on `lsm_tree::Config::open`: opens, or creates, the tree
/// stored under `path`, wired to the keyspace's shared sequence-number
/// counters as the crate's counter documentation shows. Nothing is
/// assumed of the recovered content; callers read
/// [`tree_highest_seqno`] for a bound on its sequence numbers.
#[verifier::external_body]
pub(crate) fn tree_open(
    path: &str,
    seqno: &lsm_tree::SequenceNumberCounter,
    visible: &lsm_tree::SequenceNumberCounter,
) -> (r: Result<LsmTree, lsm_tree::Error>) {
    let config = lsm_tree::Config::new(std::path::Path::new(path), seqno.clone(), visible.clone());
    config.open().map(|tree| LsmTree { tree })
}

/// Relies on `AbstractTree::get_highest_seqno`: no version in the tree
/// carries a sequence number above the returned one.
#[verifier::external_body]
pub(crate) fn tree_highest_seqno(t: &LsmTree) -> (r: u64)
    ensures
        forall|i: int| 0 <= i < tree_log(*t).len() ==> (#[trigger] tree_log(*t)[i]).0 <= r,
{
    t.tree.get_highest_seqno().unwrap_or(0)
}

/// Relies on `AbstractTree::insert`: applies one version of `key` with
/// `value` under `seqno` to the tree's active memtable. The crate's
/// record caps keep `InternalValue::from_components` from panicking, and
/// versions are only ever applied with sequence numbers at or above
/// everything already in the tree, which keeps the newest version the
/// last one applied, as [`tree_log`]'s order says.
#[verifier::external_body]
pub(crate) fn tree_insert(t: &mut LsmTree, key: &Vec<u8>, value: &Vec<u8>, seqno: u64)
    requires
        valid_key(key@),
        valid_value(value@),
        forall|i: int|
            0 <= i < tree_log(*old(t)).len() ==> (#[trigger] tree_log(*old(t))[i]).0 <= seqno,
    ensures
        tree_log(*final(t)) == tree_log(*old(t)).push((seqno, key@, Some(value@))),
{
    let _ = t.tree.insert(key.as_slice(), value.as_slice(), seqno);
}

/// Relies on `AbstractTree::remove`: applies a tombstone for `key` under
/// `seqno`. Caps and monotone application as in [`tree_insert`].
#[verifier::external_body]
pub(crate) fn tree_remove(t: &mut LsmTree, key: &Vec<u8>, seqno: u64)
    requires
        valid_key(key@),
        forall|i: int|
            0 <= i < tree_log(*old(t)).len() ==> (#[trigger] tree_log(*old(t))[i]).0 <= seqno,
    ensures
        tree_log(*final(t)) == tree_log(*old(t)).push((seqno, key@, None)),
{
    let _ = t.tree.remove(key.as_slice(), seqno);
}

/// Relies on `AbstractTree::get`: the newest version of `key` strictly
/// below `snap`, a tombstone or a missing key reading as `None`. The
/// library never reads at snapshot 0, which the crate treats as
/// unbounded.
#[verifier::external_body]
pub(crate) fn tree_get(t: &LsmTree, key: &Vec<u8>, snap: u64) -> (r: Result<
    Option<Vec<u8>>,
    lsm_tree::Error,
>)
    requires
        snap >= 1,
        key@.len() <= MAX_KEY_LEN,
    ensures
        r matches Ok(v) ==> (match v {
            Some(x) => Some(x@),
            None => None,
        }) == visible_value(tree_log(*t), key@, snap),
{
    match t.tree.get(key.as_slice(), snap) {
        Ok(Some(v)) => Ok(Some(v.to_vec())),
        Ok(None) => Ok(None),
        Err(e) => Err(e),
    }
}

/// Relies on `Memtable::new`: a fresh staging table stages nothing.
#[verifier::external_body]
pub(crate) fn staging_new() -> (table: StagingTable)
    ensures
        staging_view(table) == crate::version_log::empty_staging(),
{
    StagingTable { memtable: std::sync::Arc::new(lsm_tree::Memtable::new(0)) }
}

/// Relies on `Memtable::insert` and the memtable's key order ignoring
/// the value kind: stages `key -> value`, replacing any earlier staged
/// write of the key (all staged records share [`STAGE_SEQNO`]).
#[verifier::external_body]
pub(crate) fn staging_set(s: &mut StagingTable, key: &Vec<u8>, value: &Vec<u8>)
    requires
        valid_key(key@),
        valid_value(value@),
    ensures
        staging_view(*final(s)) == staging_view(*old(s)).insert(key@, Some(value@)),
{
    let item = lsm_tree::InternalValue::from_components(
        key.as_slice(),
        value.as_slice(),
        STAGE_SEQNO,
        lsm_tree::ValueType::Value,
    );
    let _ = s.memtable.insert(item);
}

/// Relies on `Memtable::insert`: stages a delete of `key`, replacing any
/// earlier staged write of the key.
#[verifier::external_body]
pub(crate) fn staging_delete(s: &mut StagingTable, key: &Vec<u8>)
    requires
        valid_key(key@),
    ensures
        staging_view(*final(s)) == staging_view(*old(s)).insert(key@, None),
{
    let item = lsm_tree::InternalValue::new_tombstone(key.as_slice(), STAGE_SEQNO);
    let _ = s.memtable.insert(item);
}

/// Relies on `Memtable::get` at the maximum snapshot: the staged write
/// of `key`, if the table holds one.
#[verifier::external_body]
pub(crate) fn staging_get(s: &StagingTable, key: &Vec<u8>) -> (r: Option<InternalEntry>)
    requires
        key@.len() <= MAX_KEY_LEN,
    ensures
        match r {
            Some(e) => staging_view(*s).contains_key(key@) && staging_view(*s)[key@]
                == entry_value(e),
            None => !staging_view(*s).contains_key(key@),
        },
{
    s.memtable.get(key.as_slice(), u64::MAX).map(
        |iv| InternalEntry {
            key: iv.key.user_key.to_vec(),
            value: iv.value.to_vec(),
            is_tombstone: iv.is_tombstone(),
        },
    )
}

/// Relies on `Memtable::iter`: every staged write, one record per key,
/// in ascending key order.
#[verifier::external_body]
pub(crate) fn staging_entries(s: &StagingTable) -> (r: Vec<InternalEntry>)
    ensures
        staging_listing(staging_view(*s), r@),
{
    let mut out: Vec<InternalEntry> = Vec::new();
    for iv in s.memtable.iter() {
        out.push(
            InternalEntry {
                key: iv.key.user_key.to_vec(),
                value: iv.value.to_vec(),
                is_tombstone: iv.is_tombstone(),
            },
        );
    }
    out
}

/// Relies on `AbstractTree::iter` with an index memtable: the pairs
/// visible at `snap`, staged writes shadowing the tree and tombstones
/// hidden, in ascending key order. Snapshots stay at or below the
/// staging sentinel, so a staged record is always strictly newer than
/// every tree version the snapshot admits and wins the merge.
#[verifier::external_body]
pub(crate) fn tree_iter(t: &LsmTree, snap: u64, staging: Option<&StagingTable>) -> (r: Result<
    Vec<(Vec<u8>, Vec<u8>)>,
    lsm_tree::Error,
>)
    requires
        snap >= 1,
        snap <= STAGE_SEQNO,
    ensures
        r matches Ok(pairs) ==> snapshot_listing(
            tree_log(*t),
            staging_opt(staging),
            snap,
            crate::version_log::all_keys(),
            pairs@,
        ),
{
    let index = staging.map(|s| (s.memtable.clone(), u64::MAX));
    let mut out: Vec<(Vec<u8>, Vec<u8>)> = Vec::new();
    for guard in t.tree.iter(snap, index) {
        match lsm_tree::Guard::into_inner(guard) {
            Ok((k, v)) => out.push((k.to_vec(), v.to_vec())),
            Err(e) => return Err(e),
        }
    }
    Ok(out)
}

/// Relies on `AbstractTree::range` over an inclusive range: the visible
/// pairs with `lo <= key <= hi`, ordered and shadowed as in
/// [`tree_iter`].
#[verifier::external_body]
pub(crate) fn tree_range(
    t: &LsmTree,
    lo: &Vec<u8>,
    hi: &Vec<u8>,
    snap: u64,
    staging: Option<&StagingTable>,
) -> (r: Result<Vec<(Vec<u8>, Vec<u8>)>, lsm_tree::Error>)
    requires
        snap >= 1,
        snap <= STAGE_SEQNO,
        lo@.len() <= MAX_KEY_LEN,
        hi@.len() <= MAX_KEY_LEN,
    ensures
        r matches Ok(pairs) ==> snapshot_listing(
            tree_log(*t),
            staging_opt(staging),
            snap,
            (|k: Seq<u8>| lex_le(lo@, k) && lex_le(k, hi@)),
            pairs@,
        ),
{
    let index = staging.map(|s| (s.memtable.clone(), u64::MAX));
    let mut out: Vec<(Vec<u8>, Vec<u8>)> = Vec::new();
    for guard in t.tree.range(lo.as_slice()..=hi.as_slice(), snap, index) {
        match lsm_tree::Guard::into_inner(guard) {
            Ok((k, v)) => out.push((k.to_vec(), v.to_vec())),
            Err(e) => return Err(e),
        }
    }
    Ok(out)
}

/// Relies on `AbstractTree::prefix`: the visible pairs whose key starts
/// with `prefix`, ordered and shadowed as in [`tree_iter`].
#[verifier::external_body]
pub(crate) fn tree_prefix(
    t: &LsmTree,
    prefix: &Vec<u8>,
    snap: u64,
    staging: Option<&StagingTable>,
) -> (r: Result<Vec<(Vec<u8>, Vec<u8>)>, lsm_tree::Error>)
    requires
        snap >= 1,
        snap <= STAGE_SEQNO,
        prefix@.len() <= MAX_KEY_LEN,
    ensures
        r matches Ok(pairs) ==> snapshot_listing(
            tree_log(*t),
            staging_opt(staging),
            snap,
            (|k: Seq<u8>| is_prefix_of(prefix@, k)),
            pairs@,
        ),
{
    let index = staging.map(|s| (s.memtable.clone(), u64::MAX));
    let mut out: Vec<(Vec<u8>, Vec<u8>)> = Vec::new();
    for guard in t.tree.prefix(prefix.as_slice(), snap, index) {
        match lsm_tree::Guard::into_inner(guard) {
            Ok((k, v)) => out.push((k.to_vec(), v.to_vec())),
            Err(e) => return Err(e),
        }
    }
    Ok(out)
}

/// Relies on `AbstractTree::compact` with the leveled strategy and
/// `gc_watermark` as its sequence-number threshold: compaction rewrites
/// storage without inventing versions, and what any reader at or above
/// the watermark sees is unchanged; only versions made obsolete below
/// the watermark may be dropped.
///
/// The preservation claim leans on the keyspace's counter wiring: every
/// tree shares the keyspace's sequence-number counters, which stand at
/// its next sequence number, so the table set compaction installs is
/// stamped at or above every live snapshot instant and the tree's
/// version history keeps routing those snapshots to the pre-compaction
/// tables; snapshots taken later admit every surviving newest version
/// of each key, which reads as before.
#[verifier::external_body]
pub(crate) fn tree_compact(t: &mut LsmTree, gc_watermark: u64) -> (r: Result<
    (),
    lsm_tree::Error,
>)
    ensures
        forall|i: int|
            0 <= i < tree_log(*final(t)).len() ==> exists|j: int|
                0 <= j < tree_log(*old(t)).len() && (#[trigger] tree_log(*final(t))[i]) == tree_log(
                    *old(t),
                )[j],
        forall|k: Seq<u8>, snap: u64|
            gc_watermark <= snap ==> #[trigger] visible_value(tree_log(*final(t)), k, snap)
                == visible_value(tree_log(*old(t)), k, snap),
{
    t.tree.compact(std::sync::Arc::new(lsm_tree::compaction::Leveled::default()), gc_watermark)
}

/// Relies on `Memtable::size` through `AbstractTree::active_memtable`:
/// the approximate byte size of the tree's active memtable. Only a
/// heuristic; nothing is assumed of the value.
#[verifier::external_body]
pub(crate) fn tree_active_memtable_size(t: &LsmTree) -> (r: u64) {
    t.tree.active_memtable().size()
}

} // verus!
