//! Keyspace transactions: snapshot isolation, read-your-own-writes,
//! atomic commits, and the snapshot tracker's garbage-collection
//! watermark.
use fjall::keyspace::Keyspace;
use fjall::partition::{CreateOptions, TxPartitionHandle};
use fjall::journal::Journal;
use fjall::PersistMode;

fn open_default(dir: &tempfile::TempDir) -> (Keyspace, TxPartitionHandle) {
    let mut ks = Keyspace::create();
    let path = dir.path().join("default");
    let part = ks
        .open_partition(b"default", path.to_str().unwrap(), CreateOptions::default())
        .unwrap();
    (ks, part)
}

#[test]
fn ryow_and_rollback() {
    let dir = tempfile::tempdir().unwrap();
    let (mut ks, part) = open_default(&dir);

    let mut tx = ks.write_tx();
    tx.insert(&part, b"a", b"previous_value").unwrap();
    tx.commit(&mut ks).unwrap();
    let rtx = ks.read_tx();
    assert_eq!(
        Some(b"previous_value".to_vec()),
        rtx.get(&ks, &part, b"a").unwrap()
    );
    rtx.close(&mut ks);

    let mut tx = ks.write_tx();
    tx.insert(&part, b"a", b"new_value").unwrap();

    // Read-your-own-write
    assert_eq!(Some(b"new_value".to_vec()), tx.get(&ks, &part, b"a").unwrap());

    tx.rollback(&mut ks);

    // Write was not committed
    let rtx = ks.read_tx();
    assert_eq!(
        Some(b"previous_value".to_vec()),
        rtx.get(&ks, &part, b"a").unwrap()
    );
    rtx.close(&mut ks);
}

#[test]
fn repeatable_read_across_commits() {
    let dir = tempfile::tempdir().unwrap();
    let (mut ks, part) = open_default(&dir);

    let mut tx = ks.write_tx();
    tx.insert(&part, b"a", b"my_value").unwrap();
    tx.commit(&mut ks).unwrap();

    let rtx = ks.read_tx();
    assert_eq!(Some(b"my_value".to_vec()), rtx.get(&ks, &part, b"a").unwrap());

    let mut tx = ks.write_tx();
    tx.insert(&part, b"a", b"my_updated_value").unwrap();
    tx.insert(&part, b"b", b"other").unwrap();
    tx.commit(&mut ks).unwrap();

    // Repeatable read: the old snapshot still sees the old state.
    assert_eq!(Some(b"my_value".to_vec()), rtx.get(&ks, &part, b"a").unwrap());
    assert_eq!(None, rtx.get(&ks, &part, b"b").unwrap());
    assert!(!rtx.contains_key(&ks, &part, b"b").unwrap());
    rtx.close(&mut ks);

    // A fresh snapshot sees the commit as a whole.
    let rtx = ks.read_tx();
    assert_eq!(
        Some(b"my_updated_value".to_vec()),
        rtx.get(&ks, &part, b"a").unwrap()
    );
    assert_eq!(Some(b"other".to_vec()), rtx.get(&ks, &part, b"b").unwrap());
    rtx.close(&mut ks);
}

#[test]
fn take_fetch_update_update_fetch() {
    let dir = tempfile::tempdir().unwrap();
    let (mut ks, part) = open_default(&dir);

    let mut tx = ks.write_tx();
    tx.insert(&part, b"a", b"abc").unwrap();
    tx.commit(&mut ks).unwrap();

    // take removes and returns the previous value.
    let mut tx = ks.write_tx();
    let taken = tx.take(&ks, &part, b"a").unwrap().unwrap();
    assert_eq!(b"abc".to_vec(), taken);
    assert_eq!(None, tx.get(&ks, &part, b"a").unwrap());
    tx.commit(&mut ks).unwrap();
    let rtx = ks.read_tx();
    assert_eq!(None, rtx.get(&ks, &part, b"a").unwrap());
    rtx.close(&mut ks);

    // fetch_update returns the previous value and stages the new one.
    let mut tx = ks.write_tx();
    tx.insert(&part, b"a", b"abc").unwrap();
    let prev = tx
        .fetch_update(&ks, &part, b"a", |_| Some(b"def".to_vec()))
        .unwrap()
        .unwrap();
    assert_eq!(b"abc".to_vec(), prev);
    assert_eq!(Some(b"def".to_vec()), tx.get(&ks, &part, b"a").unwrap());

    // update_fetch returns the new value.
    let updated = tx
        .update_fetch(&ks, &part, b"a", |_| Some(b"ghi".to_vec()))
        .unwrap()
        .unwrap();
    assert_eq!(b"ghi".to_vec(), updated);

    // Returning None removes the item.
    let gone = tx.update_fetch(&ks, &part, b"a", |_| None).unwrap();
    assert!(gone.is_none());
    assert_eq!(None, tx.get(&ks, &part, b"a").unwrap());
    tx.commit(&mut ks).unwrap();
}

#[test]
fn iteration_order_and_bounds() {
    let dir = tempfile::tempdir().unwrap();
    let (mut ks, part) = open_default(&dir);

    let mut tx = ks.write_tx();
    tx.insert(&part, b"a", b"abc").unwrap();
    tx.insert(&part, b"f", b"abc").unwrap();
    tx.insert(&part, b"g", b"abc").unwrap();
    // Read-your-own-writes iteration before the commit.
    assert_eq!(3, tx.iter(&ks, &part).unwrap().len());
    assert_eq!(3, tx.len(&ks, &part).unwrap());
    assert_eq!(2, tx.range(&ks, &part, b"a", b"f").unwrap().len());
    let (first, _) = tx.first_key_value(&ks, &part).unwrap().unwrap();
    assert_eq!(b"a".to_vec(), first);
    let (last, _) = tx.last_key_value(&ks, &part).unwrap().unwrap();
    assert_eq!(b"g".to_vec(), last);
    tx.commit(&mut ks).unwrap();

    let rtx = ks.read_tx();
    let pairs = rtx.iter(&ks, &part).unwrap();
    assert_eq!(
        vec![b"a".to_vec(), b"f".to_vec(), b"g".to_vec()],
        pairs.iter().map(|kv| kv.0.clone()).collect::<Vec<_>>()
    );
    assert_eq!(3, rtx.len(&ks, &part).unwrap());
    assert!(!rtx.is_empty(&ks, &part).unwrap());
    assert_eq!(2, rtx.range(&ks, &part, b"a", b"f").unwrap().len());
    assert_eq!(
        vec![b"a".to_vec(), b"f".to_vec(), b"g".to_vec()],
        rtx.keys(&ks, &part).unwrap()
    );
    assert_eq!(3, rtx.values(&ks, &part).unwrap().len());
    let (k, v) = rtx.first_key_value(&ks, &part).unwrap().unwrap();
    assert_eq!((b"a".to_vec(), b"abc".to_vec()), (k, v));
    let (k, _) = rtx.last_key_value(&ks, &part).unwrap().unwrap();
    assert_eq!(b"g".to_vec(), k);
    rtx.close(&mut ks);
}

#[test]
fn prefix_scan() {
    let dir = tempfile::tempdir().unwrap();
    let (mut ks, part) = open_default(&dir);

    let mut tx = ks.write_tx();
    tx.insert(&part, b"a", b"abc").unwrap();
    tx.insert(&part, b"ab", b"abc").unwrap();
    tx.insert(&part, b"abc", b"abc").unwrap();
    assert_eq!(2, tx.prefix(&ks, &part, b"ab").unwrap().len());
    tx.commit(&mut ks).unwrap();

    let rtx = ks.read_tx();
    assert_eq!(2, rtx.prefix(&ks, &part, b"ab").unwrap().len());
    rtx.close(&mut ks);
}

#[test]
fn tombstones_hide_committed_values() {
    let dir = tempfile::tempdir().unwrap();
    let (mut ks, part) = open_default(&dir);

    let mut tx = ks.write_tx();
    tx.insert(&part, b"a", b"value").unwrap();
    tx.commit(&mut ks).unwrap();

    let mut tx = ks.write_tx();
    tx.remove(&part, b"a").unwrap();
    assert_eq!(None, tx.get(&ks, &part, b"a").unwrap());
    assert!(!tx.contains_key(&ks, &part, b"a").unwrap());
    assert_eq!(0, tx.len(&ks, &part).unwrap());
    tx.commit(&mut ks).unwrap();

    let rtx = ks.read_tx();
    assert_eq!(None, rtx.get(&ks, &part, b"a").unwrap());
    assert!(rtx.is_empty(&ks, &part).unwrap());
    rtx.close(&mut ks);
}

#[test]
fn cross_partition_commit_is_atomic() {
    let dir = tempfile::tempdir().unwrap();
    let mut ks = Keyspace::create();
    let p1 = ks
        .open_partition(
            b"alpha",
            dir.path().join("alpha").to_str().unwrap(),
            CreateOptions::default(),
        )
        .unwrap();
    let p2 = ks
        .open_partition(
            b"beta",
            dir.path().join("beta").to_str().unwrap(),
            CreateOptions::default(),
        )
        .unwrap();

    let before = ks.read_tx();
    let mut tx = ks.write_tx();
    tx.insert(&p1, b"k1", b"v1").unwrap();
    tx.insert(&p2, b"k2", b"v2").unwrap();
    tx.commit(&mut ks).unwrap();

    // The old snapshot sees neither record of the commit.
    assert_eq!(None, before.get(&ks, &p1, b"k1").unwrap());
    assert_eq!(None, before.get(&ks, &p2, b"k2").unwrap());
    before.close(&mut ks);

    // A fresh snapshot sees both.
    let after = ks.read_tx();
    assert_eq!(Some(b"v1".to_vec()), after.get(&ks, &p1, b"k1").unwrap());
    assert_eq!(Some(b"v2".to_vec()), after.get(&ks, &p2, b"k2").unwrap());
    after.close(&mut ks);
}

#[test]
fn commit_journals_the_batch() {
    let dir = tempfile::tempdir().unwrap();
    let (mut ks, part) = open_default(&dir);

    let mut tx = ks.write_tx();
    tx.insert(&part, b"abc", b"def").unwrap();
    tx.remove(&part, b"zzz").unwrap();
    tx.commit(&mut ks).unwrap();

    let mut batches = 0;
    for shard in &ks.journal.shards {
        let reader = Journal::get_reader(shard.contents());
        for batch in &reader.batches {
            batches += 1;
            assert_eq!(1, batch.seqno);
            assert_eq!(2, batch.items.len());
            assert_eq!(b"abc".to_vec(), batch.items[0].key);
            assert_eq!(b"def".to_vec(), batch.items[0].value);
            assert_eq!(b"default".to_vec(), batch.items[0].partition);
            assert_eq!(b"zzz".to_vec(), batch.items[1].key);
        }
    }
    assert_eq!(1, batches);
}

#[test]
fn persist_clears_sync_flags() {
    let dir = tempfile::tempdir().unwrap();
    let (mut ks, part) = open_default(&dir);

    let mut tx = ks.write_tx();
    tx.insert(&part, b"a", b"v").unwrap();
    tx.commit(&mut ks).unwrap();
    assert!(ks.journal.shards.iter().any(|s| s.should_sync));

    ks.persist(PersistMode::Buffer);
    assert!(ks.journal.shards.iter().any(|s| s.should_sync));

    ks.persist(PersistMode::SyncAll);
    assert!(ks.journal.shards.iter().all(|s| !s.should_sync));
}

#[test]
fn gc_watermark_tracks_live_snapshots() {
    let dir = tempfile::tempdir().unwrap();
    let (mut ks, part) = open_default(&dir);

    // No live snapshot: the watermark is the next sequence number.
    assert_eq!(1, ks.get_seqno_safe_to_gc());

    let rtx = ks.read_tx();
    assert_eq!(1, rtx.nonce.instant);
    assert_eq!(1, ks.get_seqno_safe_to_gc());

    let mut tx = ks.write_tx();
    tx.insert(&part, b"a", b"v").unwrap();
    tx.commit(&mut ks).unwrap();

    // The live snapshot pins the watermark at its instant.
    assert_eq!(1, ks.get_seqno_safe_to_gc());

    let rtx2 = ks.read_tx();
    assert_eq!(2, rtx2.nonce.instant);
    assert_eq!(1, ks.get_seqno_safe_to_gc());

    rtx.close(&mut ks);
    assert_eq!(2, ks.get_seqno_safe_to_gc());

    rtx2.close(&mut ks);
    assert_eq!(2, ks.get_seqno_safe_to_gc());
}

#[test]
fn empty_partition_name_is_rejected() {
    let dir = tempfile::tempdir().unwrap();
    let mut ks = Keyspace::create();
    let r = ks.open_partition(
        b"",
        dir.path().join("x").to_str().unwrap(),
        CreateOptions::default(),
    );
    assert!(matches!(r, Err(fjall::KvError::InvalidInput)));
}

#[test]
fn reopening_a_partition_returns_the_same_handle() {
    let dir = tempfile::tempdir().unwrap();
    let (mut ks, part) = open_default(&dir);
    let again = ks
        .open_partition(
            b"default",
            dir.path().join("elsewhere").to_str().unwrap(),
            CreateOptions::default(),
        )
        .unwrap();
    assert_eq!(part, again);
}

#[test]
fn compaction_run_keeps_live_reads() {
    let dir = tempfile::tempdir().unwrap();
    let mut ks = Keyspace::create();
    let part = ks
        .open_partition(
            b"default",
            dir.path().join("default").to_str().unwrap(),
            CreateOptions { max_memtable_size: 0 },
        )
        .unwrap();

    let mut tx = ks.write_tx();
    tx.insert(&part, b"a", b"v1").unwrap();
    tx.commit(&mut ks).unwrap();
    let mut tx = ks.write_tx();
    tx.insert(&part, b"a", b"v2").unwrap();
    tx.commit(&mut ks).unwrap();

    // The zero threshold enqueued the partition at both commits.
    let rtx = ks.read_tx();
    fjall::compaction::run(&mut ks);
    fjall::compaction::run(&mut ks);
    fjall::compaction::run(&mut ks);
    assert_eq!(Some(b"v2".to_vec()), rtx.get(&ks, &part, b"a").unwrap());
    rtx.close(&mut ks);
}

#[test]
fn oversized_and_empty_records_are_rejected() {
    let dir = tempfile::tempdir().unwrap();
    let (mut ks, part) = open_default(&dir);

    let mut tx = ks.write_tx();
    assert!(matches!(
        tx.insert(&part, b"", b"v"),
        Err(fjall::KvError::InvalidInput)
    ));
    let long_key = vec![7u8; 65536];
    assert!(matches!(
        tx.insert(&part, &long_key, b"v"),
        Err(fjall::KvError::InvalidInput)
    ));
    assert!(matches!(
        tx.remove(&part, b""),
        Err(fjall::KvError::InvalidInput)
    ));
    assert!(matches!(
        tx.get(&ks, &part, &long_key),
        Err(fjall::KvError::InvalidInput)
    ));
    assert!(matches!(
        tx.take(&ks, &part, &long_key),
        Err(fjall::KvError::InvalidInput)
    ));

    // The longest key the tree accepts round-trips.
    let max_key = vec![7u8; 65535];
    tx.insert(&part, &max_key, b"v").unwrap();
    assert_eq!(Some(b"v".to_vec()), tx.get(&ks, &part, &max_key).unwrap());
    tx.commit(&mut ks).unwrap();

    let rtx = ks.read_tx();
    assert!(matches!(
        rtx.get(&ks, &part, &long_key),
        Err(fjall::KvError::InvalidInput)
    ));
    assert!(matches!(
        rtx.prefix(&ks, &part, &long_key),
        Err(fjall::KvError::InvalidInput)
    ));
    assert!(matches!(
        rtx.range(&ks, &part, b"a", &long_key),
        Err(fjall::KvError::InvalidInput)
    ));
    assert_eq!(Some(b"v".to_vec()), rtx.get(&ks, &part, &max_key).unwrap());
    rtx.close(&mut ks);
}

#[test]
fn unchanged_update_stages_nothing() {
    let dir = tempfile::tempdir().unwrap();
    let (mut ks, part) = open_default(&dir);

    let mut tx = ks.write_tx();
    tx.insert(&part, b"a", b"v").unwrap();
    tx.commit(&mut ks).unwrap();

    // Updates that hand the value back unchanged stage nothing, so the
    // committed batch is empty.
    let mut tx = ks.write_tx();
    let prev = tx
        .fetch_update(&ks, &part, b"a", |v| v)
        .unwrap()
        .unwrap();
    assert_eq!(b"v".to_vec(), prev);
    let same = tx
        .update_fetch(&ks, &part, b"a", |v| v)
        .unwrap()
        .unwrap();
    assert_eq!(b"v".to_vec(), same);
    tx.commit(&mut ks).unwrap();

    let mut second_batch_items = None;
    for shard in &ks.journal.shards {
        for batch in &Journal::get_reader(shard.contents()).batches {
            if batch.seqno == 2 {
                second_batch_items = Some(batch.items.len());
            }
        }
    }
    assert_eq!(Some(0), second_batch_items);
}

#[test]
fn staged_commit_applies_or_aborts() {
    let dir = tempfile::tempdir().unwrap();
    let (mut ks, part) = open_default(&dir);

    // The prepared record is exactly what the journal then holds.
    let mut tx = ks.write_tx();
    tx.insert(&part, b"a", b"v").unwrap();
    let pending = tx.prepare(&ks);
    let record = pending.encoded_record(&ks);
    let idx = ks.journal.next_writer;
    pending.apply(&mut ks).unwrap();
    assert_eq!(&record[..], &ks.journal.shards[idx].contents()[..]);
    let rtx = ks.read_tx();
    assert_eq!(Some(b"v".to_vec()), rtx.get(&ks, &part, b"a").unwrap());
    rtx.close(&mut ks);

    // An aborted batch changes nothing but releases its snapshot.
    let mut tx = ks.write_tx();
    tx.insert(&part, b"a", b"other").unwrap();
    let pending = tx.prepare(&ks);
    pending.abort(&mut ks);
    let rtx = ks.read_tx();
    assert_eq!(Some(b"v".to_vec()), rtx.get(&ks, &part, b"a").unwrap());
    rtx.close(&mut ks);
    assert_eq!(2, ks.get_seqno_safe_to_gc());
}
