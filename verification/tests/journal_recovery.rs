//! Journal recovery under tail corruption: garbage bytes and replayed
//! markers appended after a committed batch never change what the
//! reader returns.
use fjall::journal::Journal;
use fjall::marker::{Item, Marker, ValueKind};
use fjall::shard::JournalShard;

fn committed_batch() -> (Vec<Item>, Vec<u8>) {
    let values = vec![
        Item::new(b"default", b"abc", b"def", ValueKind::Value),
        Item::new(b"default", b"yxc", b"ghj", ValueKind::Value),
    ];
    let mut shard = JournalShard::create_new();
    shard.write_batch(&values, 0);
    let bytes = shard.contents().clone();
    (values, bytes)
}

#[test]
fn journal_truncation_corrupt_bytes() {
    let (values, mut bytes) = committed_batch();

    let collected = Journal::get_reader(&bytes).batches.clone();
    assert_eq!(values, collected.first().unwrap().items);

    // Mangle journal
    bytes.extend_from_slice(b"09pmu35w3a9mp53bao9upw3ab5up");

    for _ in 0..10 {
        let collected = Journal::get_reader(&bytes).batches.clone();
        assert_eq!(values, collected.first().unwrap().items);
        assert_eq!(1, collected.len());
    }

    // Mangle journal
    for _ in 0..5 {
        bytes.extend_from_slice(b"09pmu35w3a9mp53bao9upw3ab5up");
    }

    for _ in 0..10 {
        let collected = Journal::get_reader(&bytes).batches.clone();
        assert_eq!(values, collected.first().unwrap().items);
        assert_eq!(1, collected.len());
    }
}

#[test]
fn journal_truncation_repeating_start_marker() {
    let (values, mut bytes) = committed_batch();

    let collected = Journal::get_reader(&bytes).batches.clone();
    assert_eq!(values, collected.first().unwrap().items);

    // Mangle journal
    Marker::Start { item_count: 2, seqno: 64 }.encode_into(&mut bytes);

    for _ in 0..10 {
        let collected = Journal::get_reader(&bytes).batches.clone();
        assert_eq!(values, collected.first().unwrap().items);
        assert_eq!(1, collected.len());
    }

    // Mangle journal
    for _ in 0..5 {
        Marker::Start { item_count: 2, seqno: 64 }.encode_into(&mut bytes);
    }

    for _ in 0..10 {
        let collected = Journal::get_reader(&bytes).batches.clone();
        assert_eq!(values, collected.first().unwrap().items);
        assert_eq!(1, collected.len());
    }
}

#[test]
fn journal_truncation_repeating_end_marker() {
    let (values, mut bytes) = committed_batch();

    let collected = Journal::get_reader(&bytes).batches.clone();
    assert_eq!(values, collected.first().unwrap().items);

    // Mangle journal
    Marker::End(5432).encode_into(&mut bytes);

    for _ in 0..10 {
        let collected = Journal::get_reader(&bytes).batches.clone();
        assert_eq!(values, collected.first().unwrap().items);
        assert_eq!(1, collected.len());
    }

    // Mangle journal
    for _ in 0..5 {
        Marker::End(5432).encode_into(&mut bytes);
    }

    for _ in 0..10 {
        let collected = Journal::get_reader(&bytes).batches.clone();
        assert_eq!(values, collected.first().unwrap().items);
        assert_eq!(1, collected.len());
    }
}

#[test]
fn journal_truncation_repeating_item_marker() {
    let (values, mut bytes) = committed_batch();

    let collected = Journal::get_reader(&bytes).batches.clone();
    assert_eq!(values, collected.first().unwrap().items);

    // Mangle journal
    Marker::Item(Item::new(b"default", b"zzz", b"", ValueKind::Tombstone)).encode_into(&mut bytes);

    for _ in 0..10 {
        let collected = Journal::get_reader(&bytes).batches.clone();
        assert_eq!(values, collected.first().unwrap().items);
        assert_eq!(1, collected.len());
    }

    // Mangle journal
    for _ in 0..5 {
        Marker::Item(Item::new(b"default", b"zzz", b"", ValueKind::Tombstone))
            .encode_into(&mut bytes);
    }

    for _ in 0..10 {
        let collected = Journal::get_reader(&bytes).batches.clone();
        assert_eq!(values, collected.first().unwrap().items);
        assert_eq!(1, collected.len());
    }
}

#[test]
fn journal_reader_returns_batches_in_order() {
    let mut shard = JournalShard::create_new();
    let first = vec![Item::new(b"p", b"a", b"1", ValueKind::Value)];
    let second = vec![
        Item::new(b"p", b"b", b"2", ValueKind::Value),
        Item::new(b"q", b"c", b"", ValueKind::Tombstone),
    ];
    shard.write_batch(&first, 7);
    shard.write_batch(&second, 9);
    let reader = Journal::get_reader(shard.contents());
    assert_eq!(2, reader.batches.len());
    assert_eq!(7, reader.batches[0].seqno);
    assert_eq!(first, reader.batches[0].items);
    assert_eq!(9, reader.batches[1].seqno);
    assert_eq!(second, reader.batches[1].items);
}

#[test]
fn journal_reader_ignores_half_written_batch() {
    let mut shard = JournalShard::create_new();
    let first = vec![Item::new(b"p", b"a", b"1", ValueKind::Value)];
    shard.write_batch(&first, 3);
    let mut bytes = shard.contents().clone();
    // A start that announces two items followed by only one of them.
    Marker::Start { item_count: 2, seqno: 4 }.encode_into(&mut bytes);
    Marker::Item(Item::new(b"p", b"b", b"2", ValueKind::Value)).encode_into(&mut bytes);
    let reader = Journal::get_reader(&bytes);
    assert_eq!(1, reader.batches.len());
    assert_eq!(first, reader.batches[0].items);
}

#[test]
fn journal_reader_rejects_bad_checksum() {
    let mut shard = JournalShard::create_new();
    shard.write_batch(&vec![Item::new(b"p", b"a", b"1", ValueKind::Value)], 0);
    let mut bytes = shard.contents().clone();
    // Flip one payload byte: the batch's checksum no longer matches.
    let mid = bytes.len() / 2;
    bytes[mid] = bytes[mid].wrapping_add(1);
    let reader = Journal::get_reader(&bytes);
    assert_eq!(0, reader.batches.len());
}

#[test]
fn varint_roundtrip_values() {
    for &x in &[0u64, 1, 127, 128, 300, 16383, 16384, u64::MAX] {
        let mut out: Vec<u8> = Vec::new();
        fjall::varint::encode_varint(x, &mut out);
        let (v, end) = fjall::varint::decode_varint(&out, 0).unwrap();
        assert_eq!(x, v);
        assert_eq!(out.len(), end);
    }
    // A lone continuation byte decodes to nothing.
    assert!(fjall::varint::decode_varint(&vec![0x80u8], 0).is_none());
}

#[test]
fn journal_rotation_seals_contents() {
    let mut journal = Journal::create_new();
    let idx = journal.get_writer();
    journal.write_batch(idx, &vec![Item::new(b"p", b"a", b"1", ValueKind::Value)], 1);
    assert!(journal.shards[idx].should_sync);
    let sealed = journal.rotate();
    assert_eq!(4, sealed.len());
    assert!(!sealed[idx].is_empty());
    for shard in &journal.shards {
        assert!(shard.contents().is_empty());
        assert!(!shard.should_sync);
    }
    let reader = Journal::get_reader(&sealed[idx]);
    assert_eq!(1, reader.batches.len());
}
