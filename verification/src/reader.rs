//! Journal recovery: reconstructing the committed batches from a shard's
//! bytes while tolerating arbitrary garbage at the tail.
//!
//! A valid batch is exactly the pattern `Start`, then as many `Item`
//! markers as the start announced, then `End` with a matching checksum.
//! The first position at which this pattern fails ends recovery: every
//! batch completed before it is returned, everything from it on is
//! ignored.
use crate::checksum::{crc32, crc32_of};
use crate::marker::{
    item_enc, kind_byte, u32_le_dec, Item, ItemModel, COMPRESSION_NONE, END_TAG, ITEM_TAG,
    START_TAG,
};
use crate::varint::{decode_varint, varint_dec};
use vstd::prelude::*;

verus! {

/// Mathematical model of one recovered batch.
pub struct BatchModel {
    pub seqno: u64,
    pub items: Seq<ItemModel>,
}

/// One batch reconstructed from a shard's bytes.
#[derive(Clone, Debug, PartialEq, Eq)]
pub struct RecoveredBatch {
    pub seqno: u64,
    pub items: Vec<Item>,
}

impl View for RecoveredBatch {
    type V = BatchModel;

    open spec fn view(&self) -> BatchModel {
        BatchModel { seqno: self.seqno, items: self.items@.map_values(|i: Item| i@) }
    }
}

/// Parses one `Item` marker at `pos`: the tag, three length-prefixed byte
/// strings, and a kind byte that must be 0 or 1.
pub open spec fn parse_item(b: Seq<u8>, pos: int) -> Option<(ItemModel, int)> {
    if pos < 0 || pos >= b.len() || b[pos] != ITEM_TAG {
        None
    } else {
        match varint_dec(b, pos + 1) {
            None => None,
            Some((plen, p1)) => {
                if p1 + plen > b.len() {
                    None
                } else {
                    let partition = b.subrange(p1, p1 + plen);
                    match varint_dec(b, p1 + plen) {
                        None => None,
                        Some((klen, p2)) => {
                            if p2 + klen > b.len() {
                                None
                            } else {
                                let key = b.subrange(p2, p2 + klen);
                                match varint_dec(b, p2 + klen) {
                                    None => None,
                                    Some((vlen, p3)) => {
                                        if p3 + vlen > b.len() {
                                            None
                                        } else {
                                            let value = b.subrange(p3, p3 + vlen);
                                            let p4 = p3 + vlen;
                                            if p4 >= b.len() || (b[p4] != 0 && b[p4] != 1) {
                                                None
                                            } else {
                                                Some(
                                                    (
                                                        ItemModel {
                                                            partition,
                                                            key,
                                                            value,
                                                            tombstone: b[p4] == 1,
                                                        },
                                                        p4 + 1,
                                                    ),
                                                )
                                            }
                                        }
                                    }
                                }
                            }
                        }
                    }
                }
            }
        }
    }
}

/// Parses exactly `count` consecutive `Item` markers starting at `pos`.
pub open spec fn parse_items(b: Seq<u8>, pos: int, count: u64) -> Option<(Seq<ItemModel>, int)>
    decreases count,
{
    if count == 0 {
        Some((seq![], pos))
    } else {
        match parse_item(b, pos) {
            None => None,
            Some((it, p2)) => {
                match parse_items(b, p2, (count - 1) as u64) {
                    None => None,
                    Some((rest, p3)) => Some((seq![it] + rest, p3)),
                }
            }
        }
    }
}

/// Parses one complete batch at `pos`: `Start`, the announced items, and
/// `End` whose checksum must match the bytes from the `Start` tag through
/// the last item.
pub open spec fn parse_batch(b: Seq<u8>, pos: int) -> Option<(BatchModel, int)> {
    if pos < 0 || pos >= b.len() || b[pos] != START_TAG {
        None
    } else {
        match varint_dec(b, pos + 1) {
            None => None,
            Some((count, p1)) => {
                match varint_dec(b, p1) {
                    None => None,
                    Some((seqno, p2)) => {
                        if p2 >= b.len() || b[p2] != COMPRESSION_NONE {
                            None
                        } else {
                            match parse_items(b, p2 + 1, count) {
                                None => None,
                                Some((items, p3)) => {
                                    if p3 >= b.len() || b[p3] != END_TAG {
                                        None
                                    } else {
                                        match u32_le_dec(b, p3 + 1) {
                                            None => None,
                                            Some((crc, p4)) => {
                                                if crc == crc32_of(b.subrange(pos, p3)) {
                                                    Some((BatchModel { seqno, items }, p4))
                                                } else {
                                                    None
                                                }
                                            }
                                        }
                                    }
                                }
                            }
                        }
                    }
                }
            }
        }
    }
}

/// The complete batches recovered from `b` starting at `pos`: batches are
/// read as long as the pattern holds; the first failure ends recovery.
pub open spec fn spec_recover(b: Seq<u8>, pos: int) -> Seq<BatchModel>
    decreases b.len() - pos,
{
    match parse_batch(b, pos) {
        Some((batch, p2)) => {
            if pos < p2 <= b.len() {
                seq![batch] + spec_recover(b, p2)
            } else {
                seq![batch]
            }
        }
        None => seq![],
    }
}

/// A successful varint decode lands strictly past `pos` and within `b`.
pub proof fn lemma_varint_dec_bounds(b: Seq<u8>, pos: int)
    requires
        varint_dec(b, pos) is Some,
    ensures
        pos < varint_dec(b, pos)->Some_0.1 <= b.len(),
    decreases b.len() - pos,
{
    if !(pos < 0 || pos >= b.len()) && b[pos] >= 128 {
        lemma_varint_dec_bounds(b, pos + 1);
    }
}

/// A successful item parse lands strictly past `pos` and within `b`.
pub proof fn lemma_parse_item_bounds(b: Seq<u8>, pos: int)
    requires
        parse_item(b, pos) is Some,
    ensures
        pos < parse_item(b, pos)->Some_0.1 <= b.len(),
{
    lemma_varint_dec_bounds(b, pos + 1);
    let (plen, p1) = varint_dec(b, pos + 1)->Some_0;
    lemma_varint_dec_bounds(b, p1 + plen);
    let (klen, p2) = varint_dec(b, p1 + plen)->Some_0;
    lemma_varint_dec_bounds(b, p2 + klen);
}

/// A successful items parse never goes backwards and stays within `b`.
pub proof fn lemma_parse_items_bounds(b: Seq<u8>, pos: int, count: u64)
    requires
        parse_items(b, pos, count) is Some,
        pos <= b.len(),
    ensures
        pos <= parse_items(b, pos, count)->Some_0.1 <= b.len(),
    decreases count,
{
    if count != 0 {
        lemma_parse_item_bounds(b, pos);
        let (it, p2) = parse_item(b, pos)->Some_0;
        lemma_parse_items_bounds(b, p2, (count - 1) as u64);
    }
}

/// A successful batch parse lands strictly past `pos` and within `b`.
pub proof fn lemma_parse_batch_bounds(b: Seq<u8>, pos: int)
    requires
        parse_batch(b, pos) is Some,
    ensures
        pos < parse_batch(b, pos)->Some_0.1 <= b.len(),
{
    lemma_varint_dec_bounds(b, pos + 1);
    let (count, p1) = varint_dec(b, pos + 1)->Some_0;
    lemma_varint_dec_bounds(b, p1);
    let (seqno, p2) = varint_dec(b, p1)->Some_0;
    lemma_parse_items_bounds(b, p2 + 1, count);
}

/// Copies `b[from..to]` into a fresh vector.
pub fn copy_range(b: &Vec<u8>, from: usize, to: usize) -> (r: Vec<u8>)
    requires
        from <= to <= b.len(),
    ensures
        r@ == b@.subrange(from as int, to as int),
{
    let mut out: Vec<u8> = Vec::new();
    let mut i: usize = from;
    while i < to
        invariant
            from <= i <= to <= b.len(),
            out@ == b@.subrange(from as int, i as int),
        decreases to - i,
    {
        out.push(b[i]);
        i += 1;
        assert(out@ =~= b@.subrange(from as int, i as int));
    }
    out
}

/// Parses one `Item` marker, as [`parse_item`] does.
pub fn parse_item_at(b: &Vec<u8>, pos: usize) -> (r: Option<(Item, usize)>)
    ensures
        match r {
            Some(v) => parse_item(b@, pos as int) == Some((v.0@, v.1 as int)) && pos < v.1
                <= b.len(),
            None => parse_item(b@, pos as int) is None,
        },
{
    if pos >= b.len() || b[pos] != ITEM_TAG {
        return None;
    }
    let (plen, p1) = match decode_varint(b, pos + 1) {
        None => { return None; },
        Some(v) => v,
    };
    proof {
        lemma_varint_dec_bounds(b@, pos as int + 1);
    }
    if plen > (b.len() - p1) as u64 {
        return None;
    }
    let partition = copy_range(b, p1, p1 + plen as usize);
    let (klen, p2) = match decode_varint(b, p1 + plen as usize) {
        None => { return None; },
        Some(v) => v,
    };
    proof {
        lemma_varint_dec_bounds(b@, p1 as int + plen as int);
    }
    if klen > (b.len() - p2) as u64 {
        return None;
    }
    let key = copy_range(b, p2, p2 + klen as usize);
    let (vlen, p3) = match decode_varint(b, p2 + klen as usize) {
        None => { return None; },
        Some(v) => v,
    };
    proof {
        lemma_varint_dec_bounds(b@, p2 as int + klen as int);
    }
    if vlen > (b.len() - p3) as u64 {
        return None;
    }
    let value = copy_range(b, p3, p3 + vlen as usize);
    let p4 = p3 + vlen as usize;
    if p4 >= b.len() {
        return None;
    }
    let kb = b[p4];
    if kb != 0 && kb != 1 {
        return None;
    }
    let kind = if kb == 1 {
        crate::marker::ValueKind::Tombstone
    } else {
        crate::marker::ValueKind::Value
    };
    Some((Item { partition, key, value, kind }, p4 + 1))
}

/// Parses exactly `count` `Item` markers, as [`parse_items`] does.
pub fn parse_items_at(b: &Vec<u8>, pos: usize, count: u64) -> (r: Option<(Vec<Item>, usize)>)
    requires
        pos <= b.len(),
    ensures
        match r {
            Some(v) => parse_items(b@, pos as int, count) == Some(
                (v.0@.map_values(|i: Item| i@), v.1 as int),
            ) && pos <= v.1 <= b.len(),
            None => parse_items(b@, pos as int, count) is None,
        },
{
    let mut acc: Vec<Item> = Vec::new();
    let mut cur: usize = pos;
    let mut left: u64 = count;
    proof {
        match parse_items(b@, pos as int, count) {
            Some(v) => {
                assert(Seq::<ItemModel>::empty() + v.0 =~= v.0);
            }
            None => {}
        }
        assert(acc@.map_values(|i: Item| i@) =~= Seq::<ItemModel>::empty());
    }
    loop
        invariant
            pos <= cur <= b.len(),
            (match parse_items(b@, cur as int, left) {
                Some(v) => parse_items(b@, pos as int, count) == Some::<(Seq<ItemModel>, int)>(
                    (acc@.map_values(|i: Item| i@) + v.0, v.1),
                ),
                None => parse_items(b@, pos as int, count) is None,
            }),
        ensures
            parse_items(b@, pos as int, count) == Some::<(Seq<ItemModel>, int)>(
                (acc@.map_values(|i: Item| i@), cur as int),
            ),
            pos <= cur <= b.len(),
        decreases left,
    {
        if left == 0 {
            proof {
                assert(parse_items(b@, cur as int, 0u64) == Some::<(Seq<ItemModel>, int)>(
                    (Seq::<ItemModel>::empty(), cur as int),
                ));
                let accm = acc@.map_values(|i: Item| i@);
                assert(accm + Seq::<ItemModel>::empty() =~= accm);
            }
            break;
        }
        match parse_item_at(b, cur) {
            None => {
                return None;
            }
            Some((it, p2)) => {
                proof {
                    let accm = acc@.map_values(|i: Item| i@);
                    match parse_items(b@, p2 as int, (left - 1) as u64) {
                        Some(v2) => {
                            assert(parse_items(b@, cur as int, left) == Some::<
                                (Seq<ItemModel>, int),
                            >((seq![it@] + v2.0, v2.1)));
                            assert(accm + (seq![it@] + v2.0) =~= accm.push(it@) + v2.0);
                        }
                        None => {
                            assert(parse_items(b@, cur as int, left) is None);
                        }
                    }
                }
                let ghost prev = acc@;
                acc.push(it);
                cur = p2;
                left = left - 1;
                assert(acc@.map_values(|i: Item| i@) =~= prev.map_values(|i: Item| i@).push(it@));
            }
        }
    }
    Some((acc, cur))
}

/// Parses one complete batch, as [`parse_batch`] does.
pub fn parse_batch_at(b: &Vec<u8>, pos: usize) -> (r: Option<(RecoveredBatch, usize)>)
    ensures
        match r {
            Some(v) => parse_batch(b@, pos as int) == Some((v.0@, v.1 as int)) && pos < v.1
                <= b.len(),
            None => parse_batch(b@, pos as int) is None,
        },
{
    if pos >= b.len() || b[pos] != START_TAG {
        return None;
    }
    let (count, p1) = match decode_varint(b, pos + 1) {
        None => { return None; },
        Some(v) => v,
    };
    proof {
        lemma_varint_dec_bounds(b@, pos as int + 1);
    }
    let (seqno, p2) = match decode_varint(b, p1) {
        None => { return None; },
        Some(v) => v,
    };
    proof {
        lemma_varint_dec_bounds(b@, p1 as int);
    }
    if p2 >= b.len() || b[p2] != COMPRESSION_NONE {
        return None;
    }
    let (items, p3) = match parse_items_at(b, p2 + 1, count) {
        None => { return None; },
        Some(v) => v,
    };
    if p3 >= b.len() || b[p3] != END_TAG {
        return None;
    }
    let (crc, p4) = match crate::marker::decode_u32_le(b, p3 + 1) {
        None => { return None; },
        Some(v) => v,
    };
    let frame = copy_range(b, pos, p3);
    let computed = crc32(&frame);
    if crc != computed {
        return None;
    }
    Some((RecoveredBatch { seqno, items }, p4))
}

/// Recovers every complete batch from `b`, as [`spec_recover`] does.
pub fn recover(b: &Vec<u8>) -> (r: Vec<RecoveredBatch>)
    ensures
        r@.map_values(|x: RecoveredBatch| x@) == spec_recover(b@, 0),
{
    let mut out: Vec<RecoveredBatch> = Vec::new();
    let mut pos: usize = 0;
    loop
        invariant
            pos <= b.len(),
            spec_recover(b@, 0) == out@.map_values(|x: RecoveredBatch| x@) + spec_recover(
                b@,
                pos as int,
            ),
        ensures
            spec_recover(b@, 0) == out@.map_values(|x: RecoveredBatch| x@),
        decreases b.len() - pos,
    {
        match parse_batch_at(b, pos) {
            None => {
                assert(spec_recover(b@, pos as int) =~= Seq::<BatchModel>::empty());
                assert(out@.map_values(|x: RecoveredBatch| x@) + Seq::<BatchModel>::empty()
                    =~= out@.map_values(|x: RecoveredBatch| x@));
                break;
            }
            Some((batch, p2)) => {
                proof {
                    let ghost prev = out@.map_values(|x: RecoveredBatch| x@);
                    assert(spec_recover(b@, pos as int) == seq![batch@] + spec_recover(
                        b@,
                        p2 as int,
                    ));
                    assert(prev + (seq![batch@] + spec_recover(b@, p2 as int)) =~= prev.push(
                        batch@,
                    ) + spec_recover(b@, p2 as int));
                }
                out.push(batch);
                pos = p2;
                assert(out@.map_values(|x: RecoveredBatch| x@) =~= out@.drop_last().map_values(
                    |x: RecoveredBatch| x@,
                ).push(batch@));
            }
        }
    }
    out
}

/// Recovers the committed batches of one journal shard from its bytes.
pub struct JournalReader {
    pub batches: Vec<RecoveredBatch>,
}

impl JournalReader {
    /// Parses the shard bytes; tail garbage never fails recovery.
    pub fn new(bytes: &Vec<u8>) -> (r: JournalReader)
        ensures
            r.batches@.map_values(|x: RecoveredBatch| x@) == spec_recover(bytes@, 0),
    {
        JournalReader { batches: recover(bytes) }
    }

    /// The recovered batches, oldest first.
    pub fn batches(&self) -> (r: &Vec<RecoveredBatch>)
        ensures
            r == self.batches,
    {
        &self.batches
    }
}

/// Every batch in the run is well formed.
pub open spec fn batches_wf(bs: Seq<BatchModel>) -> bool {
    forall|i: int| 0 <= i < bs.len() ==> crate::marker::batch_wf(#[trigger] bs[i])
}

/// `n` back-to-back copies of the byte string `m`.
pub open spec fn repeat_bytes(m: Seq<u8>, n: nat) -> Seq<u8>
    decreases n,
{
    if n == 0 {
        seq![]
    } else {
        m + repeat_bytes(m, (n - 1) as nat)
    }
}

proof fn lemma_embed_index(b: Seq<u8>, pos: int, e: Seq<u8>, i: int)
    requires
        0 <= pos,
        pos + e.len() <= b.len(),
        b.subrange(pos, pos + e.len() as int) == e,
        0 <= i < e.len(),
    ensures
        b[pos + i] == e[i],
{
    assert(b.subrange(pos, pos + e.len() as int)[i] == b[pos + i]);
}

proof fn lemma_embed_sub(b: Seq<u8>, pos: int, e: Seq<u8>, a: int, c: int)
    requires
        0 <= pos,
        pos + e.len() <= b.len(),
        b.subrange(pos, pos + e.len() as int) == e,
        0 <= a <= c <= e.len(),
    ensures
        b.subrange(pos + a, pos + c) == e.subrange(a, c),
{
    assert(b.subrange(pos + a, pos + c) =~= e.subrange(a, c)) by {
        assert forall|i: int| 0 <= i < c - a implies b.subrange(pos + a, pos + c)[i] == e.subrange(
            a,
            c,
        )[i] by {
            lemma_embed_index(b, pos, e, a + i);
        }
    }
}

/// Parsing at the start of an embedded item encoding yields that item and
/// stops exactly at its end, whatever bytes follow.
#[verifier::rlimit(50)]
pub proof fn lemma_parse_item_of_enc(it: ItemModel, b: Seq<u8>, pos: int)
    requires
        crate::marker::item_wf(it),
        0 <= pos,
        pos + item_enc(it).len() <= b.len(),
        b.subrange(pos, pos + item_enc(it).len() as int) == item_enc(it),
    ensures
        parse_item(b, pos) == Some((it, pos + item_enc(it).len() as int)),
{
    let e = item_enc(it);
    let plen = it.partition.len() as u64;
    let klen = it.key.len() as u64;
    let vlen = it.value.len() as u64;
    let vp = crate::varint::varint_enc(plen);
    let vk = crate::varint::varint_enc(klen);
    let vv = crate::varint::varint_enc(vlen);
    let o1: int = 1;
    let o2 = o1 + vp.len();
    let o3 = o2 + it.partition.len();
    let o4 = o3 + vk.len();
    let o5 = o4 + it.key.len();
    let o6 = o5 + vv.len();
    let o7 = o6 + it.value.len();
    assert(e == seq![ITEM_TAG] + vp + it.partition + vk + it.key + vv + it.value + seq![
        kind_byte(it.tombstone),
    ]);
    assert(e.len() == o7 + 1);
    lemma_embed_index(b, pos, e, 0);
    assert(e[0] == ITEM_TAG);

    lemma_embed_sub(b, pos, e, o1, o2);
    assert(e.subrange(o1, o2) =~= vp) by {
        assert forall|i: int| 0 <= i < vp.len() implies e.subrange(o1, o2)[i] == vp[i] by {
            assert(e[o1 + i] == vp[i]);
        }
    }
    crate::varint::lemma_varint_roundtrip(plen, b, pos + 1);

    lemma_embed_sub(b, pos, e, o2, o3);
    assert(e.subrange(o2, o3) =~= it.partition) by {
        assert forall|i: int| 0 <= i < it.partition.len() implies e.subrange(o2, o3)[i]
            == it.partition[i] by {
            assert(e[o2 + i] == it.partition[i]);
        }
    }

    lemma_embed_sub(b, pos, e, o3, o4);
    assert(e.subrange(o3, o4) =~= vk) by {
        assert forall|i: int| 0 <= i < vk.len() implies e.subrange(o3, o4)[i] == vk[i] by {
            assert(e[o3 + i] == vk[i]);
        }
    }
    crate::varint::lemma_varint_roundtrip(klen, b, pos + o3);

    lemma_embed_sub(b, pos, e, o4, o5);
    assert(e.subrange(o4, o5) =~= it.key) by {
        assert forall|i: int| 0 <= i < it.key.len() implies e.subrange(o4, o5)[i] == it.key[i] by {
            assert(e[o4 + i] == it.key[i]);
        }
    }

    lemma_embed_sub(b, pos, e, o5, o6);
    assert(e.subrange(o5, o6) =~= vv) by {
        assert forall|i: int| 0 <= i < vv.len() implies e.subrange(o5, o6)[i] == vv[i] by {
            assert(e[o5 + i] == vv[i]);
        }
    }
    crate::varint::lemma_varint_roundtrip(vlen, b, pos + o5);

    lemma_embed_sub(b, pos, e, o6, o7);
    assert(e.subrange(o6, o7) =~= it.value) by {
        assert forall|i: int| 0 <= i < it.value.len() implies e.subrange(o6, o7)[i]
            == it.value[i] by {
            assert(e[o6 + i] == it.value[i]);
        }
    }

    lemma_embed_index(b, pos, e, o7);
    assert(e[o7] == kind_byte(it.tombstone));

    let parsed = parse_item(b, pos)->Some_0;
    assert(parsed.0.partition == it.partition);
    assert(parsed.0.key == it.key);
    assert(parsed.0.value == it.value);
    assert(parsed.0.tombstone == it.tombstone);
}

/// Parsing at the start of an embedded run of item encodings yields those
/// items and stops exactly at the run's end.
pub proof fn lemma_parse_items_of_enc(items: Seq<ItemModel>, b: Seq<u8>, pos: int)
    requires
        forall|i: int| 0 <= i < items.len() ==> crate::marker::item_wf(#[trigger] items[i]),
        items.len() <= u64::MAX,
        0 <= pos,
        pos + crate::marker::items_enc(items).len() <= b.len(),
        b.subrange(pos, pos + crate::marker::items_enc(items).len() as int)
            == crate::marker::items_enc(items),
    ensures
        parse_items(b, pos, items.len() as u64) == Some(
            (items, pos + crate::marker::items_enc(items).len() as int),
        ),
    decreases items.len(),
{
    let e = crate::marker::items_enc(items);
    if items.len() == 0 {
        assert(parse_items(b, pos, 0u64) == Some::<(Seq<ItemModel>, int)>((seq![], pos)));
        assert(items =~= Seq::<ItemModel>::empty());
    } else {
        let e0 = item_enc(items[0]);
        let rest = items.drop_first();
        let er = crate::marker::items_enc(rest);
        assert(e == e0 + er);
        lemma_embed_sub(b, pos, e, 0, e0.len() as int);
        assert(e.subrange(0, e0.len() as int) =~= e0) by {
            assert forall|i: int| 0 <= i < e0.len() implies e.subrange(0, e0.len() as int)[i]
                == e0[i] by {
                assert(e[i] == e0[i]);
            }
        }
        lemma_parse_item_of_enc(items[0], b, pos);
        let p2 = pos + e0.len();
        lemma_embed_sub(b, pos, e, e0.len() as int, e.len() as int);
        assert(e.subrange(e0.len() as int, e.len() as int) =~= er) by {
            assert forall|i: int| 0 <= i < er.len() implies e.subrange(
                e0.len() as int,
                e.len() as int,
            )[i] == er[i] by {
                assert(e[e0.len() + i] == er[i]);
            }
        }
        lemma_parse_items_of_enc(rest, b, p2);
        assert(seq![items[0]] + rest =~= items);
        assert((items.len() - 1) as u64 == rest.len() as u64);
    }
}

/// Parsing at the start of an embedded batch encoding yields that batch
/// and stops exactly at its end, whatever bytes follow.
#[verifier::rlimit(50)]
pub proof fn lemma_parse_batch_of_enc(items: Seq<ItemModel>, seqno: u64, b: Seq<u8>, pos: int)
    requires
        forall|i: int| 0 <= i < items.len() ==> crate::marker::item_wf(#[trigger] items[i]),
        items.len() <= u64::MAX,
        0 <= pos,
        pos + crate::marker::batch_enc(items, seqno).len() <= b.len(),
        b.subrange(pos, pos + crate::marker::batch_enc(items, seqno).len() as int)
            == crate::marker::batch_enc(items, seqno),
    ensures
        parse_batch(b, pos) == Some(
            (
                BatchModel { seqno, items },
                pos + crate::marker::batch_enc(items, seqno).len() as int,
            ),
        ),
{
    let e = crate::marker::batch_enc(items, seqno);
    let count = items.len() as u64;
    let vc = crate::varint::varint_enc(count);
    let vs = crate::varint::varint_enc(seqno);
    let ie = crate::marker::items_enc(items);
    let body = crate::marker::start_enc(count, seqno) + ie;
    let crc = crate::checksum::crc32_of(body);
    let o1: int = 1;
    let o2 = o1 + vc.len();
    let o3 = o2 + vs.len();
    let o4 = o3 + 1;
    let o5 = o4 + ie.len();
    assert(e == body + crate::marker::end_enc(crc));
    assert(crate::marker::start_enc(count, seqno) == seq![START_TAG] + vc + vs + seq![
        COMPRESSION_NONE,
    ]);
    assert(e == seq![START_TAG] + vc + vs + seq![COMPRESSION_NONE] + ie + seq![END_TAG]
        + crate::marker::u32_le_enc(crc)) by {
        assert(crate::marker::end_enc(crc) == seq![END_TAG] + crate::marker::u32_le_enc(crc));
        assert((seq![START_TAG] + vc + vs + seq![COMPRESSION_NONE] + ie) + (seq![END_TAG]
            + crate::marker::u32_le_enc(crc)) =~= seq![START_TAG] + vc + vs + seq![
            COMPRESSION_NONE,
        ] + ie + seq![END_TAG] + crate::marker::u32_le_enc(crc));
    }
    assert(e.len() == o5 + 5);
    lemma_embed_index(b, pos, e, 0);
    assert(e[0] == START_TAG);

    lemma_embed_sub(b, pos, e, o1, o2);
    assert(e.subrange(o1, o2) =~= vc) by {
        assert forall|i: int| 0 <= i < vc.len() implies e.subrange(o1, o2)[i] == vc[i] by {
            assert(e[o1 + i] == vc[i]);
        }
    }
    crate::varint::lemma_varint_roundtrip(count, b, pos + 1);

    lemma_embed_sub(b, pos, e, o2, o3);
    assert(e.subrange(o2, o3) =~= vs) by {
        assert forall|i: int| 0 <= i < vs.len() implies e.subrange(o2, o3)[i] == vs[i] by {
            assert(e[o2 + i] == vs[i]);
        }
    }
    crate::varint::lemma_varint_roundtrip(seqno, b, pos + o2);

    lemma_embed_index(b, pos, e, o3);
    assert(e[o3] == COMPRESSION_NONE);

    lemma_embed_sub(b, pos, e, o4, o5);
    assert(e.subrange(o4, o5) =~= ie) by {
        assert forall|i: int| 0 <= i < ie.len() implies e.subrange(o4, o5)[i] == ie[i] by {
            assert(e[o4 + i] == ie[i]);
        }
    }
    lemma_parse_items_of_enc(items, b, pos + o4);

    lemma_embed_index(b, pos, e, o5);
    assert(e[o5] == END_TAG);

    lemma_embed_sub(b, pos, e, o5 + 1, o5 + 5);
    assert(e.subrange(o5 + 1, o5 + 5) =~= crate::marker::u32_le_enc(crc)) by {
        assert forall|i: int| 0 <= i < 4 implies e.subrange(o5 + 1, o5 + 5)[i]
            == crate::marker::u32_le_enc(crc)[i] by {
            assert(e[o5 + 1 + i] == crate::marker::u32_le_enc(crc)[i]);
        }
    }
    crate::marker::lemma_u32_le_roundtrip(crc, b, pos + o5 + 1);

    lemma_embed_sub(b, pos, e, 0, o5);
    assert(e.subrange(0, o5) =~= body) by {
        assert forall|i: int| 0 <= i < body.len() implies e.subrange(0, o5)[i] == body[i] by {
            assert(e[i] == body[i]);
        }
    }
    assert(b.subrange(pos, pos + o5) == body);
}

/// Recovery of a shard that holds a run of complete batch encodings
/// followed by bytes at which no batch parses returns exactly that run.
pub proof fn lemma_recover_journal(bs: Seq<BatchModel>, b: Seq<u8>, pos: int)
    requires
        batches_wf(bs),
        0 <= pos,
        pos + crate::marker::journal_enc(bs).len() <= b.len(),
        b.subrange(pos, pos + crate::marker::journal_enc(bs).len() as int)
            == crate::marker::journal_enc(bs),
        parse_batch(b, pos + crate::marker::journal_enc(bs).len() as int) is None,
    ensures
        spec_recover(b, pos) == bs,
    decreases bs.len(),
{
    let e = crate::marker::journal_enc(bs);
    if bs.len() == 0 {
        assert(e.len() == 0);
        assert(spec_recover(b, pos) =~= Seq::<BatchModel>::empty());
    } else {
        let e0 = crate::marker::batch_enc(bs[0].items, bs[0].seqno);
        let rest = bs.drop_first();
        let er = crate::marker::journal_enc(rest);
        assert(e == e0 + er);
        lemma_embed_sub(b, pos, e, 0, e0.len() as int);
        assert(e.subrange(0, e0.len() as int) =~= e0) by {
            assert forall|i: int| 0 <= i < e0.len() implies e.subrange(0, e0.len() as int)[i]
                == e0[i] by {
                assert(e[i] == e0[i]);
            }
        }
        assert(crate::marker::batch_wf(bs[0]));
        lemma_parse_batch_of_enc(bs[0].items, bs[0].seqno, b, pos);
        let p2 = pos + e0.len();
        assert(parse_batch(b, pos) == Some::<(BatchModel, int)>(
            (BatchModel { seqno: bs[0].seqno, items: bs[0].items }, p2),
        ));
        assert(BatchModel { seqno: bs[0].seqno, items: bs[0].items } == bs[0]);
        lemma_parse_batch_bounds(b, pos);
        lemma_embed_sub(b, pos, e, e0.len() as int, e.len() as int);
        assert(e.subrange(e0.len() as int, e.len() as int) =~= er) by {
            assert forall|i: int| 0 <= i < er.len() implies e.subrange(
                e0.len() as int,
                e.len() as int,
            )[i] == er[i] by {
                assert(e[e0.len() + i] == er[i]);
            }
        }
        assert(batches_wf(rest)) by {
            assert forall|i: int| 0 <= i < rest.len() implies crate::marker::batch_wf(
                #[trigger] rest[i],
            ) by {
                assert(rest[i] == bs[i + 1]);
            }
        }
        lemma_recover_journal(rest, b, p2);
        assert(spec_recover(b, pos) == seq![bs[0]] + rest);
        assert(seq![bs[0]] + rest =~= bs);
    }
}

/// Truncation safety: appending trailing bytes that do not begin a
/// well-formed batch record never changes what recovery returns for the
/// committed run before them.
pub proof fn theorem_recovery_survives_garbage(bs: Seq<BatchModel>, g: Seq<u8>)
    requires
        batches_wf(bs),
        g.len() == 0 || g[0] != START_TAG,
    ensures
        spec_recover(crate::marker::journal_enc(bs) + g, 0) == bs,
{
    let e = crate::marker::journal_enc(bs);
    let b = e + g;
    let l = e.len() as int;
    assert(b.subrange(0, l) =~= e) by {
        assert forall|i: int| 0 <= i < l implies b.subrange(0, l)[i] == e[i] by {
            assert(b[i] == e[i]);
        }
    }
    if g.len() == 0 {
        assert(l >= b.len());
    } else {
        assert(b[l] == g[0]);
    }
    lemma_recover_journal(bs, b, 0);
}

/// Replayed out-of-context `Item` markers appended after the committed
/// run are ignored: recovery still returns exactly that run.
pub proof fn theorem_recovery_ignores_stray_items(bs: Seq<BatchModel>, it: ItemModel, n: nat)
    requires
        batches_wf(bs),
        n >= 1,
    ensures
        spec_recover(crate::marker::journal_enc(bs) + repeat_bytes(item_enc(it), n), 0) == bs,
{
    let m = item_enc(it);
    let g = repeat_bytes(m, n);
    assert(m[0] == ITEM_TAG);
    assert(g == m + repeat_bytes(m, (n - 1) as nat));
    assert(g[0] == ITEM_TAG);
    theorem_recovery_survives_garbage(bs, g);
}

/// Replayed out-of-context `End` markers appended after the committed run
/// are ignored: recovery still returns exactly that run.
pub proof fn theorem_recovery_ignores_stray_ends(bs: Seq<BatchModel>, crc: u32, n: nat)
    requires
        batches_wf(bs),
        n >= 1,
    ensures
        spec_recover(crate::marker::journal_enc(bs) + repeat_bytes(crate::marker::end_enc(crc), n), 0)
            == bs,
{
    let m = crate::marker::end_enc(crc);
    let g = repeat_bytes(m, n);
    assert(m[0] == END_TAG);
    assert(g == m + repeat_bytes(m, (n - 1) as nat));
    assert(g[0] == END_TAG);
    theorem_recovery_survives_garbage(bs, g);
}

/// Replayed out-of-context `Start` markers that announce at least one
/// item are ignored: the parser reads the first stray start, finds no
/// item behind it, and discards the whole tail.
#[verifier::rlimit(50)]
pub proof fn theorem_recovery_ignores_stray_starts(
    bs: Seq<BatchModel>,
    item_count: u64,
    seqno: u64,
    n: nat,
)
    requires
        batches_wf(bs),
        n >= 1,
        item_count >= 1,
    ensures
        spec_recover(
            crate::marker::journal_enc(bs) + repeat_bytes(
                crate::marker::start_enc(item_count, seqno),
                n,
            ),
            0,
        ) == bs,
{
    let m = crate::marker::start_enc(item_count, seqno);
    let vc = crate::varint::varint_enc(item_count);
    let vs = crate::varint::varint_enc(seqno);
    let e = crate::marker::journal_enc(bs);
    let g = repeat_bytes(m, n);
    let b = e + g;
    let l = e.len() as int;
    let sl = m.len() as int;
    assert(m == seq![START_TAG] + vc + vs + seq![COMPRESSION_NONE]);
    assert(sl == 2 + vc.len() + vs.len());
    assert(g == m + repeat_bytes(m, (n - 1) as nat));

    assert(b.subrange(0, l) =~= e) by {
        assert forall|i: int| 0 <= i < l implies b.subrange(0, l)[i] == e[i] by {
            assert(b[i] == e[i]);
        }
    }
    assert(b.subrange(l, l + sl) =~= m) by {
        assert forall|i: int| 0 <= i < sl implies b.subrange(l, l + sl)[i] == m[i] by {
            assert(b[l + i] == g[i]);
            assert(g[i] == m[i]);
        }
    }

    lemma_embed_sub(b, l, m, 1, 1 + vc.len() as int);
    assert(m.subrange(1, 1 + vc.len() as int) =~= vc) by {
        assert forall|i: int| 0 <= i < vc.len() implies m.subrange(1, 1 + vc.len() as int)[i]
            == vc[i] by {
            assert(m[1 + i] == vc[i]);
        }
    }
    crate::varint::lemma_varint_roundtrip(item_count, b, l + 1);

    let o2 = 1 + vc.len() as int;
    lemma_embed_sub(b, l, m, o2, o2 + vs.len() as int);
    assert(m.subrange(o2, o2 + vs.len() as int) =~= vs) by {
        assert forall|i: int| 0 <= i < vs.len() implies m.subrange(o2, o2 + vs.len() as int)[i]
            == vs[i] by {
            assert(m[o2 + i] == vs[i]);
        }
    }
    crate::varint::lemma_varint_roundtrip(seqno, b, l + o2);

    let p2 = l + o2 + vs.len() as int;
    assert(p2 == l + sl - 1);
    assert(b[p2] == m[sl - 1]) by {
        assert(b[l + (sl - 1)] == g[sl - 1]);
        assert(g[sl - 1] == m[sl - 1]);
    }
    assert(m[sl - 1] == COMPRESSION_NONE);

    assert(parse_item(b, l + sl) is None) by {
        if n == 1 {
            assert(g.len() == sl + repeat_bytes(m, 0).len());
            assert(l + sl >= b.len());
        } else {
            assert(b[l + sl] == g[sl]);
            assert(g[sl] == repeat_bytes(m, (n - 1) as nat)[0]);
            assert(repeat_bytes(m, (n - 1) as nat) == m + repeat_bytes(m, (n - 2) as nat));
            assert(g[sl] == m[0]);
            assert(m[0] == START_TAG);
        }
    }
    assert(parse_items(b, l + sl, item_count) is None);
    assert(parse_batch(b, l) is None);
    lemma_recover_journal(bs, b, 0);
}

} // verus!
