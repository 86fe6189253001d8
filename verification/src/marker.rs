//! On-disk journal framing: a shard file is a flat stream of markers.
//!
//! Each marker starts with a tag byte: a `Start` marker opens a batch and
//! carries the item count, the batch sequence number and a compression
//! kind; an `Item` marker carries one record; an `End` marker closes the
//! batch with a checksum over the bytes from the `Start` tag through the
//! last `Item`.
use crate::varint::{encode_varint, varint_enc};
use vstd::prelude::*;

verus! {

pub const START_TAG: u8 = 0;

pub const ITEM_TAG: u8 = 1;

pub const END_TAG: u8 = 2;

/// The only compression kind written or accepted; other values are
/// reserved.
pub const COMPRESSION_NONE: u8 = 0;

/// Whether a record carries a value or marks the key as deleted.
#[derive(Clone, Copy, Debug, PartialEq, Eq)]
pub enum ValueKind {
    Value,
    Tombstone,
}

/// One record of a batch: a partition name, a key, a value and a kind.
#[derive(Clone, Debug, PartialEq, Eq)]
pub struct Item {
    pub partition: Vec<u8>,
    pub key: Vec<u8>,
    pub value: Vec<u8>,
    pub kind: ValueKind,
}

/// Mathematical model of an [`Item`].
pub struct ItemModel {
    pub partition: Seq<u8>,
    pub key: Seq<u8>,
    pub value: Seq<u8>,
    pub tombstone: bool,
}

impl View for Item {
    type V = ItemModel;

    open spec fn view(&self) -> ItemModel {
        ItemModel {
            partition: self.partition@,
            key: self.key@,
            value: self.value@,
            tombstone: self.kind is Tombstone,
        }
    }
}

impl Item {
    pub fn new(partition: &[u8], key: &[u8], value: &[u8], kind: ValueKind) -> (r: Item)
        ensures
            r@ == (ItemModel {
                partition: partition@,
                key: key@,
                value: value@,
                tombstone: kind is Tombstone,
            }),
    {
        Item {
            partition: vstd::slice::slice_to_vec(partition),
            key: vstd::slice::slice_to_vec(key),
            value: vstd::slice::slice_to_vec(value),
            kind,
        }
    }

    /// Appends the byte encoding of this item's marker to `out`.
    pub fn encode_into(&self, out: &mut Vec<u8>)
        ensures
            final(out)@ == old(out)@ + item_enc(self@),
    {
        out.push(ITEM_TAG);
        encode_varint(self.partition.len() as u64, out);
        append_bytes(out, &self.partition);
        encode_varint(self.key.len() as u64, out);
        append_bytes(out, &self.key);
        encode_varint(self.value.len() as u64, out);
        append_bytes(out, &self.value);
        out.push(if matches!(self.kind, ValueKind::Tombstone) {
            1
        } else {
            0
        });
        assert(out@ =~= old(out)@ + item_enc(self@));
    }
}

pub open spec fn kind_byte(tombstone: bool) -> u8 {
    if tombstone {
        1
    } else {
        0
    }
}

/// Little-endian encoding of a 32-bit integer.
pub open spec fn u32_le_enc(x: u32) -> Seq<u8> {
    seq![
        (x % 256) as u8,
        ((x / 256) % 256) as u8,
        ((x / 65536) % 256) as u8,
        ((x / 16777216) % 256) as u8,
    ]
}

pub open spec fn u32_le_dec(b: Seq<u8>, pos: int) -> Option<(u32, int)> {
    if pos < 0 || pos + 4 > b.len() {
        None
    } else {
        Some(
            (
                (b[pos] as u32 + 256 * (b[pos + 1] as u32) + 65536 * (b[pos + 2] as u32) + 16777216
                    * (b[pos + 3] as u32)) as u32,
                pos + 4,
            ),
        )
    }
}

pub proof fn lemma_u32_le_roundtrip(x: u32, b: Seq<u8>, pos: int)
    requires
        0 <= pos,
        pos + 4 <= b.len(),
        b.subrange(pos, pos + 4) == u32_le_enc(x),
    ensures
        u32_le_dec(b, pos) == Some((x, pos + 4)),
{
    let e = u32_le_enc(x);
    assert(b[pos] == e[0] && b[pos + 1] == e[1] && b[pos + 2] == e[2] && b[pos + 3] == e[3]) by {
        assert(b.subrange(pos, pos + 4)[0] == b[pos]);
        assert(b.subrange(pos, pos + 4)[1] == b[pos + 1]);
        assert(b.subrange(pos, pos + 4)[2] == b[pos + 2]);
        assert(b.subrange(pos, pos + 4)[3] == b[pos + 3]);
    }
    assert(x % 256 + 256 * ((x / 256) % 256) + 65536 * ((x / 65536) % 256) + 16777216 * ((x
        / 16777216) % 256) == x) by (bit_vector);
}

/// Byte encoding of a `Start` marker; the compression kind is always
/// [`COMPRESSION_NONE`].
pub open spec fn start_enc(item_count: u64, seqno: u64) -> Seq<u8> {
    seq![START_TAG] + varint_enc(item_count) + varint_enc(seqno) + seq![COMPRESSION_NONE]
}

/// Byte encoding of an `Item` marker.
pub open spec fn item_enc(it: ItemModel) -> Seq<u8> {
    seq![ITEM_TAG] + varint_enc(it.partition.len() as u64) + it.partition + varint_enc(
        it.key.len() as u64,
    ) + it.key + varint_enc(it.value.len() as u64) + it.value + seq![kind_byte(it.tombstone)]
}

/// Byte encoding of an `End` marker.
pub open spec fn end_enc(crc: u32) -> Seq<u8> {
    seq![END_TAG] + u32_le_enc(crc)
}

/// The models of a run of items.
pub open spec fn item_models(items: Seq<Item>) -> Seq<ItemModel> {
    items.map_values(|i: Item| i@)
}

/// Concatenated encodings of a run of items.
pub open spec fn items_enc(items: Seq<ItemModel>) -> Seq<u8>
    decreases items.len(),
{
    if items.len() == 0 {
        seq![]
    } else {
        item_enc(items[0]) + items_enc(items.drop_first())
    }
}

/// Byte encoding of one complete batch record: `Start`, the items, then
/// `End` carrying the checksum of everything before it.
pub open spec fn batch_enc(items: Seq<ItemModel>, seqno: u64) -> Seq<u8> {
    let body = start_enc(items.len() as u64, seqno) + items_enc(items);
    body + end_enc(crate::checksum::crc32_of(body))
}

/// Concatenated encodings of a run of batches, as a shard file holds them.
pub open spec fn journal_enc(batches: Seq<crate::reader::BatchModel>) -> Seq<u8>
    decreases batches.len(),
{
    if batches.len() == 0 {
        seq![]
    } else {
        batch_enc(batches[0].items, batches[0].seqno) + journal_enc(batches.drop_first())
    }
}

/// Encoding a run of items one more item at a time appends its encoding.
pub proof fn lemma_items_enc_push(items: Seq<ItemModel>, it: ItemModel)
    ensures
        items_enc(items.push(it)) == items_enc(items) + item_enc(it),
    decreases items.len(),
{
    if items.len() == 0 {
        assert(items.push(it)[0] == it);
        assert(items_enc(items.push(it)) == item_enc(items.push(it)[0]) + items_enc(
            items.push(it).drop_first(),
        ));
        assert(items.push(it).drop_first() =~= Seq::<ItemModel>::empty());
        assert(item_enc(it) + Seq::<u8>::empty() =~= item_enc(it));
        assert(items_enc(items) =~= Seq::<u8>::empty());
        assert(Seq::<u8>::empty() + item_enc(it) =~= item_enc(it));
    } else {
        assert(items.push(it)[0] == items[0]);
        assert(items_enc(items.push(it)) == item_enc(items.push(it)[0]) + items_enc(
            items.push(it).drop_first(),
        ));
        assert(items.push(it).drop_first() =~= items.drop_first().push(it));
        lemma_items_enc_push(items.drop_first(), it);
        assert(item_enc(items[0]) + (items_enc(items.drop_first()) + item_enc(it)) =~= (item_enc(
            items[0],
        ) + items_enc(items.drop_first())) + item_enc(it));
    }
}

/// Writing one more batch to a shard appends its encoding.
pub proof fn lemma_journal_enc_push(bs: Seq<crate::reader::BatchModel>, x: crate::reader::BatchModel)
    ensures
        journal_enc(bs.push(x)) == journal_enc(bs) + batch_enc(x.items, x.seqno),
    decreases bs.len(),
{
    if bs.len() == 0 {
        assert(bs.push(x)[0] == x);
        assert(journal_enc(bs.push(x)) == batch_enc(bs.push(x)[0].items, bs.push(x)[0].seqno)
            + journal_enc(bs.push(x).drop_first()));
        assert(bs.push(x).drop_first() =~= Seq::<crate::reader::BatchModel>::empty());
        assert(batch_enc(x.items, x.seqno) + Seq::<u8>::empty() =~= batch_enc(x.items, x.seqno));
        assert(journal_enc(bs) =~= Seq::<u8>::empty());
        assert(Seq::<u8>::empty() + batch_enc(x.items, x.seqno) =~= batch_enc(x.items, x.seqno));
    } else {
        assert(bs.push(x)[0] == bs[0]);
        assert(journal_enc(bs.push(x)) == batch_enc(bs.push(x)[0].items, bs.push(x)[0].seqno)
            + journal_enc(bs.push(x).drop_first()));
        assert(bs.push(x).drop_first() =~= bs.drop_first().push(x));
        lemma_journal_enc_push(bs.drop_first(), x);
        assert(batch_enc(bs[0].items, bs[0].seqno) + (journal_enc(bs.drop_first()) + batch_enc(
            x.items,
            x.seqno,
        )) =~= (batch_enc(bs[0].items, bs[0].seqno) + journal_enc(bs.drop_first())) + batch_enc(
            x.items,
            x.seqno,
        ));
    }
}

/// Builds the byte encoding of one complete batch record: the `Start`
/// marker, every item's marker, and the `End` marker carrying the
/// checksum of everything before it.
pub fn encode_batch(items: &Vec<Item>, seqno: u64) -> (r: Vec<u8>)
    ensures
        r@ == batch_enc(item_models(items@), seqno),
{
    let mut body: Vec<u8> = Vec::new();
    let start = Marker::Start { item_count: items.len() as u64, seqno };
    start.encode_into(&mut body);
    let ghost models = item_models(items@);
    proof {
        assert(models.subrange(0, 0) =~= Seq::<ItemModel>::empty());
        assert(body@ =~= start_enc(items.len() as u64, seqno) + items_enc(models.subrange(0, 0)));
    }
    let mut i: usize = 0;
    while i < items.len()
        invariant
            i <= items.len(),
            models == item_models(items@),
            models.len() == items.len(),
            body@ == start_enc(items@.len() as u64, seqno) + items_enc(
                models.subrange(0, i as int),
            ),
        decreases items.len() - i,
    {
        proof {
            lemma_items_enc_push(models.subrange(0, i as int), models[i as int]);
            assert(models.subrange(0, i as int).push(models[i as int]) =~= models.subrange(
                0,
                i as int + 1,
            ));
        }
        items[i].encode_into(&mut body);
        i += 1;
        assert(body@ =~= start_enc(items@.len() as u64, seqno) + items_enc(
            models.subrange(0, i as int),
        ));
    }
    proof {
        assert(models.subrange(0, models.len() as int) =~= models);
    }
    let crc = crate::checksum::crc32(&body);
    let endm = Marker::End(crc);
    endm.encode_into(&mut body);
    body
}

/// An item whose three byte strings have encodable lengths; every item
/// held in memory satisfies this.
pub open spec fn item_wf(it: ItemModel) -> bool {
    it.partition.len() <= u64::MAX && it.key.len() <= u64::MAX && it.value.len() <= u64::MAX
}

/// A batch whose items are all well formed and whose item count is
/// encodable.
pub open spec fn batch_wf(b: crate::reader::BatchModel) -> bool {
    b.items.len() <= u64::MAX && forall|i: int| 0 <= i < b.items.len() ==> item_wf(#[trigger] b.items[i])
}

/// Appends all of `src` to `out`.
pub fn append_bytes(out: &mut Vec<u8>, src: &Vec<u8>)
    ensures
        final(out)@ == old(out)@ + src@,
{
    let mut i: usize = 0;
    while i < src.len()
        invariant
            i <= src.len(),
            out@ == old(out)@ + src@.subrange(0, i as int),
        decreases src.len() - i,
    {
        out.push(src[i]);
        i += 1;
        assert(out@ =~= old(out)@ + src@.subrange(0, i as int));
    }
    assert(out@ =~= old(out)@ + src@);
}

pub fn encode_u32_le(x: u32, out: &mut Vec<u8>)
    ensures
        final(out)@ == old(out)@ + u32_le_enc(x),
{
    out.push((x % 256) as u8);
    out.push(((x / 256) % 256) as u8);
    out.push(((x / 65536) % 256) as u8);
    out.push(((x / 16777216) % 256) as u8);
    assert(out@ =~= old(out)@ + u32_le_enc(x));
}

pub fn decode_u32_le(b: &Vec<u8>, pos: usize) -> (r: Option<(u32, usize)>)
    ensures
        match r {
            Some(v) => u32_le_dec(b@, pos as int) == Some((v.0, v.1 as int)) && v.1 <= b.len(),
            None => u32_le_dec(b@, pos as int) is None,
        },
{
    if pos < b.len() && b.len() - pos >= 4 {
        let v: u32 = b[pos] as u32 + 256 * (b[pos + 1] as u32) + 65536 * (b[pos + 2] as u32)
            + 16777216 * (b[pos + 3] as u32);
        Some((v, pos + 4))
    } else {
        None
    }
}

/// One framed element of a shard file.
#[derive(Clone, Debug, PartialEq, Eq)]
pub enum Marker {
    Start { item_count: u64, seqno: u64 },
    Item(Item),
    End(u32),
}

impl Marker {
    /// The byte encoding of this marker.
    pub open spec fn enc(self) -> Seq<u8> {
        match self {
            Marker::Start { item_count, seqno } => start_enc(item_count, seqno),
            Marker::Item(it) => item_enc(it@),
            Marker::End(crc) => end_enc(crc),
        }
    }

    /// Appends the byte encoding of this marker to `out`.
    pub fn encode_into(&self, out: &mut Vec<u8>)
        ensures
            final(out)@ == old(out)@ + self.enc(),
    {
        match self {
            Marker::Start { item_count, seqno } => {
                out.push(START_TAG);
                encode_varint(*item_count, out);
                encode_varint(*seqno, out);
                out.push(COMPRESSION_NONE);
                assert(out@ =~= old(out)@ + self.enc());
            }
            Marker::Item(it) => {
                out.push(ITEM_TAG);
                encode_varint(it.partition.len() as u64, out);
                append_bytes(out, &it.partition);
                encode_varint(it.key.len() as u64, out);
                append_bytes(out, &it.key);
                encode_varint(it.value.len() as u64, out);
                append_bytes(out, &it.value);
                out.push(if matches!(it.kind, ValueKind::Tombstone) {
                    1
                } else {
                    0
                });
                assert(out@ =~= old(out)@ + self.enc());
            }
            Marker::End(crc) => {
                out.push(END_TAG);
                encode_u32_le(*crc, out);
                assert(out@ =~= old(out)@ + self.enc());
            }
        }
    }
}

} // verus!
