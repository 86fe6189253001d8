//! Little-endian base-128 ("varint") integers, used by the journal framing.
use vstd::prelude::*;

verus! {

/// Largest continuation value for which one more varint digit still fits
/// into 64 bits: `(u64::MAX - 127) / 128`.
pub const VARINT_REST_MAX: u64 = 0x01ff_ffff_ffff_ffff;

/// Encoding of `x`: seven value bits per byte, least significant group
/// first, high bit set on every byte except the last.
pub open spec fn varint_enc(x: u64) -> Seq<u8>
    decreases x,
{
    if x < 128 {
        seq![x as u8]
    } else {
        seq![((x % 128) + 128) as u8] + varint_enc(x / 128)
    }
}

/// Decodes one varint starting at `pos`; returns the value and the
/// position just past it. Rejects continuations that would overflow
/// 64 bits; accepts non-minimal encodings.
pub open spec fn varint_dec(b: Seq<u8>, pos: int) -> Option<(u64, int)>
    decreases b.len() - pos,
{
    if pos < 0 || pos >= b.len() {
        None
    } else {
        let byte = b[pos];
        if byte < 128 {
            Some((byte as u64, pos + 1))
        } else {
            match varint_dec(b, pos + 1) {
                Some(r) => {
                    if r.0 <= VARINT_REST_MAX {
                        Some((((byte - 128) as u64 + 128 * r.0) as u64, r.1))
                    } else {
                        None
                    }
                }
                None => None,
            }
        }
    }
}

/// Decoding an encoding embedded at `pos` yields the encoded value and
/// stops exactly at its end, whatever bytes follow.
pub proof fn lemma_varint_roundtrip(x: u64, b: Seq<u8>, pos: int)
    requires
        0 <= pos,
        pos + varint_enc(x).len() <= b.len(),
        b.subrange(pos, pos + varint_enc(x).len() as int) == varint_enc(x),
    ensures
        varint_dec(b, pos) == Some((x, pos + varint_enc(x).len() as int)),
    decreases x,
{
    let e = varint_enc(x);
    assert(b[pos] == e[0]) by {
        assert(b.subrange(pos, pos + e.len() as int)[0] == b[pos]);
    }
    if x < 128 {
        assert(e[0] == x as u8);
    } else {
        assert(x / 128 < x) by (nonlinear_arith)
            requires x >= 128;
        let e2 = varint_enc(x / 128);
        assert(e == seq![((x % 128) + 128) as u8] + e2);
        assert(e[0] == ((x % 128) + 128) as u8);
        assert(x % 128 < 128) by (nonlinear_arith);
        assert(b[pos] >= 128);
        assert(b.subrange(pos + 1, pos + 1 + e2.len() as int) =~= e2) by {
            assert forall|i: int| 0 <= i < e2.len() implies b.subrange(
                pos + 1,
                pos + 1 + e2.len() as int,
            )[i] == e2[i] by {
                assert(b.subrange(pos, pos + e.len() as int)[i + 1] == b[pos + 1 + i]);
                assert(e[i + 1] == e2[i]);
            }
        }
        lemma_varint_roundtrip(x / 128, b, pos + 1);
        assert(x / 128 <= VARINT_REST_MAX) by (nonlinear_arith)
            requires x <= u64::MAX;
        assert((b[pos] - 128) as u64 == x % 128);
        vstd::arithmetic::div_mod::lemma_fundamental_div_mod(x as int, 128);
        assert(x % 128 + 128 * (x / 128) == x);
    }
}

/// Appends the encoding of `x` to `out`.
pub fn encode_varint(x: u64, out: &mut Vec<u8>)
    ensures
        final(out)@ == old(out)@ + varint_enc(x),
    decreases x,
{
    if x < 128 {
        out.push(x as u8);
        assert(out@ =~= old(out)@ + varint_enc(x));
    } else {
        proof {
            assert(x / 128 < x) by (nonlinear_arith)
                requires x >= 128;
            assert(x % 128 < 128) by (nonlinear_arith);
        }
        let byte: u8 = ((x % 128) + 128) as u8;
        out.push(byte);
        encode_varint(x / 128, out);
        assert(out@ =~= old(out)@ + varint_enc(x));
    }
}

/// Decodes one varint from `b` starting at `pos`, as `varint_dec` does.
pub fn decode_varint(b: &Vec<u8>, pos: usize) -> (r: Option<(u64, usize)>)
    ensures
        match r {
            Some(v) => varint_dec(b@, pos as int) == Some((v.0, v.1 as int)) && v.1 <= b.len(),
            None => varint_dec(b@, pos as int) is None,
        },
    decreases b.len() - pos,
{
    if pos >= b.len() {
        None
    } else {
        let byte = b[pos];
        if byte < 128 {
            Some((byte as u64, pos + 1))
        } else {
            match decode_varint(b, pos + 1) {
                Some((rest, end)) => {
                    if rest <= VARINT_REST_MAX {
                        Some(((byte - 128) as u64 + 128 * rest, end))
                    } else {
                        None
                    }
                }
                None => None,
            }
        }
    }
}

} // verus!
