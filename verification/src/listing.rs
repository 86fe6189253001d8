//! Helpers over snapshot listings: byte comparisons, and reading the
//! first or last pair of an ordered listing.
use crate::reader::copy_range;
use crate::tree::{entry_value, snapshot_listing, InternalEntry};
use crate::version_log::{lex_le, lex_lt, merged_value};
use vstd::prelude::*;

verus! {

/// A fresh copy of the bytes of `v`.
pub fn clone_bytes(v: &Vec<u8>) -> (r: Vec<u8>)
    ensures
        r@ == v@,
{
    copy_range(v, 0, v.len())
}

/// Whether a vector and a slice hold the same bytes.
pub fn bytes_eq_slice(a: &Vec<u8>, b: &[u8]) -> (r: bool)
    ensures
        r <==> a@ == b@,
{
    if a.len() != b.len() {
        assert(a@ != b@) by {
            assert(a@.len() != b@.len());
        }
        return false;
    }
    let mut i: usize = 0;
    while i < a.len()
        invariant
            i <= a.len(),
            a.len() == b.len(),
            forall|j: int| 0 <= j < i ==> a@[j] == b@[j],
        decreases a.len() - i,
    {
        if a[i] != b[i] {
            return false;
        }
        i += 1;
    }
    proof {
        assert(a@ =~= b@);
    }
    true
}

/// Whether two byte vectors hold the same bytes.
pub fn bytes_eq(a: &Vec<u8>, b: &Vec<u8>) -> (r: bool)
    ensures
        r <==> a@ == b@,
{
    if a.len() != b.len() {
        assert(a@ != b@) by {
            assert(a@.len() != b@.len());
        }
        return false;
    }
    let mut i: usize = 0;
    while i < a.len()
        invariant
            i <= a.len(),
            a.len() == b.len(),
            forall|j: int| 0 <= j < i ==> a@[j] == b@[j],
        decreases a.len() - i,
    {
        if a[i] != b[i] {
            return false;
        }
        i += 1;
    }
    proof {
        assert(a@ =~= b@);
    }
    true
}

/// Whether two optional byte strings are equal.
pub fn opt_bytes_eq(a: &Option<Vec<u8>>, b: &Option<Vec<u8>>) -> (r: bool)
    ensures
        r <==> (match (a, b) {
            (Some(x), Some(y)) => x@ == y@,
            (None, None) => true,
            _ => false,
        }),
{
    match (a, b) {
        (Some(x), Some(y)) => bytes_eq(x, y),
        (None, None) => true,
        _ => false,
    }
}

/// Byte-lexicographic order never holds of a string and itself.
pub proof fn lemma_lex_lt_irrefl(a: Seq<u8>)
    ensures
        !lex_lt(a, a),
    decreases a.len(),
{
    if a.len() > 0 {
        lemma_lex_lt_irrefl(a.drop_first());
    }
}

/// The first pair of a full-window listing: its key is minimal among
/// the visible keys.
pub fn listing_first(
    pairs: &Vec<(Vec<u8>, Vec<u8>)>,
    Ghost(log): Ghost<Seq<(u64, Seq<u8>, Option<Seq<u8>>)>>,
    Ghost(st): Ghost<Map<Seq<u8>, Option<Seq<u8>>>>,
    Ghost(snap): Ghost<u64>,
) -> (r: Option<(Vec<u8>, Vec<u8>)>)
    requires
        snapshot_listing(log, st, snap, crate::version_log::all_keys(), pairs@),
    ensures
        (match r {
            Some(kv) => merged_value(log, st, kv.0@, snap) == Some(kv.1@) && forall|k2: Seq<u8>|
                (#[trigger] merged_value(log, st, k2, snap)) is Some ==> lex_le(kv.0@, k2),
            None => forall|k2: Seq<u8>| !((#[trigger] merged_value(log, st, k2, snap)) is Some),
        }),
{
    if pairs.len() == 0 {
        proof {
            assert forall|k2: Seq<u8>| !((#[trigger] merged_value(log, st, k2, snap)) is Some) by {
                if merged_value(log, st, k2, snap) is Some {
                    assert(crate::version_log::all_keys()(k2));
                }
            }
        }
        None
    } else {
        let k = clone_bytes(&pairs[0].0);
        let v = clone_bytes(&pairs[0].1);
        proof {
            assert forall|k2: Seq<u8>|
                (#[trigger] merged_value(log, st, k2, snap)) is Some implies lex_le(
                pairs@[0].0@,
                k2,
            ) by {
                assert(crate::version_log::all_keys()(k2));
                let i = choose|i: int| 0 <= i < pairs@.len() && (#[trigger] pairs@[i]).0@ == k2;
                if i > 0 {
                    assert(lex_lt(pairs@[0].0@, pairs@[i].0@));
                }
            }
        }
        Some((k, v))
    }
}

/// The last pair of a full-window listing: its key is maximal among the
/// visible keys.
pub fn listing_last(
    pairs: &Vec<(Vec<u8>, Vec<u8>)>,
    Ghost(log): Ghost<Seq<(u64, Seq<u8>, Option<Seq<u8>>)>>,
    Ghost(st): Ghost<Map<Seq<u8>, Option<Seq<u8>>>>,
    Ghost(snap): Ghost<u64>,
) -> (r: Option<(Vec<u8>, Vec<u8>)>)
    requires
        snapshot_listing(log, st, snap, crate::version_log::all_keys(), pairs@),
    ensures
        (match r {
            Some(kv) => merged_value(log, st, kv.0@, snap) == Some(kv.1@) && forall|k2: Seq<u8>|
                (#[trigger] merged_value(log, st, k2, snap)) is Some ==> lex_le(k2, kv.0@),
            None => forall|k2: Seq<u8>| !((#[trigger] merged_value(log, st, k2, snap)) is Some),
        }),
{
    if pairs.len() == 0 {
        proof {
            assert forall|k2: Seq<u8>| !((#[trigger] merged_value(log, st, k2, snap)) is Some) by {
                if merged_value(log, st, k2, snap) is Some {
                    assert(crate::version_log::all_keys()(k2));
                }
            }
        }
        None
    } else {
        let last = pairs.len() - 1;
        let k = clone_bytes(&pairs[last].0);
        let v = clone_bytes(&pairs[last].1);
        proof {
            assert forall|k2: Seq<u8>|
                (#[trigger] merged_value(log, st, k2, snap)) is Some implies lex_le(
                k2,
                pairs@[last as int].0@,
            ) by {
                assert(crate::version_log::all_keys()(k2));
                let i = choose|i: int| 0 <= i < pairs@.len() && (#[trigger] pairs@[i]).0@ == k2;
                if i < last as int {
                    assert(lex_lt(pairs@[i].0@, pairs@[last as int].0@));
                }
            }
        }
        Some((k, v))
    }
}

/// Keys of a run of staged entries with pairwise distinct keys: the last
/// write of each key in the corresponding log entries is its staged
/// value.
pub open spec fn staged_adds(es: Seq<InternalEntry>, s: u64) -> Seq<(u64, Seq<u8>, Option<Seq<u8>>)> {
    es.map_values(|e: InternalEntry| (s, e.key@, entry_value(e)))
}

/// For entries with distinct keys each staged under its map value, the
/// last write of a key within the corresponding log run is exactly the
/// staged value, and keys without an entry have none.
pub proof fn lemma_last_write_of_entries(
    es: Seq<InternalEntry>,
    m: Map<Seq<u8>, Option<Seq<u8>>>,
    s: u64,
    k: Seq<u8>,
)
    requires
        forall|i: int, j: int|
            0 <= i < j < es.len() ==> (#[trigger] es[i]).key@ != (#[trigger] es[j]).key@,
        forall|i: int|
            0 <= i < es.len() ==> m.contains_key((#[trigger] es[i]).key@) && m[es[i].key@]
                == entry_value(es[i]),
    ensures
        crate::version_log::last_write(staged_adds(es, s), k) == (if exists|i: int|
            0 <= i < es.len() && (#[trigger] es[i]).key@ == k {
            Some(m[k])
        } else {
            None
        }),
    decreases es.len(),
{
    let adds = staged_adds(es, s);
    if es.len() == 0 {
    } else {
        let e = es.last();
        assert(es[es.len() - 1] == e);
        assert(adds.len() == es.len());
        assert(adds.last() == (s, e.key@, entry_value(e)));
        if e.key@ == k {
            assert(m[k] == entry_value(e));
        } else {
            assert(adds.drop_last() =~= staged_adds(es.drop_last(), s)) by {
                assert(forall|i: int|
                    0 <= i < es.len() - 1 ==> (#[trigger] es.drop_last()[i]) == es[i]);
            }
            lemma_last_write_of_entries(es.drop_last(), m, s, k);
            if exists|i: int| 0 <= i < es.len() && (#[trigger] es[i]).key@ == k {
                let i = choose|i: int| 0 <= i < es.len() && (#[trigger] es[i]).key@ == k;
                assert(i < es.len() - 1);
                assert(es.drop_last()[i].key@ == k);
            }
        }
    }
}

/// A log bounded below `b` reads the same at every snapshot at or above
/// `b`: versions are all older than either snapshot.
pub proof fn lemma_bounded_log_snapshot_stable(
    log: Seq<(u64, Seq<u8>, Option<Seq<u8>>)>,
    b: u64,
    k: Seq<u8>,
    s1: u64,
    s2: u64,
)
    requires
        crate::keyspace::log_bounded(log, b),
        b <= s1,
        b <= s2,
    ensures
        crate::version_log::latest_version(log, k, s1) == crate::version_log::latest_version(
            log,
            k,
            s2,
        ),
    decreases log.len(),
{
    if log.len() > 0 {
        assert(log[log.len() - 1] == log.last());
        assert(forall|i: int| 0 <= i < log.len() - 1 ==> (#[trigger] log.drop_last()[i]) == log[i]);
        lemma_bounded_log_snapshot_stable(log.drop_last(), b, k, s1, s2);
    }
}

/// Byte-lexicographic order is transitive.
pub proof fn lemma_lex_lt_trans(a: Seq<u8>, b: Seq<u8>, c: Seq<u8>)
    requires
        lex_lt(a, b),
        lex_lt(b, c),
    ensures
        lex_lt(a, c),
    decreases a.len(),
{
    if c.len() == 0 || b.len() == 0 {
    } else if a.len() == 0 {
    } else {
        if a[0] < b[0] {
            assert(b[0] <= c[0]);
        } else {
            assert(a[0] == b[0]);
            if b[0] == c[0] {
                lemma_lex_lt_trans(a.drop_first(), b.drop_first(), c.drop_first());
            }
        }
    }
}

/// Whether some pair of the run carries the key `k`.
pub open spec fn key_in(s: Seq<(Vec<u8>, Vec<u8>)>, k: Seq<u8>) -> bool {
    exists|i: int| 0 <= i < s.len() && (#[trigger] s[i]).0@ == k
}

/// Two key-sorted runs of pairs that carry the same keys, with each
/// shared key carrying the same value, are equal pair for pair.
#[verifier::rlimit(100)]
proof fn lemma_sorted_pairs_agree(s1: Seq<(Vec<u8>, Vec<u8>)>, s2: Seq<(Vec<u8>, Vec<u8>)>)
    requires
        forall|i: int, j: int|
            0 <= i < j < s1.len() ==> lex_lt((#[trigger] s1[i]).0@, (#[trigger] s1[j]).0@),
        forall|i: int, j: int|
            0 <= i < j < s2.len() ==> lex_lt((#[trigger] s2[i]).0@, (#[trigger] s2[j]).0@),
        forall|k: Seq<u8>|
            #![trigger key_in(s1, k)]
            #![trigger key_in(s2, k)]
            key_in(s1, k) <==> key_in(s2, k),
        forall|i: int, j: int|
            0 <= i < s1.len() && 0 <= j < s2.len() && (#[trigger] s1[i]).0@ == (
            #[trigger] s2[j]).0@ ==> s1[i].1@ == s2[j].1@,
    ensures
        s1.len() == s2.len(),
        forall|i: int|
            0 <= i < s1.len() ==> (#[trigger] s1[i]).0@ == s2[i].0@ && s1[i].1@ == s2[i].1@,
    decreases s1.len(),
{
    if s1.len() == 0 {
        if s2.len() > 0 {
            assert(key_in(s2, s2[0].0@));
            assert(key_in(s1, s2[0].0@));
            let i = choose|i: int| 0 <= i < s1.len() && (#[trigger] s1[i]).0@ == s2[0].0@;
            assert(false);
        }
    } else if s2.len() == 0 {
        assert(key_in(s1, s1[0].0@));
        assert(key_in(s2, s1[0].0@));
        let j = choose|j: int| 0 <= j < s2.len() && (#[trigger] s2[j]).0@ == s1[0].0@;
        assert(false);
    } else {
        let k0 = s1[0].0@;
        assert(key_in(s1, k0));
        assert(key_in(s2, k0));
        let j0 = choose|j: int| 0 <= j < s2.len() && (#[trigger] s2[j]).0@ == k0;
        if j0 > 0 {
            assert(key_in(s2, s2[0].0@));
            assert(key_in(s1, s2[0].0@));
            let i0 = choose|i: int| 0 <= i < s1.len() && (#[trigger] s1[i]).0@ == s2[0].0@;
            assert(lex_lt(s2[0].0@, s2[j0].0@));
            if i0 == 0 {
                lemma_lex_lt_irrefl(k0);
            } else {
                assert(lex_lt(s1[0].0@, s1[i0].0@));
                lemma_lex_lt_trans(k0, s1[i0].0@, k0);
                lemma_lex_lt_irrefl(k0);
            }
        }
        assert(s2[0].0@ == k0);
        let t1 = s1.drop_first();
        let t2 = s2.drop_first();
        assert(forall|i: int| 0 <= i < t1.len() ==> (#[trigger] t1[i]) == s1[i + 1]);
        assert(forall|j: int| 0 <= j < t2.len() ==> (#[trigger] t2[j]) == s2[j + 1]);
        assert forall|k: Seq<u8>|
            #![trigger key_in(t1, k)]
            #![trigger key_in(t2, k)]
            key_in(t1, k) <==> key_in(t2, k) by {
            if key_in(t1, k) {
                let i = choose|i: int| 0 <= i < t1.len() && (#[trigger] t1[i]).0@ == k;
                assert(s1[i + 1].0@ == k);
                assert(key_in(s1, k));
                assert(key_in(s2, k));
                let j = choose|j: int| 0 <= j < s2.len() && (#[trigger] s2[j]).0@ == k;
                if j == 0 {
                    assert(lex_lt(s1[0].0@, s1[i + 1].0@));
                    lemma_lex_lt_irrefl(k0);
                }
                assert(t2[j - 1].0@ == k);
                assert(key_in(t2, k));
            }
            if key_in(t2, k) {
                let j = choose|j: int| 0 <= j < t2.len() && (#[trigger] t2[j]).0@ == k;
                assert(s2[j + 1].0@ == k);
                assert(key_in(s2, k));
                assert(key_in(s1, k));
                let i = choose|i: int| 0 <= i < s1.len() && (#[trigger] s1[i]).0@ == k;
                if i == 0 {
                    assert(lex_lt(s2[0].0@, s2[j + 1].0@));
                    lemma_lex_lt_irrefl(k0);
                }
                assert(t1[i - 1].0@ == k);
                assert(key_in(t1, k));
            }
        }
        lemma_sorted_pairs_agree(t1, t2);
        assert forall|i: int|
            0 <= i < s1.len() implies (#[trigger] s1[i]).0@ == s2[i].0@ && s1[i].1@
            == s2[i].1@ by {
            if i > 0 {
                assert(s1[i] == t1[i - 1] && s2[i] == t2[i - 1]);
            }
        }
    }
}

/// A snapshot's listing is unique: any two listings of the same state,
/// snapshot and key window agree pair for pair. In particular, the
/// length a scan reports is the one number of live keys.
pub proof fn lemma_snapshot_listing_unique(
    log: Seq<(u64, Seq<u8>, Option<Seq<u8>>)>,
    st: Map<Seq<u8>, Option<Seq<u8>>>,
    snap: u64,
    in_window: spec_fn(Seq<u8>) -> bool,
    pairs1: Seq<(Vec<u8>, Vec<u8>)>,
    pairs2: Seq<(Vec<u8>, Vec<u8>)>,
)
    requires
        snapshot_listing(log, st, snap, in_window, pairs1),
        snapshot_listing(log, st, snap, in_window, pairs2),
    ensures
        pairs1.len() == pairs2.len(),
        forall|i: int|
            0 <= i < pairs1.len() ==> (#[trigger] pairs1[i]).0@ == pairs2[i].0@ && pairs1[i].1@
                == pairs2[i].1@,
{
    assert forall|k: Seq<u8>|
        #![trigger key_in(pairs1, k)]
        #![trigger key_in(pairs2, k)]
        key_in(pairs1, k) <==> key_in(pairs2, k) by {
        if key_in(pairs1, k) {
            let i = choose|i: int| 0 <= i < pairs1.len() && (#[trigger] pairs1[i]).0@ == k;
            assert(in_window(k) && merged_value(log, st, k, snap) == Some(pairs1[i].1@));
            let j = choose|j: int| 0 <= j < pairs2.len() && (#[trigger] pairs2[j]).0@ == k;
            assert(key_in(pairs2, k));
        }
        if key_in(pairs2, k) {
            let j = choose|j: int| 0 <= j < pairs2.len() && (#[trigger] pairs2[j]).0@ == k;
            assert(in_window(k) && merged_value(log, st, k, snap) == Some(pairs2[j].1@));
            let i = choose|i: int| 0 <= i < pairs1.len() && (#[trigger] pairs1[i]).0@ == k;
            assert(key_in(pairs1, k));
        }
    }
    assert forall|i: int, j: int|
        0 <= i < pairs1.len() && 0 <= j < pairs2.len() && (#[trigger] pairs1[i]).0@ == (
        #[trigger] pairs2[j]).0@ implies pairs1[i].1@ == pairs2[j].1@ by {
        assert(merged_value(log, st, pairs1[i].0@, snap) == Some(pairs1[i].1@));
        assert(merged_value(log, st, pairs2[j].0@, snap) == Some(pairs2[j].1@));
    }
    lemma_sorted_pairs_agree(pairs1, pairs2);
}

} // verus!
