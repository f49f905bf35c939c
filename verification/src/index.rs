//! A hash-bucket index over a sequence: under each hash value, the
//! positions whose element has that hash, in increasing order. Looking an
//! element up scans only its bucket, from the end, and finds the last
//! position that holds it.

use vstd::prelude::*;
use std::collections::HashMap;

verus! {

broadcast use vstd::std_specs::hash::group_hash_axioms;

/// The modulus of the byte hash: a prime just above 2^32.
pub const HASH_MOD: u64 = 4294967311;

/// A polynomial hash of a byte string, modulo `HASH_MOD`.
pub open spec fn bytes_hash(b: Seq<u8>) -> u64
    decreases b.len(),
{
    if b.len() == 0 {
        0
    } else {
        ((bytes_hash(b.drop_last()) * 257 + b.last()) % (HASH_MOD as int)) as u64
    }
}

/// The hash of a pair of byte strings, from the hashes of its parts.
pub open spec fn pair_hash(ha: u64, hb: u64) -> u64 {
    ((ha * 1000003 + hb) % (HASH_MOD as int)) as u64
}

proof fn lemma_bytes_hash_bound(b: Seq<u8>)
    ensures
        bytes_hash(b) < HASH_MOD,
    decreases b.len(),
{
    if b.len() > 0 {
        lemma_bytes_hash_bound(b.drop_last());
    }
}

/// Computes `bytes_hash(b)`.
pub fn hash_bytes(b: &[u8]) -> (h: u64)
    ensures
        h == bytes_hash(b@),
        h < HASH_MOD,
{
    let mut h: u64 = 0;
    let mut i: usize = 0;
    assert(b@.take(0) =~= Seq::<u8>::empty());
    while i < b.len()
        invariant
            i <= b.len(),
            h == bytes_hash(b@.take(i as int)),
            h < HASH_MOD,
        decreases b.len() - i,
    {
        assert(b@.take(i + 1).drop_last() =~= b@.take(i as int));
        h = (h * 257 + b[i] as u64) % HASH_MOD;
        i += 1;
    }
    assert(b@.take(b.len() as int) =~= b@);
    h
}

/// Computes `pair_hash(ha, hb)`.
pub fn hash_pair(ha: u64, hb: u64) -> (h: u64)
    requires
        ha < HASH_MOD,
        hb < HASH_MOD,
    ensures
        h == pair_hash(ha, hb),
        h < HASH_MOD,
{
    (ha * 1000003 + hb) % HASH_MOD
}

/// The positions `i` of `hs` with `hs[i] == h`, in increasing order.
pub open spec fn positions_with(hs: Seq<u64>, h: u64) -> Seq<usize>
    decreases hs.len(),
{
    if hs.len() == 0 {
        Seq::empty()
    } else {
        let prev = positions_with(hs.drop_last(), h);
        if hs.last() == h {
            prev.push((hs.len() - 1) as usize)
        } else {
            prev
        }
    }
}

/// The bucket of `m` under `h`: its list, or nothing.
pub open spec fn bucket(m: Map<u64, Vec<usize>>, h: u64) -> Seq<usize> {
    if m.contains_key(h) {
        m[h]@
    } else {
        Seq::empty()
    }
}

/// `m` indexes the hashes `hs`: each bucket holds the positions with that
/// hash.
pub open spec fn indexes(m: Map<u64, Vec<usize>>, hs: Seq<u64>) -> bool {
    forall|h: u64| #[trigger] bucket(m, h) == positions_with(hs, h)
}

/// The positions with hash `h` are positions of `hs`, with that hash, in
/// strictly increasing order, and every position with that hash is among
/// them.
pub proof fn lemma_positions_with(hs: Seq<u64>, h: u64)
    requires
        hs.len() <= usize::MAX,
    ensures
        forall|k: int|
            0 <= k < positions_with(hs, h).len() ==> {
                &&& (#[trigger] positions_with(hs, h)[k] as int) < hs.len()
                &&& hs[positions_with(hs, h)[k] as int] == h
            },
        forall|k1: int, k2: int|
            0 <= k1 < k2 < positions_with(hs, h).len() ==> #[trigger] positions_with(hs, h)[k1]
                < #[trigger] positions_with(hs, h)[k2],
        forall|i: int|
            0 <= i < hs.len() && #[trigger] hs[i] == h ==> exists|k: int|
                0 <= k < positions_with(hs, h).len() && positions_with(hs, h)[k] == i,
    decreases hs.len(),
{
    if hs.len() > 0 {
        let init = hs.drop_last();
        lemma_positions_with(init, h);
        let prev = positions_with(init, h);
        assert forall|i: int| 0 <= i < hs.len() && #[trigger] hs[i] == h implies exists|k: int|
            0 <= k < positions_with(hs, h).len() && positions_with(hs, h)[k] == i by {
            if i < hs.len() - 1 {
                assert(init[i] == hs[i]);
                let k = choose|k: int| 0 <= k < prev.len() && prev[k] == i;
                assert(positions_with(hs, h)[k] == i);
            } else {
                assert(positions_with(hs, h)[prev.len() as int] == i);
            }
        }
    }
}

/// The index of the hashes `hs`.
pub fn index_hashes(hs: &Vec<u64>) -> (m: HashMap<u64, Vec<usize>>)
    ensures
        indexes(m@, hs@),
{
    let mut m: HashMap<u64, Vec<usize>> = HashMap::new();
    let mut i: usize = 0;
    assert forall|h: u64| #[trigger] bucket(m@, h) == positions_with(hs@.take(0), h) by {
        assert(hs@.take(0) =~= Seq::<u64>::empty());
    }
    while i < hs.len()
        invariant
            i <= hs.len(),
            indexes(m@, hs@.take(i as int)),
        decreases hs.len() - i,
    {
        let h = hs[i];
        let ghost before = m@;
        let mut list = match m.remove(&h) {
            Some(list) => list,
            None => Vec::new(),
        };
        assert(list@ == bucket(before, h));
        list.push(i);
        m.insert(h, list);
        assert(hs@.take(i + 1).drop_last() =~= hs@.take(i as int));
        assert forall|g: u64| #[trigger] bucket(m@, g) == positions_with(hs@.take(i + 1), g) by {
            assert(bucket(before, g) == positions_with(hs@.take(i as int), g));
        }
        i += 1;
    }
    assert(hs@.take(hs.len() as int) =~= hs@);
    m
}

/// The last position of `x` in `s`, or `None` when `x` does not occur.
pub open spec fn last_index_of<A>(s: Seq<A>, x: A) -> Option<int>
    decreases s.len(),
{
    if s.len() == 0 {
        None
    } else if s.last() == x {
        Some(s.len() - 1)
    } else {
        last_index_of(s.drop_last(), x)
    }
}

/// `last_index_of` gives the position of an occurrence after which there
/// is none, and `None` exactly when there is no occurrence.
pub proof fn lemma_last_index_of<A>(s: Seq<A>, x: A)
    ensures
        last_index_of(s, x) matches Some(i) ==> 0 <= i < s.len() && s[i] == x,
        last_index_of(s, x) matches Some(i) ==> forall|k: int| i < k < s.len() ==> s[k] != x,
        last_index_of(s, x) is None ==> !s.contains(x),
        last_index_of(s, x) is None <== !s.contains(x),
    decreases s.len(),
{
    if s.len() > 0 {
        lemma_last_index_of(s.drop_last(), x);
        if last_index_of(s, x) is None {
            assert forall|j: int| 0 <= j < s.len() implies s[j] != x by {
                if j < s.len() - 1 {
                    assert(s.drop_last()[j] == s[j]);
                }
            }
        }
        if s.last() != x {
            if let Some(i) = last_index_of(s, x) {
                assert forall|k: int| i < k < s.len() implies s[k] != x by {
                    if k < s.len() - 1 {
                        assert(s.drop_last()[k] == s[k]);
                    }
                }
            }
            if !s.contains(x) {
                assert(!s.drop_last().contains(x));
            }
        } else {
            assert(s.contains(x));
        }
    }
}

/// Scanning the bucket of `x`'s hash from its end: when the element at the
/// `k`-th position of the bucket is `x` and none after it is, that position
/// is the last one of `x` in `s`.
pub proof fn lemma_bucket_hit<A>(s: Seq<A>, hs: Seq<u64>, x: A, hx: u64, k: int)
    requires
        hs.len() == s.len(),
        s.len() <= usize::MAX,
        forall|i: int| 0 <= i < s.len() && s[i] == x ==> hs[i] == hx,
        0 <= k < positions_with(hs, hx).len(),
        s[positions_with(hs, hx)[k] as int] == x,
        forall|j: int|
            k < j < positions_with(hs, hx).len() ==> s[#[trigger] positions_with(hs, hx)[j] as int]
                != x,
    ensures
        last_index_of(s, x) == Some(positions_with(hs, hx)[k] as int),
{
    let b = positions_with(hs, hx);
    lemma_positions_with(hs, hx);
    lemma_last_index_of(s, x);
    assert(s.contains(x)) by {
        assert(s[b[k] as int] == x);
    }
    let i = last_index_of(s, x)->0;
    assert(hs[i] == hx);
    let j = choose|j: int| 0 <= j < b.len() && b[j] == i;
    if j < k {
        assert(b[j] < b[k]);
    } else if j > k {
        assert(s[b[j] as int] != x);
    }
}

/// When no position of the bucket of `x`'s hash holds `x`, `x` does not
/// occur in `s`.
pub proof fn lemma_bucket_miss<A>(s: Seq<A>, hs: Seq<u64>, x: A, hx: u64)
    requires
        hs.len() == s.len(),
        s.len() <= usize::MAX,
        forall|i: int| 0 <= i < s.len() && s[i] == x ==> hs[i] == hx,
        forall|j: int|
            0 <= j < positions_with(hs, hx).len() ==> s[#[trigger] positions_with(hs, hx)[j] as int]
                != x,
    ensures
        last_index_of(s, x) is None,
{
    lemma_positions_with(hs, hx);
    lemma_last_index_of(s, x);
    if let Some(i) = last_index_of(s, x) {
        assert(hs[i] == hx);
        let j = choose|j: int|
            0 <= j < positions_with(hs, hx).len() && positions_with(hs, hx)[j] == i;
        assert(s[positions_with(hs, hx)[j] as int] != x);
    }
}

} // verus!
