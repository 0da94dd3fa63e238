//! The compiler's cache formats: raw little-endian value sequences.
//!
//! The credit cache is one 3-byte value per normalized id, in id
//! order; the output-wire cache is one 8-byte id per output wire.
//! Reading and writing the files is the caller's business; a trailing
//! fragment shorter than one value is ignored on the way in, exactly
//! as a short final read would leave it.

use vstd::prelude::*;

use crate::codec::{col_u64, lemma_col_u64_len, lemma_col_u64_push, read_u64_le, u64_le_bytes};
use crate::codec::lemma_u64_of_le_round;
use crate::u24::U24;

verus! {

/// The three bytes of one 24-bit credit value.
pub open spec fn u24_bytes(x: U24) -> Seq<u8> {
    seq![x.0[0], x.0[1], x.0[2]]
}

/// A credit vector as raw bytes, three per value, in id order.
pub open spec fn credits_cache_bytes(vals: Seq<U24>) -> Seq<u8>
    decreases vals.len(),
{
    if vals.len() == 0 {
        Seq::empty()
    } else {
        u24_bytes(vals[0]) + credits_cache_bytes(vals.drop_first())
    }
}

proof fn lemma_credits_cache_len(vals: Seq<U24>)
    ensures
        credits_cache_bytes(vals).len() == 3 * vals.len(),
    decreases vals.len(),
{
    if vals.len() > 0 {
        lemma_credits_cache_len(vals.drop_first());
    }
}

proof fn lemma_credits_cache_push(vals: Seq<U24>, v: U24)
    ensures
        credits_cache_bytes(vals.push(v)) == credits_cache_bytes(vals) + u24_bytes(v),
    decreases vals.len(),
{
    if vals.len() == 0 {
        assert(vals.push(v)[0] == v);
        assert(vals.push(v).drop_first() =~= Seq::<U24>::empty());
        assert(credits_cache_bytes(vals.push(v)) == u24_bytes(vals.push(v)[0])
            + credits_cache_bytes(vals.push(v).drop_first()));
        assert(credits_cache_bytes(Seq::<U24>::empty()) == Seq::<u8>::empty());
        assert(credits_cache_bytes(vals.push(v)) =~= credits_cache_bytes(vals) + u24_bytes(v));
    } else {
        assert(vals.push(v)[0] == vals[0]);
        assert(vals.push(v).drop_first() =~= vals.drop_first().push(v));
        lemma_credits_cache_push(vals.drop_first(), v);
        lemma_credits_cache_len(vals.drop_first());
        lemma_credits_cache_len(vals);
        assert(credits_cache_bytes(vals.push(v)) =~= credits_cache_bytes(vals) + u24_bytes(v));
    }
}

/// Serialize a credit vector for the credit cache file.
pub fn credits_to_cache(creds: &Vec<U24>) -> (r: Vec<u8>)
    ensures
        r@ == credits_cache_bytes(creds@),
{
    let n = creds.len();
    let mut out: Vec<u8> = Vec::new();
    let mut i: usize = 0;
    while i < n
        invariant
            i <= n,
            n == creds@.len(),
            out@ == credits_cache_bytes(creds@.take(i as int)),
        decreases n - i,
    {
        let b = creds[i].to_bytes();
        out.push(b[0]);
        out.push(b[1]);
        out.push(b[2]);
        proof {
            assert(creds@.take(i as int + 1) =~= creds@.take(i as int).push(creds@[i as int]));
            lemma_credits_cache_push(creds@.take(i as int), creds@[i as int]);
            assert(out@ =~= credits_cache_bytes(creds@.take(i as int + 1)));
        }
        i = i + 1;
    }
    proof {
        assert(creds@.take(n as int) =~= creds@);
    }
    out
}

/// Read a credit vector back from credit cache bytes: one value per
/// whole 3-byte group, a trailing fragment ignored.
pub fn credits_from_cache(bytes: &[u8]) -> (r: Vec<U24>)
    ensures
        r@.len() == bytes@.len() as int / 3,
        forall|i: int|
            0 <= i < r@.len() ==> u24_bytes(#[trigger] r@[i]) == bytes@.subrange(
                3 * i,
                3 * i + 3,
            ),
{
    let blen = bytes.len();
    let n = blen / 3;
    let mut out: Vec<U24> = Vec::new();
    let mut i: usize = 0;
    while i < n
        invariant
            i <= n,
            n == bytes@.len() as int / 3,
            3 * n <= bytes@.len(),
            blen == bytes@.len(),
            out@.len() == i,
            forall|k: int|
                0 <= k < i ==> u24_bytes(#[trigger] out@[k]) == bytes@.subrange(3 * k, 3 * k + 3),
        decreases n - i,
    {
        let v = U24::new([bytes[3 * i], bytes[3 * i + 1], bytes[3 * i + 2]]);
        out.push(v);
        proof {
            assert(u24_bytes(v) =~= bytes@.subrange(3 * i as int, 3 * i as int + 3));
        }
        i = i + 1;
    }
    out
}

/// Serialize the output-wire list for the output cache file: one
/// little-endian 8-byte id per wire.
pub fn outputs_to_cache(outs: &Vec<u64>) -> (r: Vec<u8>)
    ensures
        r@ == col_u64(outs@),
{
    let n = outs.len();
    let mut out: Vec<u8> = Vec::new();
    let mut i: usize = 0;
    while i < n
        invariant
            i <= n,
            n == outs@.len(),
            out@ == col_u64(outs@.take(i as int)),
        decreases n - i,
    {
        crate::codec::push_u64_le(&mut out, outs[i]);
        proof {
            assert(outs@.take(i as int + 1) =~= outs@.take(i as int).push(outs@[i as int]));
            lemma_col_u64_push(outs@.take(i as int), outs@[i as int]);
            assert(out@ =~= col_u64(outs@.take(i as int + 1)));
        }
        i = i + 1;
    }
    proof {
        assert(outs@.take(n as int) =~= outs@);
    }
    out
}

/// Read the output-wire list back from output cache bytes: one id per
/// whole 8-byte group, a trailing fragment ignored.
pub fn outputs_from_cache(bytes: &[u8]) -> (r: Vec<u64>)
    ensures
        r@.len() == bytes@.len() as int / 8,
        forall|i: int|
            0 <= i < r@.len() ==> u64_le_bytes(#[trigger] r@[i]) == bytes@.subrange(
                8 * i,
                8 * i + 8,
            ),
{
    let blen = bytes.len();
    let n = blen / 8;
    let mut out: Vec<u64> = Vec::new();
    let mut i: usize = 0;
    while i < n
        invariant
            i <= n,
            n == bytes@.len() as int / 8,
            8 * n <= bytes@.len(),
            blen == bytes@.len(),
            out@.len() == i,
            forall|k: int|
                0 <= k < i ==> u64_le_bytes(#[trigger] out@[k]) == bytes@.subrange(
                    8 * k,
                    8 * k + 8,
                ),
        decreases n - i,
    {
        let v = read_u64_le(bytes, 8 * i);
        proof {
            lemma_u64_of_le_round(bytes@.subrange(8 * i as int, 8 * i as int + 8));
        }
        out.push(v);
        i = i + 1;
    }
    out
}

/// Reading a written credit cache gives the credit values back.
pub proof fn lemma_credits_cache_round(vals: Seq<U24>, r: Seq<U24>)
    requires
        r.len() == credits_cache_bytes(vals).len() as int / 3,
        forall|i: int|
            0 <= i < r.len() ==> u24_bytes(#[trigger] r[i]) == credits_cache_bytes(vals).subrange(
                3 * i,
                3 * i + 3,
            ),
    ensures
        forall|i: int| 0 <= i < vals.len() ==> #[trigger] r[i].0[0] == vals[i].0[0] && r[i].0[1]
            == vals[i].0[1] && r[i].0[2] == vals[i].0[2],
        r.len() == vals.len(),
{
    lemma_credits_cache_len(vals);
    assert forall|i: int| 0 <= i < vals.len() implies #[trigger] r[i].0[0] == vals[i].0[0]
        && r[i].0[1] == vals[i].0[1] && r[i].0[2] == vals[i].0[2] by {
        lemma_credits_cache_chunk(vals, i);
        assert(u24_bytes(r[i]) == u24_bytes(vals[i]));
        assert(u24_bytes(r[i])[0] == r[i].0[0] && u24_bytes(vals[i])[0] == vals[i].0[0]);
        assert(u24_bytes(r[i])[1] == r[i].0[1] && u24_bytes(vals[i])[1] == vals[i].0[1]);
        assert(u24_bytes(r[i])[2] == r[i].0[2] && u24_bytes(vals[i])[2] == vals[i].0[2]);
    }
}

/// The chunk of value `i` within a credit cache.
proof fn lemma_credits_cache_chunk(vals: Seq<U24>, i: int)
    requires
        0 <= i < vals.len(),
    ensures
        credits_cache_bytes(vals).len() == 3 * vals.len(),
        credits_cache_bytes(vals).subrange(3 * i, 3 * i + 3) == u24_bytes(vals[i]),
    decreases i,
{
    lemma_credits_cache_len(vals);
    lemma_credits_cache_len(vals.drop_first());
    if i == 0 {
        assert(credits_cache_bytes(vals).subrange(0, 3) =~= u24_bytes(vals[0]));
    } else {
        lemma_credits_cache_chunk(vals.drop_first(), i - 1);
        assert(credits_cache_bytes(vals).subrange(3 * i, 3 * i + 3) =~= credits_cache_bytes(
            vals.drop_first(),
        ).subrange(3 * (i - 1), 3 * (i - 1) + 3));
    }
}

} // verus!
