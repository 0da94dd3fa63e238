//! The on-disk format: little-endian integers, structure-of-arrays
//! gate blocks, and the stream header.
//!
//! Everything here is plain byte arithmetic; reading and writing the
//! bytes to disk is the caller's business.  The encoders state the
//! exact byte layout, the decoders return exactly the values whose
//! encoding they were given, and fail exactly on input that no encoder
//! produces.

use vstd::prelude::*;

use crate::gate::{EmittedGate, EmittedGateType};

verus! {

/// The eight little-endian bytes of a `u64`.
pub open spec fn u64_le_bytes(v: u64) -> Seq<u8> {
    seq![
        (v & 0xFF) as u8,
        ((v >> 8) & 0xFF) as u8,
        ((v >> 16) & 0xFF) as u8,
        ((v >> 24) & 0xFF) as u8,
        ((v >> 32) & 0xFF) as u8,
        ((v >> 40) & 0xFF) as u8,
        ((v >> 48) & 0xFF) as u8,
        ((v >> 56) & 0xFF) as u8,
    ]
}

/// The `u64` whose little-endian bytes are `s` (the first eight
/// entries of it).
pub open spec fn u64_of_le(s: Seq<u8>) -> u64 {
    (s[0] as u64) | ((s[1] as u64) << 8) | ((s[2] as u64) << 16) | ((s[3] as u64) << 24) | ((
    s[4] as u64) << 32) | ((s[5] as u64) << 40) | ((s[6] as u64) << 48) | ((s[7] as u64) << 56)
}

/// The four little-endian bytes of a `u32`.
pub open spec fn u32_le_bytes(v: u32) -> Seq<u8> {
    seq![(v & 0xFF) as u8, ((v >> 8) & 0xFF) as u8, ((v >> 16) & 0xFF) as u8, ((v >> 24) & 0xFF) as u8]
}

/// The `u32` whose little-endian bytes are `s`.
pub open spec fn u32_of_le(s: Seq<u8>) -> u32 {
    (s[0] as u32) | ((s[1] as u32) << 8) | ((s[2] as u32) << 16) | ((s[3] as u32) << 24)
}

/// Reassembling the bytes of a value gives the value back.
pub proof fn lemma_u64_le_round(v: u64)
    ensures
        u64_of_le(u64_le_bytes(v)) == v,
{
    assert((v & 0xFF) | (((v >> 8) & 0xFF) << 8) | (((v >> 16) & 0xFF) << 16) | (((v >> 24)
        & 0xFF) << 24) | (((v >> 32) & 0xFF) << 32) | (((v >> 40) & 0xFF) << 40) | (((v >> 48)
        & 0xFF) << 48) | (((v >> 56) & 0xFF) << 56) == v) by (bit_vector);
    assert((v & 0xFF) < 256 && ((v >> 8) & 0xFF) < 256 && ((v >> 16) & 0xFF) < 256 && ((v >> 24)
        & 0xFF) < 256 && ((v >> 32) & 0xFF) < 256 && ((v >> 40) & 0xFF) < 256 && ((v >> 48) & 0xFF)
        < 256 && ((v >> 56) & 0xFF) < 256) by (bit_vector);
}

/// Splitting a reassembled value gives the bytes back.
pub proof fn lemma_u64_of_le_round(s: Seq<u8>)
    requires
        s.len() == 8,
    ensures
        u64_le_bytes(u64_of_le(s)) =~= s,
{
    let b0 = s[0];
    let b1 = s[1];
    let b2 = s[2];
    let b3 = s[3];
    let b4 = s[4];
    let b5 = s[5];
    let b6 = s[6];
    let b7 = s[7];
    let v = u64_of_le(s);
    assert({
        let w = (b0 as u64) | ((b1 as u64) << 8) | ((b2 as u64) << 16) | ((b3 as u64) << 24) | ((
        b4 as u64) << 32) | ((b5 as u64) << 40) | ((b6 as u64) << 48) | ((b7 as u64) << 56);
        (w & 0xFF) == b0 && ((w >> 8) & 0xFF) == b1 && ((w >> 16) & 0xFF) == b2 && ((w >> 24)
            & 0xFF) == b3 && ((w >> 32) & 0xFF) == b4 && ((w >> 40) & 0xFF) == b5 && ((w >> 48)
            & 0xFF) == b6 && ((w >> 56) & 0xFF) == b7
    }) by (bit_vector);
}

/// Reassembling the bytes of a value gives the value back.
pub proof fn lemma_u32_le_round(v: u32)
    ensures
        u32_of_le(u32_le_bytes(v)) == v,
{
    assert((v & 0xFF) | (((v >> 8) & 0xFF) << 8) | (((v >> 16) & 0xFF) << 16) | (((v >> 24)
        & 0xFF) << 24) == v) by (bit_vector);
    assert((v & 0xFF) < 256 && ((v >> 8) & 0xFF) < 256 && ((v >> 16) & 0xFF) < 256 && ((v >> 24)
        & 0xFF) < 256) by (bit_vector);
}

/// Splitting a reassembled value gives the bytes back.
pub proof fn lemma_u32_of_le_round(s: Seq<u8>)
    requires
        s.len() == 4,
    ensures
        u32_le_bytes(u32_of_le(s)) =~= s,
{
    let b0 = s[0];
    let b1 = s[1];
    let b2 = s[2];
    let b3 = s[3];
    assert({
        let w = (b0 as u32) | ((b1 as u32) << 8) | ((b2 as u32) << 16) | ((b3 as u32) << 24);
        (w & 0xFF) == b0 && ((w >> 8) & 0xFF) == b1 && ((w >> 16) & 0xFF) == b2 && ((w >> 24)
            & 0xFF) == b3
    }) by (bit_vector);
}

/// Append the little-endian bytes of `v`.
pub fn push_u64_le(out: &mut Vec<u8>, v: u64) -> (r: ())
    ensures
        final(out)@ == old(out)@ + u64_le_bytes(v),
{
    proof {
        assert((v & 0xFF) < 256 && ((v >> 8) & 0xFF) < 256 && ((v >> 16) & 0xFF) < 256 && ((v
            >> 24) & 0xFF) < 256 && ((v >> 32) & 0xFF) < 256 && ((v >> 40) & 0xFF) < 256 && ((v
            >> 48) & 0xFF) < 256 && ((v >> 56) & 0xFF) < 256) by (bit_vector);
    }
    out.push((v & 0xFF) as u8);
    out.push(((v >> 8) & 0xFF) as u8);
    out.push(((v >> 16) & 0xFF) as u8);
    out.push(((v >> 24) & 0xFF) as u8);
    out.push(((v >> 32) & 0xFF) as u8);
    out.push(((v >> 40) & 0xFF) as u8);
    out.push(((v >> 48) & 0xFF) as u8);
    out.push(((v >> 56) & 0xFF) as u8);
    proof {
        assert(out@ =~= old(out)@ + u64_le_bytes(v));
    }
}

/// Append the little-endian bytes of `v`.
pub fn push_u32_le(out: &mut Vec<u8>, v: u32) -> (r: ())
    ensures
        final(out)@ == old(out)@ + u32_le_bytes(v),
{
    proof {
        assert((v & 0xFF) < 256 && ((v >> 8) & 0xFF) < 256 && ((v >> 16) & 0xFF) < 256 && ((v
            >> 24) & 0xFF) < 256) by (bit_vector);
    }
    out.push((v & 0xFF) as u8);
    out.push(((v >> 8) & 0xFF) as u8);
    out.push(((v >> 16) & 0xFF) as u8);
    out.push(((v >> 24) & 0xFF) as u8);
    proof {
        assert(out@ =~= old(out)@ + u32_le_bytes(v));
    }
}

/// The byte encoding one emitted gate type.
pub open spec fn gate_type_byte(t: EmittedGateType) -> u8 {
    match t {
        EmittedGateType::And => 0,
        EmittedGateType::Xor => 1,
    }
}

/// A column of `u64` values, each as eight little-endian bytes.
pub open spec fn col_u64(vals: Seq<u64>) -> Seq<u8>
    decreases vals.len(),
{
    if vals.len() == 0 {
        Seq::empty()
    } else {
        u64_le_bytes(vals[0]) + col_u64(vals.drop_first())
    }
}

/// A column of `u32` values, each as four little-endian bytes.
pub open spec fn col_u32(vals: Seq<u32>) -> Seq<u8>
    decreases vals.len(),
{
    if vals.len() == 0 {
        Seq::empty()
    } else {
        u32_le_bytes(vals[0]) + col_u32(vals.drop_first())
    }
}

pub proof fn lemma_col_u64_len(vals: Seq<u64>)
    ensures
        col_u64(vals).len() == 8 * vals.len(),
    decreases vals.len(),
{
    if vals.len() > 0 {
        lemma_col_u64_len(vals.drop_first());
    }
}

pub proof fn lemma_col_u32_len(vals: Seq<u32>)
    ensures
        col_u32(vals).len() == 4 * vals.len(),
    decreases vals.len(),
{
    if vals.len() > 0 {
        lemma_col_u32_len(vals.drop_first());
    }
}

/// Appending one value appends its chunk.
pub proof fn lemma_col_u64_push(vals: Seq<u64>, v: u64)
    ensures
        col_u64(vals.push(v)) == col_u64(vals) + u64_le_bytes(v),
    decreases vals.len(),
{
    if vals.len() == 0 {
        assert(vals.push(v)[0] == v);
        assert(vals.push(v).drop_first() =~= Seq::<u64>::empty());
        assert(col_u64(vals.push(v)) == u64_le_bytes(vals.push(v)[0]) + col_u64(
            vals.push(v).drop_first(),
        ));
        assert(col_u64(Seq::<u64>::empty()) == Seq::<u8>::empty());
        assert(col_u64(vals.push(v)) =~= col_u64(vals) + u64_le_bytes(v));
    } else {
        assert(vals.push(v)[0] == vals[0]);
        assert(vals.push(v).drop_first() =~= vals.drop_first().push(v));
        lemma_col_u64_push(vals.drop_first(), v);
        lemma_col_u64_len(vals.drop_first());
        lemma_col_u64_len(vals);
        assert(col_u64(vals.push(v)) =~= col_u64(vals) + u64_le_bytes(v));
    }
}

/// Appending one value appends its chunk.
pub proof fn lemma_col_u32_push(vals: Seq<u32>, v: u32)
    ensures
        col_u32(vals.push(v)) == col_u32(vals) + u32_le_bytes(v),
    decreases vals.len(),
{
    if vals.len() == 0 {
        assert(vals.push(v)[0] == v);
        assert(vals.push(v).drop_first() =~= Seq::<u32>::empty());
        assert(col_u32(vals.push(v)) == u32_le_bytes(vals.push(v)[0]) + col_u32(
            vals.push(v).drop_first(),
        ));
        assert(col_u32(Seq::<u32>::empty()) == Seq::<u8>::empty());
        assert(col_u32(vals.push(v)) =~= col_u32(vals) + u32_le_bytes(v));
    } else {
        assert(vals.push(v)[0] == vals[0]);
        assert(vals.push(v).drop_first() =~= vals.drop_first().push(v));
        lemma_col_u32_push(vals.drop_first(), v);
        lemma_col_u32_len(vals.drop_first());
        lemma_col_u32_len(vals);
        assert(col_u32(vals.push(v)) =~= col_u32(vals) + u32_le_bytes(v));
    }
}

/// The chunk of value `i` within its column.
pub proof fn lemma_col_u64_chunk(vals: Seq<u64>, i: int)
    requires
        0 <= i < vals.len(),
    ensures
        col_u64(vals).len() == 8 * vals.len(),
        col_u64(vals).subrange(8 * i, 8 * i + 8) == u64_le_bytes(vals[i]),
    decreases i,
{
    lemma_col_u64_len(vals);
    lemma_col_u64_len(vals.drop_first());
    if i == 0 {
        assert(col_u64(vals).subrange(0, 8) =~= u64_le_bytes(vals[0]));
    } else {
        lemma_col_u64_chunk(vals.drop_first(), i - 1);
        assert(col_u64(vals).subrange(8 * i, 8 * i + 8) =~= col_u64(vals.drop_first()).subrange(
            8 * (i - 1),
            8 * (i - 1) + 8,
        ));
    }
}

/// The chunk of value `i` within its column.
pub proof fn lemma_col_u32_chunk(vals: Seq<u32>, i: int)
    requires
        0 <= i < vals.len(),
    ensures
        col_u32(vals).len() == 4 * vals.len(),
        col_u32(vals).subrange(4 * i, 4 * i + 4) == u32_le_bytes(vals[i]),
    decreases i,
{
    lemma_col_u32_len(vals);
    lemma_col_u32_len(vals.drop_first());
    if i == 0 {
        assert(col_u32(vals).subrange(0, 4) =~= u32_le_bytes(vals[0]));
    } else {
        lemma_col_u32_chunk(vals.drop_first(), i - 1);
        assert(col_u32(vals).subrange(4 * i, 4 * i + 4) =~= col_u32(vals.drop_first()).subrange(
            4 * (i - 1),
            4 * (i - 1) + 4,
        ));
    }
}

/// A byte string whose every chunk encodes the corresponding value is
/// the column of those values.
pub proof fn lemma_col_u64_from_chunks(vals: Seq<u64>, b: Seq<u8>)
    requires
        b.len() == 8 * vals.len(),
        forall|i: int|
            0 <= i < vals.len() ==> b.subrange(8 * i, 8 * i + 8) == u64_le_bytes(
                #[trigger] vals[i],
            ),
    ensures
        b == col_u64(vals),
    decreases vals.len(),
{
    lemma_col_u64_len(vals);
    if vals.len() == 0 {
        assert(b =~= col_u64(vals));
    } else {
        let rest = b.skip(8);
        assert forall|i: int| 0 <= i < vals.drop_first().len() implies rest.subrange(
            8 * i,
            8 * i + 8,
        ) == u64_le_bytes(#[trigger] vals.drop_first()[i]) by {
            assert(vals.drop_first()[i] == vals[i + 1]);
            assert(rest.subrange(8 * i, 8 * i + 8) =~= b.subrange(8 * (i + 1), 8 * (i + 1) + 8));
        }
        lemma_col_u64_from_chunks(vals.drop_first(), rest);
        assert(b.subrange(0, 8) == u64_le_bytes(vals[0]));
        assert(b =~= u64_le_bytes(vals[0]) + rest);
    }
}

/// A byte string whose every chunk encodes the corresponding value is
/// the column of those values.
pub proof fn lemma_col_u32_from_chunks(vals: Seq<u32>, b: Seq<u8>)
    requires
        b.len() == 4 * vals.len(),
        forall|i: int|
            0 <= i < vals.len() ==> b.subrange(4 * i, 4 * i + 4) == u32_le_bytes(
                #[trigger] vals[i],
            ),
    ensures
        b == col_u32(vals),
    decreases vals.len(),
{
    lemma_col_u32_len(vals);
    if vals.len() == 0 {
        assert(b =~= col_u32(vals));
    } else {
        let rest = b.skip(4);
        assert forall|i: int| 0 <= i < vals.drop_first().len() implies rest.subrange(
            4 * i,
            4 * i + 4,
        ) == u32_le_bytes(#[trigger] vals.drop_first()[i]) by {
            assert(vals.drop_first()[i] == vals[i + 1]);
            assert(rest.subrange(4 * i, 4 * i + 4) =~= b.subrange(4 * (i + 1), 4 * (i + 1) + 4));
        }
        lemma_col_u32_from_chunks(vals.drop_first(), rest);
        assert(b.subrange(0, 4) == u32_le_bytes(vals[0]));
        assert(b =~= u32_le_bytes(vals[0]) + rest);
    }
}

/// The type bytes of an emitted stream.
pub open spec fn types_of(gates: Seq<EmittedGate>) -> Seq<u8> {
    gates.map(|_i: int, g: EmittedGate| gate_type_byte(g.gate_type))
}

/// The `in1` column values of an emitted stream.
pub open spec fn in1s_of(gates: Seq<EmittedGate>) -> Seq<u64> {
    gates.map(|_i: int, g: EmittedGate| g.in1)
}

/// The `in2` column values of an emitted stream.
pub open spec fn in2s_of(gates: Seq<EmittedGate>) -> Seq<u64> {
    gates.map(|_i: int, g: EmittedGate| g.in2)
}

/// The `out` column values of an emitted stream.
pub open spec fn outs_of(gates: Seq<EmittedGate>) -> Seq<u64> {
    gates.map(|_i: int, g: EmittedGate| g.out)
}

/// The credit column values of an emitted stream.
pub open spec fn credits_of(gates: Seq<EmittedGate>) -> Seq<u32> {
    gates.map(|_i: int, g: EmittedGate| g.credits)
}

/// One on-disk block: a count of gates, then five structure-of-arrays
/// columns in a fixed order.
pub open spec fn block_bytes(gates: Seq<EmittedGate>) -> Seq<u8> {
    u32_le_bytes(gates.len() as u32) + types_of(gates) + col_u64(in1s_of(gates)) + col_u64(
        in2s_of(gates),
    ) + col_u64(outs_of(gates)) + col_u32(credits_of(gates))
}

/// Encode one block of gates.
pub fn encode_block(gates: &Vec<EmittedGate>) -> (r: Vec<u8>)
    requires
        gates@.len() <= u32::MAX,
    ensures
        r@ == block_bytes(gates@),
{
    let n = gates.len();
    let mut out: Vec<u8> = Vec::new();
    push_u32_le(&mut out, n as u32);
    let ghost base1 = out@;

    let mut i: usize = 0;
    while i < n
        invariant
            i <= n,
            n == gates@.len(),
            out@ == base1 + types_of(gates@.take(i as int)),
        decreases n - i,
    {
        let b: u8 = match gates[i].gate_type {
            EmittedGateType::And => 0,
            EmittedGateType::Xor => 1,
        };
        out.push(b);
        proof {
            assert(types_of(gates@.take(i as int + 1)) =~= types_of(gates@.take(i as int)).push(
                gate_type_byte(gates@[i as int].gate_type),
            ));
        }
        i = i + 1;
    }
    proof {
        assert(gates@.take(n as int) =~= gates@);
    }
    let ghost base2 = out@;

    let mut i: usize = 0;
    while i < n
        invariant
            i <= n,
            n == gates@.len(),
            out@ == base2 + col_u64(in1s_of(gates@).take(i as int)),
        decreases n - i,
    {
        push_u64_le(&mut out, gates[i].in1);
        proof {
            assert(in1s_of(gates@).take(i as int + 1) =~= in1s_of(gates@).take(i as int).push(
                gates@[i as int].in1,
            ));
            lemma_col_u64_push(in1s_of(gates@).take(i as int), gates@[i as int].in1);
            assert(out@ =~= base2 + col_u64(in1s_of(gates@).take(i as int + 1)));
        }
        i = i + 1;
    }
    proof {
        assert(in1s_of(gates@).take(n as int) =~= in1s_of(gates@));
    }
    let ghost base3 = out@;

    let mut i: usize = 0;
    while i < n
        invariant
            i <= n,
            n == gates@.len(),
            out@ == base3 + col_u64(in2s_of(gates@).take(i as int)),
        decreases n - i,
    {
        push_u64_le(&mut out, gates[i].in2);
        proof {
            assert(in2s_of(gates@).take(i as int + 1) =~= in2s_of(gates@).take(i as int).push(
                gates@[i as int].in2,
            ));
            lemma_col_u64_push(in2s_of(gates@).take(i as int), gates@[i as int].in2);
            assert(out@ =~= base3 + col_u64(in2s_of(gates@).take(i as int + 1)));
        }
        i = i + 1;
    }
    proof {
        assert(in2s_of(gates@).take(n as int) =~= in2s_of(gates@));
    }
    let ghost base4 = out@;

    let mut i: usize = 0;
    while i < n
        invariant
            i <= n,
            n == gates@.len(),
            out@ == base4 + col_u64(outs_of(gates@).take(i as int)),
        decreases n - i,
    {
        push_u64_le(&mut out, gates[i].out);
        proof {
            assert(outs_of(gates@).take(i as int + 1) =~= outs_of(gates@).take(i as int).push(
                gates@[i as int].out,
            ));
            lemma_col_u64_push(outs_of(gates@).take(i as int), gates@[i as int].out);
            assert(out@ =~= base4 + col_u64(outs_of(gates@).take(i as int + 1)));
        }
        i = i + 1;
    }
    proof {
        assert(outs_of(gates@).take(n as int) =~= outs_of(gates@));
    }
    let ghost base5 = out@;

    let mut i: usize = 0;
    while i < n
        invariant
            i <= n,
            n == gates@.len(),
            out@ == base5 + col_u32(credits_of(gates@).take(i as int)),
        decreases n - i,
    {
        push_u32_le(&mut out, gates[i].credits);
        proof {
            assert(credits_of(gates@).take(i as int + 1) =~= credits_of(gates@).take(
                i as int,
            ).push(gates@[i as int].credits));
            lemma_col_u32_push(credits_of(gates@).take(i as int), gates@[i as int].credits);
            assert(out@ =~= base5 + col_u32(credits_of(gates@).take(i as int + 1)));
        }
        i = i + 1;
    }
    proof {
        assert(credits_of(gates@).take(n as int) =~= credits_of(gates@));
        assert(out@ =~= block_bytes(gates@));
    }
    out
}

/// Read a column of emitted gate types; a byte that names no gate
/// type rejects the column.
fn read_types(bytes: &[u8], off: usize, n: usize) -> (r: Option<Vec<EmittedGateType>>)
    requires
        off + n <= bytes@.len(),
    ensures
        r matches Some(ts) ==> ts@.len() == n && forall|i: int|
            0 <= i < n ==> gate_type_byte(#[trigger] ts@[i]) == bytes@[off + i],
        r is None ==> exists|i: int| 0 <= i < n && #[trigger] bytes@[off + i] > 1,
{
    let blen = bytes.len();
    let mut out: Vec<EmittedGateType> = Vec::new();
    let mut i: usize = 0;
    while i < n
        invariant
            i <= n,
            off + n <= bytes@.len(),
            blen == bytes@.len(),
            out@.len() == i,
            forall|k: int| 0 <= k < i ==> gate_type_byte(#[trigger] out@[k]) == bytes@[off + k],
        decreases n - i,
    {
        let b = bytes[off + i];
        if b == 0 {
            out.push(EmittedGateType::And);
        } else if b == 1 {
            out.push(EmittedGateType::Xor);
        } else {
            return None;
        }
        i = i + 1;
    }
    Some(out)
}

/// Read a column of `n` little-endian `u64` values.
fn read_col_u64(bytes: &[u8], off: usize, n: usize) -> (r: Vec<u64>)
    requires
        off + 8 * n <= bytes@.len(),
    ensures
        r@.len() == n,
        forall|i: int|
            0 <= i < n ==> bytes@.subrange(off + 8 * i, off + 8 * i + 8) == u64_le_bytes(
                #[trigger] r@[i],
            ),
{
    let blen = bytes.len();
    let mut out: Vec<u64> = Vec::new();
    let mut i: usize = 0;
    while i < n
        invariant
            i <= n,
            off + 8 * n <= bytes@.len(),
            blen == bytes@.len(),
            out@.len() == i,
            forall|k: int|
                0 <= k < i ==> bytes@.subrange(off + 8 * k, off + 8 * k + 8) == u64_le_bytes(
                    #[trigger] out@[k],
                ),
        decreases n - i,
    {
        let v = read_u64_le(bytes, off + 8 * i);
        proof {
            lemma_u64_of_le_round(bytes@.subrange(off + 8 * i, off + 8 * i as int + 8));
        }
        out.push(v);
        i = i + 1;
    }
    out
}

/// Read a column of `n` little-endian `u32` values.
fn read_col_u32(bytes: &[u8], off: usize, n: usize) -> (r: Vec<u32>)
    requires
        off + 4 * n <= bytes@.len(),
    ensures
        r@.len() == n,
        forall|i: int|
            0 <= i < n ==> bytes@.subrange(off + 4 * i, off + 4 * i + 4) == u32_le_bytes(
                #[trigger] r@[i],
            ),
{
    let blen = bytes.len();
    let mut out: Vec<u32> = Vec::new();
    let mut i: usize = 0;
    while i < n
        invariant
            i <= n,
            off + 4 * n <= bytes@.len(),
            blen == bytes@.len(),
            out@.len() == i,
            forall|k: int|
                0 <= k < i ==> bytes@.subrange(off + 4 * k, off + 4 * k + 4) == u32_le_bytes(
                    #[trigger] out@[k],
                ),
        decreases n - i,
    {
        let v = read_u32_le(bytes, off + 4 * i);
        proof {
            lemma_u32_of_le_round(bytes@.subrange(off + 4 * i, off + 4 * i as int + 4));
        }
        out.push(v);
        i = i + 1;
    }
    out
}

/// Zip the five decoded columns back into gates.
fn assemble_gates(
    types: Vec<EmittedGateType>,
    in1s: &Vec<u64>,
    in2s: &Vec<u64>,
    outs: &Vec<u64>,
    credits: &Vec<u32>,
) -> (r: Vec<EmittedGate>)
    requires
        types@.len() == in1s@.len(),
        types@.len() == in2s@.len(),
        types@.len() == outs@.len(),
        types@.len() == credits@.len(),
    ensures
        r@.len() == types@.len(),
        forall|i: int|
            0 <= i < r@.len() ==> #[trigger] r@[i] == (EmittedGate {
                in1: in1s@[i],
                in2: in2s@[i],
                out: outs@[i],
                credits: credits@[i],
                gate_type: types@[i],
            }),
{
    let n = types.len();
    let mut out: Vec<EmittedGate> = Vec::new();
    let mut i: usize = 0;
    while i < n
        invariant
            i <= n,
            n == types@.len(),
            types@.len() == in1s@.len(),
            types@.len() == in2s@.len(),
            types@.len() == outs@.len(),
            types@.len() == credits@.len(),
            out@.len() == i,
            forall|k: int|
                0 <= k < i ==> #[trigger] out@[k] == (EmittedGate {
                    in1: in1s@[k],
                    in2: in2s@[k],
                    out: outs@[k],
                    credits: credits@[k],
                    gate_type: types@[k],
                }),
        decreases n - i,
    {
        out.push(
            EmittedGate {
                in1: in1s[i],
                in2: in2s[i],
                out: outs[i],
                credits: credits[i],
                gate_type: types[i],
            },
        );
        i = i + 1;
    }
    out
}

/// The six regions of a block, as subranges of its bytes.
proof fn lemma_block_regions(gs: Seq<EmittedGate>)
    requires
        gs.len() <= u32::MAX,
    ensures
        block_bytes(gs).len() == 4 + 29 * gs.len(),
        block_bytes(gs).subrange(0, 4) == u32_le_bytes(gs.len() as u32),
        block_bytes(gs).subrange(4, 4 + gs.len() as int) == types_of(gs),
        block_bytes(gs).subrange(4 + gs.len() as int, 4 + 9 * gs.len() as int) == col_u64(in1s_of(gs)),
        block_bytes(gs).subrange(4 + 9 * gs.len() as int, 4 + 17 * gs.len() as int) == col_u64(in2s_of(gs)),
        block_bytes(gs).subrange(4 + 17 * gs.len() as int, 4 + 25 * gs.len() as int) == col_u64(outs_of(gs)),
        block_bytes(gs).subrange(4 + 25 * gs.len() as int, 4 + 29 * gs.len() as int) == col_u32(credits_of(gs)),
{
    let n = gs.len() as int;
    lemma_col_u64_len(in1s_of(gs));
    lemma_col_u64_len(in2s_of(gs));
    lemma_col_u64_len(outs_of(gs));
    lemma_col_u32_len(credits_of(gs));
    assert(block_bytes(gs).subrange(0, 4) =~= u32_le_bytes(gs.len() as u32));
    assert(block_bytes(gs).subrange(4, 4 + n) =~= types_of(gs));
    assert(block_bytes(gs).subrange(4 + n, 4 + 9 * n) =~= col_u64(in1s_of(gs)));
    assert(block_bytes(gs).subrange(4 + 9 * n, 4 + 17 * n) =~= col_u64(in2s_of(gs)));
    assert(block_bytes(gs).subrange(4 + 17 * n, 4 + 25 * n) =~= col_u64(outs_of(gs)));
    assert(block_bytes(gs).subrange(4 + 25 * n, 4 + 29 * n) =~= col_u32(credits_of(gs)));
}

/// Two gate sequences with the same block encoding are the same.
pub proof fn lemma_block_bytes_injective(gs: Seq<EmittedGate>, gv: Seq<EmittedGate>)
    requires
        gs.len() <= u32::MAX,
        gv.len() <= u32::MAX,
        gs.len() == gv.len(),
        block_bytes(gs) == block_bytes(gv),
    ensures
        gs == gv,
{
    let n = gs.len() as int;
    lemma_block_regions(gs);
    lemma_block_regions(gv);
    assert forall|i: int| 0 <= i < n implies gs[i] == gv[i] by {
        assert(types_of(gs)[i] == types_of(gv)[i]);
        assert(gate_type_byte(gs[i].gate_type) == gate_type_byte(gv[i].gate_type));
        assert(gs[i].gate_type == gv[i].gate_type);
        lemma_col_u64_chunk(in1s_of(gs), i);
        lemma_col_u64_chunk(in1s_of(gv), i);
        lemma_u64_le_round(in1s_of(gs)[i]);
        lemma_u64_le_round(in1s_of(gv)[i]);
        assert(gs[i].in1 == gv[i].in1);
        lemma_col_u64_chunk(in2s_of(gs), i);
        lemma_col_u64_chunk(in2s_of(gv), i);
        lemma_u64_le_round(in2s_of(gs)[i]);
        lemma_u64_le_round(in2s_of(gv)[i]);
        assert(gs[i].in2 == gv[i].in2);
        lemma_col_u64_chunk(outs_of(gs), i);
        lemma_col_u64_chunk(outs_of(gv), i);
        lemma_u64_le_round(outs_of(gs)[i]);
        lemma_u64_le_round(outs_of(gv)[i]);
        assert(gs[i].out == gv[i].out);
        lemma_col_u32_chunk(credits_of(gs), i);
        lemma_col_u32_chunk(credits_of(gv), i);
        lemma_u32_le_round(credits_of(gs)[i]);
        lemma_u32_le_round(credits_of(gv)[i]);
        assert(gs[i].credits == gv[i].credits);
    }
    assert(gs =~= gv);
}

/// Decode one block at `start`.  The result is exactly that
/// sequence of gates whose encoding sits there; bytes that no encoder
/// produces are rejected.
#[verifier::rlimit(100)]
pub fn decode_block(bytes: &[u8], start: usize) -> (r: Option<(Vec<EmittedGate>, usize)>)
    ensures
        r matches Some(p) ==> {
            &&& p.0@.len() <= u32::MAX
            &&& p.1 == start + 4 + 29 * p.0@.len()
            &&& p.1 <= bytes@.len()
            &&& bytes@.subrange(start as int, p.1 as int) == block_bytes(p.0@)
        },
        forall|gs: Seq<EmittedGate>|
            (gs.len() <= u32::MAX && start + 4 + 29 * gs.len() <= bytes@.len()
                && bytes@.subrange(start as int, start + 4 + 29 * gs.len()) == block_bytes(gs))
                ==> (r matches Some(p) && p.0@ == gs && p.1 == start + 4 + 29 * gs.len()),
{
    let blen = bytes.len();
    if start > blen || blen - start < 4 {
        proof {
            assert forall|gs: Seq<EmittedGate>|
                !(gs.len() <= u32::MAX && start + 4 + 29 * gs.len() <= bytes@.len()
                    && bytes@.subrange(start as int, start + 4 + 29 * gs.len()) == block_bytes(
                    gs,
                )) by {}
        }
        return None;
    }
    let n32 = read_u32_le(bytes, start);
    let ghost count_chunk = bytes@.subrange(start as int, start as int + 4);
    proof {
        lemma_u32_of_le_round(count_chunk);
    }
    let n = n32 as usize;

    // under any matching-encoding hypothesis, the count pins the length
    proof {
        assert forall|gs: Seq<EmittedGate>|
            (gs.len() <= u32::MAX && start + 4 + 29 * gs.len() <= bytes@.len()
                && bytes@.subrange(start as int, start + 4 + 29 * gs.len()) == block_bytes(
                gs,
            )) implies gs.len() == n by {
            lemma_block_regions(gs);
            let e = start + 4 + 29 * gs.len();
            assert(bytes@.subrange(start as int, e).subrange(0, 4) =~= count_chunk);
            assert(count_chunk == u32_le_bytes(gs.len() as u32));
            lemma_u32_le_round(gs.len() as u32);
        }
    }

    if n > (usize::MAX - 4) / 29 {
        return None;
    }
    let need = 4 + 29 * n;
    if blen - start < need {
        return None;
    }
    let end = start + need;
    let t_off = start + 4;
    let in1_off = t_off + n;
    let in2_off = in1_off + 8 * n;
    let out_off = in2_off + 8 * n;
    let cr_off = out_off + 8 * n;

    let types = match read_types(bytes, t_off, n) {
        Some(ts) => ts,
        None => {
            proof {
                assert forall|gs: Seq<EmittedGate>|
                    (gs.len() <= u32::MAX && start + 4 + 29 * gs.len() <= bytes@.len()
                        && bytes@.subrange(start as int, start + 4 + 29 * gs.len())
                        == block_bytes(gs)) implies false by {
                    lemma_block_regions(gs);
                    let e = start + 4 + 29 * gs.len();
                    let i = choose|i: int| 0 <= i < n && #[trigger] bytes@[t_off + i] > 1;
                    assert(bytes@.subrange(start as int, e).subrange(4, 4 + gs.len() as int)
                        =~= bytes@.subrange(t_off as int, t_off + gs.len() as int));
                    assert(bytes@[t_off + i] == types_of(gs)[i]);
                    assert(types_of(gs)[i] == gate_type_byte(gs[i].gate_type));
                }
            }
            return None;
        },
    };
    let in1s = read_col_u64(bytes, in1_off, n);
    let in2s = read_col_u64(bytes, in2_off, n);
    let outs = read_col_u64(bytes, out_off, n);
    let credits = read_col_u32(bytes, cr_off, n);
    let gates = assemble_gates(types, &in1s, &in2s, &outs, &credits);

    proof {
        // soundness: the bytes at hand are exactly the encoding of the
        // decoded gates
        let gv = gates@;
        assert(types_of(gv) =~= bytes@.subrange(t_off as int, t_off + n));
        assert forall|i: int|
            0 <= i < n implies bytes@.subrange(in1_off + 8 * i, in1_off + 8 * i + 8)
            == u64_le_bytes(#[trigger] in1s_of(gv)[i]) by {
            assert(in1s_of(gv)[i] == in1s@[i]);
        }
        assert forall|i: int|
            0 <= i < n implies bytes@.subrange(in2_off + 8 * i, in2_off + 8 * i + 8)
            == u64_le_bytes(#[trigger] in2s_of(gv)[i]) by {
            assert(in2s_of(gv)[i] == in2s@[i]);
        }
        assert forall|i: int|
            0 <= i < n implies bytes@.subrange(out_off + 8 * i, out_off + 8 * i + 8)
            == u64_le_bytes(#[trigger] outs_of(gv)[i]) by {
            assert(outs_of(gv)[i] == outs@[i]);
        }
        assert forall|i: int|
            0 <= i < n implies bytes@.subrange(cr_off + 4 * i, cr_off + 4 * i + 4)
            == u32_le_bytes(#[trigger] credits_of(gv)[i]) by {
            assert(credits_of(gv)[i] == credits@[i]);
        }
        let r1 = bytes@.subrange(in1_off as int, in1_off + 8 * n);
        assert forall|i: int|
            0 <= i < n implies r1.subrange(8 * i, 8 * i + 8) == u64_le_bytes(
            #[trigger] in1s_of(gv)[i],
        ) by {
            assert(r1.subrange(8 * i, 8 * i + 8) =~= bytes@.subrange(
                in1_off + 8 * i,
                in1_off + 8 * i + 8,
            ));
        }
        lemma_col_u64_from_chunks(in1s_of(gv), r1);
        let r2 = bytes@.subrange(in2_off as int, in2_off + 8 * n);
        assert forall|i: int|
            0 <= i < n implies r2.subrange(8 * i, 8 * i + 8) == u64_le_bytes(
            #[trigger] in2s_of(gv)[i],
        ) by {
            assert(r2.subrange(8 * i, 8 * i + 8) =~= bytes@.subrange(
                in2_off + 8 * i,
                in2_off + 8 * i + 8,
            ));
        }
        lemma_col_u64_from_chunks(in2s_of(gv), r2);
        let r3 = bytes@.subrange(out_off as int, out_off + 8 * n);
        assert forall|i: int|
            0 <= i < n implies r3.subrange(8 * i, 8 * i + 8) == u64_le_bytes(
            #[trigger] outs_of(gv)[i],
        ) by {
            assert(r3.subrange(8 * i, 8 * i + 8) =~= bytes@.subrange(
                out_off + 8 * i,
                out_off + 8 * i + 8,
            ));
        }
        lemma_col_u64_from_chunks(outs_of(gv), r3);
        let r4 = bytes@.subrange(cr_off as int, cr_off + 4 * n);
        assert forall|i: int|
            0 <= i < n implies r4.subrange(4 * i, 4 * i + 4) == u32_le_bytes(
            #[trigger] credits_of(gv)[i],
        ) by {
            assert(r4.subrange(4 * i, 4 * i + 4) =~= bytes@.subrange(
                cr_off + 4 * i,
                cr_off + 4 * i + 4,
            ));
        }
        lemma_col_u32_from_chunks(credits_of(gv), r4);
        assert(bytes@.subrange(start as int, end as int) =~= count_chunk + bytes@.subrange(
            t_off as int,
            t_off + n,
        ) + r1 + r2 + r3 + r4);
        assert(bytes@.subrange(start as int, end as int) == block_bytes(gv));

        // completeness: any sequence whose encoding sits here is this one
        assert forall|gs: Seq<EmittedGate>|
            (gs.len() <= u32::MAX && start + 4 + 29 * gs.len() <= bytes@.len()
                && bytes@.subrange(start as int, start + 4 + 29 * gs.len()) == block_bytes(
                gs,
            )) implies gs == gv by {
            assert(gs.len() == n);
            assert(block_bytes(gs) == bytes@.subrange(start as int, end as int));
            lemma_block_bytes_injective(gs, gv);
        }
    }
    Some((gates, end))
}

/// Read the `u64` whose little-endian bytes sit at `start`.
pub fn read_u64_le(bytes: &[u8], start: usize) -> (r: u64)
    requires
        start + 8 <= bytes@.len(),
    ensures
        r == u64_of_le(bytes@.subrange(start as int, start as int + 8)),
{
    let r = (bytes[start] as u64) | ((bytes[start + 1] as u64) << 8) | ((bytes[start + 2] as u64)
        << 16) | ((bytes[start + 3] as u64) << 24) | ((bytes[start + 4] as u64) << 32) | ((
    bytes[start + 5] as u64) << 40) | ((bytes[start + 6] as u64) << 48) | ((bytes[start
        + 7] as u64) << 56);
    proof {
        let s = bytes@.subrange(start as int, start as int + 8);
        assert(s[0] == bytes@[start as int] && s[1] == bytes@[start as int + 1] && s[2]
            == bytes@[start as int + 2] && s[3] == bytes@[start as int + 3] && s[4]
            == bytes@[start as int + 4] && s[5] == bytes@[start as int + 5] && s[6]
            == bytes@[start as int + 6] && s[7] == bytes@[start as int + 7]);
    }
    r
}

/// Read the `u32` whose little-endian bytes sit at `start`.
pub fn read_u32_le(bytes: &[u8], start: usize) -> (r: u32)
    requires
        start + 4 <= bytes@.len(),
    ensures
        r == u32_of_le(bytes@.subrange(start as int, start as int + 4)),
{
    let r = (bytes[start] as u32) | ((bytes[start + 1] as u32) << 8) | ((bytes[start + 2] as u32)
        << 16) | ((bytes[start + 3] as u32) << 24);
    proof {
        let s = bytes@.subrange(start as int, start as int + 4);
        assert(s[0] == bytes@[start as int] && s[1] == bytes@[start as int + 1] && s[2]
            == bytes@[start as int + 2] && s[3] == bytes@[start as int + 3]);
    }
    r
}

/// The stream header: magic, version byte, primary-input count,
/// output-wire list, and the total gate count that `finalize` fills
/// in.
pub open spec fn header_bytes_spec(primary_inputs: u64, outs: Seq<u64>, total: u64) -> Seq<u8> {
    seq![0x67u8, 0x31u8, 0x36u8, 0x63u8, 0x5Au8] + u64_le_bytes(primary_inputs) + u64_le_bytes(
        outs.len() as u64,
    ) + col_u64(outs) + u64_le_bytes(total)
}

/// The regions of a header, as subranges of its bytes.
proof fn lemma_header_regions(primary_inputs: u64, outs: Seq<u64>, total: u64)
    requires
        outs.len() <= u64::MAX,
    ensures
        header_bytes_spec(primary_inputs, outs, total).len() == 29 + 8 * outs.len(),
        header_bytes_spec(primary_inputs, outs, total).subrange(0, 5) == seq![
            0x67u8,
            0x31u8,
            0x36u8,
            0x63u8,
            0x5Au8,
        ],
        header_bytes_spec(primary_inputs, outs, total).subrange(5, 13) == u64_le_bytes(
            primary_inputs,
        ),
        header_bytes_spec(primary_inputs, outs, total).subrange(13, 21) == u64_le_bytes(
            outs.len() as u64,
        ),
        header_bytes_spec(primary_inputs, outs, total).subrange(21, 21 + 8 * outs.len() as int)
            == col_u64(outs),
        header_bytes_spec(primary_inputs, outs, total).subrange(
            21 + 8 * outs.len() as int,
            29 + 8 * outs.len() as int,
        ) == u64_le_bytes(total),
{
    let n = outs.len() as int;
    lemma_col_u64_len(outs);
    let h = header_bytes_spec(primary_inputs, outs, total);
    assert(h.subrange(0, 5) =~= seq![0x67u8, 0x31u8, 0x36u8, 0x63u8, 0x5Au8]);
    assert(h.subrange(5, 13) =~= u64_le_bytes(primary_inputs));
    assert(h.subrange(13, 21) =~= u64_le_bytes(outs.len() as u64));
    assert(h.subrange(21, 21 + 8 * n) =~= col_u64(outs));
    assert(h.subrange(21 + 8 * n, 29 + 8 * n) =~= u64_le_bytes(total));
}

/// Encode the stream header.
pub fn encode_header(primary_inputs: u64, output_wires: &Vec<u64>, total_gates: u64) -> (r: Vec<
    u8,
>)
    ensures
        r@ == header_bytes_spec(primary_inputs, output_wires@, total_gates),
{
    let n = output_wires.len();
    let mut out: Vec<u8> = Vec::new();
    out.push(0x67);
    out.push(0x31);
    out.push(0x36);
    out.push(0x63);
    out.push(0x5A);
    proof {
        assert(out@ =~= seq![0x67u8, 0x31u8, 0x36u8, 0x63u8, 0x5Au8]);
    }
    push_u64_le(&mut out, primary_inputs);
    push_u64_le(&mut out, n as u64);
    let ghost base = out@;
    let mut i: usize = 0;
    while i < n
        invariant
            i <= n,
            n == output_wires@.len(),
            out@ == base + col_u64(output_wires@.take(i as int)),
        decreases n - i,
    {
        push_u64_le(&mut out, output_wires[i]);
        proof {
            assert(output_wires@.take(i as int + 1) =~= output_wires@.take(i as int).push(
                output_wires@[i as int],
            ));
            lemma_col_u64_push(output_wires@.take(i as int), output_wires@[i as int]);
            assert(out@ =~= base + col_u64(output_wires@.take(i as int + 1)));
        }
        i = i + 1;
    }
    proof {
        assert(output_wires@.take(n as int) =~= output_wires@);
    }
    push_u64_le(&mut out, total_gates);
    proof {
        assert(out@ =~= header_bytes_spec(primary_inputs, output_wires@, total_gates));
    }
    out
}

/// The byte offset of the total-gate count within a header with
/// `output_count` output wires; `finalize` patches those eight bytes.
pub fn total_gates_offset(output_count: usize) -> (r: usize)
    requires
        21 + 8 * output_count <= usize::MAX,
    ensures
        r == 21 + 8 * output_count,
{
    21 + 8 * output_count
}

/// Decode the stream header.  The result is exactly the header whose
/// encoding starts the bytes; anything else is rejected.
#[verifier::rlimit(100)]
pub fn decode_header(bytes: &[u8]) -> (r: Option<(u64, Vec<u64>, u64, usize)>)
    ensures
        r matches Some(p) ==> {
            &&& p.3 == 29 + 8 * p.1@.len()
            &&& p.3 <= bytes@.len()
            &&& bytes@.subrange(0, p.3 as int) == header_bytes_spec(p.0, p.1@, p.2)
        },
        forall|pi2: u64, os: Seq<u64>, t2: u64|
            (os.len() <= u64::MAX && 29 + 8 * os.len() <= bytes@.len() && bytes@.subrange(
                0,
                29 + 8 * os.len() as int,
            ) == header_bytes_spec(pi2, os, t2)) ==> (r matches Some(p) && p.0 == pi2 && p.1@ == os
                && p.2 == t2 && p.3 == 29 + 8 * os.len()),
{
    let blen = bytes.len();
    if blen < 29 {
        return None;
    }
    if bytes[0] != 0x67 || bytes[1] != 0x31 || bytes[2] != 0x36 || bytes[3] != 0x63 || bytes[4]
        != 0x5A {
        proof {
            assert forall|pi2: u64, os: Seq<u64>, t2: u64|
                (os.len() <= u64::MAX && 29 + 8 * os.len() <= bytes@.len() && bytes@.subrange(
                    0,
                    29 + 8 * os.len() as int,
                ) == header_bytes_spec(pi2, os, t2)) implies false by {
                lemma_header_regions(pi2, os, t2);
                let e = 29 + 8 * os.len() as int;
                assert(bytes@.subrange(0, e).subrange(0, 5) =~= bytes@.subrange(0, 5));
                assert(bytes@[0] == 0x67 && bytes@[1] == 0x31 && bytes@[2] == 0x36 && bytes@[3]
                    == 0x63 && bytes@[4] == 0x5A);
            }
        }
        return None;
    }
    let primary_inputs = read_u64_le(bytes, 5);
    let count64 = read_u64_le(bytes, 13);
    let ghost pi_chunk = bytes@.subrange(5, 13);
    let ghost count_chunk = bytes@.subrange(13, 21);
    proof {
        lemma_u64_of_le_round(pi_chunk);
        lemma_u64_of_le_round(count_chunk);
        assert forall|pi2: u64, os: Seq<u64>, t2: u64|
            (os.len() <= u64::MAX && 29 + 8 * os.len() <= bytes@.len() && bytes@.subrange(
                0,
                29 + 8 * os.len() as int,
            ) == header_bytes_spec(pi2, os, t2)) implies os.len() == count64 && pi2
            == primary_inputs by {
            lemma_header_regions(pi2, os, t2);
            let e = 29 + 8 * os.len() as int;
            assert(bytes@.subrange(0, e).subrange(5, 13) =~= pi_chunk);
            assert(bytes@.subrange(0, e).subrange(13, 21) =~= count_chunk);
            lemma_u64_le_round(os.len() as u64);
            lemma_u64_le_round(pi2);
        }
    }
    if count64 > ((usize::MAX - 29) / 8) as u64 {
        return None;
    }
    let n = count64 as usize;
    if blen - 21 < 8 * n || blen - 21 - 8 * n < 8 {
        return None;
    }
    let end = 29 + 8 * n;
    let outs = read_col_u64(bytes, 21, n);
    let total = read_u64_le(bytes, 21 + 8 * n);
    proof {
        let ghost total_chunk = bytes@.subrange(21 + 8 * n, 29 + 8 * n);
        lemma_u64_of_le_round(total_chunk);
        let r1 = bytes@.subrange(21, 21 + 8 * n);
        assert forall|i: int|
            0 <= i < n implies r1.subrange(8 * i, 8 * i + 8) == u64_le_bytes(
            #[trigger] outs@[i],
        ) by {
            assert(r1.subrange(8 * i, 8 * i + 8) =~= bytes@.subrange(21 + 8 * i, 21 + 8 * i + 8));
        }
        lemma_col_u64_from_chunks(outs@, r1);
        assert(bytes@.subrange(0, end as int) =~= bytes@.subrange(0, 5) + pi_chunk + count_chunk
            + r1 + total_chunk);
        assert(bytes@.subrange(0, 5) =~= seq![0x67u8, 0x31u8, 0x36u8, 0x63u8, 0x5Au8]);
        assert(count64 == outs@.len() as u64);
        assert(bytes@.subrange(0, end as int) == header_bytes_spec(primary_inputs, outs@, total));
        assert forall|pi2: u64, os: Seq<u64>, t2: u64|
            (os.len() <= u64::MAX && 29 + 8 * os.len() <= bytes@.len() && bytes@.subrange(
                0,
                29 + 8 * os.len() as int,
            ) == header_bytes_spec(pi2, os, t2)) implies os == outs@ && t2 == total by {
            lemma_header_regions(pi2, os, t2);
            let e = 29 + 8 * os.len() as int;
            assert(bytes@.subrange(0, e).subrange(21, 21 + 8 * os.len() as int) =~= r1);
            assert(col_u64(os) == col_u64(outs@));
            assert forall|i: int| 0 <= i < os.len() implies os[i] == outs@[i] by {
                lemma_col_u64_chunk(os, i);
                lemma_col_u64_chunk(outs@, i);
                lemma_u64_le_round(os[i]);
                lemma_u64_le_round(outs@[i]);
            }
            assert(os =~= outs@);
            assert(bytes@.subrange(0, e).subrange(21 + 8 * os.len() as int, e) =~= total_chunk);
            lemma_u64_le_round(t2);
        }
    }
    Some((primary_inputs, outs, total, end))
}

} // verus!
