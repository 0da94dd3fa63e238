//! Wire-level structure of a BN254 G2 point in projective coordinates.
//!
//! The gadget library computes on these wires; the compiler core only
//! needs their structure: a G2 point is three Fq2 coordinates, each a
//! pair of 254-bit field elements, every bit a wire of its own.  The
//! functions here allocate that structure under any mode and read it
//! back out bit by bit.

use vstd::prelude::*;

use crate::context::CircuitContext;
use crate::gate::WireId;

verus! {

/// Bits of one BN254 base-field element.
pub const FQ_N_BITS: usize = 254;

/// Bits of one Fq2 element: two base-field components.
pub const FQ2_N_BITS: usize = 508;

/// Bits of one G2 projective point: three Fq2 coordinates.
pub const G2_N_BITS: usize = 1524;

/// The wires of one Fq2 element: component 0 and component 1, least
/// significant bit first.
#[derive(Clone, Debug)]
pub struct Fq2 {
    pub c0: Vec<WireId>,
    pub c1: Vec<WireId>,
}

impl Fq2 {
    pub open spec fn wf(&self) -> bool {
        self.c0@.len() == FQ_N_BITS && self.c1@.len() == FQ_N_BITS
    }

    /// The wires of both components, component 0 first.
    pub open spec fn wire_seq(&self) -> Seq<WireId> {
        self.c0@ + self.c1@
    }

    /// Allocate a fresh Fq2 under the given mode: one contiguous run of
    /// wires per component.
    pub fn from_ctx<C: CircuitContext>(ctx: &mut C) -> (r: Fq2)
        requires
            old(ctx).ctx_wf(),
            old(ctx).ctx_next_id() + FQ2_N_BITS <= usize::MAX,
        ensures
            final(ctx).ctx_wf(),
            final(ctx).ctx_next_id() == old(ctx).ctx_next_id() + FQ2_N_BITS,
            final(ctx).ctx_emitted() == old(ctx).ctx_emitted(),
            r.wf(),
            forall|i: int|
                0 <= i < FQ2_N_BITS ==> (#[trigger] r.wire_seq()[i]).0 == old(ctx).ctx_next_id()
                    + i,
    {
        let c0 = issue_wires(ctx, FQ_N_BITS);
        let c1 = issue_wires(ctx, FQ_N_BITS);
        let r = Fq2 { c0, c1 };
        proof {
            assert forall|i: int| 0 <= i < FQ2_N_BITS implies (#[trigger] r.wire_seq()[i]).0
                == old(ctx).ctx_next_id() + i by {
                if i < FQ_N_BITS {
                    assert(r.wire_seq()[i] == r.c0@[i]);
                } else {
                    assert(r.wire_seq()[i] == r.c1@[i - FQ_N_BITS]);
                }
            }
        }
        r
    }
}

/// Issue `n` fresh wires in allocator order.
fn issue_wires<C: CircuitContext>(ctx: &mut C, n: usize) -> (r: Vec<WireId>)
    requires
        old(ctx).ctx_wf(),
        old(ctx).ctx_next_id() + n <= usize::MAX,
    ensures
        final(ctx).ctx_wf(),
        final(ctx).ctx_next_id() == old(ctx).ctx_next_id() + n,
        final(ctx).ctx_emitted() == old(ctx).ctx_emitted(),
        r@.len() == n,
        forall|i: int| 0 <= i < n ==> (#[trigger] r@[i]).0 == old(ctx).ctx_next_id() + i,
{
    let mut out: Vec<WireId> = Vec::new();
    let mut i: usize = 0;
    while i < n
        invariant
            i <= n,
            ctx.ctx_wf(),
            ctx.ctx_next_id() == old(ctx).ctx_next_id() + i,
            ctx.ctx_emitted() == old(ctx).ctx_emitted(),
            old(ctx).ctx_next_id() + n <= usize::MAX,
            out@.len() == i,
            forall|k: int| 0 <= k < i ==> (#[trigger] out@[k]).0 == old(ctx).ctx_next_id() + k,
        decreases n - i,
    {
        let w = ctx.issue_wire();
        out.push(w);
        i = i + 1;
    }
    out
}

/// The wires of one G2 point in projective coordinates.
#[derive(Clone, Debug)]
pub struct G2Projective {
    pub x: Fq2,
    pub y: Fq2,
    pub z: Fq2,
}

impl G2Projective {
    pub open spec fn wf(&self) -> bool {
        self.x.wf() && self.y.wf() && self.z.wf()
    }

    /// All wires of the point: x, then y, then z, each component 0
    /// before component 1.
    pub open spec fn wire_seq(&self) -> Seq<WireId> {
        self.x.wire_seq() + self.y.wire_seq() + self.z.wire_seq()
    }

    /// Allocate a fresh point under the given mode.
    pub fn from_ctx<C: CircuitContext>(ctx: &mut C) -> (r: G2Projective)
        requires
            old(ctx).ctx_wf(),
            old(ctx).ctx_next_id() + G2_N_BITS <= usize::MAX,
        ensures
            final(ctx).ctx_wf(),
            final(ctx).ctx_next_id() == old(ctx).ctx_next_id() + G2_N_BITS,
            final(ctx).ctx_emitted() == old(ctx).ctx_emitted(),
            r.wf(),
            forall|i: int|
                0 <= i < G2_N_BITS ==> (#[trigger] r.wire_seq()[i]).0 == old(ctx).ctx_next_id()
                    + i,
    {
        let x = Fq2::from_ctx(ctx);
        let y = Fq2::from_ctx(ctx);
        let z = Fq2::from_ctx(ctx);
        let r = G2Projective { x, y, z };
        proof {
            assert forall|i: int| 0 <= i < G2_N_BITS implies (#[trigger] r.wire_seq()[i]).0
                == old(ctx).ctx_next_id() + i by {
                if i < FQ2_N_BITS {
                    assert(r.wire_seq()[i] == r.x.wire_seq()[i]);
                } else if i < 2 * FQ2_N_BITS {
                    assert(r.wire_seq()[i] == r.y.wire_seq()[i - FQ2_N_BITS]);
                } else {
                    assert(r.wire_seq()[i] == r.z.wire_seq()[i - 2 * FQ2_N_BITS]);
                }
            }
        }
        r
    }

    /// Allocate a fresh point; the wires come from the mode's
    /// allocator, exactly as in [`G2Projective::from_ctx`].
    pub fn new<C: CircuitContext>(ctx: &mut C) -> (r: G2Projective)
        requires
            old(ctx).ctx_wf(),
            old(ctx).ctx_next_id() + G2_N_BITS <= usize::MAX,
        ensures
            final(ctx).ctx_wf(),
            final(ctx).ctx_next_id() == old(ctx).ctx_next_id() + G2_N_BITS,
            final(ctx).ctx_emitted() == old(ctx).ctx_emitted(),
            r.wf(),
            forall|i: int|
                0 <= i < G2_N_BITS ==> (#[trigger] r.wire_seq()[i]).0 == old(ctx).ctx_next_id()
                    + i,
    {
        Self::from_ctx(ctx)
    }

    /// All wires of the point as one vector, in `wire_seq` order.
    pub fn to_wires_vec(&self) -> (r: Vec<WireId>)
        ensures
            r@ == self.wire_seq(),
    {
        let mut out: Vec<WireId> = Vec::new();
        append_wires(&mut out, &self.x.c0);
        append_wires(&mut out, &self.x.c1);
        append_wires(&mut out, &self.y.c0);
        append_wires(&mut out, &self.y.c1);
        append_wires(&mut out, &self.z.c0);
        append_wires(&mut out, &self.z.c1);
        proof {
            assert(out@ =~= self.wire_seq());
        }
        out
    }

    /// Rebuild a point from a flat wire list; the list must hold
    /// exactly the bits of three Fq2 coordinates.
    pub fn from_wires(wires: &[WireId]) -> (r: Option<G2Projective>)
        ensures
            r is Some <==> wires@.len() == G2_N_BITS,
            r matches Some(g) ==> g.wf() && g.wire_seq() == wires@,
    {
        if wires.len() != G2_N_BITS {
            return None;
        }
        let x = Fq2 {
            c0: copy_wires(wires, 0, FQ_N_BITS),
            c1: copy_wires(wires, FQ_N_BITS, FQ_N_BITS),
        };
        let y = Fq2 {
            c0: copy_wires(wires, FQ2_N_BITS, FQ_N_BITS),
            c1: copy_wires(wires, FQ2_N_BITS + FQ_N_BITS, FQ_N_BITS),
        };
        let z = Fq2 {
            c0: copy_wires(wires, 2 * FQ2_N_BITS, FQ_N_BITS),
            c1: copy_wires(wires, 2 * FQ2_N_BITS + FQ_N_BITS, FQ_N_BITS),
        };
        let g = G2Projective { x, y, z };
        proof {
            assert(g.wire_seq() =~= wires@);
        }
        Some(g)
    }

    /// Read every wire of the point through `get_val`, in `wire_seq`
    /// order.
    pub fn to_bitvec<F: Fn(WireId) -> bool>(&self, get_val: F) -> (r: Vec<bool>)
        requires
            forall|w: WireId| #[trigger] call_requires(get_val, (w,)),
        ensures
            r@.len() == self.wire_seq().len(),
            forall|i: int|
                0 <= i < r@.len() ==> call_ensures(get_val, (self.wire_seq()[i],), #[trigger] r@[i]),
    {
        let ws = self.to_wires_vec();
        let mut out: Vec<bool> = Vec::new();
        let mut i: usize = 0;
        while i < ws.len()
            invariant
                i <= ws@.len(),
                ws@ == self.wire_seq(),
                out@.len() == i,
                forall|w: WireId| #[trigger] call_requires(get_val, (w,)),
                forall|k: int|
                    0 <= k < i ==> call_ensures(get_val, (self.wire_seq()[k],), #[trigger] out@[k]),
            decreases ws@.len() - i,
        {
            let b = get_val(ws[i]);
            out.push(b);
            i = i + 1;
        }
        out
    }
}

/// The display character of one bit.
pub open spec fn bit_char(b: bool) -> char {
    if b {
        '1'
    } else {
        '0'
    }
}

/// The display characters of a bit sequence.
pub open spec fn bit_chars(bits: Seq<bool>) -> Seq<char> {
    bits.map(|_i: int, b: bool| bit_char(b))
}

/// The layout of a G2 bitmask string: the bits of x, y and z, labelled
/// coordinate by coordinate.
pub open spec fn bitmask_layout(bits: Seq<bool>) -> Seq<char> {
    seq!['x', ':', ' '] + bit_chars(bits.subrange(0, FQ2_N_BITS as int)) + seq![
        ',',
        ' ',
        'y',
        ':',
        ' ',
    ] + bit_chars(bits.subrange(FQ2_N_BITS as int, 2 * FQ2_N_BITS as int)) + seq![
        ',',
        ' ',
        'z',
        ':',
        ' ',
    ] + bit_chars(bits.subrange(2 * FQ2_N_BITS as int, 3 * FQ2_N_BITS as int))
}

/// Relies on `String::push`: appends exactly the given character to
/// the end of the string.
#[verifier::external_body]
fn push_char(s: &mut String, c: char)
    ensures
        final(s)@ == old(s)@.push(c),
{
    s.push(c);
}

/// Append the display characters of `bits[start .. start + n]`.
fn push_bits(s: &mut String, bits: &Vec<bool>, start: usize, n: usize) -> (r: ())
    requires
        start + n <= bits@.len(),
    ensures
        final(s)@ == old(s)@ + bit_chars(bits@.subrange(start as int, start as int + n)),
{
    let total = bits.len();
    let mut i: usize = 0;
    while i < n
        invariant
            i <= n,
            start + n <= bits@.len(),
            total == bits@.len(),
            s@ == old(s)@ + bit_chars(bits@.subrange(start as int, start as int + i)),
        decreases n - i,
    {
        let c = if bits[start + i] {
            '1'
        } else {
            '0'
        };
        push_char(s, c);
        proof {
            assert(bit_chars(bits@.subrange(start as int, start as int + i + 1)) =~= bit_chars(
                bits@.subrange(start as int, start as int + i),
            ).push(bit_char(bits@[start as int + i])));
        }
        i = i + 1;
    }
}

impl G2Projective {
    /// Render every wire of the point through `get_val` as a labelled
    /// bit string, coordinate by coordinate.
    pub fn to_bitmask<F: Fn(WireId) -> bool>(&self, get_val: F) -> (r: String)
        requires
            self.wf(),
            forall|w: WireId| #[trigger] call_requires(get_val, (w,)),
        ensures
            exists|bits: Seq<bool>|
                {
                    &&& bits.len() == G2_N_BITS
                    &&& (forall|i: int|
                        0 <= i < G2_N_BITS ==> call_ensures(
                            get_val,
                            (self.wire_seq()[i],),
                            #[trigger] bits[i],
                        ))
                    &&& r@ == bitmask_layout(bits)
                },
    {
        let bits = self.to_bitvec(get_val);
        proof {
            assert(self.wire_seq().len() == G2_N_BITS);
        }
        let mut s = String::new();
        push_char(&mut s, 'x');
        push_char(&mut s, ':');
        push_char(&mut s, ' ');
        proof {
            assert(s@ =~= seq!['x', ':', ' ']);
        }
        push_bits(&mut s, &bits, 0, FQ2_N_BITS);
        push_char(&mut s, ',');
        push_char(&mut s, ' ');
        push_char(&mut s, 'y');
        push_char(&mut s, ':');
        push_char(&mut s, ' ');
        push_bits(&mut s, &bits, FQ2_N_BITS, FQ2_N_BITS);
        push_char(&mut s, ',');
        push_char(&mut s, ' ');
        push_char(&mut s, 'z');
        push_char(&mut s, ':');
        push_char(&mut s, ' ');
        push_bits(&mut s, &bits, 2 * FQ2_N_BITS, FQ2_N_BITS);
        proof {
            assert(s@ =~= bitmask_layout(bits@));
        }
        s
    }
}

/// Append a borrowed wire vector to `out`.
fn append_wires(out: &mut Vec<WireId>, more: &Vec<WireId>) -> (r: ())
    ensures
        final(out)@ == old(out)@ + more@,
{
    let mut i: usize = 0;
    while i < more.len()
        invariant
            i <= more@.len(),
            out@ == old(out)@ + more@.take(i as int),
        decreases more@.len() - i,
    {
        out.push(more[i]);
        proof {
            assert(old(out)@ + more@.take(i as int + 1) =~= (old(out)@ + more@.take(i as int)).push(
                more@[i as int],
            ));
        }
        i = i + 1;
    }
    proof {
        assert(more@.take(more@.len() as int) =~= more@);
    }
}

/// Copy `n` wires of a slice, starting at `start`.
fn copy_wires(wires: &[WireId], start: usize, n: usize) -> (r: Vec<WireId>)
    requires
        start + n <= wires@.len(),
    ensures
        r@ == wires@.subrange(start as int, start as int + n),
{
    let total = wires.len();
    let mut out: Vec<WireId> = Vec::new();
    let mut i: usize = 0;
    while i < n
        invariant
            i <= n,
            start + n <= wires@.len(),
            total == wires@.len(),
            out@ == wires@.subrange(start as int, start as int + i),
        decreases n - i,
    {
        out.push(wires[start + i]);
        proof {
            assert(wires@.subrange(start as int, start as int + i + 1) =~= wires@.subrange(
                start as int,
                start as int + i,
            ).push(wires@[start as int + i]));
        }
        i = i + 1;
    }
    out
}

} // verus!
