//! Wire and gate model.
//!
//! Source gates come from gadgets and use an 11-kind vocabulary; emitted
//! gates are restricted to AND and XOR over normalized wire ids.  The
//! fixed lowering table lives here, both as the executable `extra_wires`
//! count and as the specification-level `lower_gate` sequence, so the
//! credit pass and the translation pass can never drift apart.

use vstd::prelude::*;

verus! {

/// Normalized id of the constant-false wire.
pub const FALSE_WIRE_ID: u64 = 0;

/// Normalized id of the constant-true wire (the `ONE` wire used by the
/// lowering table).
pub const TRUE_WIRE_ID: u64 = 1;

/// An opaque handle for a single boolean wire.
#[derive(Clone, Copy, PartialEq, Eq, Structural, Debug, Hash)]
pub struct WireId(pub usize);

/// The source-gate vocabulary issued by gadgets.
///
/// `Imp` and `Cimp` denote material implication in each argument order;
/// the `N`-prefixed kinds negate the corresponding result; `Not`
/// ignores its second input.
#[derive(Clone, Copy, PartialEq, Eq, Structural, Debug)]
pub enum GateType {
    And,
    Xor,
    Nand,
    Xnor,
    Not,
    Or,
    Nor,
    Nimp,
    Ncimp,
    Imp,
    Cimp,
}

/// A gate as submitted by a gadget: two input wires, one output wire.
#[derive(Clone, Copy, PartialEq, Eq, Structural, Debug)]
pub struct Gate {
    pub wire_a: WireId,
    pub wire_b: WireId,
    pub wire_c: WireId,
    pub gate_type: GateType,
}

/// The emitted-gate vocabulary of the output file.
#[derive(Clone, Copy, PartialEq, Eq, Structural, Debug)]
pub enum EmittedGateType {
    And,
    Xor,
}

/// A gate of the output stream: normalized wire ids and the remaining
/// fan-out of the output wire.  The credit value always fits in 24 bits.
#[derive(Clone, Copy, PartialEq, Eq, Structural, Debug)]
pub struct EmittedGate {
    pub in1: u64,
    pub in2: u64,
    pub out: u64,
    pub credits: u32,
    pub gate_type: EmittedGateType,
}

/// An emitted gate before credits are attached, at specification level:
/// the shape that both passes agree on.
pub struct LoweredGate {
    pub kind: EmittedGateType,
    pub in1: int,
    pub in2: int,
    pub out: int,
}

/// How many extra internal wires the lowering of `kind` consumes beyond
/// the source gate's own output wire.
pub open spec fn extra_of(kind: GateType) -> nat {
    match kind {
        GateType::And => 0,
        GateType::Xor => 0,
        GateType::Not => 0,
        GateType::Nand => 1,
        GateType::Xnor => 1,
        GateType::Nimp => 1,
        GateType::Ncimp => 1,
        GateType::Or => 2,
        GateType::Nor => 3,
        GateType::Imp => 3,
        GateType::Cimp => 3,
    }
}

/// Executable counterpart of [`extra_of`].
pub fn extra_wires(kind: GateType) -> (n: usize)
    ensures
        n == extra_of(kind),
{
    match kind {
        GateType::And => 0,
        GateType::Xor => 0,
        GateType::Not => 0,
        GateType::Nand => 1,
        GateType::Xnor => 1,
        GateType::Nimp => 1,
        GateType::Ncimp => 1,
        GateType::Or => 2,
        GateType::Nor => 3,
        GateType::Imp => 3,
        GateType::Cimp => 3,
    }
}

/// The fixed lowering of one source gate into AND/XOR gates.
///
/// `next` is the normalized allocator position when a source gate is
/// processed; the extra internal wires take ids `next`, `next + 1`, ...
/// in order, and the source gate's own output id closes the sequence.
pub open spec fn lower_gate(g: Gate, next: int) -> Seq<LoweredGate> {
    let a = g.wire_a.0 as int;
    let b = g.wire_b.0 as int;
    let c = g.wire_c.0 as int;
    let one = TRUE_WIRE_ID as int;
    match g.gate_type {
        GateType::And => seq![
            LoweredGate { kind: EmittedGateType::And, in1: a, in2: b, out: c },
        ],
        GateType::Xor => seq![
            LoweredGate { kind: EmittedGateType::Xor, in1: a, in2: b, out: c },
        ],
        GateType::Not => seq![
            LoweredGate { kind: EmittedGateType::Xor, in1: a, in2: one, out: c },
        ],
        GateType::Nand => seq![
            LoweredGate { kind: EmittedGateType::And, in1: a, in2: b, out: next },
            LoweredGate { kind: EmittedGateType::Xor, in1: next, in2: one, out: c },
        ],
        GateType::Xnor => seq![
            LoweredGate { kind: EmittedGateType::Xor, in1: a, in2: b, out: next },
            LoweredGate { kind: EmittedGateType::Xor, in1: next, in2: one, out: c },
        ],
        GateType::Or => seq![
            LoweredGate { kind: EmittedGateType::And, in1: a, in2: b, out: next },
            LoweredGate { kind: EmittedGateType::Xor, in1: next, in2: a, out: next + 1 },
            LoweredGate { kind: EmittedGateType::Xor, in1: next + 1, in2: b, out: c },
        ],
        GateType::Nor => seq![
            LoweredGate { kind: EmittedGateType::And, in1: a, in2: b, out: next },
            LoweredGate { kind: EmittedGateType::Xor, in1: next, in2: a, out: next + 1 },
            LoweredGate { kind: EmittedGateType::Xor, in1: next + 1, in2: b, out: next + 2 },
            LoweredGate { kind: EmittedGateType::Xor, in1: next + 2, in2: one, out: c },
        ],
        GateType::Nimp => seq![
            LoweredGate { kind: EmittedGateType::Xor, in1: b, in2: one, out: next },
            LoweredGate { kind: EmittedGateType::And, in1: a, in2: next, out: c },
        ],
        GateType::Ncimp => seq![
            LoweredGate { kind: EmittedGateType::Xor, in1: a, in2: one, out: next },
            LoweredGate { kind: EmittedGateType::And, in1: next, in2: b, out: c },
        ],
        GateType::Imp => seq![
            LoweredGate { kind: EmittedGateType::Xor, in1: a, in2: one, out: next },
            LoweredGate { kind: EmittedGateType::And, in1: next, in2: b, out: next + 1 },
            LoweredGate { kind: EmittedGateType::Xor, in1: next + 1, in2: next, out: next + 2 },
            LoweredGate { kind: EmittedGateType::Xor, in1: next + 2, in2: b, out: c },
        ],
        GateType::Cimp => seq![
            LoweredGate { kind: EmittedGateType::Xor, in1: b, in2: one, out: next },
            LoweredGate { kind: EmittedGateType::And, in1: next, in2: a, out: next + 1 },
            LoweredGate { kind: EmittedGateType::Xor, in1: next + 1, in2: next, out: next + 2 },
            LoweredGate { kind: EmittedGateType::Xor, in1: next + 2, in2: a, out: c },
        ],
    }
}

/// The lowering of a source gate emits exactly one gate per wire the
/// allocator hands out for it: its own output plus the extras.
pub proof fn lemma_lower_gate_len(g: Gate, next: int)
    ensures
        lower_gate(g, next).len() == 1 + extra_of(g.gate_type),
{
}

/// How many times wire `w` is read by the lowered gate `lg`; the
/// constant wires (ids 0 and 1) are available without accounting, but
/// this count does not exclude them.
pub open spec fn reads_in_gate(lg: LoweredGate, w: int) -> nat {
    (if lg.in1 == w {
        1nat
    } else {
        0nat
    }) + (if lg.in2 == w {
        1nat
    } else {
        0nat
    })
}

/// How many times wire `w` is read across the lowered stream `s`.
pub open spec fn reads_in_stream(s: Seq<LoweredGate>, w: int) -> nat
    decreases s.len(),
{
    if s.len() == 0 {
        0
    } else {
        reads_in_gate(s[0], w) + reads_in_stream(s.drop_first(), w)
    }
}

/// The boolean function a source gate denotes; `Imp` and `Cimp` are
/// material implication in each argument order, the `N`-prefixed kinds
/// negate the corresponding result, and `Not` ignores `b`.
pub open spec fn source_semantics(kind: GateType, a: bool, b: bool) -> bool {
    match kind {
        GateType::And => a && b,
        GateType::Xor => a != b,
        GateType::Nand => !(a && b),
        GateType::Xnor => a == b,
        GateType::Not => !a,
        GateType::Or => a || b,
        GateType::Nor => !(a || b),
        GateType::Nimp => a && !b,
        GateType::Ncimp => !a && b,
        GateType::Imp => !a || b,
        GateType::Cimp => a || !b,
    }
}

/// The boolean function an emitted gate denotes.
pub open spec fn emitted_semantics(kind: EmittedGateType, x: bool, y: bool) -> bool {
    match kind {
        EmittedGateType::And => x && y,
        EmittedGateType::Xor => x != y,
    }
}

/// Evaluate a lowered stream over a wire environment, in order: each
/// gate's output value enters the environment as it is produced.
pub open spec fn eval_stream(s: Seq<LoweredGate>, env: Map<int, bool>) -> Map<int, bool>
    decreases s.len(),
{
    if s.len() == 0 {
        env
    } else {
        let e = eval_stream(s.drop_last(), env);
        e.insert(s.last().out, emitted_semantics(s.last().kind, e[s.last().in1], e[s.last().in2]))
    }
}

/// Semantic soundness of the lowering table: run over an environment
/// that binds the constant `ONE` wire to true and the source gate's
/// inputs to any values, the lowered gates leave on the output wire
/// exactly the boolean function the source gate denotes.
pub proof fn lemma_lowering_semantics(g: Gate, next: int, env: Map<int, bool>)
    requires
        env.dom().contains(1) && env[1] == true,
        env.dom().contains(g.wire_a.0 as int),
        env.dom().contains(g.wire_b.0 as int),
        g.wire_a.0 < next,
        g.wire_b.0 < next,
        g.wire_c.0 < next,
        2 <= next,
    ensures
        ({
            let out_env = eval_stream(lower_gate(g, next), env);
            &&& out_env.dom().contains(g.wire_c.0 as int)
            &&& out_env[g.wire_c.0 as int] == source_semantics(
                g.gate_type,
                env[g.wire_a.0 as int],
                env[g.wire_b.0 as int],
            )
        }),
{
    let s = lower_gate(g, next);
    let a = g.wire_a.0 as int;
    let b = g.wire_b.0 as int;
    let c = g.wire_c.0 as int;
    let va = env[a];
    let vb = env[b];
    match g.gate_type {
        GateType::And | GateType::Xor | GateType::Not => {
            assert(s =~= seq![s[0]]);
            lemma_eval_one(s[0], env);
            assert(eval_stream(s, env)[c] == source_semantics(g.gate_type, va, vb));
        },
        GateType::Nand | GateType::Xnor => {
            assert(s =~= seq![s[0], s[1]]);
            lemma_eval_two(s[0], s[1], env);
            let e1 = env.insert(next, emitted_semantics(s[0].kind, va, vb));
            assert(e1[next] == emitted_semantics(s[0].kind, va, vb));
            assert(e1[1] == true);
            assert(eval_stream(s, env)[c] == source_semantics(g.gate_type, va, vb));
        },
        GateType::Nimp => {
            assert(s =~= seq![s[0], s[1]]);
            lemma_eval_two(s[0], s[1], env);
            let e1 = env.insert(next, emitted_semantics(EmittedGateType::Xor, vb, env[1]));
            assert(e1[next] == !vb);
            assert(e1[a] == va);
            assert(eval_stream(s, env)[c] == source_semantics(g.gate_type, va, vb));
        },
        GateType::Ncimp => {
            assert(s =~= seq![s[0], s[1]]);
            lemma_eval_two(s[0], s[1], env);
            let e1 = env.insert(next, emitted_semantics(EmittedGateType::Xor, va, env[1]));
            assert(e1[next] == !va);
            assert(e1[b] == vb);
            assert(eval_stream(s, env)[c] == source_semantics(g.gate_type, va, vb));
        },
        GateType::Or => {
            assert(s =~= seq![s[0], s[1], s[2]]);
            lemma_eval_three(s[0], s[1], s[2], env);
            lemma_eval_two(s[0], s[1], env);
            let e1 = env.insert(next, va && vb);
            assert(e1[next] == (va && vb) && e1[a] == va);
            let e2 = e1.insert(next + 1, (va && vb) != va);
            assert(e2[next + 1] == ((va && vb) != va) && e2[b] == vb);
            assert(eval_stream(s, env)[c] == source_semantics(g.gate_type, va, vb));
        },
        GateType::Nor => {
            assert(s =~= seq![s[0], s[1], s[2], s[3]]);
            lemma_eval_four(s[0], s[1], s[2], s[3], env);
            lemma_eval_three(s[0], s[1], s[2], env);
            lemma_eval_two(s[0], s[1], env);
            let e1 = env.insert(next, va && vb);
            assert(e1[next] == (va && vb) && e1[a] == va);
            let e2 = e1.insert(next + 1, (va && vb) != va);
            assert(e2[next + 1] == ((va && vb) != va) && e2[b] == vb);
            let e3 = e2.insert(next + 2, (((va && vb) != va) != vb));
            assert(e3[next + 2] == (((va && vb) != va) != vb) && e3[1] == true);
            assert(eval_stream(s, env)[c] == source_semantics(g.gate_type, va, vb));
        },
        GateType::Imp => {
            assert(s =~= seq![s[0], s[1], s[2], s[3]]);
            lemma_eval_four(s[0], s[1], s[2], s[3], env);
            lemma_eval_three(s[0], s[1], s[2], env);
            lemma_eval_two(s[0], s[1], env);
            let e1 = env.insert(next, !va);
            assert(e1[next] == !va && e1[b] == vb && e1[1] == true);
            let e2 = e1.insert(next + 1, !va && vb);
            assert(e2[next + 1] == (!va && vb) && e2[next] == !va);
            let e3 = e2.insert(next + 2, ((!va && vb) != !va));
            assert(e3[next + 2] == ((!va && vb) != !va) && e3[b] == vb);
            assert(eval_stream(s, env)[c] == source_semantics(g.gate_type, va, vb));
        },
        GateType::Cimp => {
            assert(s =~= seq![s[0], s[1], s[2], s[3]]);
            lemma_eval_four(s[0], s[1], s[2], s[3], env);
            lemma_eval_three(s[0], s[1], s[2], env);
            lemma_eval_two(s[0], s[1], env);
            let e1 = env.insert(next, !vb);
            assert(e1[next] == !vb && e1[a] == va && e1[1] == true);
            let e2 = e1.insert(next + 1, !vb && va);
            assert(e2[next + 1] == (!vb && va) && e2[next] == !vb);
            let e3 = e2.insert(next + 2, ((!vb && va) != !vb));
            assert(e3[next + 2] == ((!vb && va) != !vb) && e3[a] == va);
            assert(eval_stream(s, env)[c] == source_semantics(g.gate_type, va, vb));
        },
    }
}

/// Closed form of [`eval_stream`] for a one-gate stream.
proof fn lemma_eval_one(g0: LoweredGate, env: Map<int, bool>)
    ensures
        eval_stream(seq![g0], env) == env.insert(
            g0.out,
            emitted_semantics(g0.kind, env[g0.in1], env[g0.in2]),
        ),
{
    assert(seq![g0].drop_last() =~= Seq::<LoweredGate>::empty());
    assert(eval_stream(Seq::<LoweredGate>::empty(), env) == env);
    assert(seq![g0].last() == g0);
}

/// Closed form of [`eval_stream`] for a two-gate stream.
proof fn lemma_eval_two(g0: LoweredGate, g1: LoweredGate, env: Map<int, bool>)
    ensures
        eval_stream(seq![g0, g1], env) == ({
            let e1 = env.insert(g0.out, emitted_semantics(g0.kind, env[g0.in1], env[g0.in2]));
            e1.insert(g1.out, emitted_semantics(g1.kind, e1[g1.in1], e1[g1.in2]))
        }),
{
    assert(seq![g0, g1].drop_last() =~= seq![g0]);
    assert(seq![g0, g1].last() == g1);
    lemma_eval_one(g0, env);
}

/// Closed form of [`eval_stream`] for a three-gate stream.
proof fn lemma_eval_three(g0: LoweredGate, g1: LoweredGate, g2: LoweredGate, env: Map<int, bool>)
    ensures
        eval_stream(seq![g0, g1, g2], env) == ({
            let e2 = eval_stream(seq![g0, g1], env);
            e2.insert(g2.out, emitted_semantics(g2.kind, e2[g2.in1], e2[g2.in2]))
        }),
{
    assert(seq![g0, g1, g2].drop_last() =~= seq![g0, g1]);
    assert(seq![g0, g1, g2].last() == g2);
}

/// Closed form of [`eval_stream`] for a four-gate stream.
proof fn lemma_eval_four(
    g0: LoweredGate,
    g1: LoweredGate,
    g2: LoweredGate,
    g3: LoweredGate,
    env: Map<int, bool>,
)
    ensures
        eval_stream(seq![g0, g1, g2, g3], env) == ({
            let e3 = eval_stream(seq![g0, g1, g2], env);
            e3.insert(g3.out, emitted_semantics(g3.kind, e3[g3.in1], e3[g3.in2]))
        }),
    decreases 0int,
{
    assert(seq![g0, g1, g2, g3].drop_last() =~= seq![g0, g1, g2]);
    assert(seq![g0, g1, g2, g3].last() == g3);
    lemma_eval_three(g0, g1, g2, env);
    lemma_eval_two(g0, g1, env);
}

/// The wires the credit pass counts for one source gate, in the order
/// the pass visits them: the non-constant inputs of each lowered gate.
/// Reads of the constant `ONE` wire are not listed, matching the
/// lowering table, which never feeds a constant into a counted slot.
pub open spec fn read_list(g: Gate, next: int) -> Seq<int> {
    let a = g.wire_a.0 as int;
    let b = g.wire_b.0 as int;
    match g.gate_type {
        GateType::And => seq![a, b],
        GateType::Xor => seq![a, b],
        GateType::Not => seq![a],
        GateType::Nand => seq![a, b, next],
        GateType::Xnor => seq![a, b, next],
        GateType::Or => seq![a, b, next, a, next + 1, b],
        GateType::Nor => seq![a, b, next, a, next + 1, b, next + 2],
        GateType::Nimp => seq![b, a, next],
        GateType::Ncimp => seq![a, next, b],
        GateType::Imp => seq![a, next, b, next + 1, next, next + 2, b],
        GateType::Cimp => seq![b, next, a, next + 1, next, next + 2, a],
    }
}

/// How often `w` occurs in the wire list `s`.
pub open spec fn occ_in(s: Seq<int>, w: int) -> nat
    decreases s.len(),
{
    if s.len() == 0 {
        0
    } else {
        occ_in(s.drop_last(), w) + (if s.last() == w {
            1nat
        } else {
            0nat
        })
    }
}

/// Appending one entry raises the occurrence count by its indicator.
pub proof fn lemma_occ_push(s: Seq<int>, x: int, w: int)
    ensures
        occ_in(s.push(x), w) == occ_in(s, w) + (if x == w {
            1nat
        } else {
            0nat
        }),
{
    assert(s.push(x).drop_last() =~= s);
}

/// A prefix never holds more occurrences than the whole list.
pub proof fn lemma_occ_prefix(s: Seq<int>, j: int, w: int)
    requires
        0 <= j <= s.len(),
    ensures
        occ_in(s.take(j), w) <= occ_in(s, w),
    decreases s.len(),
{
    if j == s.len() {
        assert(s.take(j) =~= s);
    } else {
        assert(s.drop_last().take(j) =~= s.take(j));
        lemma_occ_prefix(s.drop_last(), j, w);
    }
}

/// Closed form of [`occ_in`] for lists of up to seven entries, given as
/// the length-indexed family below.
pub proof fn lemma_occ_lit1(x0: int, w: int)
    ensures
        occ_in(seq![x0], w) == (if x0 == w {
            1nat
        } else {
            0nat
        }),
{
    assert(seq![x0].drop_last() =~= Seq::<int>::empty());
    assert(occ_in(Seq::<int>::empty(), w) == 0);
}

pub proof fn lemma_occ_lit2(x0: int, x1: int, w: int)
    ensures
        occ_in(seq![x0, x1], w) == occ_in(seq![x0], w) + (if x1 == w {
            1nat
        } else {
            0nat
        }),
{
    assert(seq![x0, x1].drop_last() =~= seq![x0]);
}

pub proof fn lemma_occ_lit3(x0: int, x1: int, x2: int, w: int)
    ensures
        occ_in(seq![x0, x1, x2], w) == occ_in(seq![x0, x1], w) + (if x2 == w {
            1nat
        } else {
            0nat
        }),
{
    assert(seq![x0, x1, x2].drop_last() =~= seq![x0, x1]);
}

pub proof fn lemma_occ_lit6(x0: int, x1: int, x2: int, x3: int, x4: int, x5: int, w: int)
    ensures
        occ_in(seq![x0, x1, x2, x3, x4, x5], w) == occ_in(seq![x0, x1, x2], w) + (if x3 == w {
            1nat
        } else {
            0nat
        }) + (if x4 == w {
            1nat
        } else {
            0nat
        }) + (if x5 == w {
            1nat
        } else {
            0nat
        }),
{
    assert(seq![x0, x1, x2, x3].drop_last() =~= seq![x0, x1, x2]);
    assert(occ_in(seq![x0, x1, x2, x3], w) == occ_in(seq![x0, x1, x2], w) + (if x3 == w {
        1nat
    } else {
        0nat
    }));
    assert(seq![x0, x1, x2, x3, x4].drop_last() =~= seq![x0, x1, x2, x3]);
    assert(occ_in(seq![x0, x1, x2, x3, x4], w) == occ_in(seq![x0, x1, x2, x3], w) + (if x4 == w {
        1nat
    } else {
        0nat
    }));
    assert(seq![x0, x1, x2, x3, x4, x5].drop_last() =~= seq![x0, x1, x2, x3, x4]);
}

pub proof fn lemma_occ_lit7(
    x0: int,
    x1: int,
    x2: int,
    x3: int,
    x4: int,
    x5: int,
    x6: int,
    w: int,
)
    ensures
        occ_in(seq![x0, x1, x2, x3, x4, x5, x6], w) == occ_in(seq![x0, x1, x2, x3, x4, x5], w) + (
        if x6 == w {
            1nat
        } else {
            0nat
        }),
{
    assert(seq![x0, x1, x2, x3, x4, x5, x6].drop_last() =~= seq![x0, x1, x2, x3, x4, x5]);
}

/// For every countable wire (neither constant), the read list of a
/// source gate holds exactly as many entries as the lowered stream has
/// reads of that wire: the only reads the list omits are of the
/// constant `ONE`.
pub proof fn lemma_read_list_counts(g: Gate, next: int, w: int)
    requires
        w >= 2,
    ensures
        occ_in(read_list(g, next), w) == reads_in_stream(lower_gate(g, next), w),
{
    let a = g.wire_a.0 as int;
    let b = g.wire_b.0 as int;
    lemma_reads_lower_gate(g, next, w);
    match g.gate_type {
        GateType::And | GateType::Xor => {
            lemma_occ_lit1(a, w);
            lemma_occ_lit2(a, b, w);
        },
        GateType::Not => {
            lemma_occ_lit1(a, w);
        },
        GateType::Nand | GateType::Xnor => {
            lemma_occ_lit1(a, w);
            lemma_occ_lit2(a, b, w);
            lemma_occ_lit3(a, b, next, w);
        },
        GateType::Or => {
            lemma_occ_lit1(a, w);
            lemma_occ_lit2(a, b, w);
            lemma_occ_lit3(a, b, next, w);
            lemma_occ_lit6(a, b, next, a, next + 1, b, w);
        },
        GateType::Nor => {
            lemma_occ_lit1(a, w);
            lemma_occ_lit2(a, b, w);
            lemma_occ_lit3(a, b, next, w);
            lemma_occ_lit6(a, b, next, a, next + 1, b, w);
            lemma_occ_lit7(a, b, next, a, next + 1, b, next + 2, w);
        },
        GateType::Nimp => {
            lemma_occ_lit1(b, w);
            lemma_occ_lit2(b, a, w);
            lemma_occ_lit3(b, a, next, w);
        },
        GateType::Ncimp => {
            lemma_occ_lit1(a, w);
            lemma_occ_lit2(a, next, w);
            lemma_occ_lit3(a, next, b, w);
        },
        GateType::Imp => {
            lemma_occ_lit1(a, w);
            lemma_occ_lit2(a, next, w);
            lemma_occ_lit3(a, next, b, w);
            lemma_occ_lit6(a, next, b, next + 1, next, next + 2, w);
            lemma_occ_lit7(a, next, b, next + 1, next, next + 2, b, w);
        },
        GateType::Cimp => {
            lemma_occ_lit1(b, w);
            lemma_occ_lit2(b, next, w);
            lemma_occ_lit3(b, next, a, w);
            lemma_occ_lit6(b, next, a, next + 1, next, next + 2, w);
            lemma_occ_lit7(b, next, a, next + 1, next, next + 2, a, w);
        },
    }
}

/// Closed form of [`reads_in_stream`] for a one-gate stream.
pub proof fn lemma_reads_one(g0: LoweredGate, w: int)
    ensures
        reads_in_stream(seq![g0], w) == reads_in_gate(g0, w),
{
    assert(seq![g0].drop_first() =~= Seq::<LoweredGate>::empty());
    assert(reads_in_stream(Seq::<LoweredGate>::empty(), w) == 0);
}

/// Closed form of [`reads_in_stream`] for a two-gate stream.
pub proof fn lemma_reads_two(g0: LoweredGate, g1: LoweredGate, w: int)
    ensures
        reads_in_stream(seq![g0, g1], w) == reads_in_gate(g0, w) + reads_in_gate(g1, w),
{
    assert(seq![g0, g1].drop_first() =~= seq![g1]);
    lemma_reads_one(g1, w);
}

/// Closed form of [`reads_in_stream`] for a three-gate stream.
pub proof fn lemma_reads_three(g0: LoweredGate, g1: LoweredGate, g2: LoweredGate, w: int)
    ensures
        reads_in_stream(seq![g0, g1, g2], w) == reads_in_gate(g0, w) + reads_in_gate(g1, w)
            + reads_in_gate(g2, w),
{
    assert(seq![g0, g1, g2].drop_first() =~= seq![g1, g2]);
    lemma_reads_two(g1, g2, w);
}

/// Closed form of [`reads_in_stream`] for a four-gate stream.
pub proof fn lemma_reads_four(
    g0: LoweredGate,
    g1: LoweredGate,
    g2: LoweredGate,
    g3: LoweredGate,
    w: int,
)
    ensures
        reads_in_stream(seq![g0, g1, g2, g3], w) == reads_in_gate(g0, w) + reads_in_gate(g1, w)
            + reads_in_gate(g2, w) + reads_in_gate(g3, w),
{
    assert(seq![g0, g1, g2, g3].drop_first() =~= seq![g1, g2, g3]);
    lemma_reads_three(g1, g2, g3, w);
}

/// Closed form of [`reads_in_stream`] over any one lowered source gate.
pub proof fn lemma_reads_lower_gate(g: Gate, next: int, w: int)
    ensures
        reads_in_stream(lower_gate(g, next), w) == ({
            let s = lower_gate(g, next);
            if s.len() == 1 {
                reads_in_gate(s[0], w)
            } else if s.len() == 2 {
                reads_in_gate(s[0], w) + reads_in_gate(s[1], w)
            } else if s.len() == 3 {
                reads_in_gate(s[0], w) + reads_in_gate(s[1], w) + reads_in_gate(s[2], w)
            } else {
                reads_in_gate(s[0], w) + reads_in_gate(s[1], w) + reads_in_gate(s[2], w)
                    + reads_in_gate(s[3], w)
            }
        }),
{
    let s = lower_gate(g, next);
    match g.gate_type {
        GateType::And | GateType::Xor | GateType::Not => {
            assert(s =~= seq![s[0]]);
            lemma_reads_one(s[0], w);
        },
        GateType::Nand | GateType::Xnor | GateType::Nimp | GateType::Ncimp => {
            assert(s =~= seq![s[0], s[1]]);
            lemma_reads_two(s[0], s[1], w);
        },
        GateType::Or => {
            assert(s =~= seq![s[0], s[1], s[2]]);
            lemma_reads_three(s[0], s[1], s[2], w);
        },
        GateType::Nor | GateType::Imp | GateType::Cimp => {
            assert(s =~= seq![s[0], s[1], s[2], s[3]]);
            lemma_reads_four(s[0], s[1], s[2], s[3], w);
        },
    }
}

/// The shape the lowering table gives every expansion: the extra
/// internal wires are defined first, in allocator order, the source
/// gate's own output comes last, and every input is the source gate's
/// `a` or `b`, the constant `ONE`, or an extra wire defined earlier in
/// the same expansion.
pub proof fn lemma_lower_gate_shape(g: Gate, next: int)
    ensures
        forall|k: int|
            0 <= k < lower_gate(g, next).len() ==> {
                let lg = #[trigger] lower_gate(g, next)[k];
                let a = g.wire_a.0 as int;
                let b = g.wire_b.0 as int;
                &&& lg.out == (if k < extra_of(g.gate_type) {
                    next + k
                } else {
                    g.wire_c.0 as int
                })
                &&& (lg.in1 == a || lg.in1 == b || lg.in1 == 1 || (next <= lg.in1 < next + k))
                &&& (lg.in2 == a || lg.in2 == b || lg.in2 == 1 || (next <= lg.in2 < next + k))
                &&& (g.gate_type is Not ==> ((lg.in1 == a || lg.in1 == 1) && (lg.in2 == a
                    || lg.in2 == 1)))
            },
{
    match g.gate_type {
        GateType::And | GateType::Xor | GateType::Not => {
        },
        GateType::Nand | GateType::Xnor | GateType::Nimp | GateType::Ncimp => {
        },
        GateType::Or => {
        },
        GateType::Nor | GateType::Imp | GateType::Cimp => {
        },
    }
}

/// A lowered source gate reads no wire at or beyond the allocator
/// position it leaves behind.
pub proof fn lemma_reads_bound(g: Gate, next: int, w: int)
    requires
        next >= 2,
        g.wire_a.0 < next,
        g.wire_b.0 < next,
        w >= next + extra_of(g.gate_type),
    ensures
        reads_in_stream(lower_gate(g, next), w) == 0,
{
    lemma_reads_lower_gate(g, next, w);
    match g.gate_type {
        GateType::And | GateType::Xor | GateType::Not => {
        },
        GateType::Nand | GateType::Xnor | GateType::Nimp | GateType::Ncimp => {
        },
        GateType::Or => {
        },
        GateType::Nor | GateType::Imp | GateType::Cimp => {
        },
    }
}

/// How many times wire `w` is read by the emitted gate `g`.
pub open spec fn reads_in_emitted_gate(g: EmittedGate, w: u64) -> nat {
    (if g.in1 == w {
        1nat
    } else {
        0nat
    }) + (if g.in2 == w {
        1nat
    } else {
        0nat
    })
}

/// How many times wire `w` is read across the emitted stream `s`.
pub open spec fn reads_in_emitted_stream(s: Seq<EmittedGate>, w: u64) -> nat
    decreases s.len(),
{
    if s.len() == 0 {
        0
    } else {
        reads_in_emitted_gate(s[0], w) + reads_in_emitted_stream(s.drop_first(), w)
    }
}

/// Reading counts over emitted streams distribute over concatenation.
pub proof fn lemma_reads_in_emitted_stream_add(s1: Seq<EmittedGate>, s2: Seq<EmittedGate>, w: u64)
    ensures
        reads_in_emitted_stream(s1 + s2, w) == reads_in_emitted_stream(s1, w)
            + reads_in_emitted_stream(s2, w),
    decreases s1.len(),
{
    if s1.len() == 0 {
        assert(s1 + s2 =~= s2);
    } else {
        assert((s1 + s2).drop_first() =~= s1.drop_first() + s2);
        lemma_reads_in_emitted_stream_add(s1.drop_first(), s2, w);
    }
}

/// Reading counts distribute over stream concatenation.
pub proof fn lemma_reads_in_stream_add(s1: Seq<LoweredGate>, s2: Seq<LoweredGate>, w: int)
    ensures
        reads_in_stream(s1 + s2, w) == reads_in_stream(s1, w) + reads_in_stream(s2, w),
    decreases s1.len(),
{
    if s1.len() == 0 {
        assert(s1 + s2 =~= s2);
    } else {
        assert((s1 + s2).drop_first() =~= s1.drop_first() + s2);
        lemma_reads_in_stream_add(s1.drop_first(), s2, w);
    }
}

/// The birth credits of the extra internal wires of one source gate:
/// each extra wire is born with exactly its read count inside the
/// expansion.  Only the first extra wire of `Imp`/`Cimp` is read
/// twice, by the second and third gates of the expansion; every other
/// extra wire is read once.
pub open spec fn temp_births(kind: GateType) -> Seq<int> {
    match kind {
        GateType::And => Seq::empty(),
        GateType::Xor => Seq::empty(),
        GateType::Not => Seq::empty(),
        GateType::Nand => seq![1int],
        GateType::Xnor => seq![1int],
        GateType::Nimp => seq![1int],
        GateType::Ncimp => seq![1int],
        GateType::Or => seq![1int, 1int],
        GateType::Nor => seq![1int, 1int, 1int],
        GateType::Imp => seq![2int, 1int, 1int],
        GateType::Cimp => seq![2int, 1int, 1int],
    }
}

/// The largest birth credit among a kind's extra internal wires; zero
/// where the lowering consumes none.
pub open spec fn max_temp_birth(kind: GateType) -> int {
    match kind {
        GateType::And => 0,
        GateType::Xor => 0,
        GateType::Not => 0,
        GateType::Imp => 2,
        GateType::Cimp => 2,
        _ => 1,
    }
}

/// The birth credits of [`temp_births`] are exactly the read counts
/// the lowered stream gives the extra internal wires: the declared
/// credits of a temporary equal its in-expansion fan-out.
pub proof fn lemma_temp_births_are_expansion_reads(g: Gate, next: int)
    requires
        2 <= next,
        g.wire_a.0 < next,
        g.wire_b.0 < next,
    ensures
        temp_births(g.gate_type).len() == extra_of(g.gate_type),
        forall|i: int|
            0 <= i < extra_of(g.gate_type) ==> #[trigger] temp_births(g.gate_type)[i]
                == reads_in_stream(lower_gate(g, next), next + i),
{
    assert forall|i: int|
        0 <= i < extra_of(g.gate_type) implies #[trigger] temp_births(g.gate_type)[i]
        == reads_in_stream(lower_gate(g, next), next + i) by {
        lemma_reads_lower_gate(g, next, next + i);
    }
}

/// Every output id of the emitted stream lies below `bound`.
pub open spec fn outs_below(s: Seq<EmittedGate>, bound: int) -> bool {
    forall|p: int| 0 <= p < s.len() ==> (#[trigger] s[p]).out < bound
}

/// No two gates of the emitted stream share an output id.
pub open spec fn outs_distinct(s: Seq<EmittedGate>) -> bool {
    forall|p: int, q: int| 0 <= p < q < s.len() ==> (#[trigger] s[p]).out != (#[trigger] s[q]).out
}

} // verus!
