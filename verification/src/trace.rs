//! Source traces: the sequence of mode calls a gadget makes.
//!
//! A pass is a replay of one trace: wire allocations, credit
//! declarations and source gates, in gadget order.  The specification
//! functions here say what the normalized allocator, the lowered gate
//! stream and the issued/defined wire sets look like after a trace, and
//! what it means for a trace to be well formed.  Both the credit pass
//! and the translation pass are specified against these functions, which
//! is what keeps their allocators aligned gate for gate.

use vstd::prelude::*;

use crate::gate::{extra_of, lower_gate, reads_in_stream, Gate, LoweredGate, WireId};
use crate::u24::U24;

verus! {

/// One recorded mode call of a gadget run.
#[derive(Clone, Debug)]
pub enum SourceStep {
    /// `allocate_wire(birth)`: one fresh wire with a declared birth
    /// credit count.
    Allocate { birth: u16 },
    /// `add_credits(wires, amount)`: each listed wire will be consumed
    /// `amount` additional times.
    AddCredits { wires: Vec<WireId>, amount: u16 },
    /// `add_gate(gate)`: one source gate.
    Gate { gate: Gate },
}

/// How far one step advances the normalized allocator.
pub open spec fn step_advance(s: SourceStep) -> nat {
    match s {
        SourceStep::Allocate { .. } => 1,
        SourceStep::AddCredits { .. } => 0,
        SourceStep::Gate { gate } => extra_of(gate.gate_type),
    }
}

/// Normalized allocator position after replaying `steps`; positions 0
/// and 1 are reserved for the constant wires.
pub open spec fn next_after(steps: Seq<SourceStep>) -> int
    decreases steps.len(),
{
    if steps.len() == 0 {
        2
    } else {
        next_after(steps.drop_last()) + step_advance(steps.last())
    }
}

/// The lowered AND/XOR stream a replay of `steps` produces.
pub open spec fn lowered_of(steps: Seq<SourceStep>) -> Seq<LoweredGate>
    decreases steps.len(),
{
    if steps.len() == 0 {
        Seq::empty()
    } else {
        lowered_of(steps.drop_last()) + (match steps.last() {
            SourceStep::Gate { gate } => lower_gate(gate, next_after(steps.drop_last())),
            _ => Seq::empty(),
        })
    }
}

/// The wire ids handed to the gadget by `allocate_wire` during `steps`.
pub open spec fn issued_ids(steps: Seq<SourceStep>) -> Set<int>
    decreases steps.len(),
{
    if steps.len() == 0 {
        Set::empty()
    } else {
        match steps.last() {
            SourceStep::Allocate { .. } => issued_ids(steps.drop_last()).insert(
                next_after(steps.drop_last()),
            ),
            _ => issued_ids(steps.drop_last()),
        }
    }
}

/// The wire ids that stand as output of some source gate in `steps`.
pub open spec fn defined_ids(steps: Seq<SourceStep>) -> Set<int>
    decreases steps.len(),
{
    if steps.len() == 0 {
        Set::empty()
    } else {
        match steps.last() {
            SourceStep::Gate { gate } => defined_ids(steps.drop_last()).insert(
                gate.wire_c.0 as int,
            ),
            _ => defined_ids(steps.drop_last()),
        }
    }
}

/// The wire ids the lowering consumed as extra internal wires of some
/// source gate; gadgets never see these ids.
pub open spec fn temp_ids(steps: Seq<SourceStep>) -> Set<int>
    decreases steps.len(),
{
    if steps.len() == 0 {
        Set::empty()
    } else {
        match steps.last() {
            SourceStep::Gate { gate } => temp_ids(steps.drop_last()).union(
                Set::new(
                    |n: int|
                        next_after(steps.drop_last()) <= n < next_after(steps.drop_last())
                            + extra_of(gate.gate_type),
                ),
            ),
            _ => temp_ids(steps.drop_last()),
        }
    }
}

/// Appending one step extends the temp-id set in the expected way.
pub proof fn lemma_temp_ids_push(steps: Seq<SourceStep>, s: SourceStep)
    ensures
        temp_ids(steps.push(s)) == (match s {
            SourceStep::Gate { gate } => temp_ids(steps).union(
                Set::new(
                    |n: int| next_after(steps) <= n < next_after(steps) + extra_of(gate.gate_type),
                ),
            ),
            _ => temp_ids(steps),
        }),
{
    assert(steps.push(s).drop_last() =~= steps);
    assert(steps.push(s).last() == s);
}

/// An input wire of a source gate must be constant, primary, or already
/// the output of an earlier source gate.
pub open spec fn input_available(w: int, primary_inputs: int, prefix: Seq<SourceStep>) -> bool {
    w < primary_inputs + 2 || defined_ids(prefix).contains(w)
}

/// The inputs one source gate actually reads: `Not` ignores its second
/// input wire.
pub open spec fn gate_inputs_available(
    g: Gate,
    primary_inputs: int,
    prefix: Seq<SourceStep>,
) -> bool {
    &&& input_available(g.wire_a.0 as int, primary_inputs, prefix)
    &&& (g.gate_type is Not || input_available(g.wire_b.0 as int, primary_inputs, prefix))
}

/// A well-formed trace: every source gate reads wires that are already
/// available, and writes a fresh, allocated, non-primary wire.
pub open spec fn wf_trace(steps: Seq<SourceStep>, primary_inputs: int) -> bool {
    forall|i: int|
        0 <= i < steps.len() ==> match #[trigger] steps[i] {
            SourceStep::Gate { gate } => {
                let prefix = steps.take(i);
                &&& gate_inputs_available(gate, primary_inputs, prefix)
                &&& issued_ids(prefix).contains(gate.wire_c.0 as int)
                &&& !defined_ids(prefix).contains(gate.wire_c.0 as int)
                &&& gate.wire_c.0 >= primary_inputs + 2
            },
            _ => true,
        }
}

/// Attach per-output credits to a lowered stream, yielding the emitted
/// gates of the output file.
pub open spec fn attach_credits(s: Seq<LoweredGate>, creds: Seq<U24>) -> Seq<
    crate::gate::EmittedGate,
> {
    Seq::new(
        s.len(),
        |i: int|
            crate::gate::EmittedGate {
                in1: s[i].in1 as u64,
                in2: s[i].in2 as u64,
                out: s[i].out as u64,
                credits: creds[s[i].out].value(),
                gate_type: s[i].kind,
            },
    )
}

/// What a pass checks of one step before replaying it: every wire a
/// step names is already allocated, credit amounts are positive, and
/// the allocator stays within the machine's address range.
pub open spec fn step_alloc_valid(steps: Seq<SourceStep>, i: int) -> bool {
    let next = next_after(steps.take(i));
    match steps[i] {
        SourceStep::Allocate { .. } => next < usize::MAX,
        SourceStep::AddCredits { wires, amount } => amount >= 1 && forall|k: int|
            0 <= k < wires@.len() ==> (#[trigger] wires@[k]).0 < next,
        SourceStep::Gate { gate } => {
            &&& gate.wire_a.0 < next
            &&& gate.wire_b.0 < next
            &&& gate.wire_c.0 < next
            &&& next + extra_of(gate.gate_type) <= usize::MAX
        },
    }
}

/// A trace every step of which a pass accepts.
pub open spec fn trace_alloc_valid(steps: Seq<SourceStep>) -> bool {
    forall|i: int| 0 <= i < steps.len() ==> #[trigger] step_alloc_valid(steps, i)
}

/// Credits attach pointwise, so they distribute over concatenation.
pub proof fn lemma_attach_concat(s1: Seq<LoweredGate>, s2: Seq<LoweredGate>, creds: Seq<U24>)
    ensures
        attach_credits(s1 + s2, creds) == attach_credits(s1, creds) + attach_credits(s2, creds),
{
    assert(attach_credits(s1 + s2, creds) =~= attach_credits(s1, creds) + attach_credits(
        s2,
        creds,
    ));
}

/// Attaching credits preserves per-wire read counts, as long as every
/// id of the lowered stream fits the emitted-id range.
pub proof fn lemma_attach_preserves_reads(s: Seq<LoweredGate>, creds: Seq<U24>, w: int)
    requires
        0 <= w <= u64::MAX,
        forall|i: int|
            0 <= i < s.len() ==> 0 <= (#[trigger] s[i]).in1 <= u64::MAX && 0 <= s[i].in2
                <= u64::MAX,
    ensures
        crate::gate::reads_in_emitted_stream(attach_credits(s, creds), w as u64)
            == reads_in_stream(s, w),
    decreases s.len(),
{
    if s.len() == 0 {
    } else {
        assert(attach_credits(s, creds).drop_first() =~= attach_credits(s.drop_first(), creds));
        lemma_attach_preserves_reads(s.drop_first(), creds, w);
        assert(attach_credits(s, creds)[0].in1 == s[0].in1 as u64);
        assert(attach_credits(s, creds)[0].in2 == s[0].in2 as u64);
    }
}

/// A read count over any lowered prefix of a trace is bounded by the
/// count over the whole trace.
pub proof fn lemma_reads_prefix_mono(steps: Seq<SourceStep>, i: int, w: int)
    requires
        0 <= i <= steps.len(),
    ensures
        reads_in_stream(lowered_of(steps.take(i)), w) <= reads_in_stream(lowered_of(steps), w),
    decreases steps.len() - i,
{
    if i == steps.len() {
        assert(steps.take(i) =~= steps);
    } else {
        assert(steps.take(i + 1) =~= steps.take(i).push(steps[i]));
        lemma_replay_push(steps.take(i), steps[i]);
        crate::gate::lemma_reads_in_stream_add(
            lowered_of(steps.take(i)),
            match steps[i] {
                SourceStep::Gate { gate } => lower_gate(gate, next_after(steps.take(i))),
                _ => Seq::<LoweredGate>::empty(),
            },
            w,
        );
        lemma_reads_prefix_mono(steps, i + 1, w);
    }
}

/// The allocator never moves backwards.
pub proof fn lemma_next_after_monotonic(steps: Seq<SourceStep>, i: int)
    requires
        0 <= i <= steps.len(),
    ensures
        next_after(steps.take(i)) <= next_after(steps),
        2 <= next_after(steps.take(i)),
    decreases steps.len(),
{
    if steps.len() == 0 {
    } else if i == steps.len() {
        assert(steps.take(i) =~= steps);
        lemma_next_after_monotonic(steps.drop_last(), 0);
    } else {
        assert(steps.drop_last().take(i) =~= steps.take(i));
        lemma_next_after_monotonic(steps.drop_last(), i);
    }
}

/// Appending one step extends the replay state in the expected way.
pub proof fn lemma_replay_push(steps: Seq<SourceStep>, s: SourceStep)
    ensures
        next_after(steps.push(s)) == next_after(steps) + step_advance(s),
        lowered_of(steps.push(s)) == lowered_of(steps) + (match s {
            SourceStep::Gate { gate } => lower_gate(gate, next_after(steps)),
            _ => Seq::<LoweredGate>::empty(),
        }),
        issued_ids(steps.push(s)) == (match s {
            SourceStep::Allocate { .. } => issued_ids(steps).insert(next_after(steps)),
            _ => issued_ids(steps),
        }),
        defined_ids(steps.push(s)) == (match s {
            SourceStep::Gate { gate } => defined_ids(steps).insert(gate.wire_c.0 as int),
            _ => defined_ids(steps),
        }),
{
    assert(steps.push(s).drop_last() =~= steps);
    assert(steps.push(s).last() == s);
}

} // verus!
