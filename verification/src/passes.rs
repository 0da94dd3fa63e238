//! The compiler passes over a recorded source trace.
//!
//! The credits pass replays a trace through the fan-out counter and
//! zeroes the user-visible output wires; the translation pass replays
//! the same trace through the translation mode against the finished
//! credit vector.  Both validate each step before replaying it, so a
//! malformed trace is rejected instead of misindexing a vector.

use vstd::prelude::*;

use crate::error::CircuitError;
use crate::gate::{
    extra_of, extra_wires, lemma_reads_bound, lemma_reads_in_stream_add, lower_gate,
    reads_in_stream, temp_births, EmittedGate, WireId,
};
use crate::modes::credit::{credit_values, CreditCollectionMode};
use crate::modes::fanout::{base_count, FanoutCounter};
use crate::modes::translate::TranslationMode;
use crate::trace::{
    attach_credits, lemma_attach_concat, lemma_next_after_monotonic, lemma_replay_push,
    lemma_reads_prefix_mono, lowered_of, next_after, step_alloc_valid, trace_alloc_valid,
    SourceStep,
};
use crate::u24::U24;

verus! {

/// Whether `w` is listed as a user-visible output wire.
pub open spec fn is_output_wire(outs: Seq<WireId>, w: int) -> bool {
    exists|k: int| 0 <= k < outs.len() && (#[trigger] outs[k]).0 == w
}

/// The credit vector with every listed output wire's slot forced to
/// zero and every other slot kept.
pub open spec fn zeroed_at_outputs(f: Seq<u16>, outs: Seq<WireId>) -> Seq<u16> {
    Seq::new(
        f.len(),
        |w: int|
            if is_output_wire(outs, w) {
                0u16
            } else {
                f[w]
            },
    )
}

/// Zeroing the output wires twice is the same as zeroing them once.
pub proof fn lemma_zeroing_idempotent(f: Seq<u16>, outs: Seq<WireId>)
    ensures
        zeroed_at_outputs(zeroed_at_outputs(f, outs), outs) == zeroed_at_outputs(f, outs),
{
    assert(zeroed_at_outputs(zeroed_at_outputs(f, outs), outs) =~= zeroed_at_outputs(f, outs));
}

/// Whether every wire of the list lies below the allocator position.
pub fn wires_below(wires: &Vec<WireId>, next: usize) -> (b: bool)
    ensures
        b <==> forall|k: int| 0 <= k < wires@.len() ==> (#[trigger] wires@[k]).0 < next,
{
    let mut k: usize = 0;
    while k < wires.len()
        invariant
            k <= wires@.len(),
            forall|t: int| 0 <= t < k ==> (#[trigger] wires@[t]).0 < next,
        decreases wires@.len() - k,
    {
        if wires[k].0 >= next {
            assert(!((wires@[k as int]).0 < next));
            return false;
        }
        k = k + 1;
    }
    true
}

/// Force the credit slot of every listed output wire to zero: an output
/// is never consumed again, so no credits remain on it.
pub fn zero_output_wires(fanout: &mut Vec<u16>, output_wires: &Vec<WireId>) -> (r: Result<
    (),
    CircuitError,
>)
    ensures
        r is Ok <==> forall|k: int|
            0 <= k < output_wires@.len() ==> (#[trigger] output_wires@[k]).0 < old(
                fanout,
            )@.len(),
        r is Ok ==> final(fanout)@ == zeroed_at_outputs(old(fanout)@, output_wires@),
        r is Err ==> r == Err::<(), CircuitError>(CircuitError::UseBeforeAlloc),
{
    let ghost f0 = fanout@;
    let mut t: usize = 0;
    while t < output_wires.len()
        invariant
            t <= output_wires@.len(),
            f0 == old(fanout)@,
            fanout@.len() == f0.len(),
            forall|k: int| 0 <= k < t ==> (#[trigger] output_wires@[k]).0 < f0.len(),
            forall|w: int|
                0 <= w < f0.len() ==> fanout@[w] == (if exists|k: int|
                    0 <= k < t && (#[trigger] output_wires@[k]).0 == w {
                    0u16
                } else {
                    f0[w]
                }),
        decreases output_wires@.len() - t,
    {
        let w = output_wires[t].0;
        if w >= fanout.len() {
            proof {
                assert(!((output_wires@[t as int]).0 < f0.len()));
            }
            return Err(CircuitError::UseBeforeAlloc);
        }
        fanout.set(w, 0);
        t = t + 1;
    }
    proof {
        assert(fanout@ =~= zeroed_at_outputs(f0, output_wires@));
    }
    Ok(())
}

/// Run the credits pass: count, for every non-primary wire, how many
/// lowered gates read it, then zero the output wires.
///
/// The trace is validated step by step; a step that names a wire the
/// allocator has not reached yet, or that would push the allocator past
/// the address range, is `UseBeforeAlloc`.  A wire read more than
/// `u16::MAX` times is `CreditOverflow`.
pub fn run_credits_pass(
    steps: &Vec<SourceStep>,
    primary_inputs: usize,
    output_wires: &Vec<WireId>,
) -> (r: Result<Vec<u16>, CircuitError>)
    requires
        primary_inputs + 2 <= usize::MAX,
    ensures
        r matches Ok(f) ==> {
            &&& trace_alloc_valid(steps@)
            &&& f@.len() == next_after(steps@)
            &&& forall|k: int|
                0 <= k < output_wires@.len() ==> (#[trigger] output_wires@[k]).0 < next_after(
                    steps@,
                )
            &&& forall|w: int|
                0 <= w < f@.len() ==> f@[w] as int == (if is_output_wire(output_wires@, w) {
                    0int
                } else if w < primary_inputs + 2 {
                    0int
                } else {
                    reads_in_stream(lowered_of(steps@), w) as int
                })
        },
        r == Err::<Vec<u16>, CircuitError>(CircuitError::UseBeforeAlloc) ==> (!trace_alloc_valid(
            steps@,
        ) || exists|k: int|
            0 <= k < output_wires@.len() && (#[trigger] output_wires@[k]).0 >= next_after(steps@)),
        r == Err::<Vec<u16>, CircuitError>(CircuitError::CreditOverflow) ==> exists|w: int|
            primary_inputs + 2 <= w && reads_in_stream(lowered_of(steps@), w) > u16::MAX,
        r is Err ==> (r == Err::<Vec<u16>, CircuitError>(CircuitError::UseBeforeAlloc) || r
            == Err::<Vec<u16>, CircuitError>(CircuitError::CreditOverflow)),
{
    let ghost pi = primary_inputs as int;
    let mut mode = FanoutCounter::new(primary_inputs);
    let mut next: usize = 2;
    let mut j: usize = 0;
    proof {
        assert(steps@.take(0) =~= Seq::<SourceStep>::empty());
    }
    while j < steps.len()
        invariant
            j <= steps@.len(),
            mode.wf(),
            next >= 2,
            mode.next_id() == next,
            mode.primaries() == primary_inputs,
            primary_inputs + 2 <= usize::MAX,
            pi == primary_inputs as int,
            next == next_after(steps@.take(j as int)),
            mode.counts().len() == next,
            forall|i: int| 0 <= i < j ==> #[trigger] step_alloc_valid(steps@, i),
            forall|w: int|
                0 <= w < next ==> mode.counts()[w] as int == (if w < pi + 2 {
                    0int
                } else {
                    reads_in_stream(lowered_of(steps@.take(j as int)), w) as int
                }),
            forall|w: int|
                w >= next ==> reads_in_stream(lowered_of(steps@.take(j as int)), w) == 0,
        decreases steps@.len() - j,
    {
        let ghost prefix = steps@.take(j as int);
        proof {
            assert(steps@.take(j as int + 1) =~= prefix.push(steps@[j as int]));
            lemma_replay_push(prefix, steps@[j as int]);
        }
        match &steps[j] {
            SourceStep::Allocate { birth } => {
                if next == usize::MAX {
                    proof {
                        assert(!step_alloc_valid(steps@, j as int));
                    }
                    return Err(CircuitError::UseBeforeAlloc);
                }
                let _ = mode.allocate_wire(*birth);
                next = next + 1;
                proof {
                    assert(lowered_of(steps@.take(j as int + 1)) =~= lowered_of(prefix));
                }
            },
            SourceStep::AddCredits { wires, amount } => {
                if *amount < 1 || !wires_below(wires, next) {
                    proof {
                        assert(!step_alloc_valid(steps@, j as int));
                    }
                    return Err(CircuitError::UseBeforeAlloc);
                }
                proof {
                    assert(lowered_of(steps@.take(j as int + 1)) =~= lowered_of(prefix));
                }
            },
            SourceStep::Gate { gate } => {
                let extra = extra_wires(gate.gate_type);
                if gate.wire_a.0 >= next || gate.wire_b.0 >= next || gate.wire_c.0 >= next
                    || next > usize::MAX - extra {
                    proof {
                        assert(!step_alloc_valid(steps@, j as int));
                    }
                    return Err(CircuitError::UseBeforeAlloc);
                }
                let ghost c_before = mode.counts();
                match mode.evaluate_gate(gate) {
                    Ok(_) => {},
                    Err(e) => {
                        proof {
                            let lw = lower_gate(*gate, next as int);
                            let w = choose|w: int|
                                pi + 2 <= w < next + extra_of(gate.gate_type) && base_count(
                                    c_before,
                                    w,
                                ) + reads_in_stream(lw, w) > u16::MAX;
                            lemma_reads_in_stream_add(lowered_of(prefix), lw, w);
                            lemma_reads_prefix_mono(steps@, j as int + 1, w);
                            assert(reads_in_stream(lowered_of(steps@), w) > u16::MAX);
                        }
                        return Err(e);
                    },
                }
                proof {
                    let lw = lower_gate(*gate, next as int);
                    let low2 = lowered_of(steps@.take(j as int + 1));
                    assert forall|w: int| #![trigger reads_in_stream(low2, w)]
                        reads_in_stream(low2, w) == reads_in_stream(lowered_of(prefix), w)
                            + reads_in_stream(lw, w) by {
                        lemma_reads_in_stream_add(lowered_of(prefix), lw, w);
                    }
                    assert forall|w: int| w >= next + extra_of(gate.gate_type) implies
                        reads_in_stream(low2, w) == 0 by {
                        lemma_reads_bound(*gate, next as int, w);
                    }
                }
                next = next + extra;
            },
        }
        j = j + 1;
    }
    proof {
        assert(steps@.take(steps@.len() as int) =~= steps@);
    }
    let (mut fanout, _peak) = mode.finish();
    match zero_output_wires(&mut fanout, output_wires) {
        Ok(_) => {},
        Err(e) => {
            return Err(e);
        },
    }
    Ok(fanout)
}

/// Widen a fan-out vector into the 24-bit credit vector the translation
/// pass consumes.
pub fn credits_from_fanout(fanout: &Vec<u16>) -> (r: Vec<U24>)
    ensures
        r@.len() == fanout@.len(),
        forall|i: int| 0 <= i < fanout@.len() ==> credit_values(r@)[i] == fanout@[i] as int,
{
    let mut out: Vec<U24> = Vec::new();
    let mut i: usize = 0;
    while i < fanout.len()
        invariant
            i <= fanout@.len(),
            out@.len() == i,
            forall|k: int| 0 <= k < i ==> credit_values(out@)[k] == fanout@[k] as int,
        decreases fanout@.len() - i,
    {
        out.push(U24::from_u32(fanout[i] as u32));
        i = i + 1;
    }
    out
}

/// Run the translation pass: replay the trace through the translation
/// mode and collect the emitted stream.
///
/// A trace step that names a wire the allocator has not reached yet is
/// `UseBeforeAlloc`; a credit vector that does not cover every
/// normalized id the trace consumes is `AllocationMismatch`, as the
/// credit pass and the translation pass then disagree on wire count.
pub fn run_translation_pass(steps: &Vec<SourceStep>, creds: Vec<U24>) -> (r: Result<
    Vec<EmittedGate>,
    CircuitError,
>)
    ensures
        r matches Ok(es) ==> {
            &&& trace_alloc_valid(steps@)
            &&& es@ == attach_credits(lowered_of(steps@), creds@)
        },
        r == Err::<Vec<EmittedGate>, CircuitError>(CircuitError::UseBeforeAlloc)
            ==> !trace_alloc_valid(steps@),
        r == Err::<Vec<EmittedGate>, CircuitError>(CircuitError::AllocationMismatch)
            ==> next_after(steps@) > creds@.len(),
        r is Err ==> (r == Err::<Vec<EmittedGate>, CircuitError>(CircuitError::UseBeforeAlloc) || r
            == Err::<Vec<EmittedGate>, CircuitError>(CircuitError::AllocationMismatch)),
{
    let creds_len = creds.len();
    let mut mode = TranslationMode::new(creds);
    let mut next: usize = 2;
    let mut j: usize = 0;
    proof {
        assert(steps@.take(0) =~= Seq::<SourceStep>::empty());
        assert(attach_credits(lowered_of(steps@.take(0)), creds@) =~= Seq::<EmittedGate>::empty());
    }
    while j < steps.len()
        invariant
            j <= steps@.len(),
            mode.wf(),
            next >= 2,
            mode.next_id() == next,
            mode.creds() == creds@,
            creds_len == creds@.len(),
            mode.drained() == 0,
            next == next_after(steps@.take(j as int)),
            forall|i: int| 0 <= i < j ==> #[trigger] step_alloc_valid(steps@, i),
            mode.history() == attach_credits(lowered_of(steps@.take(j as int)), creds@),
        decreases steps@.len() - j,
    {
        let ghost prefix = steps@.take(j as int);
        proof {
            assert(steps@.take(j as int + 1) =~= prefix.push(steps@[j as int]));
            lemma_replay_push(prefix, steps@[j as int]);
        }
        match &steps[j] {
            SourceStep::Allocate { birth } => {
                if next == usize::MAX {
                    proof {
                        assert(!step_alloc_valid(steps@, j as int));
                    }
                    return Err(CircuitError::UseBeforeAlloc);
                }
                let _ = mode.allocate_wire(*birth);
                next = next + 1;
                proof {
                    assert(lowered_of(steps@.take(j as int + 1)) =~= lowered_of(prefix));
                }
            },
            SourceStep::AddCredits { wires, amount } => {
                if *amount < 1 || !wires_below(wires, next) {
                    proof {
                        assert(!step_alloc_valid(steps@, j as int));
                    }
                    return Err(CircuitError::UseBeforeAlloc);
                }
                proof {
                    assert(lowered_of(steps@.take(j as int + 1)) =~= lowered_of(prefix));
                }
            },
            SourceStep::Gate { gate } => {
                let extra = extra_wires(gate.gate_type);
                if gate.wire_a.0 >= next || gate.wire_b.0 >= next || gate.wire_c.0 >= next
                    || next > usize::MAX - extra {
                    proof {
                        assert(!step_alloc_valid(steps@, j as int));
                    }
                    return Err(CircuitError::UseBeforeAlloc);
                }
                if extra > creds_len || next > creds_len - extra {
                    proof {
                        lemma_next_after_monotonic(steps@, j as int + 1);
                    }
                    return Err(CircuitError::AllocationMismatch);
                }
                mode.evaluate_gate(gate);
                proof {
                    lemma_attach_concat(lowered_of(prefix), lower_gate(*gate, next as int), creds@);
                }
                next = next + extra;
            },
        }
        j = j + 1;
    }
    proof {
        assert(steps@.take(steps@.len() as int) =~= steps@);
    }
    let es = mode.finish();
    proof {
        assert(mode.history().take(0) =~= Seq::<EmittedGate>::empty());
        assert(es@ =~= mode.history());
    }
    Ok(es)
}

/// The credit values after replaying a trace through the
/// declaration-driven credit mode: wires carry their declared birth
/// counts plus every later declaration, extra internal wires carry one
/// credit each, and a declaration that overflows 24 bits poisons the
/// whole replay.
pub open spec fn declared_credits_after(steps: Seq<SourceStep>, primary_inputs: int) -> Option<
    Seq<int>,
>
    decreases steps.len(),
{
    if steps.len() == 0 {
        Some(seq![0int, 0int])
    } else {
        match declared_credits_after(steps.drop_last(), primary_inputs) {
            Some(vals) => match steps.last() {
                SourceStep::Allocate { birth } => Some(vals.push(birth as int)),
                SourceStep::AddCredits { wires, amount } => crate::modes::credit::apply_credits(
                    vals,
                    wires@,
                    amount as int,
                    primary_inputs,
                ),
                SourceStep::Gate { gate } => Some(vals + temp_births(gate.gate_type)),
            },
            None => None,
        }
    }
}

/// A poisoned replay stays poisoned however the trace goes on.
proof fn lemma_declared_none_persists(steps: Seq<SourceStep>, i: int, primary_inputs: int)
    requires
        0 <= i <= steps.len(),
        declared_credits_after(steps.take(i), primary_inputs) is None,
    ensures
        declared_credits_after(steps, primary_inputs) is None,
    decreases steps.len() - i,
{
    if i == steps.len() {
        assert(steps.take(i) =~= steps);
    } else {
        assert(steps.take(i + 1).drop_last() =~= steps.take(i));
        assert(steps.take(i + 1).last() == steps[i]);
        lemma_declared_none_persists(steps, i + 1, primary_inputs);
    }
}

/// The credit values with every listed output wire's slot forced to
/// zero.
pub open spec fn zeroed_values_at_outputs(vals: Seq<int>, outs: Seq<WireId>) -> Seq<int> {
    Seq::new(
        vals.len(),
        |w: int|
            if is_output_wire(outs, w) {
                0int
            } else {
                vals[w]
            },
    )
}

/// Force the credit slot of every listed output wire to zero in a
/// 24-bit credit vector.
pub fn zero_output_credits(creds: &mut Vec<U24>, output_wires: &Vec<WireId>) -> (r: Result<
    (),
    CircuitError,
>)
    ensures
        r is Ok <==> forall|k: int|
            0 <= k < output_wires@.len() ==> (#[trigger] output_wires@[k]).0 < old(
                creds,
            )@.len(),
        r is Ok ==> credit_values(final(creds)@) == zeroed_values_at_outputs(
            credit_values(old(creds)@),
            output_wires@,
        ),
        final(creds)@.len() == old(creds)@.len(),
        r is Err ==> r == Err::<(), CircuitError>(CircuitError::UseBeforeAlloc),
{
    let ghost c0 = creds@;
    let mut t: usize = 0;
    while t < output_wires.len()
        invariant
            t <= output_wires@.len(),
            c0 == old(creds)@,
            creds@.len() == c0.len(),
            forall|k: int| 0 <= k < t ==> (#[trigger] output_wires@[k]).0 < c0.len(),
            forall|w: int|
                0 <= w < c0.len() ==> credit_values(creds@)[w] == (if exists|k: int|
                    0 <= k < t && (#[trigger] output_wires@[k]).0 == w {
                    0int
                } else {
                    credit_values(c0)[w]
                }),
        decreases output_wires@.len() - t,
    {
        let w = output_wires[t].0;
        if w >= creds.len() {
            proof {
                assert(!((output_wires@[t as int]).0 < c0.len()));
            }
            return Err(CircuitError::UseBeforeAlloc);
        }
        let zero = U24::from_u32(0);
        let ghost pre = creds@;
        creds.set(w, zero);
        proof {
            assert(creds@ =~= pre.update(w as int, zero));
            assert forall|v: int|
                0 <= v < c0.len() implies credit_values(creds@)[v] == (if exists|k: int|
                0 <= k < t + 1 && (#[trigger] output_wires@[k]).0 == v {
                0int
            } else {
                credit_values(c0)[v]
            }) by {
                if v == w as int {
                    assert(credit_values(creds@)[v] == zero.value() as int);
                    assert(zero.value() == 0);
                    assert(0 <= t < t + 1 && (output_wires@[t as int]).0 == v);
                } else {
                    assert(creds@[v] == pre[v]);
                    assert(credit_values(creds@)[v] == credit_values(pre)[v]);
                    assert(credit_values(pre)[v] == (if exists|k: int|
                        0 <= k < t && (#[trigger] output_wires@[k]).0 == v {
                        0int
                    } else {
                        credit_values(c0)[v]
                    }));
                    if exists|k: int| 0 <= k < t + 1 && (#[trigger] output_wires@[k]).0 == v {
                        let k = choose|k: int|
                            0 <= k < t + 1 && (#[trigger] output_wires@[k]).0 == v;
                        assert(0 <= k < t && (output_wires@[k]).0 == v);
                    }
                }
            }
        }
        t = t + 1;
    }
    proof {
        assert(credit_values(creds@) =~= zeroed_values_at_outputs(
            credit_values(c0),
            output_wires@,
        ));
    }
    Ok(())
}

/// Run the declaration-driven credits pass: replay the trace through
/// the credit collection mode, trusting the gadget's birth counts and
/// `add_credits` declarations, then zero the output wires.  The peak
/// statistic that comes back with the vector is telemetry only.
pub fn run_declared_credits_pass(
    steps: &Vec<SourceStep>,
    primary_inputs: usize,
    output_wires: &Vec<WireId>,
) -> (r: Result<(Vec<U24>, usize), CircuitError>)
    requires
        primary_inputs + 2 <= usize::MAX,
    ensures
        r matches Ok(p) ==> {
            &&& trace_alloc_valid(steps@)
            &&& declared_credits_after(steps@, primary_inputs as int) matches Some(vals)
                && p.0@.len() == vals.len() && credit_values(p.0@) == zeroed_values_at_outputs(
                vals,
                output_wires@,
            )
            &&& p.0@.len() == next_after(steps@)
        },
        r == Err::<(Vec<U24>, usize), CircuitError>(CircuitError::UseBeforeAlloc) ==> (
        !trace_alloc_valid(steps@) || exists|k: int|
            0 <= k < output_wires@.len() && (#[trigger] output_wires@[k]).0 >= next_after(steps@)),
        r == Err::<(Vec<U24>, usize), CircuitError>(CircuitError::CreditOverflow)
            ==> declared_credits_after(steps@, primary_inputs as int) is None,
        r is Err ==> (r == Err::<(Vec<U24>, usize), CircuitError>(CircuitError::UseBeforeAlloc)
            || r == Err::<(Vec<U24>, usize), CircuitError>(CircuitError::CreditOverflow)),
{
    let ghost pi = primary_inputs as int;
    let mut mode = CreditCollectionMode::new(primary_inputs);
    let mut next: usize = 2;
    let mut j: usize = 0;
    proof {
        assert(steps@.take(0) =~= Seq::<SourceStep>::empty());
        assert(credit_values(mode.creds()) =~= seq![0int, 0int]);
    }
    while j < steps.len()
        invariant
            j <= steps@.len(),
            mode.wf(),
            next >= 2,
            mode.next_id() == next,
            mode.primaries() == primary_inputs,
            primary_inputs + 2 <= usize::MAX,
            pi == primary_inputs as int,
            next == next_after(steps@.take(j as int)),
            forall|i: int| 0 <= i < j ==> #[trigger] step_alloc_valid(steps@, i),
            declared_credits_after(steps@.take(j as int), pi) == Some(
                credit_values(mode.creds()),
            ),
            mode.creds().len() == next,
        decreases steps@.len() - j,
    {
        let ghost prefix = steps@.take(j as int);
        proof {
            assert(steps@.take(j as int + 1) =~= prefix.push(steps@[j as int]));
            lemma_replay_push(prefix, steps@[j as int]);
            assert(steps@.take(j as int + 1).drop_last() =~= prefix);
            assert(steps@.take(j as int + 1).last() == steps@[j as int]);
        }
        match &steps[j] {
            SourceStep::Allocate { birth } => {
                if next == usize::MAX {
                    proof {
                        assert(!step_alloc_valid(steps@, j as int));
                    }
                    return Err(CircuitError::UseBeforeAlloc);
                }
                let _ = mode.allocate_wire(*birth);
                next = next + 1;
            },
            SourceStep::AddCredits { wires, amount } => {
                if *amount < 1 || !wires_below(wires, next) {
                    proof {
                        assert(!step_alloc_valid(steps@, j as int));
                    }
                    return Err(CircuitError::UseBeforeAlloc);
                }
                match mode.add_credits(wires.as_slice(), *amount) {
                    Ok(_) => {},
                    Err(e) => {
                        proof {
                            lemma_declared_none_persists(steps@, j as int + 1, pi);
                        }
                        return Err(e);
                    },
                }
            },
            SourceStep::Gate { gate } => {
                let extra = extra_wires(gate.gate_type);
                if gate.wire_a.0 >= next || gate.wire_b.0 >= next || gate.wire_c.0 >= next
                    || next > usize::MAX - extra {
                    proof {
                        assert(!step_alloc_valid(steps@, j as int));
                    }
                    return Err(CircuitError::UseBeforeAlloc);
                }
                mode.evaluate_gate(gate);
                next = next + extra;
            },
        }
        j = j + 1;
    }
    proof {
        assert(steps@.take(steps@.len() as int) =~= steps@);
    }
    let (mut creds, peak) = mode.finish();
    match zero_output_credits(&mut creds, output_wires) {
        Ok(_) => {},
        Err(e) => {
            return Err(e);
        },
    }
    Ok((creds, peak))
}

/// Compare the output wires two pass runs report; gadget construction
/// must allocate identically across passes, so diverging output-wire
/// vectors mean the compilation is ill-formed.
pub fn verify_output_wires(expected: &Vec<WireId>, got: &Vec<WireId>) -> (r: Result<
    (),
    CircuitError,
>)
    ensures
        r is Ok <==> expected@ == got@,
        r is Err ==> r == Err::<(), CircuitError>(CircuitError::AllocationMismatch),
{
    if expected.len() != got.len() {
        proof {
            assert(expected@.len() != got@.len());
        }
        return Err(CircuitError::AllocationMismatch);
    }
    let mut k: usize = 0;
    while k < expected.len()
        invariant
            k <= expected@.len(),
            expected@.len() == got@.len(),
            forall|t: int| 0 <= t < k ==> (#[trigger] expected@[t]).0 == got@[t].0,
        decreases expected@.len() - k,
    {
        if expected[k].0 != got[k].0 {
            proof {
                assert(expected@[k as int] != got@[k as int]);
            }
            return Err(CircuitError::AllocationMismatch);
        }
        k = k + 1;
    }
    proof {
        assert(expected@ =~= got@);
    }
    Ok(())
}

/// Compile a whole trace: fan-out credits, widened to 24 bits, then
/// translation against them.  This is the batch shape of the compiler:
/// the only successful outcome is a complete stream whose credits are
/// the true read counts with the output wires zeroed.  It fails only
/// on an invalid trace or out-of-range output wire, or on a wire read
/// more often than a 16-bit count can hold.
pub fn compile_trace(
    steps: &Vec<SourceStep>,
    primary_inputs: usize,
    output_wires: &Vec<WireId>,
) -> (r: Result<(Vec<u16>, Vec<EmittedGate>), CircuitError>)
    requires
        primary_inputs + 2 <= usize::MAX,
    ensures
        r matches Ok(p) ==> {
            &&& trace_alloc_valid(steps@)
            &&& p.0@.len() == next_after(steps@)
            &&& forall|w: int|
                0 <= w < p.0@.len() ==> #[trigger] p.0@[w] as int == (if is_output_wire(
                    output_wires@,
                    w,
                ) {
                    0int
                } else if w < primary_inputs + 2 {
                    0int
                } else {
                    reads_in_stream(lowered_of(steps@), w) as int
                })
            &&& exists|creds: Seq<U24>|
                {
                    &&& creds.len() == p.0@.len()
                    &&& (forall|i: int|
                        0 <= i < p.0@.len() ==> #[trigger] credit_values(creds)[i] == p.0@[i])
                    &&& p.1@ == crate::trace::attach_credits(lowered_of(steps@), creds)
                }
        },
        r == Err::<(Vec<u16>, Vec<EmittedGate>), CircuitError>(CircuitError::UseBeforeAlloc) ==> (
        !trace_alloc_valid(steps@) || exists|k: int|
            0 <= k < output_wires@.len() && (#[trigger] output_wires@[k]).0 >= next_after(steps@)),
        r == Err::<(Vec<u16>, Vec<EmittedGate>), CircuitError>(CircuitError::CreditOverflow)
            ==> exists|w: int|
            primary_inputs + 2 <= w && reads_in_stream(lowered_of(steps@), w) > u16::MAX,
        r is Err ==> (r == Err::<(Vec<u16>, Vec<EmittedGate>), CircuitError>(
            CircuitError::UseBeforeAlloc,
        ) || r == Err::<(Vec<u16>, Vec<EmittedGate>), CircuitError>(CircuitError::CreditOverflow)),
{
    let fanout = match run_credits_pass(steps, primary_inputs, output_wires) {
        Ok(f) => f,
        Err(e) => {
            return Err(e);
        },
    };
    let creds = credits_from_fanout(&fanout);
    let ghost creds_view = creds@;
    match run_translation_pass(steps, creds) {
        Ok(gates) => {
            proof {
                assert(creds_view.len() == fanout@.len());
            }
            Ok((fanout, gates))
        },
        Err(_) => {
            // the credit vector spans exactly the ids the trace
            // consumes, so translation cannot reject a trace the
            // credits pass accepted
            proof {
                assert(false);
            }
            Err(CircuitError::AllocationMismatch)
        },
    }
}

} // verus!
