//! The load-bearing properties of the compiler, proved once and for
//! all traces: every emitted wire is defined exactly once, every gate
//! reads only wires that are constants, primary inputs, or outputs of
//! earlier gates, the two passes advance the normalized allocator in
//! lock step, and a stream emitted with fan-out credits is accepted by
//! the checker with nothing left over.

use vstd::prelude::*;

use crate::checker::{check_gate_spec, check_stream_spec};
use crate::gate::{
    extra_of, lemma_lower_gate_len, lemma_lower_gate_shape, lower_gate, reads_in_emitted_gate,
    reads_in_emitted_stream, EmittedGate, LoweredGate,
};
use crate::gate::{lemma_reads_in_emitted_stream_add, reads_in_stream, WireId};
use crate::passes::is_output_wire;
use crate::trace::{
    attach_credits, defined_ids, issued_ids, lemma_attach_preserves_reads,
    lemma_next_after_monotonic, lemma_replay_push, lemma_temp_ids_push, lowered_of, next_after,
    temp_ids, wf_trace, SourceStep,
};
use crate::u24::U24;

verus! {

/// Both inputs at position `p` of the lowered stream are constants,
/// primary inputs, or outputs of earlier positions.
pub open spec fn inputs_defined_before(s: Seq<LoweredGate>, p: int, primary_inputs: int) -> bool {
    &&& (s[p].in1 < primary_inputs + 2 || exists|q: int|
        0 <= q < p && (#[trigger] s[q]).out == s[p].in1)
    &&& (s[p].in2 < primary_inputs + 2 || exists|q: int|
        0 <= q < p && (#[trigger] s[q]).out == s[p].in2)
}

/// The structural facts that hold of the lowered stream of every
/// well-formed trace.
pub open spec fn stream_structure_ok(steps: Seq<SourceStep>, primary_inputs: int) -> bool {
    let s = lowered_of(steps);
    &&& (forall|n: int| #[trigger] issued_ids(steps).contains(n) ==> 2 <= n < next_after(steps))
    &&& (forall|n: int| #[trigger] temp_ids(steps).contains(n) ==> 2 <= n < next_after(steps))
    &&& issued_ids(steps).disjoint(temp_ids(steps))
    &&& defined_ids(steps).subset_of(issued_ids(steps))
    &&& (forall|p: int|
        0 <= p < s.len() ==> {
            let lg = #[trigger] s[p];
            &&& 0 <= lg.out < next_after(steps)
            &&& (defined_ids(steps).contains(lg.out) || temp_ids(steps).contains(lg.out))
            &&& 0 <= lg.in1 && (lg.in1 < primary_inputs + 2 || lg.in1 < next_after(steps))
            &&& 0 <= lg.in2 && (lg.in2 < primary_inputs + 2 || lg.in2 < next_after(steps))
        })
    &&& (forall|p: int, q: int|
        0 <= p < q < s.len() ==> (#[trigger] s[p]).out != (#[trigger] s[q]).out)
    &&& (forall|p: int| 0 <= p < s.len() ==> inputs_defined_before(s, p, primary_inputs))
    &&& (forall|d: int| #[trigger] defined_ids(steps).contains(d) ==> exists|p: int|
        0 <= p < s.len() && (#[trigger] s[p]).out == d)
}

/// Both inputs of the emitted gate at position `p` are below the
/// always-available bound or outputs of earlier gates of the stream.
pub open spec fn emitted_inputs_defined_before(s: Seq<EmittedGate>, p: int, avail: u64) -> bool {
    &&& (s[p].in1 < avail || exists|q: int| 0 <= q < p && (#[trigger] s[q]).out == s[p].in1)
    &&& (s[p].in2 < avail || exists|q: int| 0 <= q < p && (#[trigger] s[q]).out == s[p].in2)
}

/// What the checker relies on: outputs are single-definition wires at
/// or above the always-available bound, inputs are available when
/// read, and every gate carries exactly the number of reads its output
/// still has ahead of it.
pub open spec fn checkable_stream(s: Seq<EmittedGate>, avail: u64) -> bool {
    &&& (forall|p: int| 0 <= p < s.len() ==> (#[trigger] s[p]).out >= avail)
    &&& (forall|p: int, q: int|
        0 <= p < q < s.len() ==> (#[trigger] s[p]).out != (#[trigger] s[q]).out)
    &&& (forall|p: int| 0 <= p < s.len() ==> emitted_inputs_defined_before(s, p, avail))
    &&& (forall|p: int|
        0 <= p < s.len() ==> (#[trigger] s[p]).credits == reads_in_emitted_stream(
            s.skip(p + 1),
            s[p].out,
        ))
}

/// The checker's dictionary after `i` gates: exactly the wires defined
/// so far that still have reads ahead, each mapped to that count.
pub open spec fn dict_matches(s: Seq<EmittedGate>, i: int, m: Map<u64, u32>) -> bool {
    &&& (forall|w: u64| #[trigger]
        m.dom().contains(w) ==> (exists|p: int| 0 <= p < i && (#[trigger] s[p]).out == w)
            && reads_in_emitted_stream(s.skip(i), w) > 0 && m[w] == reads_in_emitted_stream(
            s.skip(i),
            w,
        ))
    &&& (forall|p: int|
        0 <= p < i && reads_in_emitted_stream(s.skip(i), (#[trigger] s[p]).out) > 0
            ==> m.dom().contains(s[p].out))
}

/// Running the checker over the rest of a checkable stream, from a
/// dictionary that matches the position, consumes the dictionary to
/// nothing.
proof fn lemma_checker_run(s: Seq<EmittedGate>, avail: u64, i: int, m: Map<u64, u32>)
    requires
        checkable_stream(s, avail),
        0 <= i <= s.len(),
        dict_matches(s, i, m),
    ensures
        check_stream_spec(m, s.skip(i), avail) == Some(Map::<u64, u32>::empty()),
    decreases s.len() - i,
{
    if i == s.len() {
        assert(s.skip(i) =~= Seq::<EmittedGate>::empty());
        assert forall|w: u64| !(#[trigger] m.dom().contains(w)) by {
            if m.dom().contains(w) {
                assert(reads_in_emitted_stream(s.skip(i), w) > 0);
            }
        }
        assert(m =~= Map::<u64, u32>::empty());
    } else {
        let g = s[i];
        assert(s.skip(i)[0] == g);
        assert(s.skip(i).drop_first() =~= s.skip(i + 1));
        assert forall|w: u64| #![trigger reads_in_emitted_stream(s.skip(i), w)]
            reads_in_emitted_stream(s.skip(i), w) == reads_in_emitted_gate(g, w)
                + reads_in_emitted_stream(s.skip(i + 1), w) by {
            assert(reads_in_emitted_stream(s.skip(i), w) == reads_in_emitted_gate(s.skip(i)[0], w)
                + reads_in_emitted_stream(s.skip(i).drop_first(), w));
        }

        // the output wire is fresh: it is not in the dictionary
        assert(!m.dom().contains(g.out)) by {
            if m.dom().contains(g.out) {
                let p = choose|p: int| 0 <= p < i && (#[trigger] s[p]).out == g.out;
                assert(s[p].out != s[i].out);
            }
        }

        assert(emitted_inputs_defined_before(s, i, avail));

        // first input
        let m1 = if g.in1 < avail {
            m
        } else {
            let p1 = choose|q: int| 0 <= q < i && (#[trigger] s[q]).out == g.in1;
            assert(s[p1].out == g.in1);
            assert(reads_in_emitted_stream(s.skip(i), g.in1) >= reads_in_emitted_gate(g, g.in1));
            assert(m.dom().contains(g.in1));
            if m[g.in1] == 1 {
                m.remove(g.in1)
            } else {
                m.insert(g.in1, (m[g.in1] - 1) as u32)
            }
        };
        assert(crate::checker::consume_spec(m, g.in1, avail) == Some(m1));

        // second input; it may be the same wire as the first
        if g.in2 >= avail {
            let p2 = choose|q: int| 0 <= q < i && (#[trigger] s[q]).out == g.in2;
            assert(s[p2].out == g.in2);
            assert(reads_in_emitted_stream(s.skip(i), g.in2) >= reads_in_emitted_gate(g, g.in2));
            assert(m.dom().contains(g.in2));
            if g.in1 >= avail && g.in2 == g.in1 {
                assert(m[g.in2] >= 2);
                assert(m1.dom().contains(g.in2));
                assert(m1[g.in2] == m[g.in2] - 1);
            } else {
                assert(m1.dom().contains(g.in2) && m1[g.in2] == m[g.in2]);
            }
        }
        let m2 = if g.in2 < avail {
            m1
        } else {
            if m1[g.in2] == 1 {
                m1.remove(g.in2)
            } else {
                m1.insert(g.in2, (m1[g.in2] - 1) as u32)
            }
        };
        assert(crate::checker::consume_spec(m1, g.in2, avail) == Some(m2));

        let mfin = if g.credits > 0 {
            m2.insert(g.out, g.credits)
        } else {
            m2
        };
        assert(check_gate_spec(m, g, avail) == Some(mfin));

        // the new dictionary matches position i + 1
        assert forall|w: u64| #[trigger] mfin.dom().contains(w) implies (exists|p: int|
            0 <= p < i + 1 && (#[trigger] s[p]).out == w) && reads_in_emitted_stream(
            s.skip(i + 1),
            w,
        ) > 0 && mfin[w] == reads_in_emitted_stream(s.skip(i + 1), w) by {
            if w == g.out {
                assert(g.credits > 0);
                assert(s[i].out == w);
                assert(reads_in_emitted_stream(s.skip(i + 1), w) == g.credits);
            } else {
                assert(m.dom().contains(w));
                let p = choose|p: int| 0 <= p < i && (#[trigger] s[p]).out == w;
                assert(s[p].out == w);
                assert(mfin[w] == m[w] - reads_in_emitted_gate(g, w));
            }
        }
        assert forall|p: int|
            0 <= p < i + 1 && reads_in_emitted_stream(s.skip(i + 1), (#[trigger] s[p]).out)
                > 0 implies mfin.dom().contains(s[p].out) by {
            let w = s[p].out;
            if p == i {
                assert(g.credits == reads_in_emitted_stream(s.skip(i + 1), w));
            } else {
                assert(reads_in_emitted_stream(s.skip(i), w) > 0);
                assert(m.dom().contains(w));
                assert(w != g.out);
                assert(m[w] == reads_in_emitted_stream(s.skip(i), w));
                assert(m[w] - reads_in_emitted_gate(g, w) > 0);
            }
        }
        lemma_checker_run(s, avail, i + 1, mfin);
        assert(check_stream_spec(m, s.skip(i), avail) == check_stream_spec(
            mfin,
            s.skip(i + 1),
            avail,
        ));
    }
}

/// A checkable stream, started from an empty dictionary, is accepted
/// with an empty dictionary at end of stream: every live wire was
/// consumed exactly down to zero.
pub proof fn lemma_checker_round_trip(s: Seq<EmittedGate>, avail: u64)
    requires
        checkable_stream(s, avail),
    ensures
        check_stream_spec(Map::<u64, u32>::empty(), s, avail) == Some(Map::<u64, u32>::empty()),
{
    assert(dict_matches(s, 0, Map::<u64, u32>::empty()));
    lemma_checker_run(s, avail, 0, Map::<u64, u32>::empty());
    assert(s.skip(0) =~= s);
}

/// Structural soundness of the lowering: the lowered stream of a
/// well-formed trace defines each wire at most once and reads only
/// wires that are already available.
#[verifier::rlimit(80)]
pub proof fn lemma_stream_structure(steps: Seq<SourceStep>, primary_inputs: int)
    requires
        wf_trace(steps, primary_inputs),
        primary_inputs >= 0,
    ensures
        stream_structure_ok(steps, primary_inputs),
    decreases steps.len(),
{
    let pi = primary_inputs;
    if steps.len() == 0 {
        assert(lowered_of(steps).len() == 0);
        assert(issued_ids(steps).disjoint(temp_ids(steps))) by {
            assert(forall|n: int| !(#[trigger] issued_ids(steps).contains(n)));
        }
        assert(defined_ids(steps).subset_of(issued_ids(steps))) by {
            assert(forall|n: int| !(#[trigger] defined_ids(steps).contains(n)));
        }
    } else {
        let prev = steps.drop_last();
        let last = steps.last();
        assert(wf_trace(prev, pi)) by {
            assert forall|i: int| 0 <= i < prev.len() implies match #[trigger] prev[i] {
                SourceStep::Gate { gate } => {
                    let prefix = prev.take(i);
                    &&& crate::trace::gate_inputs_available(gate, pi, prefix)
                    &&& issued_ids(prefix).contains(gate.wire_c.0 as int)
                    &&& !defined_ids(prefix).contains(gate.wire_c.0 as int)
                    &&& gate.wire_c.0 >= pi + 2
                },
                _ => true,
            } by {
                assert(prev.take(i) =~= steps.take(i));
                assert(steps[i] == prev[i]);
            }
        }
        lemma_stream_structure(prev, pi);
        assert(steps =~= prev.push(last));
        lemma_replay_push(prev, last);
        lemma_temp_ids_push(prev, last);
        lemma_next_after_monotonic(prev, 0);
        assert(prev.take(0) =~= Seq::<SourceStep>::empty());
        let nx = next_after(prev);
        let old_s = lowered_of(prev);
        let s = lowered_of(steps);
        match last {
            SourceStep::Allocate { .. } => {
                assert(s =~= old_s);
                assert(defined_ids(steps).subset_of(issued_ids(steps)));
                assert forall|p: int| 0 <= p < s.len() implies inputs_defined_before(
                    s,
                    p,
                    pi,
                ) by {
                    assert(inputs_defined_before(old_s, p, pi));
                }
            },
            SourceStep::AddCredits { .. } => {
                assert(s =~= old_s);
            },
            SourceStep::Gate { gate } => {
                let g = gate;
                let c = g.wire_c.0 as int;
                let lw = lower_gate(g, nx);
                let ll = lowered_of(prev).len() as int;
                let extra = extra_of(g.gate_type) as int;
                lemma_lower_gate_len(g, nx);
                lemma_lower_gate_shape(g, nx);
                assert(steps.take(steps.len() - 1) =~= prev);
                assert(match steps[steps.len() - 1] {
                    SourceStep::Gate { gate } => {
                        &&& crate::trace::gate_inputs_available(gate, pi, prev)
                        &&& issued_ids(prev).contains(gate.wire_c.0 as int)
                        &&& !defined_ids(prev).contains(gate.wire_c.0 as int)
                        &&& gate.wire_c.0 >= pi + 2
                    },
                    _ => true,
                });
                assert(s == old_s + lw);
                assert(s.len() == ll + extra + 1);
                assert forall|p: int| 0 <= p < ll implies s[p] == old_s[p] by {}
                assert forall|k: int| 0 <= k < lw.len() implies s[ll + k] == lw[k] by {}

                // outs and bounds
                assert forall|p: int| 0 <= p < s.len() implies {
                    let lg = #[trigger] s[p];
                    &&& 0 <= lg.out < next_after(steps)
                    &&& (defined_ids(steps).contains(lg.out) || temp_ids(steps).contains(lg.out))
                    &&& 0 <= lg.in1 && (lg.in1 < pi + 2 || lg.in1 < next_after(steps))
                    &&& 0 <= lg.in2 && (lg.in2 < pi + 2 || lg.in2 < next_after(steps))
                } by {
                    if p < ll {
                        assert(old_s[p].out < nx);
                    } else {
                        let k = p - ll;
                        assert(s[p] == lw[k]);
                        if k < extra {
                            assert(lw[k].out == nx + k);
                            assert(temp_ids(steps).contains(nx + k));
                        } else {
                            assert(lw[k].out == c);
                            assert(defined_ids(steps).contains(c));
                        }
                        if !(g.gate_type is Not) {
                            if g.wire_b.0 as int >= pi + 2 {
                                assert(defined_ids(prev).contains(g.wire_b.0 as int));
                            }
                        }
                        if g.wire_a.0 as int >= pi + 2 {
                            assert(defined_ids(prev).contains(g.wire_a.0 as int));
                        }
                    }
                }

                // single definition
                assert forall|p: int, q: int| 0 <= p < q < s.len() implies (#[trigger] s[p]).out
                    != (#[trigger] s[q]).out by {
                    if q < ll {
                    } else {
                        let k = q - ll;
                        if p < ll {
                            assert(old_s[p].out < nx);
                            assert(defined_ids(prev).contains(old_s[p].out) || temp_ids(
                                prev,
                            ).contains(old_s[p].out));
                            if k < extra {
                                assert(s[q].out == nx + k);
                            } else {
                                assert(s[q].out == c);
                                assert(issued_ids(prev).contains(c));
                                if temp_ids(prev).contains(c) {
                                    assert(!issued_ids(prev).disjoint(temp_ids(prev))) by {
                                        assert(issued_ids(prev).contains(c) && temp_ids(
                                            prev,
                                        ).contains(c));
                                    }
                                }
                            }
                        } else {
                            let t = p - ll;
                            if k < extra {
                            } else {
                                assert(s[q].out == c);
                                assert(s[p].out == nx + t);
                                assert(issued_ids(prev).contains(c));
                                assert(c < nx);
                            }
                        }
                    }
                }

                // topological order
                assert forall|p: int| 0 <= p < s.len() implies inputs_defined_before(
                    s,
                    p,
                    pi,
                ) by {
                    if p < ll {
                        assert(inputs_defined_before(old_s, p, pi));
                        if !(old_s[p].in1 < pi + 2) {
                            let q = choose|q: int| 0 <= q < p && (#[trigger] old_s[q]).out
                                == old_s[p].in1;
                            assert(s[q].out == s[p].in1);
                        }
                        if !(old_s[p].in2 < pi + 2) {
                            let q = choose|q: int| 0 <= q < p && (#[trigger] old_s[q]).out
                                == old_s[p].in2;
                            assert(s[q].out == s[p].in2);
                        }
                    } else {
                        let k = p - ll;
                        assert(s[p] == lw[k]);
                        let a = g.wire_a.0 as int;
                        let b = g.wire_b.0 as int;
                        if a >= pi + 2 {
                            assert(defined_ids(prev).contains(a));
                            let q = choose|q: int| 0 <= q < old_s.len() && (#[trigger] old_s[q]).out
                                == a;
                            assert(s[q].out == a);
                        }
                        if !(g.gate_type is Not) && b >= pi + 2 {
                            assert(defined_ids(prev).contains(b));
                            let q = choose|q: int| 0 <= q < old_s.len() && (#[trigger] old_s[q]).out
                                == b;
                            assert(s[q].out == b);
                        }
                        assert forall|t: int| 0 <= t < k implies (#[trigger] s[ll + t]).out == nx
                            + t by {
                            assert(s[ll + t] == lw[t]);
                        }
                        if !(s[p].in1 < pi + 2) {
                            if s[p].in1 == a {
                            } else if s[p].in1 == b {
                            } else {
                                assert(nx <= s[p].in1 < nx + k);
                                let t = s[p].in1 - nx;
                                assert(s[ll + t].out == s[p].in1);
                            }
                        }
                        if !(s[p].in2 < pi + 2) {
                            if s[p].in2 == a {
                            } else if s[p].in2 == b {
                            } else {
                                assert(nx <= s[p].in2 < nx + k);
                                let t = s[p].in2 - nx;
                                assert(s[ll + t].out == s[p].in2);
                            }
                        }
                    }
                }

                // every defined id appears as an out
                assert forall|d: int| #[trigger] defined_ids(steps).contains(d) implies exists|
                    p: int,
                |
                    0 <= p < s.len() && (#[trigger] s[p]).out == d by {
                    if d == c {
                        assert(s[ll + extra].out == c);
                    } else {
                        assert(defined_ids(prev).contains(d));
                        let p = choose|p: int| 0 <= p < old_s.len() && (#[trigger] old_s[p]).out
                            == d;
                        assert(s[p].out == d);
                    }
                }

                // id sets
                assert forall|n: int| #[trigger] temp_ids(steps).contains(n) implies 2 <= n
                    < next_after(steps) by {}
                assert(issued_ids(steps).disjoint(temp_ids(steps))) by {
                    assert forall|n: int|
                        !(#[trigger] issued_ids(steps).contains(n) && temp_ids(steps).contains(
                            n,
                        )) by {
                        if issued_ids(steps).contains(n) && temp_ids(steps).contains(n) {
                            assert(n < nx || !issued_ids(prev).contains(n));
                        }
                    }
                }
                assert(defined_ids(steps).subset_of(issued_ids(steps)));
            },
        }
    }
}

/// Every wire a source gate defines sits above the constants and the
/// primary inputs.
pub proof fn lemma_defined_ge(steps: Seq<SourceStep>, primary_inputs: int)
    requires
        wf_trace(steps, primary_inputs),
    ensures
        forall|d: int| #[trigger] defined_ids(steps).contains(d) ==> d >= primary_inputs + 2,
    decreases steps.len(),
{
    if steps.len() == 0 {
    } else {
        let prev = steps.drop_last();
        assert(wf_trace(prev, primary_inputs)) by {
            assert forall|i: int| 0 <= i < prev.len() implies match #[trigger] prev[i] {
                SourceStep::Gate { gate } => {
                    let prefix = prev.take(i);
                    &&& crate::trace::gate_inputs_available(gate, primary_inputs, prefix)
                    &&& issued_ids(prefix).contains(gate.wire_c.0 as int)
                    &&& !defined_ids(prefix).contains(gate.wire_c.0 as int)
                    &&& gate.wire_c.0 >= primary_inputs + 2
                },
                _ => true,
            } by {
                assert(prev.take(i) =~= steps.take(i));
                assert(steps[i] == prev[i]);
            }
        }
        lemma_defined_ge(prev, primary_inputs);
        assert(steps =~= prev.push(steps.last()));
        lemma_replay_push(prev, steps.last());
        assert(steps.take(steps.len() - 1) =~= prev);
        assert(match steps[steps.len() - 1] {
            SourceStep::Gate { gate } => gate.wire_c.0 >= primary_inputs + 2,
            _ => true,
        });
    }
}

/// A trace whose source gates all come after the primary inputs were
/// allocated: the allocator has passed the primary range at each gate.
pub open spec fn primaries_allocated_first(steps: Seq<SourceStep>, primary_inputs: int) -> bool {
    forall|i: int|
        0 <= i < steps.len() && (#[trigger] steps[i]) is Gate ==> next_after(steps.take(i))
            >= primary_inputs + 2
}

/// When every gate comes after the primary inputs were allocated, every
/// extra internal wire sits above the primary range too.
pub proof fn lemma_temp_ge(steps: Seq<SourceStep>, primary_inputs: int)
    requires
        primaries_allocated_first(steps, primary_inputs),
    ensures
        forall|n: int| #[trigger] temp_ids(steps).contains(n) ==> n >= primary_inputs + 2,
    decreases steps.len(),
{
    if steps.len() == 0 {
    } else {
        let prev = steps.drop_last();
        assert(primaries_allocated_first(prev, primary_inputs)) by {
            assert forall|i: int|
                0 <= i < prev.len() && (#[trigger] prev[i]) is Gate implies next_after(
                prev.take(i),
            ) >= primary_inputs + 2 by {
                assert(prev.take(i) =~= steps.take(i));
                assert(steps[i] == prev[i]);
            }
        }
        lemma_temp_ge(prev, primary_inputs);
        assert(steps =~= prev.push(steps.last()));
        lemma_temp_ids_push(prev, steps.last());
        assert(steps.take(steps.len() - 1) =~= prev);
    }
}

/// The credit vector the credits pass produces: the fan-out count of
/// every wire, except that primary inputs, constants and the listed
/// output wires carry zero.
pub open spec fn credits_are_fanout(
    creds: Seq<U24>,
    steps: Seq<SourceStep>,
    primary_inputs: int,
    outs: Seq<WireId>,
) -> bool {
    &&& creds.len() == next_after(steps)
    &&& forall|w: int|
        0 <= w < creds.len() ==> (#[trigger] creds[w]).value() == (if is_output_wire(outs, w) {
            0int
        } else if w < primary_inputs + 2 {
            0int
        } else {
            reads_in_stream(lowered_of(steps), w) as int
        })
}

/// A stream of emitted gates reading a wire nowhere has a zero read
/// count for it.
proof fn lemma_no_reads(s: Seq<EmittedGate>, w: u64)
    requires
        forall|q: int| 0 <= q < s.len() ==> reads_in_emitted_gate(#[trigger] s[q], w) == 0,
    ensures
        reads_in_emitted_stream(s, w) == 0,
    decreases s.len(),
{
    if s.len() == 0 {
    } else {
        assert forall|q: int|
            0 <= q < s.drop_first().len() implies reads_in_emitted_gate(
            #[trigger] s.drop_first()[q],
            w,
        ) == 0 by {
            assert(s.drop_first()[q] == s[q + 1]);
        }
        lemma_no_reads(s.drop_first(), w);
    }
}

/// Credit conservation: for every wire that is neither constant,
/// primary input, nor listed output, the credit value the pass stores
/// for it equals the number of emitted gates that read it.
pub proof fn lemma_credit_conservation(
    steps: Seq<SourceStep>,
    primary_inputs: int,
    outs: Seq<WireId>,
    creds: Seq<U24>,
    w: int,
)
    requires
        wf_trace(steps, primary_inputs),
        primary_inputs >= 0,
        next_after(steps) <= u64::MAX,
        primary_inputs + 2 <= u64::MAX,
        credits_are_fanout(creds, steps, primary_inputs, outs),
        primary_inputs + 2 <= w < next_after(steps),
        !is_output_wire(outs, w),
    ensures
        creds[w].value() == reads_in_emitted_stream(
            attach_credits(lowered_of(steps), creds),
            w as u64,
        ),
{
    lemma_stream_structure(steps, primary_inputs);
    lemma_attach_preserves_reads(lowered_of(steps), creds, w);
}

/// Expansion exactness: a source gate advances the normalized
/// allocator by exactly its extra-wire count, and the lowered stream
/// grows by exactly one emitted gate per consumed id, its own output
/// included.  The remaining one id of the `1 + extra` total is issued
/// by the `allocate_wire` call that created that output wire.
pub proof fn lemma_expansion_exactness(steps: Seq<SourceStep>, i: int)
    requires
        0 <= i < steps.len(),
        steps[i] is Gate,
    ensures
        next_after(steps.take(i + 1)) == next_after(steps.take(i)) + extra_of(
            steps[i]->Gate_gate.gate_type,
        ),
        lowered_of(steps.take(i + 1)).len() == lowered_of(steps.take(i)).len() + 1 + extra_of(
            steps[i]->Gate_gate.gate_type,
        ),
{
    assert(steps.take(i + 1) =~= steps.take(i).push(steps[i]));
    lemma_replay_push(steps.take(i), steps[i]);
    lemma_lower_gate_len(steps[i]->Gate_gate, next_after(steps.take(i)));
}

/// Gate kind closure: every gate of an emitted stream is AND or XOR;
/// the emitted vocabulary has no other kind.
pub proof fn lemma_gate_kind_closure(s: Seq<EmittedGate>)
    ensures
        forall|p: int|
            0 <= p < s.len() ==> ((#[trigger] s[p]).gate_type is And || s[p].gate_type is Xor),
{
}

/// Round trip: the stream the translation pass emits from a
/// well-formed trace, with the credit vector the credits pass computed
/// for that same trace, is accepted by the checker, which consumes its
/// whole dictionary by end of stream.  The output wires must be read
/// by no gate: their credits were forced to zero.
pub proof fn lemma_compile_round_trip(
    steps: Seq<SourceStep>,
    primary_inputs: int,
    outs: Seq<WireId>,
    creds: Seq<U24>,
)
    requires
        wf_trace(steps, primary_inputs),
        primary_inputs >= 0,
        primaries_allocated_first(steps, primary_inputs),
        primary_inputs + 2 <= u64::MAX,
        next_after(steps) <= u64::MAX,
        credits_are_fanout(creds, steps, primary_inputs, outs),
        forall|w: int| #[trigger]
            is_output_wire(outs, w) ==> reads_in_stream(lowered_of(steps), w) == 0,
    ensures
        check_stream_spec(
            Map::<u64, u32>::empty(),
            attach_credits(lowered_of(steps), creds),
            (primary_inputs + 2) as u64,
        ) == Some(Map::<u64, u32>::empty()),
{
    let pi = primary_inputs;
    let sl = lowered_of(steps);
    let es = attach_credits(sl, creds);
    let avail = (pi + 2) as u64;
    lemma_stream_structure(steps, pi);
    lemma_defined_ge(steps, pi);
    lemma_temp_ge(steps, pi);
    assert(es.len() == sl.len());

    // outputs at or above the always-available bound, distinct
    assert forall|p: int| 0 <= p < es.len() implies (#[trigger] es[p]).out >= avail by {
        assert(es[p].out == sl[p].out as u64);
        assert(sl[p].out >= pi + 2);
    }
    assert forall|p: int, q: int| 0 <= p < q < es.len() implies (#[trigger] es[p]).out
        != (#[trigger] es[q]).out by {
        assert(sl[p].out != sl[q].out);
        assert(0 <= sl[p].out <= u64::MAX && 0 <= sl[q].out <= u64::MAX);
    }

    // inputs available when read
    assert forall|p: int| 0 <= p < es.len() implies emitted_inputs_defined_before(
        es,
        p,
        avail,
    ) by {
        assert(inputs_defined_before(sl, p, pi));
        assert(es[p].in1 == sl[p].in1 as u64);
        assert(es[p].in2 == sl[p].in2 as u64);
        if sl[p].in1 < pi + 2 {
            assert(es[p].in1 < avail);
        } else {
            let q = choose|q: int| 0 <= q < p && (#[trigger] sl[q]).out == sl[p].in1;
            assert(es[q].out == es[p].in1);
        }
        if sl[p].in2 < pi + 2 {
            assert(es[p].in2 < avail);
        } else {
            let q = choose|q: int| 0 <= q < p && (#[trigger] sl[q]).out == sl[p].in2;
            assert(es[q].out == es[p].in2);
        }
    }

    // each gate carries the remaining read count of its output
    assert forall|p: int| 0 <= p < es.len() implies (#[trigger] es[p]).credits
        == reads_in_emitted_stream(es.skip(p + 1), es[p].out) by {
        let o = sl[p].out;
        let o64 = es[p].out;
        assert(o64 == o as u64);
        lemma_attach_preserves_reads(sl, creds, o);
        assert(es =~= es.take(p + 1) + es.skip(p + 1));
        lemma_reads_in_emitted_stream_add(es.take(p + 1), es.skip(p + 1), o64);
        assert forall|q: int|
            0 <= q < es.take(p + 1).len() implies reads_in_emitted_gate(
            #[trigger] es.take(p + 1)[q],
            o64,
        ) == 0 by {
            assert(es.take(p + 1)[q] == es[q]);
            if es[q].in1 == o64 {
                assert(emitted_inputs_defined_before(es, q, avail));
                assert(es[q].in1 >= avail);
                let q2 = choose|q2: int| 0 <= q2 < q && (#[trigger] es[q2]).out == es[q].in1;
                assert(sl[q2].out == o);
                assert(q2 == p);
                assert(false);
            }
            if es[q].in2 == o64 {
                assert(emitted_inputs_defined_before(es, q, avail));
                assert(es[q].in2 >= avail);
                let q2 = choose|q2: int| 0 <= q2 < q && (#[trigger] es[q2]).out == es[q].in2;
                assert(sl[q2].out == o);
                assert(q2 == p);
                assert(false);
            }
        }
        lemma_no_reads(es.take(p + 1), o64);
        assert(es[p].credits == creds[o].value());
        if is_output_wire(outs, o) {
            assert(reads_in_stream(sl, o) == 0);
        }
    }

    assert(checkable_stream(es, avail));
    lemma_checker_round_trip(es, avail);
}

/// Single definition: each normalized id stands as `out` in at most
/// one gate of the lowered stream of a well-formed trace.
pub proof fn lemma_single_definition(steps: Seq<SourceStep>, primary_inputs: int)
    requires
        wf_trace(steps, primary_inputs),
        primary_inputs >= 0,
    ensures
        forall|p: int, q: int|
            0 <= p < q < lowered_of(steps).len() ==> (#[trigger] lowered_of(steps)[p]).out
                != (#[trigger] lowered_of(steps)[q]).out,
{
    lemma_stream_structure(steps, primary_inputs);
}

/// Topological order: every gate of the lowered stream of a
/// well-formed trace reads only constants, primary inputs, and outputs
/// of earlier gates.
pub proof fn lemma_topological_order(steps: Seq<SourceStep>, primary_inputs: int)
    requires
        wf_trace(steps, primary_inputs),
        primary_inputs >= 0,
    ensures
        forall|p: int|
            0 <= p < lowered_of(steps).len() ==> inputs_defined_before(
                lowered_of(steps),
                p,
                primary_inputs,
            ),
{
    lemma_stream_structure(steps, primary_inputs);
}

/// The round trip, stated against what the passes themselves return:
/// a fan-out vector with the credits pass's contract, widened to the
/// 24-bit credits the translation pass consumes, makes the emitted
/// stream checkable.  The output wires must be read by no gate, which
/// is what their zeroed credits promise.
pub proof fn lemma_passes_round_trip(
    steps: Seq<SourceStep>,
    primary_inputs: int,
    outs: Seq<WireId>,
    fanout: Seq<u16>,
    creds: Seq<U24>,
)
    requires
        wf_trace(steps, primary_inputs),
        primary_inputs >= 0,
        primaries_allocated_first(steps, primary_inputs),
        primary_inputs + 2 <= u64::MAX,
        next_after(steps) <= u64::MAX,
        // what run_credits_pass ensures of its result
        fanout.len() == next_after(steps),
        forall|w: int|
            0 <= w < fanout.len() ==> #[trigger] fanout[w] as int == (if is_output_wire(outs, w) {
                0int
            } else if w < primary_inputs + 2 {
                0int
            } else {
                reads_in_stream(lowered_of(steps), w) as int
            }),
        // what credits_from_fanout ensures of the widening
        creds.len() == fanout.len(),
        forall|i: int|
            0 <= i < fanout.len() ==> crate::modes::credit::credit_values(creds)[i] == fanout[i],
        // output wires have no consumers
        forall|w: int| #[trigger]
            is_output_wire(outs, w) ==> reads_in_stream(lowered_of(steps), w) == 0,
    ensures
        check_stream_spec(
            Map::<u64, u32>::empty(),
            attach_credits(lowered_of(steps), creds),
            (primary_inputs + 2) as u64,
        ) == Some(Map::<u64, u32>::empty()),
{
    assert forall|w: int| 0 <= w < creds.len() implies (#[trigger] creds[w]).value() == (
    if is_output_wire(outs, w) {
        0int
    } else if w < primary_inputs + 2 {
        0int
    } else {
        reads_in_stream(lowered_of(steps), w) as int
    }) by {
        assert(fanout[w] as int == (if is_output_wire(outs, w) {
            0int
        } else if w < primary_inputs + 2 {
            0int
        } else {
            reads_in_stream(lowered_of(steps), w) as int
        }));
        assert(crate::modes::credit::credit_values(creds)[w] == creds[w].value() as int);
    }
    lemma_compile_round_trip(steps, primary_inputs, outs, creds);
}

/// Every credit value the translation pass attaches fits in 24 bits:
/// the upper byte of the credit column in the output file is always
/// zero.
pub proof fn lemma_credits_fit_24_bits(s: Seq<LoweredGate>, creds: Seq<U24>)
    ensures
        forall|p: int|
            0 <= p < attach_credits(s, creds).len() ==> (#[trigger] attach_credits(s, creds)[p]).credits
                < 0x1000000,
{
    assert forall|p: int|
        0 <= p < attach_credits(s, creds).len() implies (#[trigger] attach_credits(
        s,
        creds,
    )[p]).credits < 0x1000000 by {
        assert(attach_credits(s, creds)[p].credits == creds[s[p].out].value());
    }
}

} // verus!
