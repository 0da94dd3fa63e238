use g16core::checker::CircuitChecker;
use g16core::error::CircuitError;
use g16core::gate::{EmittedGate, EmittedGateType, Gate, GateType, WireId};
use g16core::passes::{
    compile_trace, credits_from_fanout, run_credits_pass, run_declared_credits_pass,
    run_translation_pass, verify_output_wires, zero_output_wires,
};
use g16core::modes::credit::CreditCollectionMode;
use g16core::modes::fanout::FanoutCounter;
use g16core::trace::SourceStep;

fn gate(kind: GateType, a: usize, b: usize, c: usize) -> SourceStep {
    SourceStep::Gate {
        gate: Gate { wire_a: WireId(a), wire_b: WireId(b), wire_c: WireId(c), gate_type: kind },
    }
}

fn issue(birth: u16) -> SourceStep {
    SourceStep::Allocate { birth }
}

fn compile(
    steps: &Vec<SourceStep>,
    primary_inputs: usize,
    outputs: &Vec<WireId>,
) -> (Vec<u16>, Vec<EmittedGate>) {
    let fanout = run_credits_pass(steps, primary_inputs, outputs).unwrap();
    let creds = credits_from_fanout(&fanout);
    let gates = run_translation_pass(steps, creds).unwrap();
    (fanout, gates)
}

fn check_all(primary_inputs: u64, gates: &Vec<EmittedGate>) -> bool {
    let mut checker = CircuitChecker::new(primary_inputs);
    for g in gates {
        checker.step(g).unwrap();
    }
    checker.accepted()
}

// S1: a single AND over two primary inputs.
#[test]
fn test_single_and() {
    // primaries take ids 2 and 3; the output wire id 4 is born with no
    // further consumers
    let steps = vec![issue(0), issue(0), issue(0), gate(GateType::And, 2, 3, 4)];
    let outputs = vec![WireId(4)];
    let (fanout, gates) = compile(&steps, 2, &outputs);

    assert_eq!(fanout.len(), 2 + 3);
    assert_eq!(gates.len(), 1);
    let g = gates[0];
    assert_eq!(g.gate_type, EmittedGateType::And);
    assert_eq!((g.in1, g.in2, g.out, g.credits), (2, 3, 4, 0));
    assert!(check_all(2, &gates));
}

// S2: NOT lowers to one XOR against the constant ONE wire.
#[test]
fn test_not_expansion() {
    let steps = vec![issue(0), issue(0), gate(GateType::Not, 2, 2, 3)];
    let outputs = vec![WireId(3)];
    let (_fanout, gates) = compile(&steps, 1, &outputs);

    assert_eq!(gates.len(), 1);
    let g = gates[0];
    assert_eq!(g.gate_type, EmittedGateType::Xor);
    assert_eq!((g.in1, g.in2, g.out, g.credits), (2, 1, 3, 0));
    assert!(check_all(1, &gates));
}

// S3: OR lowers to three gates through two intermediate wires, each
// consumed exactly once inside the expansion.
#[test]
fn test_or_expansion() {
    let steps = vec![issue(0), issue(0), issue(0), gate(GateType::Or, 2, 3, 4)];
    let outputs = vec![WireId(4)];
    let (fanout, gates) = compile(&steps, 2, &outputs);

    assert_eq!(gates.len(), 3);
    assert_eq!(
        (gates[0].gate_type, gates[0].in1, gates[0].in2, gates[0].out),
        (EmittedGateType::And, 2, 3, 5)
    );
    assert_eq!(
        (gates[1].gate_type, gates[1].in1, gates[1].in2, gates[1].out),
        (EmittedGateType::Xor, 5, 2, 6)
    );
    assert_eq!(
        (gates[2].gate_type, gates[2].in1, gates[2].in2, gates[2].out),
        (EmittedGateType::Xor, 6, 3, 4)
    );
    assert_eq!(fanout[5], 1);
    assert_eq!(fanout[6], 1);
    assert_eq!(gates[0].credits, 1);
    assert_eq!(gates[1].credits, 1);
    assert!(check_all(2, &gates));
}

// S4: IMP with an external consumer of its output; the first
// intermediate wire of the expansion is consumed twice inside it.
#[test]
fn test_imp_expansion_with_external_fanout() {
    let steps = vec![
        issue(0),
        issue(0),
        issue(0),
        gate(GateType::Imp, 2, 3, 4),
        issue(0),
        gate(GateType::And, 4, 2, 8),
    ];
    let outputs = vec![WireId(8)];
    let (fanout, gates) = compile(&steps, 2, &outputs);

    // IMP consumes ids 5, 6, 7 for its extra wires
    assert_eq!(gates.len(), 5);
    assert_eq!(fanout[4], 1, "c is consumed once, by the AND");
    assert_eq!(fanout[5], 2, "t1 is consumed by the second and third expansion gates");
    assert_eq!(fanout[6], 1);
    assert_eq!(fanout[7], 1);
    assert_eq!(gates[0].credits, 2);
    assert_eq!(gates[3].credits, 1);
    assert_eq!(gates[4].out, 8);
    assert_eq!(gates[4].credits, 0);
    assert!(check_all(2, &gates));
}

// Every source kind expands to exactly one gate per consumed id and
// the two passes stay aligned on every kind.
#[test]
fn test_expansion_exactness_all_kinds() {
    let kinds = vec![
        (GateType::And, 0usize),
        (GateType::Xor, 0),
        (GateType::Not, 0),
        (GateType::Nand, 1),
        (GateType::Xnor, 1),
        (GateType::Nimp, 1),
        (GateType::Ncimp, 1),
        (GateType::Or, 2),
        (GateType::Nor, 3),
        (GateType::Imp, 3),
        (GateType::Cimp, 3),
    ];
    for (kind, extra) in kinds {
        let steps = vec![issue(0), issue(0), issue(0), gate(kind, 2, 3, 4)];
        let outputs = vec![WireId(4)];
        let (fanout, gates) = compile(&steps, 2, &outputs);
        assert_eq!(gates.len(), 1 + extra, "one emitted gate per consumed id");
        assert_eq!(fanout.len(), 5 + extra, "the allocator advanced by 1 + extra in all");
        for g in &gates {
            assert!(
                g.gate_type == EmittedGateType::And || g.gate_type == EmittedGateType::Xor
            );
        }
        assert!(check_all(2, &gates));
    }
}

// A gate that reads a wire the allocator has not reached is rejected.
#[test]
fn test_use_before_alloc() {
    let steps = vec![issue(0), gate(GateType::And, 2, 9, 2)];
    let outputs: Vec<WireId> = vec![];
    let err = run_credits_pass(&steps, 1, &outputs).unwrap_err();
    assert_eq!(err, CircuitError::UseBeforeAlloc);

    let creds = credits_from_fanout(&vec![0; 16]);
    let err = run_translation_pass(&steps, creds).unwrap_err();
    assert_eq!(err, CircuitError::UseBeforeAlloc);
}

// A credit vector that does not cover the trace's ids means the passes
// disagree on wire count.
#[test]
fn test_allocation_mismatch() {
    let steps = vec![issue(0), issue(0), issue(0), gate(GateType::Or, 2, 3, 4)];
    // the trace reaches id 7, but only five slots are supplied
    let creds = credits_from_fanout(&vec![0; 5]);
    let err = run_translation_pass(&steps, creds).unwrap_err();
    assert_eq!(err, CircuitError::AllocationMismatch);
}

// An output wire listed beyond the allocator range is rejected by the
// credits pass.
#[test]
fn test_output_wire_out_of_range() {
    let steps = vec![issue(0)];
    let outputs = vec![WireId(50)];
    let err = run_credits_pass(&steps, 1, &outputs).unwrap_err();
    assert_eq!(err, CircuitError::UseBeforeAlloc);
}

// P6: zeroing the output wires leaves zeros there and is idempotent.
#[test]
fn test_output_wire_zeroing_idempotent() {
    let mut fanout = vec![3u16, 1, 4, 1, 5];
    let outputs = vec![WireId(1), WireId(4)];
    zero_output_wires(&mut fanout, &outputs).unwrap();
    assert_eq!(fanout, vec![3, 0, 4, 1, 0]);
    zero_output_wires(&mut fanout, &outputs).unwrap();
    assert_eq!(fanout, vec![3, 0, 4, 1, 0]);

    let err = zero_output_wires(&mut fanout, &vec![WireId(9)]).unwrap_err();
    assert_eq!(err, CircuitError::UseBeforeAlloc);
}

// The checker rejects a stream whose credit vector under-counted a
// consumer.
#[test]
fn test_checker_credit_exhausted() {
    let gates = vec![
        EmittedGate { in1: 2, in2: 3, out: 4, credits: 1, gate_type: EmittedGateType::And },
        EmittedGate { in1: 4, in2: 2, out: 5, credits: 1, gate_type: EmittedGateType::Xor },
        // wire 4 carried one credit but is read a second time
        EmittedGate { in1: 4, in2: 5, out: 6, credits: 0, gate_type: EmittedGateType::And },
    ];
    let mut checker = CircuitChecker::new(2);
    checker.step(&gates[0]).unwrap();
    checker.step(&gates[1]).unwrap();
    let err = checker.step(&gates[2]).unwrap_err();
    assert_eq!(err, CircuitError::CreditExhausted);
}

// The checker also rejects a wire that was never defined at all.
#[test]
fn test_checker_missing_wire() {
    let mut checker = CircuitChecker::new(0);
    let g = EmittedGate { in1: 7, in2: 0, out: 9, credits: 0, gate_type: EmittedGateType::And };
    assert_eq!(checker.step(&g).unwrap_err(), CircuitError::CreditExhausted);
}

// P7 on a larger mixed circuit: a freshly produced stream consumes the
// checker's whole dictionary.
#[test]
fn test_round_trip_mixed_circuit() {
    let mut steps = vec![issue(0), issue(0), issue(0), issue(0)];
    // primaries 2..6; build a few layers using every kind once
    steps.push(issue(0)); // id 6
    steps.push(gate(GateType::Nand, 2, 3, 6));
    steps.push(issue(0)); // id 8
    steps.push(gate(GateType::Nor, 4, 5, 8));
    steps.push(issue(0)); // id 12
    steps.push(gate(GateType::Imp, 6, 8, 12));
    steps.push(issue(0)); // id 16
    steps.push(gate(GateType::Cimp, 12, 2, 16));
    steps.push(issue(0)); // id 20
    steps.push(gate(GateType::Xnor, 16, 3, 20));
    steps.push(issue(0)); // id 22
    steps.push(gate(GateType::Nimp, 20, 4, 22));
    steps.push(issue(0)); // id 24
    steps.push(gate(GateType::Ncimp, 22, 5, 24));
    steps.push(issue(0)); // id 26
    steps.push(gate(GateType::Or, 24, 2, 26));
    steps.push(issue(0)); // id 29
    steps.push(gate(GateType::Xor, 26, 3, 29));
    steps.push(issue(0)); // id 30
    steps.push(gate(GateType::And, 29, 4, 30));
    steps.push(issue(0)); // id 31
    steps.push(gate(GateType::Not, 30, 0, 31));
    let outputs = vec![WireId(31)];
    let (_fanout, gates) = compile(&steps, 4, &outputs);
    assert!(check_all(4, &gates), "the checker consumes every dictionary entry");
}

// Declared wire births flow into the credit vector of the
// declaration-driven mode.
#[test]
fn test_add_credits_accumulates() {
    let mut mode = CreditCollectionMode::new(1);
    let a = mode.allocate_wire(0);
    assert_eq!(a.0, 2);
    let w = mode.allocate_wire(2);
    assert_eq!(w.0, 3);
    mode.add_credits(&[w, w], 5).unwrap();
    // primary-input and constant wires accumulate nothing
    mode.add_credits(&[WireId(0), WireId(1), WireId(2)], 7).unwrap();
    let (creds, peak) = mode.finish();
    assert_eq!(creds[3].to_u32(), 12);
    assert_eq!(creds[2].to_u32(), 0);
    assert_eq!(peak, 12);
}

// The declaration-driven credits pass accepts a gadget that declares
// its consumers exactly, and the checker then accepts the stream; a
// gadget that under-declares is caught by the checker.
#[test]
fn test_declared_credits_round_trip() {
    // OR a b -> c, then AND c a -> d: c is consumed once, so it is
    // born with one credit
    let steps = vec![
        issue(0),
        issue(0),
        issue(1),
        gate(GateType::Or, 2, 3, 4),
        issue(0),
        gate(GateType::And, 4, 2, 7),
    ];
    let outputs = vec![WireId(7)];
    let (creds, _peak) = run_declared_credits_pass(&steps, 2, &outputs).unwrap();
    let gates = run_translation_pass(&steps, creds).unwrap();
    assert!(check_all(2, &gates));

    // the same circuit with c born claiming no consumers: translation
    // still runs, but the checker finds the missing credit
    let bad_steps = vec![
        issue(0),
        issue(0),
        issue(0),
        gate(GateType::Or, 2, 3, 4),
        issue(0),
        gate(GateType::And, 4, 2, 7),
    ];
    let (bad_creds, _peak) = run_declared_credits_pass(&bad_steps, 2, &outputs).unwrap();
    let bad_gates = run_translation_pass(&bad_steps, bad_creds).unwrap();
    let mut checker = CircuitChecker::new(2);
    let mut failed = false;
    for g in &bad_gates {
        if checker.step(g).is_err() {
            failed = true;
            break;
        }
    }
    assert!(failed, "an under-declared wire runs out of credits");
}

// An add_credits declaration raises a wire's credits after birth.
#[test]
fn test_declared_credits_with_add_credits() {
    let steps = vec![
        issue(0),
        issue(0),
        issue(0),
        SourceStep::AddCredits { wires: vec![WireId(4)], amount: 1 },
        gate(GateType::Xor, 2, 3, 4),
        issue(0),
        gate(GateType::And, 4, 2, 5),
    ];
    let outputs = vec![WireId(5)];
    let (creds, _peak) = run_declared_credits_pass(&steps, 2, &outputs).unwrap();
    assert_eq!(creds[4].to_u32(), 1);
    let gates = run_translation_pass(&steps, creds).unwrap();
    assert!(check_all(2, &gates));
}

// Diverging output-wire vectors between passes are fatal.
#[test]
fn test_verify_output_wires() {
    let a = vec![WireId(4), WireId(7)];
    let b = vec![WireId(4), WireId(7)];
    assert!(verify_output_wires(&a, &b).is_ok());
    let c = vec![WireId(4), WireId(8)];
    assert_eq!(verify_output_wires(&a, &c).unwrap_err(), CircuitError::AllocationMismatch);
    let d = vec![WireId(4)];
    assert_eq!(verify_output_wires(&a, &d).unwrap_err(), CircuitError::AllocationMismatch);
}

// The combined batch compilation: both passes over one trace.
#[test]
fn test_compile_trace() {
    let steps = vec![issue(0), issue(0), issue(0), gate(GateType::Nand, 2, 3, 4)];
    let outputs = vec![WireId(4)];
    let (fanout, gates) = compile_trace(&steps, 2, &outputs).unwrap();
    assert_eq!(fanout.len(), 6);
    assert_eq!(gates.len(), 2);
    assert_eq!(gates[0].out, 5);
    assert_eq!(gates[1].out, 4);
    assert!(check_all(2, &gates));
}

// The declaration-driven pass births each expansion temporary with
// its in-expansion read count: the first IMP temporary carries two
// credits, and the resulting stream satisfies the checker.
#[test]
fn test_declared_credits_imp_temps() {
    let steps = vec![
        issue(0),
        issue(0),
        issue(1),
        gate(GateType::Imp, 2, 3, 4),
        issue(0),
        gate(GateType::And, 4, 2, 8),
    ];
    let outputs = vec![WireId(8)];
    let (creds, peak) = run_declared_credits_pass(&steps, 2, &outputs).unwrap();
    // IMP consumes ids 5, 6, 7; t1 is read by the second and third
    // gates of the expansion
    assert_eq!(creds[5].to_u32(), 2);
    assert_eq!(creds[6].to_u32(), 1);
    assert_eq!(creds[7].to_u32(), 1);
    assert_eq!(creds[4].to_u32(), 1);
    assert!(peak >= 2);
    let gates = run_translation_pass(&steps, creds).unwrap();
    assert!(check_all(2, &gates));
}

// The fan-out counter's peak statistic reports the largest count it
// ever reached.
#[test]
fn test_fanout_peak_statistic() {
    let steps = vec![
        issue(0),
        issue(0),
        issue(0),
        gate(GateType::Imp, 2, 3, 4),
        issue(0),
        gate(GateType::And, 4, 2, 8),
        issue(0),
        gate(GateType::And, 4, 3, 9),
        issue(0),
        gate(GateType::And, 4, 2, 10),
    ];
    let mut mode = FanoutCounter::new(2);
    let mut next = 2usize;
    for step in &steps {
        match step {
            SourceStep::Allocate { birth } => {
                let _ = mode.allocate_wire(*birth);
                next += 1;
            }
            SourceStep::AddCredits { .. } => {}
            SourceStep::Gate { gate } => {
                mode.evaluate_gate(gate).unwrap();
                next += g16core::gate::extra_wires(gate.gate_type);
            }
        }
    }
    let (fanout, peak) = mode.finish();
    // wire 4 is read three times downstream; no count exceeds the peak
    assert_eq!(fanout[4], 3);
    assert_eq!(peak, 3);
    for count in &fanout {
        assert!((*count as usize) <= peak);
    }
}
