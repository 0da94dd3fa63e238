use g16core::error::CircuitError;
use g16core::gate::{Gate, GateType, WireId};
use g16core::modes::credit::CreditCollectionMode;
use g16core::modes::fanout::FanoutCounter;

// S5: a wire whose credits are raised one by one overflows 24 bits on
// exactly the 2^24-th addition.
#[test]
fn test_credit_overflow_trap() {
    let mut mode = CreditCollectionMode::new(0);
    let w = mode.allocate_wire(0);
    let wires = [w];
    for _ in 0..(1u32 << 24) - 1 {
        mode.add_credits(&wires, 1).unwrap();
    }
    let err = mode.add_credits(&wires, 1).unwrap_err();
    assert_eq!(err, CircuitError::CreditOverflow);
}

// The fan-out counter traps in the same way when a single wire is read
// more often than its counter can hold.
#[test]
fn test_fanout_overflow_trap() {
    let mut mode = FanoutCounter::new(0);
    let w = mode.allocate_wire(0);
    let out = mode.allocate_wire(0);
    let g = Gate { wire_a: w, wire_b: w, wire_c: out, gate_type: GateType::And };
    // each And reads the wire twice
    for _ in 0..(1u32 << 15) - 1 {
        mode.evaluate_gate(&g).unwrap();
    }
    // 2 * (2^15 - 1) = 2^16 - 2 reads so far; the next And would pass
    // 2^16 - 1 and overflow the 16-bit counter on its second read
    let err = mode.evaluate_gate(&g).unwrap_err();
    assert_eq!(err, CircuitError::CreditOverflow);
}
