use g16core::context::CircuitContext;
use g16core::g2::{G2Projective, FQ2_N_BITS, G2_N_BITS};
use g16core::gate::WireId;
use g16core::modes::credit::CreditCollectionMode;
use g16core::modes::fanout::FanoutCounter;
use g16core::modes::translate::TranslationMode;
use g16core::u24::U24;

#[test]
fn test_g2_from_ctx_issues_contiguous_wires() {
    let mut mode = FanoutCounter::new(0);
    let p = G2Projective::from_ctx(&mut mode);
    let wires = p.to_wires_vec();
    assert_eq!(wires.len(), G2_N_BITS);
    for (i, w) in wires.iter().enumerate() {
        assert_eq!(w.0, 2 + i);
    }
    // a second point continues where the first stopped
    let q = G2Projective::new(&mut mode);
    assert_eq!(q.to_wires_vec()[0].0, 2 + G2_N_BITS);
}

#[test]
fn test_g2_from_wires_round_trip() {
    let mut mode = FanoutCounter::new(0);
    let p = G2Projective::from_ctx(&mut mode);
    let wires = p.to_wires_vec();
    let q = G2Projective::from_wires(&wires).unwrap();
    assert_eq!(q.to_wires_vec(), wires);
    assert_eq!(q.x.c0[0], WireId(2));
    assert!(G2Projective::from_wires(&wires[1..]).is_none());
}

#[test]
fn test_g2_to_bitvec() {
    let mut mode = FanoutCounter::new(0);
    let p = G2Projective::from_ctx(&mut mode);
    let bits = p.to_bitvec(|w: WireId| w.0 % 3 == 0);
    assert_eq!(bits.len(), G2_N_BITS);
    for (i, b) in bits.iter().enumerate() {
        assert_eq!(*b, (2 + i) % 3 == 0);
    }
}

#[test]
fn test_g2_to_bitmask_layout() {
    let mut mode = FanoutCounter::new(0);
    let p = G2Projective::from_ctx(&mut mode);
    let mask = p.to_bitmask(|w: WireId| w.0 % 2 == 0);
    let mut expected = String::new();
    expected.push_str("x: ");
    for i in 0..FQ2_N_BITS {
        expected.push(if (2 + i) % 2 == 0 { '1' } else { '0' });
    }
    expected.push_str(", y: ");
    for i in FQ2_N_BITS..2 * FQ2_N_BITS {
        expected.push(if (2 + i) % 2 == 0 { '1' } else { '0' });
    }
    expected.push_str(", z: ");
    for i in 2 * FQ2_N_BITS..3 * FQ2_N_BITS {
        expected.push(if (2 + i) % 2 == 0 { '1' } else { '0' });
    }
    assert_eq!(mask, expected);
}

// The same gadget source runs under any mode: the allocators stay in
// lock step across credit collection, fan-out counting and
// translation.
#[test]
fn test_mode_polymorphism() {
    let mut fanout_mode = FanoutCounter::new(0);
    let mut credit_mode = CreditCollectionMode::new(0);
    let mut translate_mode = TranslationMode::new(vec![U24::from_u32(0); 4000]);

    let a = G2Projective::from_ctx(&mut fanout_mode);
    let b = G2Projective::from_ctx(&mut credit_mode);
    let c = G2Projective::from_ctx(&mut translate_mode);
    assert_eq!(a.to_wires_vec(), b.to_wires_vec());
    assert_eq!(b.to_wires_vec(), c.to_wires_vec());

    let w1 = fanout_mode.issue_wire();
    let w2 = credit_mode.issue_wire();
    let w3 = translate_mode.issue_wire();
    assert_eq!(w1, w2);
    assert_eq!(w2, w3);
    assert_eq!(w1.0, 2 + G2_N_BITS);

    assert!(fanout_mode.false_value() == false && fanout_mode.true_value() == true);
    assert_eq!(credit_mode.lookup_wire(w2), Some(false));
}
