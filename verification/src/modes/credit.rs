//! Credit collection from gadget declarations.
//!
//! This mode trusts the gadgets: every wire is born with a declared
//! consumer count, and `add_credits` raises the count of wires that a
//! gadget learns will be consumed again.  The vector is kept in 24-bit
//! entries; an addition that would leave 24 bits is a fatal credit
//! overflow.

use vstd::prelude::*;

use crate::error::CircuitError;
use crate::gate::{extra_of, max_temp_birth, temp_births, Gate, GateType, WireId};
use crate::u24::{U24, U24_MAX};

verus! {

/// The numeric values of a credit vector.
pub open spec fn credit_values(s: Seq<U24>) -> Seq<int> {
    s.map(|_i: int, x: U24| x.value() as int)
}

/// The effect of declaring `amount` further consumers of wire `w`:
/// primary-input and constant wires accumulate nothing, every other
/// wire's value rises, and a value beyond 24 bits is an overflow.
pub open spec fn credit_step(vals: Seq<int>, w: int, amount: int, pi: int) -> Option<Seq<int>> {
    if w < pi + 2 {
        Some(vals)
    } else if vals[w] + amount <= U24_MAX {
        Some(vals.update(w, vals[w] + amount))
    } else {
        None
    }
}

/// The effect of one `add_credits` call over a whole wire list, applied
/// left to right; `None` as soon as any wire overflows.
pub open spec fn apply_credits(
    vals: Seq<int>,
    wires: Seq<WireId>,
    amount: int,
    pi: int,
) -> Option<Seq<int>>
    decreases wires.len(),
{
    if wires.len() == 0 {
        Some(vals)
    } else {
        match credit_step(vals, wires[0].0 as int, amount, pi) {
            Some(v2) => apply_credits(v2, wires.drop_first(), amount, pi),
            None => None,
        }
    }
}

pub struct CreditCollectionMode {
    credits: Vec<U24>,
    next_normalized_id: usize,
    primary_inputs: usize,
    biggest_credits_seen: usize,
}

impl CreditCollectionMode {
    /// The credit vector gathered so far, indexed by normalized id.
    pub closed spec fn creds(&self) -> Seq<U24> {
        self.credits@
    }

    /// Position of the normalized allocator.
    pub closed spec fn next_id(&self) -> int {
        self.next_normalized_id as int
    }

    /// Number of primary-input wires.
    pub closed spec fn primaries(&self) -> int {
        self.primary_inputs as int
    }

    /// Largest credit value seen; telemetry only.
    pub closed spec fn peak(&self) -> int {
        self.biggest_credits_seen as int
    }

    pub closed spec fn wf(&self) -> bool {
        &&& self.credits@.len() == self.next_normalized_id
        &&& self.primary_inputs + 2 <= usize::MAX
        &&& self.next_normalized_id >= 2
        &&& forall|i: int|
            0 <= i < self.credits@.len() ==> (#[trigger] self.credits@[i]).value() as int
                <= self.biggest_credits_seen
    }

    /// A fresh mode with the two constant wires reserved.
    pub fn new(primary_inputs: usize) -> (r: Self)
        requires
            primary_inputs + 2 <= usize::MAX,
        ensures
            r.wf(),
            r.next_id() == 2,
            r.primaries() == primary_inputs,
            r.peak() == 0,
            credit_values(r.creds()) =~= seq![0int, 0int],
    {
        let mut credits: Vec<U24> = Vec::new();
        credits.push(U24::from_u32(0));
        credits.push(U24::from_u32(0));
        Self { credits, next_normalized_id: 2, primary_inputs, biggest_credits_seen: 0 }
    }

    /// Hand out the next normalized id, born with `birth` declared
    /// consumers.
    pub fn allocate_wire(&mut self, birth: u16) -> (w: WireId)
        requires
            old(self).wf(),
            old(self).next_id() < usize::MAX,
        ensures
            final(self).wf(),
            w.0 == old(self).next_id(),
            final(self).next_id() == old(self).next_id() + 1,
            credit_values(final(self).creds()) =~= credit_values(old(self).creds()).push(
                birth as int,
            ),
            final(self).primaries() == old(self).primaries(),
            final(self).peak() == (if birth as int > old(self).peak() {
                birth as int
            } else {
                old(self).peak()
            }),
    {
        let id = self.next_normalized_id;
        if (birth as usize) > self.biggest_credits_seen {
            self.biggest_credits_seen = birth as usize;
        }
        self.credits.push(U24::from_u32(birth as u32));
        self.next_normalized_id = self.next_normalized_id + 1;
        WireId(id)
    }

    /// Declare that each wire of `wires` will be consumed `amount`
    /// additional times.  Fails with `CreditOverflow` exactly when some
    /// cumulative count would leave 24 bits; the vector's state after a
    /// failure is unspecified, as every error is fatal.
    #[verifier::rlimit(60)]
    pub fn add_credits(&mut self, wires: &[WireId], amount: u16) -> (r: Result<(), CircuitError>)
        requires
            old(self).wf(),
            amount >= 1,
            forall|i: int| 0 <= i < wires@.len() ==> (#[trigger] wires@[i]).0 < old(self).next_id(),
        ensures
            final(self).wf(),
            final(self).next_id() == old(self).next_id(),
            final(self).creds().len() == old(self).creds().len(),
            final(self).primaries() == old(self).primaries(),
            final(self).peak() >= old(self).peak(),
            r is Ok <==> apply_credits(
                credit_values(old(self).creds()),
                wires@,
                amount as int,
                old(self).primaries(),
            ) is Some,
            r is Ok ==> apply_credits(
                credit_values(old(self).creds()),
                wires@,
                amount as int,
                old(self).primaries(),
            ) == Some(credit_values(final(self).creds())),
            r is Err ==> r == Err::<(), CircuitError>(CircuitError::CreditOverflow),
    {
        let ghost pi = self.primary_inputs as int;
        let ghost total = apply_credits(
            credit_values(self.credits@),
            wires@,
            amount as int,
            pi,
        );
        proof {
            assert(wires@.skip(0) =~= wires@);
        }
        let mut j: usize = 0;
        while j < wires.len()
            invariant
                j <= wires@.len(),
                self.wf(),
                old(self).wf(),
                forall|i: int| 0 <= i < wires@.len() ==> (#[trigger] wires@[i]).0
                    < self.next_normalized_id,
                amount >= 1,
                pi == self.primary_inputs as int,
                pi == old(self).primaries(),
                self.next_normalized_id == old(self).next_id(),
                self.biggest_credits_seen >= old(self).peak(),
                total == apply_credits(
                    credit_values(self.credits@),
                    wires@.skip(j as int),
                    amount as int,
                    pi,
                ),
                total == apply_credits(
                    credit_values(old(self).creds()),
                    wires@,
                    amount as int,
                    old(self).primaries(),
                ),
            decreases wires@.len() - j,
        {
            let w = wires[j].0;
            let ghost vals_before = credit_values(self.credits@);
            proof {
                assert(wires@.skip(j as int)[0] == wires@[j as int]);
                assert(wires@.skip(j as int).drop_first() =~= wires@.skip(j as int + 1));
            }
            if w >= self.primary_inputs + 2 {
                let cur = self.credits[w];
                match cur.checked_add(U24::from_u32(amount as u32)) {
                    Some(new_credits) => {
                        self.credits.set(w, new_credits);
                        if (new_credits.to_u32() as usize) > self.biggest_credits_seen {
                            self.biggest_credits_seen = new_credits.to_u32() as usize;
                        }
                        proof {
                            assert(credit_values(self.credits@) =~= vals_before.update(
                                w as int,
                                cur.value() + amount,
                            ));
                        }
                    },
                    None => {
                        return Err(CircuitError::CreditOverflow);
                    },
                }
            }
            j = j + 1;
        }
        proof {
            assert(wires@.skip(wires@.len() as int) =~= Seq::<WireId>::empty());
        }
        Ok(())
    }

    /// Mirror the lowering of one source gate: each extra internal wire
    /// of the expansion is born with its read count inside the
    /// expansion, per [`temp_births`] — one credit for every extra
    /// wire but the first of `Imp`/`Cimp`, which the expansion reads
    /// twice.
    pub fn evaluate_gate(&mut self, gate: &Gate) -> (r: ())
        requires
            old(self).wf(),
            old(self).next_id() + extra_of(gate.gate_type) <= usize::MAX,
        ensures
            final(self).wf(),
            final(self).next_id() == old(self).next_id() + extra_of(gate.gate_type),
            final(self).primaries() == old(self).primaries(),
            credit_values(final(self).creds()) =~= credit_values(old(self).creds()) + temp_births(
                gate.gate_type,
            ),
            final(self).peak() == (if max_temp_birth(gate.gate_type) > old(self).peak() {
                max_temp_birth(gate.gate_type)
            } else {
                old(self).peak()
            }),
    {
        let ghost c0 = credit_values(self.credits@);
        match gate.gate_type {
            GateType::And | GateType::Xor | GateType::Not => {},
            GateType::Nand | GateType::Xnor | GateType::Nimp | GateType::Ncimp => {
                let _ = self.allocate_wire(1);
                proof {
                    assert(credit_values(self.credits@) =~= c0 + temp_births(gate.gate_type));
                }
            },
            GateType::Or => {
                let _ = self.allocate_wire(1);
                let _ = self.allocate_wire(1);
                proof {
                    assert(credit_values(self.credits@) =~= c0 + temp_births(gate.gate_type));
                }
            },
            GateType::Nor => {
                let _ = self.allocate_wire(1);
                let _ = self.allocate_wire(1);
                let _ = self.allocate_wire(1);
                proof {
                    assert(credit_values(self.credits@) =~= c0 + temp_births(gate.gate_type));
                }
            },
            GateType::Imp | GateType::Cimp => {
                let _ = self.allocate_wire(2);
                let _ = self.allocate_wire(1);
                let _ = self.allocate_wire(1);
                proof {
                    assert(credit_values(self.credits@) =~= c0 + temp_births(gate.gate_type));
                }
            },
        }
        proof {
            assert(credit_values(self.credits@) =~= c0 + temp_births(gate.gate_type));
        }
    }

    /// Hand the finished credit vector out, with the peak statistic:
    /// no entry of the vector exceeds it.
    pub fn finish(self) -> (r: (Vec<U24>, usize))
        requires
            self.wf(),
        ensures
            r.0@ == self.creds(),
            r.1 == self.peak(),
            forall|i: int|
                0 <= i < r.0@.len() ==> (#[trigger] r.0@[i]).value() as int <= r.1,
    {
        (self.credits, self.biggest_credits_seen)
    }
}

} // verus!
