//! Translation to the emitted AND/XOR stream.
//!
//! This mode re-runs gadget construction with the finished credit
//! vector in hand.  Every source gate is rewritten by the fixed
//! lowering table into one to four emitted gates over normalized ids,
//! each carrying the credit value of its output wire.  Emitted gates
//! collect in a pending buffer; the caller drains the buffer towards
//! the writer whenever it pleases, so the gates held in memory stay
//! bounded while the full history remains visible to the proofs.

use vstd::prelude::*;

use crate::gate::{
    extra_of, extra_wires, lemma_lower_gate_len, lemma_lower_gate_shape, lower_gate, outs_below,
    outs_distinct, EmittedGate, EmittedGateType, Gate, GateType, WireId,
};
use crate::trace::attach_credits;
use crate::u24::U24;

verus! {

pub struct TranslationMode {
    creds: Vec<U24>,
    next_normalized_id: usize,
    pending: Vec<EmittedGate>,
    emitted: Ghost<Seq<EmittedGate>>,
    drained: Ghost<int>,
}

impl TranslationMode {
    /// The credit vector the emitted gates draw from.
    pub closed spec fn creds(&self) -> Seq<U24> {
        self.creds@
    }

    /// Position of the normalized allocator.
    pub closed spec fn next_id(&self) -> int {
        self.next_normalized_id as int
    }

    /// Every gate emitted since construction, in emission order.
    pub closed spec fn history(&self) -> Seq<EmittedGate> {
        self.emitted@
    }

    /// The emitted gates not yet handed to the caller.
    pub closed spec fn pending_gates(&self) -> Seq<EmittedGate> {
        self.pending@
    }

    /// How many emitted gates the caller has already drained.
    pub closed spec fn drained(&self) -> int {
        self.drained@
    }

    pub closed spec fn wf(&self) -> bool {
        &&& self.next_normalized_id >= 2
        &&& 0 <= self.drained@
        &&& self.emitted@ == self.emitted@.take(self.drained@) + self.pending@
        &&& self.drained@ + self.pending@.len() == self.emitted@.len()
    }

    /// A fresh translation mode over a finished credit vector, with the
    /// two constant wires reserved.
    pub fn new(creds: Vec<U24>) -> (r: Self)
        ensures
            r.wf(),
            r.creds() == creds@,
            r.next_id() == 2,
            r.history() == Seq::<EmittedGate>::empty(),
            r.drained() == 0,
    {
        let r = Self {
            creds,
            next_normalized_id: 2,
            pending: Vec::new(),
            emitted: Ghost(Seq::empty()),
            drained: Ghost(0),
        };
        proof {
            assert(r.emitted@ =~= r.emitted@.take(0) + r.pending@);
        }
        r
    }

    /// Hand out the next normalized id; credits were settled by the
    /// credit pass, so the declared birth count is of no interest here.
    pub fn allocate_wire(&mut self, _birth: u16) -> (w: WireId)
        requires
            old(self).wf(),
            old(self).next_id() < usize::MAX,
        ensures
            final(self).wf(),
            w.0 == old(self).next_id(),
            final(self).next_id() == old(self).next_id() + 1,
            final(self).creds() == old(self).creds(),
            final(self).history() == old(self).history(),
            final(self).pending_gates() == old(self).pending_gates(),
            final(self).drained() == old(self).drained(),
    {
        let id = self.next_normalized_id;
        self.next_normalized_id = self.next_normalized_id + 1;
        WireId(id)
    }

    /// Append one emitted gate, drawing its credit value from the
    /// output wire's slot of the credit vector.
    fn write_gate(
        &mut self,
        gate_type: EmittedGateType,
        in1: usize,
        in2: usize,
        out: usize,
    ) -> (r: ())
        requires
            old(self).wf(),
            out < old(self).creds().len(),
        ensures
            final(self).wf(),
            final(self).creds() == old(self).creds(),
            final(self).next_id() == old(self).next_id(),
            final(self).drained() == old(self).drained(),
            final(self).history() == old(self).history().push(
                EmittedGate {
                    in1: in1 as u64,
                    in2: in2 as u64,
                    out: out as u64,
                    credits: old(self).creds()[out as int].value(),
                    gate_type,
                },
            ),
    {
        let credits = self.creds[out].to_u32();
        let gate = EmittedGate { in1: in1 as u64, in2: in2 as u64, out: out as u64, credits, gate_type };
        self.pending.push(gate);
        proof {
            self.emitted@ = self.emitted@.push(gate);
            assert(self.emitted@ =~= self.emitted@.take(self.drained@) + self.pending@);
        }
    }

    /// Rewrite one source gate by the lowering table, emitting its one
    /// to four AND/XOR gates and consuming the extra internal ids.
    pub fn evaluate_gate(&mut self, gate: &Gate) -> (r: ())
        requires
            old(self).wf(),
            gate.wire_c.0 < old(self).next_id(),
            old(self).next_id() + extra_of(gate.gate_type) <= old(self).creds().len(),
            old(self).creds().len() <= usize::MAX,
        ensures
            final(self).wf(),
            final(self).creds() == old(self).creds(),
            final(self).drained() == old(self).drained(),
            final(self).next_id() == old(self).next_id() + extra_of(gate.gate_type),
            final(self).history() == old(self).history() + attach_credits(
                lower_gate(*gate, old(self).next_id()),
                old(self).creds(),
            ),
            outs_below(old(self).history(), old(self).next_id()) ==> outs_below(
                final(self).history(),
                final(self).next_id(),
            ),
            (outs_below(old(self).history(), old(self).next_id()) && outs_distinct(
                old(self).history(),
            ) && (forall|p: int|
                0 <= p < old(self).history().len() ==> (#[trigger] old(self).history()[p]).out
                    != gate.wire_c.0 as u64)) ==> outs_distinct(final(self).history()),
    {
        let ghost h0 = self.emitted@;
        let ghost n0 = self.next_normalized_id as int;
        let base = self.next_normalized_id;
        let extra = extra_wires(gate.gate_type);
        self.next_normalized_id = self.next_normalized_id + extra;

        let a = gate.wire_a.0;
        let b = gate.wire_b.0;
        let c = gate.wire_c.0;
        let one = 1usize;
        match gate.gate_type {
            GateType::And => {
                self.write_gate(EmittedGateType::And, a, b, c);
            },
            GateType::Xor => {
                self.write_gate(EmittedGateType::Xor, a, b, c);
            },
            GateType::Not => {
                self.write_gate(EmittedGateType::Xor, a, one, c);
            },
            GateType::Nand => {
                self.write_gate(EmittedGateType::And, a, b, base);
                self.write_gate(EmittedGateType::Xor, base, one, c);
            },
            GateType::Xnor => {
                self.write_gate(EmittedGateType::Xor, a, b, base);
                self.write_gate(EmittedGateType::Xor, base, one, c);
            },
            GateType::Or => {
                self.write_gate(EmittedGateType::And, a, b, base);
                self.write_gate(EmittedGateType::Xor, base, a, base + 1);
                self.write_gate(EmittedGateType::Xor, base + 1, b, c);
            },
            GateType::Nor => {
                self.write_gate(EmittedGateType::And, a, b, base);
                self.write_gate(EmittedGateType::Xor, base, a, base + 1);
                self.write_gate(EmittedGateType::Xor, base + 1, b, base + 2);
                self.write_gate(EmittedGateType::Xor, base + 2, one, c);
            },
            GateType::Nimp => {
                self.write_gate(EmittedGateType::Xor, b, one, base);
                self.write_gate(EmittedGateType::And, a, base, c);
            },
            GateType::Ncimp => {
                self.write_gate(EmittedGateType::Xor, a, one, base);
                self.write_gate(EmittedGateType::And, base, b, c);
            },
            GateType::Imp => {
                self.write_gate(EmittedGateType::Xor, a, one, base);
                self.write_gate(EmittedGateType::And, base, b, base + 1);
                self.write_gate(EmittedGateType::Xor, base + 1, base, base + 2);
                self.write_gate(EmittedGateType::Xor, base + 2, b, c);
            },
            GateType::Cimp => {
                self.write_gate(EmittedGateType::Xor, b, one, base);
                self.write_gate(EmittedGateType::And, base, a, base + 1);
                self.write_gate(EmittedGateType::Xor, base + 1, base, base + 2);
                self.write_gate(EmittedGateType::Xor, base + 2, a, c);
            },
        }
        proof {
            assert(self.emitted@ =~= h0 + attach_credits(lower_gate(*gate, n0), self.creds@));
            let extra = extra_of(gate.gate_type) as int;
            let lw = lower_gate(*gate, n0);
            let at = attach_credits(lw, self.creds@);
            let hn = self.emitted@;
            lemma_lower_gate_len(*gate, n0);
            lemma_lower_gate_shape(*gate, n0);
            assert forall|k: int| 0 <= k < at.len() implies (#[trigger] hn[h0.len() + k]).out == (
            if k < extra {
                (n0 + k) as u64
            } else {
                gate.wire_c.0 as u64
            }) by {
                assert(hn[h0.len() + k] == at[k]);
                assert(at[k].out == lw[k].out as u64);
            }
            if outs_below(h0, n0) {
                assert forall|p: int| 0 <= p < hn.len() implies (#[trigger] hn[p]).out < n0
                    + extra by {
                    if p < h0.len() {
                        assert(hn[p] == h0[p]);
                    }
                }
            }
            if outs_below(h0, n0) && outs_distinct(h0) && (forall|p: int|
                0 <= p < h0.len() ==> (#[trigger] h0[p]).out != gate.wire_c.0 as u64) {
                assert forall|p: int, q: int| 0 <= p < q < hn.len() implies (#[trigger] hn[p]).out
                    != (#[trigger] hn[q]).out by {
                    if q < h0.len() {
                        assert(hn[p] == h0[p] && hn[q] == h0[q]);
                    } else if p < h0.len() {
                        assert(hn[p] == h0[p]);
                        let k = q - h0.len();
                        if k < extra {
                            assert(h0[p].out < n0);
                            assert(hn[q].out == (n0 + k) as u64);
                        } else {
                            assert(hn[q].out == gate.wire_c.0 as u64);
                        }
                    } else {
                        let k1 = p - h0.len();
                        let k2 = q - h0.len();
                        if k2 < extra {
                            assert(hn[p].out == (n0 + k1) as u64);
                            assert(hn[q].out == (n0 + k2) as u64);
                        } else {
                            assert(hn[q].out == gate.wire_c.0 as u64);
                            assert(hn[p].out == (n0 + k1) as u64);
                            assert(gate.wire_c.0 < n0);
                        }
                    }
                }
            }
        }
    }

    /// How many emitted gates wait in the pending buffer.
    pub fn pending_len(&self) -> (r: usize)
        ensures
            r == self.pending_gates().len(),
    {
        self.pending.len()
    }

    /// Hand the caller every emitted gate not yet drained, in emission
    /// order, and clear the pending buffer.
    pub fn drain_pending(&mut self) -> (r: Vec<EmittedGate>)
        requires
            old(self).wf(),
        ensures
            final(self).wf(),
            r@ == old(self).pending_gates(),
            final(self).pending_gates() == Seq::<EmittedGate>::empty(),
            final(self).history() == old(self).history(),
            final(self).creds() == old(self).creds(),
            final(self).next_id() == old(self).next_id(),
            final(self).drained() == old(self).drained() + r@.len(),
    {
        let mut out: Vec<EmittedGate> = Vec::new();
        core::mem::swap(&mut out, &mut self.pending);
        proof {
            self.drained@ = self.drained@ + out@.len();
            assert(self.emitted@ =~= self.emitted@.take(self.drained@) + self.pending@);
        }
        out
    }

    /// End the translation: whatever is still pending comes out, in
    /// emission order.
    pub fn finish(self) -> (r: Vec<EmittedGate>)
        ensures
            r@ == self.pending_gates(),
            self.wf() && self.drained() == 0 ==> r@ == self.history(),
    {
        proof {
            if self.wf() && self.drained@ == 0 {
                assert(self.emitted@.take(0) =~= Seq::<EmittedGate>::empty());
                assert(Seq::<EmittedGate>::empty() + self.pending@ =~= self.pending@);
            }
        }
        self.pending
    }
}

} // verus!
