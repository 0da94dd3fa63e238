//! The mode abstraction gadgets are written against.
//!
//! A gadget is polymorphic over this capability set: it issues wires,
//! submits source gates and declares credits, and the same gadget
//! source runs under any mode.  Each mode says through `gate_ok` which
//! gates it is prepared to take, and every mode advances one normalized
//! allocator in the same lock-step fashion.

use vstd::prelude::*;

use crate::error::CircuitError;
use crate::gate::{extra_of, EmittedGate, Gate, WireId};
use crate::modes::credit::CreditCollectionMode;
use crate::modes::fanout::FanoutCounter;
use crate::modes::translate::TranslationMode;

verus! {

pub trait CircuitContext: Sized {
    /// Position of the mode's normalized allocator.
    spec fn ctx_next_id(&self) -> int;

    /// The mode's own well-formedness.
    spec fn ctx_wf(&self) -> bool;

    /// Which source gates the mode is prepared to take.
    spec fn gate_ok(&self, gate: Gate) -> bool;

    /// The gates the mode has emitted so far; empty for every mode
    /// that does not emit.
    spec fn ctx_emitted(&self) -> Seq<EmittedGate>;

    /// A fresh wire, unique within the pass; no gate is emitted.
    fn issue_wire(&mut self) -> (w: WireId)
        requires
            old(self).ctx_wf(),
            old(self).ctx_next_id() < usize::MAX,
        ensures
            final(self).ctx_wf(),
            w.0 == old(self).ctx_next_id(),
            final(self).ctx_next_id() == old(self).ctx_next_id() + 1,
            final(self).ctx_emitted() == old(self).ctx_emitted(),
    ;

    /// A fresh wire, born with a declared consumer count; no gate is
    /// emitted.
    fn allocate_wire(&mut self, birth: u16) -> (w: WireId)
        requires
            old(self).ctx_wf(),
            old(self).ctx_next_id() < usize::MAX,
        ensures
            final(self).ctx_wf(),
            w.0 == old(self).ctx_next_id(),
            final(self).ctx_next_id() == old(self).ctx_next_id() + 1,
            final(self).ctx_emitted() == old(self).ctx_emitted(),
    ;

    /// Submit one source gate; the allocator advances by that gate's
    /// extra-wire count whatever else the mode does with it.
    fn add_gate(&mut self, gate: &Gate) -> (r: Result<(), CircuitError>)
        requires
            old(self).ctx_wf(),
            old(self).gate_ok(*gate),
        ensures
            final(self).ctx_wf(),
            final(self).ctx_next_id() == old(self).ctx_next_id() + extra_of(gate.gate_type),
    ;

    /// Declare that each listed wire will be consumed `amount` more
    /// times; no gate is emitted.
    fn add_credits(&mut self, wires: &[WireId], amount: u16) -> (r: Result<(), CircuitError>)
        requires
            old(self).ctx_wf(),
            amount >= 1,
            forall|k: int|
                0 <= k < wires@.len() ==> (#[trigger] wires@[k]).0 < old(self).ctx_next_id(),
        ensures
            final(self).ctx_wf(),
            final(self).ctx_next_id() == old(self).ctx_next_id(),
            final(self).ctx_emitted() == old(self).ctx_emitted(),
    ;

    /// Supply a wire value; meaningful only under an executing mode,
    /// and no gate is emitted.
    fn feed_wire(&mut self, wire: WireId, bit: bool)
        requires
            old(self).ctx_wf(),
        ensures
            final(self).ctx_wf(),
            final(self).ctx_next_id() == old(self).ctx_next_id(),
            final(self).ctx_emitted() == old(self).ctx_emitted(),
    ;

    /// Read a wire value back; meaningful only under an executing mode.
    fn lookup_wire(&self, wire: WireId) -> (r: Option<bool>)
        requires
            self.ctx_wf(),
    ;

    /// The mode's representation of the constant false.
    fn false_value(&self) -> (v: bool)
        ensures
            v == false,
    ;

    /// The mode's representation of the constant true.
    fn true_value(&self) -> (v: bool)
        ensures
            v == true,
    ;
}

impl CircuitContext for FanoutCounter {
    open spec fn ctx_next_id(&self) -> int {
        self.next_id()
    }

    open spec fn ctx_wf(&self) -> bool {
        self.wf()
    }

    open spec fn ctx_emitted(&self) -> Seq<EmittedGate> {
        Seq::empty()
    }

    open spec fn gate_ok(&self, gate: Gate) -> bool {
        &&& gate.wire_a.0 < self.next_id()
        &&& !(gate.gate_type is Not) ==> gate.wire_b.0 < self.next_id()
        &&& self.next_id() + extra_of(gate.gate_type) <= usize::MAX
    }

    fn issue_wire(&mut self) -> (w: WireId) {
        self.allocate_wire(0)
    }

    fn allocate_wire(&mut self, birth: u16) -> (w: WireId) {
        FanoutCounter::allocate_wire(self, birth)
    }

    fn add_gate(&mut self, gate: &Gate) -> (r: Result<(), CircuitError>) {
        self.evaluate_gate(gate)
    }

    fn add_credits(&mut self, _wires: &[WireId], _amount: u16) -> (r: Result<(), CircuitError>) {
        Ok(())
    }

    fn feed_wire(&mut self, _wire: WireId, _bit: bool) {
    }

    fn lookup_wire(&self, _wire: WireId) -> (r: Option<bool>) {
        Some(false)
    }

    fn false_value(&self) -> (v: bool) {
        false
    }

    fn true_value(&self) -> (v: bool) {
        true
    }
}

impl CircuitContext for CreditCollectionMode {
    open spec fn ctx_next_id(&self) -> int {
        self.next_id()
    }

    open spec fn ctx_wf(&self) -> bool {
        self.wf()
    }

    open spec fn ctx_emitted(&self) -> Seq<EmittedGate> {
        Seq::empty()
    }

    open spec fn gate_ok(&self, gate: Gate) -> bool {
        self.next_id() + extra_of(gate.gate_type) <= usize::MAX
    }

    fn issue_wire(&mut self) -> (w: WireId) {
        self.allocate_wire(0)
    }

    fn allocate_wire(&mut self, birth: u16) -> (w: WireId) {
        CreditCollectionMode::allocate_wire(self, birth)
    }

    fn add_gate(&mut self, gate: &Gate) -> (r: Result<(), CircuitError>) {
        self.evaluate_gate(gate);
        Ok(())
    }

    fn add_credits(&mut self, wires: &[WireId], amount: u16) -> (r: Result<(), CircuitError>) {
        CreditCollectionMode::add_credits(self, wires, amount)
    }

    fn feed_wire(&mut self, _wire: WireId, _bit: bool) {
    }

    fn lookup_wire(&self, _wire: WireId) -> (r: Option<bool>) {
        Some(false)
    }

    fn false_value(&self) -> (v: bool) {
        false
    }

    fn true_value(&self) -> (v: bool) {
        true
    }
}

impl CircuitContext for TranslationMode {
    open spec fn ctx_next_id(&self) -> int {
        self.next_id()
    }

    open spec fn ctx_wf(&self) -> bool {
        self.wf()
    }

    open spec fn ctx_emitted(&self) -> Seq<EmittedGate> {
        self.history()
    }

    open spec fn gate_ok(&self, gate: Gate) -> bool {
        &&& gate.wire_c.0 < self.next_id()
        &&& self.next_id() + extra_of(gate.gate_type) <= self.creds().len()
        &&& self.creds().len() <= usize::MAX
    }

    fn issue_wire(&mut self) -> (w: WireId) {
        self.allocate_wire(0)
    }

    fn allocate_wire(&mut self, birth: u16) -> (w: WireId) {
        TranslationMode::allocate_wire(self, birth)
    }

    fn add_gate(&mut self, gate: &Gate) -> (r: Result<(), CircuitError>) {
        self.evaluate_gate(gate);
        Ok(())
    }

    fn add_credits(&mut self, _wires: &[WireId], _amount: u16) -> (r: Result<(), CircuitError>) {
        Ok(())
    }

    fn feed_wire(&mut self, _wire: WireId, _bit: bool) {
    }

    fn lookup_wire(&self, _wire: WireId) -> (r: Option<bool>) {
        Some(false)
    }

    fn false_value(&self) -> (v: bool) {
        false
    }

    fn true_value(&self) -> (v: bool) {
        true
    }
}

} // verus!
