//! Independent verifier of the credit discipline.
//!
//! The checker reads an emitted stream in order and maintains a
//! dictionary from live wire ids to their remaining credits.  Reading a
//! wire that is neither constant, primary, nor live is fatal: it means
//! the credit vector under-counted some consumer.  A gate whose output
//! carries zero credits never enters the dictionary — it has no
//! consumers left — so a finished stream is accepted exactly when the
//! dictionary has been consumed down to nothing.

use std::collections::HashMap;

use vstd::prelude::*;

use crate::error::CircuitError;
use crate::gate::EmittedGate;

verus! {

broadcast use vstd::std_specs::hash::group_hash_axioms;

/// One wire read against the live dictionary: constant and primary
/// wires (ids below `avail`) are always available; a live wire loses
/// one credit and leaves the dictionary at zero; anything else is
/// missing.
pub open spec fn consume_spec(m: Map<u64, u32>, w: u64, avail: u64) -> Option<Map<u64, u32>> {
    if w < avail {
        Some(m)
    } else if m.dom().contains(w) {
        if m[w] == 1 {
            Some(m.remove(w))
        } else {
            Some(m.insert(w, (m[w] - 1) as u32))
        }
    } else {
        None
    }
}

/// One emitted gate against the live dictionary: both inputs are
/// consumed in order, then the output goes live with the credits the
/// gate carries; an output with zero credits has no consumers left and
/// never becomes live.
pub open spec fn check_gate_spec(m: Map<u64, u32>, g: EmittedGate, avail: u64) -> Option<
    Map<u64, u32>,
> {
    match consume_spec(m, g.in1, avail) {
        Some(m1) => match consume_spec(m1, g.in2, avail) {
            Some(m2) => Some(
                if g.credits > 0 {
                    m2.insert(g.out, g.credits)
                } else {
                    m2
                },
            ),
            None => None,
        },
        None => None,
    }
}

/// A whole stream against the live dictionary, in stream order.
pub open spec fn check_stream_spec(m: Map<u64, u32>, s: Seq<EmittedGate>, avail: u64) -> Option<
    Map<u64, u32>,
>
    decreases s.len(),
{
    if s.len() == 0 {
        Some(m)
    } else {
        match check_gate_spec(m, s[0], avail) {
            Some(m2) => check_stream_spec(m2, s.drop_first(), avail),
            None => None,
        }
    }
}

pub struct CircuitChecker {
    live: HashMap<u64, u32>,
    always_available: u64,
}

impl CircuitChecker {
    /// The live dictionary: wire id to remaining credits.
    pub closed spec fn live_map(&self) -> Map<u64, u32> {
        self.live@
    }

    /// Ids below this bound are constants or primary inputs,
    /// unconditionally available.
    pub closed spec fn avail(&self) -> u64 {
        self.always_available
    }

    pub closed spec fn wf(&self) -> bool {
        forall|w: u64| self.live@.dom().contains(w) ==> #[trigger] self.live@[w] >= 1
    }

    /// A fresh checker for a stream over `primary_inputs` primary
    /// wires; ids below `primary_inputs + 2` are always available, as
    /// the two constants sit below the primary inputs.
    pub fn new(primary_inputs: u64) -> (r: Self)
        requires
            primary_inputs + 2 <= u64::MAX,
        ensures
            r.wf(),
            r.live_map() == Map::<u64, u32>::empty(),
            r.avail() == primary_inputs + 2,
    {
        Self { live: HashMap::new(), always_available: primary_inputs + 2 }
    }

    /// Consume one read of wire `w`.
    fn consume(&mut self, w: u64) -> (r: Result<(), CircuitError>)
        requires
            old(self).wf(),
        ensures
            final(self).wf(),
            final(self).avail() == old(self).avail(),
            r is Ok <==> consume_spec(old(self).live_map(), w, old(self).avail()) is Some,
            r is Ok ==> Some(final(self).live_map()) == consume_spec(
                old(self).live_map(),
                w,
                old(self).avail(),
            ),
            r is Err ==> r == Err::<(), CircuitError>(CircuitError::CreditExhausted)
                && final(self).live_map() == old(self).live_map(),
    {
        if w < self.always_available {
            return Ok(());
        }
        let credits = match self.live.get(&w) {
            Some(c) => *c,
            None => {
                return Err(CircuitError::CreditExhausted);
            },
        };
        if credits == 1 {
            self.live.remove(&w);
        } else {
            self.live.insert(w, credits - 1);
        }
        Ok(())
    }

    /// Check one emitted gate in stream order.
    pub fn step(&mut self, gate: &EmittedGate) -> (r: Result<(), CircuitError>)
        requires
            old(self).wf(),
        ensures
            final(self).wf(),
            final(self).avail() == old(self).avail(),
            r is Ok <==> check_gate_spec(old(self).live_map(), *gate, old(self).avail()) is Some,
            r is Ok ==> Some(final(self).live_map()) == check_gate_spec(
                old(self).live_map(),
                *gate,
                old(self).avail(),
            ),
            r is Err ==> r == Err::<(), CircuitError>(CircuitError::CreditExhausted),
    {
        match self.consume(gate.in1) {
            Ok(_) => {},
            Err(e) => {
                return Err(e);
            },
        }
        match self.consume(gate.in2) {
            Ok(_) => {},
            Err(e) => {
                return Err(e);
            },
        }
        if gate.credits > 0 {
            self.live.insert(gate.out, gate.credits);
        }
        Ok(())
    }

    /// Whether the stream consumed every live wire down to nothing.
    pub fn accepted(&self) -> (b: bool)
        ensures
            b <==> self.live_map() == Map::<u64, u32>::empty(),
    {
        let b = self.live.is_empty();
        proof {
            if self.live@.dom() =~= Set::<u64>::empty() {
                assert(self.live@ =~= Map::<u64, u32>::empty());
            }
        }
        b
    }
}

} // verus!
