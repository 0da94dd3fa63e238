//! Credit collection by direct fan-out counting.
//!
//! This mode mirrors the translation pass without emitting gates: it
//! advances the same normalized allocator and counts, for every
//! non-primary wire, how many lowered gates will read it.  The count of
//! a wire is exactly the credit value the translation pass will attach
//! to whichever emitted gate defines it.

use vstd::prelude::*;

use crate::error::CircuitError;
use crate::gate::{
    extra_of, extra_wires, lemma_occ_prefix, lemma_occ_push, lemma_read_list_counts, lower_gate,
    occ_in, read_list, reads_in_stream, Gate, GateType, WireId,
};

verus! {

/// The count a wire has before a gate is processed: its entry in the
/// vector, or zero where the vector does not reach yet.
pub open spec fn base_count(s: Seq<u16>, w: int) -> int {
    if 0 <= w < s.len() {
        s[w] as int
    } else {
        0
    }
}

pub struct FanoutCounter {
    fanout: Vec<u16>,
    next_normalized_id: usize,
    primary_inputs: usize,
    biggest_fanout_seen: usize,
}

impl FanoutCounter {
    /// The per-wire fan-out counts gathered so far, indexed by
    /// normalized id.
    pub closed spec fn counts(&self) -> Seq<u16> {
        self.fanout@
    }

    /// Position of the normalized allocator.
    pub closed spec fn next_id(&self) -> int {
        self.next_normalized_id as int
    }

    /// Number of primary-input wires; ids below `primaries() + 2` are
    /// exempt from counting.
    pub closed spec fn primaries(&self) -> int {
        self.primary_inputs as int
    }

    /// The largest count ever reached; telemetry handed out by
    /// `finish`.
    pub closed spec fn peak(&self) -> int {
        self.biggest_fanout_seen as int
    }

    pub closed spec fn wf(&self) -> bool {
        &&& self.fanout@.len() == self.next_normalized_id
        &&& self.primary_inputs + 2 <= usize::MAX
        &&& self.next_normalized_id >= 2
        &&& forall|w: int|
            0 <= w < self.fanout@.len() ==> #[trigger] self.fanout@[w] as int
                <= self.biggest_fanout_seen
    }

    /// A fresh counter with the two constant wires reserved.
    pub fn new(primary_inputs: usize) -> (r: Self)
        requires
            primary_inputs + 2 <= usize::MAX,
        ensures
            r.wf(),
            r.next_id() == 2,
            r.primaries() == primary_inputs,
            r.peak() == 0,
            r.counts() =~= seq![0u16, 0u16],
    {
        let mut fanout: Vec<u16> = Vec::new();
        fanout.push(0);
        fanout.push(0);
        Self { fanout, next_normalized_id: 2, primary_inputs, biggest_fanout_seen: 0 }
    }

    /// Hand out the next normalized id; the declared birth credit is of
    /// no interest to this mode, which counts reads itself.
    pub fn allocate_wire(&mut self, _birth: u16) -> (w: WireId)
        requires
            old(self).wf(),
            old(self).next_id() < usize::MAX,
        ensures
            final(self).wf(),
            w.0 == old(self).next_id(),
            final(self).next_id() == old(self).next_id() + 1,
            final(self).counts() == old(self).counts().push(0u16),
            final(self).primaries() == old(self).primaries(),
            final(self).peak() == old(self).peak(),
    {
        let id = self.next_normalized_id;
        self.fanout.push(0);
        self.next_normalized_id = self.next_normalized_id + 1;
        WireId(id)
    }

    /// Record one read of `wire_id`: primary-input and constant wires
    /// are exempt, every other wire's count rises by one, and the peak
    /// statistic rises to the new count when it passes it.  A count
    /// that would leave `u16` is a credit overflow.
    pub fn wire_used(&mut self, wire_id: WireId) -> (r: Result<u16, CircuitError>)
        requires
            old(self).wf(),
            wire_id.0 < old(self).next_id(),
        ensures
            final(self).wf(),
            final(self).next_id() == old(self).next_id(),
            final(self).primaries() == old(self).primaries(),
            r matches Ok(v) ==> {
                if wire_id.0 < old(self).primaries() + 2 {
                    final(self).counts() == old(self).counts() && v == 0 && final(self).peak()
                        == old(self).peak()
                } else {
                    &&& old(self).counts()[wire_id.0 as int] < u16::MAX
                    &&& v == old(self).counts()[wire_id.0 as int] + 1
                    &&& final(self).counts() == old(self).counts().update(
                        wire_id.0 as int,
                        (old(self).counts()[wire_id.0 as int] + 1) as u16,
                    )
                    &&& final(self).peak() == (if v as int > old(self).peak() {
                        v as int
                    } else {
                        old(self).peak()
                    })
                }
            },
            r is Err ==> {
                &&& r == Err::<u16, CircuitError>(CircuitError::CreditOverflow)
                &&& final(self).counts() == old(self).counts()
                &&& final(self).peak() == old(self).peak()
                &&& wire_id.0 >= old(self).primaries() + 2
                &&& old(self).counts()[wire_id.0 as int] == u16::MAX
            },
    {
        let w = wire_id.0;
        if w < self.primary_inputs + 2 {
            return Ok(0);
        }
        let cur = self.fanout[w];
        if cur == u16::MAX {
            return Err(CircuitError::CreditOverflow);
        }
        self.fanout.set(w, cur + 1);
        if ((cur + 1) as usize) > self.biggest_fanout_seen {
            self.biggest_fanout_seen = (cur + 1) as usize;
        }
        Ok(cur + 1)
    }

    /// Mirror the lowering of one source gate: reserve its extra
    /// internal wires and count every read the lowered gates make.
    pub fn evaluate_gate(&mut self, gate: &Gate) -> (r: Result<(), CircuitError>)
        requires
            old(self).wf(),
            gate.wire_a.0 < old(self).next_id(),
            !(gate.gate_type is Not) ==> gate.wire_b.0 < old(self).next_id(),
            old(self).next_id() + extra_of(gate.gate_type) <= usize::MAX,
        ensures
            final(self).wf(),
            final(self).primaries() == old(self).primaries(),
            final(self).peak() >= old(self).peak(),
            final(self).next_id() == old(self).next_id() + extra_of(gate.gate_type),
            final(self).counts().len() == final(self).next_id(),
            r is Ok ==> forall|w: int|
                0 <= w < final(self).next_id() ==> final(self).counts()[w] == base_count(
                    old(self).counts(),
                    w,
                ) + (if w >= old(self).primaries() + 2 {
                    reads_in_stream(lower_gate(*gate, old(self).next_id()), w) as int
                } else {
                    0
                }),
            r is Err ==> {
                &&& r == Err::<(), CircuitError>(CircuitError::CreditOverflow)
                &&& exists|w: int|
                    old(self).primaries() + 2 <= w < final(self).next_id() && base_count(
                        old(self).counts(),
                        w,
                    ) + reads_in_stream(lower_gate(*gate, old(self).next_id()), w) > u16::MAX
            },
    {
        let ghost n0 = self.next_normalized_id as int;
        let ghost c0 = self.fanout@;
        let ghost pi = self.primary_inputs as int;
        let base = self.next_normalized_id;
        let extra = extra_wires(gate.gate_type);

        let mut i: usize = 0;
        while i < extra
            invariant
                i <= extra,
                extra == extra_of(gate.gate_type),
                self.next_normalized_id == n0 + i,
                self.fanout@.len() == n0 + i,
                n0 + extra <= usize::MAX,
                forall|w: int| 0 <= w < n0 ==> self.fanout@[w] == c0[w],
                forall|w: int| n0 <= w < n0 + i ==> self.fanout@[w] == 0,
                c0.len() == n0,
                self.primary_inputs as int == pi,
                self.primary_inputs + 2 <= usize::MAX,
                self.biggest_fanout_seen == old(self).biggest_fanout_seen,
                forall|w: int|
                    0 <= w < self.fanout@.len() ==> #[trigger] self.fanout@[w] as int
                        <= self.biggest_fanout_seen,
                n0 >= 2,
            decreases extra - i,
        {
            self.fanout.push(0);
            self.next_normalized_id = self.next_normalized_id + 1;
            i = i + 1;
        }

        let a = gate.wire_a;
        let b = gate.wire_b;
        let mut ws: Vec<WireId> = Vec::new();
        match gate.gate_type {
            GateType::And | GateType::Xor => {
                ws.push(a);
                ws.push(b);
            },
            GateType::Not => {
                ws.push(a);
            },
            GateType::Nand | GateType::Xnor => {
                ws.push(a);
                ws.push(b);
                ws.push(WireId(base));
            },
            GateType::Or => {
                ws.push(a);
                ws.push(b);
                ws.push(WireId(base));
                ws.push(a);
                ws.push(WireId(base + 1));
                ws.push(b);
            },
            GateType::Nor => {
                ws.push(a);
                ws.push(b);
                ws.push(WireId(base));
                ws.push(a);
                ws.push(WireId(base + 1));
                ws.push(b);
                ws.push(WireId(base + 2));
            },
            GateType::Nimp => {
                ws.push(b);
                ws.push(a);
                ws.push(WireId(base));
            },
            GateType::Ncimp => {
                ws.push(a);
                ws.push(WireId(base));
                ws.push(b);
            },
            GateType::Imp => {
                ws.push(a);
                ws.push(WireId(base));
                ws.push(b);
                ws.push(WireId(base + 1));
                ws.push(WireId(base));
                ws.push(WireId(base + 2));
                ws.push(b);
            },
            GateType::Cimp => {
                ws.push(b);
                ws.push(WireId(base));
                ws.push(a);
                ws.push(WireId(base + 1));
                ws.push(WireId(base));
                ws.push(WireId(base + 2));
                ws.push(a);
            },
        }
        let ghost rl = read_list(*gate, n0);
        proof {
            assert(ws@.map(|_j: int, x: WireId| x.0 as int) =~= rl);
        }

        let mut j: usize = 0;
        while j < ws.len()
            invariant
                j <= ws@.len(),
                ws@.map(|_j: int, x: WireId| x.0 as int) =~= rl,
                rl == read_list(*gate, n0),
                forall|k: int| 0 <= k < rl.len() ==> 0 <= #[trigger] rl[k] < n0 + extra,
                extra == extra_of(gate.gate_type),
                self.wf(),
                self.next_normalized_id == n0 + extra,
                self.fanout@.len() == n0 + extra,
                c0.len() == n0,
                self.primary_inputs as int == pi,
                n0 == old(self).next_id(),
                pi == old(self).primaries(),
                c0 == old(self).counts(),
                self.primaries() == pi,
                self.peak() >= old(self).peak(),
                forall|w: int|
                    0 <= w < n0 + extra ==> self.fanout@[w] == base_count(c0, w) + (if w >= pi
                        + 2 {
                        occ_in(rl.take(j as int), w) as int
                    } else {
                        0
                    }),
            decreases ws@.len() - j,
        {
            let wid = ws[j];
            let ghost wint = wid.0 as int;
            proof {
                assert(rl[j as int] == wint);
                assert(rl.take(j as int + 1) =~= rl.take(j as int).push(rl[j as int]));
                lemma_occ_push(rl.take(j as int), rl[j as int], wint);
            }
            match self.wire_used(wid) {
                Ok(_) => {},
                Err(e) => {
                    proof {
                        lemma_occ_push(rl.take(j as int), rl[j as int], wint);
                        lemma_occ_prefix(rl, j as int + 1, wint);
                        lemma_read_list_counts(*gate, n0, wint);
                        assert(base_count(c0, wint) + reads_in_stream(lower_gate(*gate, n0), wint)
                            > u16::MAX);
                    }
                    return Err(e);
                },
            }
            proof {
                assert forall|w: int| 0 <= w < n0 + extra implies self.fanout@[w] == base_count(
                    c0,
                    w,
                ) + (if w >= pi + 2 {
                    occ_in(rl.take(j as int + 1), w) as int
                } else {
                    0
                }) by {
                    lemma_occ_push(rl.take(j as int), rl[j as int], w);
                }
            }
            j = j + 1;
        }
        proof {
            assert(rl.take(rl.len() as int) =~= rl);
            assert forall|w: int| 0 <= w < n0 + extra implies self.fanout@[w] == base_count(c0, w)
                + (if w >= pi + 2 {
                reads_in_stream(lower_gate(*gate, n0), w) as int
            } else {
                0
            }) by {
                if w >= pi + 2 {
                    lemma_read_list_counts(*gate, n0, w);
                }
            }
        }
        Ok(())
    }

    /// Hand the finished counts out, with the peak statistic: no count
    /// of the vector exceeds it.
    pub fn finish(self) -> (r: (Vec<u16>, usize))
        requires
            self.wf(),
        ensures
            r.0@ == self.counts(),
            r.1 == self.peak(),
            forall|w: int| 0 <= w < r.0@.len() ==> #[trigger] r.0@[w] as int <= r.1,
    {
        (self.fanout, self.biggest_fanout_seen)
    }
}

} // verus!
