//! The block builder behind the stream writer.
//!
//! The writer owns the header fields, an in-memory block sized to a
//! fixed capacity, and the cumulative gate counter.  Writing a gate
//! appends to the block; a full block comes back as one contiguous
//! byte region for the caller to put on disk.  `finalize` hands out
//! the partial last block and the header with the final gate count,
//! for the caller to patch over the provisional header.  Only the
//! current block is held in memory, so the writer's residency is
//! bounded by the block capacity however long the stream runs.

use vstd::prelude::*;

use crate::codec::{block_bytes, encode_block, encode_header, header_bytes_spec};
use crate::gate::EmittedGate;

verus! {

pub struct CircuitWriter {
    primary_inputs: u64,
    output_wires: Vec<u64>,
    block_capacity: usize,
    block: Vec<EmittedGate>,
    total_gates: u64,
    written: Ghost<Seq<EmittedGate>>,
    flushed: Ghost<Seq<EmittedGate>>,
}

impl CircuitWriter {
    /// Every gate ever written, in order.
    pub closed spec fn written_gates(&self) -> Seq<EmittedGate> {
        self.written@
    }

    /// The gates already handed out in full blocks.
    pub closed spec fn flushed_gates(&self) -> Seq<EmittedGate> {
        self.flushed@
    }

    /// The gates of the unfinished block.
    pub closed spec fn pending_block(&self) -> Seq<EmittedGate> {
        self.block@
    }

    pub closed spec fn spec_primary_inputs(&self) -> u64 {
        self.primary_inputs
    }

    pub closed spec fn spec_output_wires(&self) -> Seq<u64> {
        self.output_wires@
    }

    pub closed spec fn spec_total_gates(&self) -> u64 {
        self.total_gates
    }

    pub closed spec fn capacity(&self) -> int {
        self.block_capacity as int
    }

    pub closed spec fn wf(&self) -> bool {
        &&& self.written@ == self.flushed@ + self.block@
        &&& self.block@.len() < self.block_capacity
        &&& 1 <= self.block_capacity <= u32::MAX
        &&& self.total_gates == self.written@.len()
    }

    /// A fresh writer; nothing written yet.
    pub fn new(primary_inputs: u64, output_wires: Vec<u64>, block_capacity: usize) -> (r: Self)
        requires
            1 <= block_capacity <= u32::MAX,
        ensures
            r.wf(),
            r.written_gates() == Seq::<EmittedGate>::empty(),
            r.flushed_gates() == Seq::<EmittedGate>::empty(),
            r.spec_primary_inputs() == primary_inputs,
            r.spec_output_wires() == output_wires@,
            r.spec_total_gates() == 0,
            r.capacity() == block_capacity,
    {
        let r = Self {
            primary_inputs,
            output_wires,
            block_capacity,
            block: Vec::new(),
            total_gates: 0,
            written: Ghost(Seq::empty()),
            flushed: Ghost(Seq::empty()),
        };
        proof {
            assert(r.written@ =~= r.flushed@ + r.block@);
        }
        r
    }

    /// The number of gates written so far.
    pub fn total_gates(&self) -> (r: u64)
        ensures
            r == self.spec_total_gates(),
    {
        self.total_gates
    }

    /// The header as it stands now; written at the start of the file
    /// and patched by `finalize`.
    pub fn header_bytes(&self) -> (r: Vec<u8>)
        ensures
            r@ == header_bytes_spec(
                self.spec_primary_inputs(),
                self.spec_output_wires(),
                self.spec_total_gates(),
            ),
    {
        encode_header(self.primary_inputs, &self.output_wires, self.total_gates)
    }

    /// Append one gate.  A full block comes back as its on-disk bytes
    /// and leaves memory.
    pub fn write_gate(&mut self, gate: EmittedGate) -> (r: Option<Vec<u8>>)
        requires
            old(self).wf(),
            old(self).spec_total_gates() < u64::MAX,
        ensures
            final(self).wf(),
            final(self).written_gates() == old(self).written_gates().push(gate),
            final(self).spec_total_gates() == old(self).spec_total_gates() + 1,
            final(self).spec_primary_inputs() == old(self).spec_primary_inputs(),
            final(self).spec_output_wires() == old(self).spec_output_wires(),
            final(self).capacity() == old(self).capacity(),
            r matches Some(bytes) ==> {
                &&& bytes@ == block_bytes(old(self).pending_block().push(gate))
                &&& final(self).flushed_gates() == old(self).flushed_gates() + old(
                    self,
                ).pending_block().push(gate)
                &&& final(self).pending_block() == Seq::<EmittedGate>::empty()
            },
            r is None ==> {
                &&& final(self).flushed_gates() == old(self).flushed_gates()
                &&& final(self).pending_block() == old(self).pending_block().push(gate)
            },
    {
        self.block.push(gate);
        self.total_gates = self.total_gates + 1;
        proof {
            self.written@ = self.written@.push(gate);
            assert(self.written@ =~= self.flushed@ + self.block@);
        }
        if self.block.len() == self.block_capacity {
            let bytes = encode_block(&self.block);
            proof {
                self.flushed@ = self.flushed@ + self.block@;
            }
            self.block = Vec::new();
            proof {
                assert(self.written@ =~= self.flushed@ + self.block@);
            }
            Some(bytes)
        } else {
            None
        }
    }

    /// Close the stream: the partial last block, if any, and the
    /// header carrying the final total gate count.
    pub fn finalize(self) -> (r: (Option<Vec<u8>>, Vec<u8>))
        requires
            self.wf(),
        ensures
            r.0 matches Some(bytes) ==> self.pending_block().len() > 0 && bytes@ == block_bytes(
                self.pending_block(),
            ),
            r.0 is None ==> self.pending_block().len() == 0,
            r.1@ == header_bytes_spec(
                self.spec_primary_inputs(),
                self.spec_output_wires(),
                self.spec_total_gates(),
            ),
            self.spec_total_gates() == self.written_gates().len(),
    {
        let header = encode_header(self.primary_inputs, &self.output_wires, self.total_gates);
        if self.block.len() > 0 {
            let bytes = encode_block(&self.block);
            (Some(bytes), header)
        } else {
            (None, header)
        }
    }
}

} // verus!
