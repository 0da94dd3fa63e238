//! Streaming compiler core for a Groth16 verifier circuit: three-pass
//! execution over gadget-issued source gates (metadata handled by the
//! caller, credit collection, translation), wire-identifier
//! normalization, credit-based wire lifetimes, lowering of an 11-kind
//! source gate vocabulary to AND/XOR, a blocked on-disk gate format,
//! and an independent checker of the credit discipline.

pub mod cache;
pub mod checker;
pub mod codec;
pub mod context;
pub mod error;
pub mod g2;
pub mod gate;
pub mod laws;
pub mod modes;
pub mod passes;
pub mod slab;
pub mod trace;
pub mod u24;
pub mod writer;
