//! The concrete circuit modes: credit collection, fan-out counting and
//! translation to the emitted AND/XOR stream.

pub mod credit;
pub mod fanout;
pub mod translate;
