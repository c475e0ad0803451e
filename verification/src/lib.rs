//! A small virtual machine for an eight-instruction pointer-and-tape language.
//!
//! Source text is decoded into a linear instruction sequence whose brackets carry
//! absolute jump targets, and the sequence is then run against a growable tape of
//! byte cells.  Two engines drive the same transition relation: one updates a
//! machine state in place, the other threads the state through as a value.  Every
//! function is verified against a mathematical model of the machine, and the
//! laws that relate the two engines, the cell arithmetic and the growth of the
//! tape are proved from that model.

pub mod decoder;
pub mod engine;
pub mod instruction;
pub mod laws;
pub mod machine;
