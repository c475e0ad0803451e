//! The instruction set, the effects a step has at the I/O boundary, and the ways
//! a run can fail.

use vstd::prelude::*;

verus! {

/// One decoded instruction.  A jump carries the absolute index of its partner
/// bracket in the instruction sequence.
#[derive(Debug, Clone, Copy, PartialEq, Eq, Structural)]
pub enum Instruction {
    Left,
    Right,
    Input,
    Output,
    Inc,
    Dec,
    JmpForward(usize),
    JmpBack(usize),
}

/// A fatal condition.  Each variant records the position of the instruction (or,
/// for a malformed program, of the source character) at which it arose.
#[derive(Debug, Clone, Copy, PartialEq, Eq, Structural)]
pub enum Fault {
    /// The source holds a character that is no opcode, or a bracket without a partner.
    MalformedProgram { position: usize },
    /// An `Input` instruction ran when no further byte was available.
    InputExhausted { position: usize },
    /// A `Left` instruction ran with the tape pointer on the first cell.
    PointerUnderflow { position: usize },
}

/// What one executed instruction did at the I/O boundary.
#[derive(Debug, Clone, Copy, PartialEq, Eq, Structural)]
pub enum Effect {
    /// Neither read nor wrote.
    Silent,
    /// Took the offered input byte.
    Consumed,
    /// Wrote this byte to the output.
    Emitted(u8),
}

/// Every jump target of `insts` is an index into `insts`.
pub open spec fn targets_in_range(insts: Seq<Instruction>) -> bool {
    forall|i: int|
        0 <= i < insts.len() ==> match #[trigger] insts[i] {
            Instruction::JmpForward(t) => t < insts.len(),
            Instruction::JmpBack(t) => t < insts.len(),
            _ => true,
        }
}

/// Every jump of `insts` points at its partner, and the partner points back: a
/// forward jump at `i` targets a later backward jump whose target is `i`, and a
/// backward jump at `i` targets an earlier forward jump whose target is `i`.
pub open spec fn brackets_paired(insts: Seq<Instruction>) -> bool {
    forall|i: int|
        0 <= i < insts.len() ==> match #[trigger] insts[i] {
            Instruction::JmpForward(t) => i < t < insts.len() && insts[t as int]
                == Instruction::JmpBack(i as usize),
            Instruction::JmpBack(t) => t < i && insts[t as int] == Instruction::JmpForward(
                i as usize,
            ),
            _ => true,
        }
}

/// Paired brackets have their targets in range.
pub proof fn lemma_paired_targets_in_range(insts: Seq<Instruction>)
    requires
        brackets_paired(insts),
    ensures
        targets_in_range(insts),
{
}

} // verus!
