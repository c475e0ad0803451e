//! Laws of the machine: statements that hold of every state, every program and
//! every input, proved from the model.

use vstd::prelude::*;
use crate::decoder::{decode_at, decoded, lemma_first_malformed_exists};
use crate::engine::{
    execute_by_value, execute_in_place, offered, remaining, run_by_value, run_in_place, Status,
    Trace,
};
use crate::instruction::{targets_in_range, Effect, Fault, Instruction};
use crate::machine::{decremented, incremented, Machine};

verus! {

/// One transition gives the same result under both disciplines: both halt, or
/// both fault with the same fault, or both execute the instruction with the same
/// effect and reach the same state.
pub proof fn lemma_transitions_agree(m: Machine, insts: Seq<Instruction>, input: Option<u8>)
    ensures
        m.interpret_immut(insts, input) == match m.interpret(insts, input) {
            (after, Ok(Some(effect))) => Ok(Some((after, effect))),
            (_, Ok(None)) => Ok(None),
            (_, Err(fault)) => Err(fault),
        },
        m.interpret(insts, input).1 is Ok || m.interpret(insts, input).0 == m,
{
}

/// From any state, on any input and with any budget, the in-place engine and
/// the value-passing engine leave the same record: the same output bytes, the
/// same number of executed instructions and the same final status.
pub proof fn lemma_runs_agree(insts: Seq<Instruction>, m: Machine, input: Seq<u8>, budget: nat)
    ensures
        run_in_place(insts, m, input, budget) == run_by_value(insts, m, input, budget),
    decreases budget,
{
    if budget > 0 {
        lemma_transitions_agree(m, insts, offered(input));
        if let (after, Ok(Some(effect))) = m.interpret(insts, offered(input)) {
            lemma_runs_agree(insts, after, remaining(input, effect), (budget - 1) as nat);
        }
    }
}

/// For every source text, every input and every budget, running the program
/// through the in-place engine and through the value-passing engine produces
/// identical output and identical halting status.
pub proof fn lemma_engines_agree(src: Seq<char>, input: Seq<u8>, budget: nat)
    ensures
        execute_in_place(src, input, budget) == execute_by_value(src, input, budget),
{
    if let Ok(insts) = decoded(src) {
        lemma_runs_agree(insts, Machine::initial(), input, budget);
    }
}

/// The step budget only cuts a run short.  A run that ends within a budget ends
/// in the same way, with the same record, within every larger one; a run that a
/// budget cuts off has executed exactly that many instructions, and what it
/// wrote is the beginning of what it writes within any larger budget.
pub proof fn lemma_budget_only_cuts_short(
    insts: Seq<Instruction>,
    m: Machine,
    input: Seq<u8>,
    small: nat,
    large: nat,
)
    requires
        small <= large,
    ensures
        ({
            let cut = run_in_place(insts, m, input, small);
            let full = run_in_place(insts, m, input, large);
            &&& cut.steps <= small
            &&& cut.status != Status::OutOfSteps ==> full == cut
            &&& cut.status == Status::OutOfSteps ==> {
                &&& cut.steps == small
                &&& small <= full.steps
                &&& cut.output.is_prefix_of(full.output)
            }
        }),
    decreases small,
{
    let cut = run_in_place(insts, m, input, small);
    let full = run_in_place(insts, m, input, large);
    if small > 0 {
        if let (after, Ok(Some(effect))) = m.interpret(insts, offered(input)) {
            let rest = remaining(input, effect);
            lemma_budget_only_cuts_short(
                insts,
                after,
                rest,
                (small - 1) as nat,
                (large - 1) as nat,
            );
            let cut_rest = run_in_place(insts, after, rest, (small - 1) as nat);
            let full_rest = run_in_place(insts, after, rest, (large - 1) as nat);
            assert(cut == cut_rest.preceded_by(effect));
            assert(full == full_rest.preceded_by(effect));
            if cut.status == Status::OutOfSteps {
                assert(cut.output =~= full.output.subrange(0, cut.output.len() as int));
            }
        }
    } else {
        assert(cut.output =~= full.output.subrange(0, 0));
    }
}

/// Every transition keeps the state invariant: over a program whose jump
/// targets are in range, the program counter stays within the program (reaching
/// its length exactly when the machine has halted) and the pointer stays on the
/// tape.
pub proof fn lemma_transition_keeps_invariant(
    m: Machine,
    insts: Seq<Instruction>,
    input: Option<u8>,
)
    requires
        targets_in_range(insts),
        m.inv(insts.len()),
    ensures
        m.interpret(insts, input).0.inv(insts.len()),
        m.interpret_immut(insts, input) matches Ok(Some((successor, _))) ==> successor.inv(
            insts.len(),
        ),
{
}

/// Incrementing a cell value and then decrementing it gives the value back, and
/// so does decrementing first and incrementing after, for every value.
pub proof fn lemma_increment_decrement_inverse(v: u8)
    ensures
        decremented(incremented(v)) == v,
        incremented(decremented(v)) == v,
{
}

/// `Inc` followed by `Dec` on the same cell, with nothing between them, leaves
/// the tape and the pointer as they were, whatever the cell held.
pub proof fn lemma_inc_then_dec_restores(m: Machine, first: Option<u8>, second: Option<u8>)
    requires
        m.pointer_valid(),
    ensures
        m.apply(Instruction::Inc, first) matches Ok((bumped, _)) && bumped.apply(
            Instruction::Dec,
            second,
        ) matches Ok((back, _)) && back.tape == m.tape && back.ptr == m.ptr && back.pc == m.pc + 2,
{
    let bumped = m.apply(Instruction::Inc, first).unwrap().0;
    let back = bumped.apply(Instruction::Dec, second).unwrap().0;
    assert(back.tape =~= m.tape);
}

/// Cell arithmetic is modulo 256: decrementing 0 gives 255 and incrementing 255
/// gives 0, and neither instruction ever faults.
pub proof fn lemma_wraparound(m: Machine, input: Option<u8>)
    requires
        m.pointer_valid(),
    ensures
        decremented(0) == 255,
        incremented(255) == 0,
        m.apply(Instruction::Inc, input) matches Ok((after, _)) && after.cell() == (m.cell() + 1)
            % 256,
        m.apply(Instruction::Dec, input) matches Ok((after, _)) && after.cell() == (m.cell() - 1)
            % 256,
{
}

/// The state after `count` consecutive `Right` instructions.
pub open spec fn moved_right(m: Machine, count: nat) -> Machine
    decreases count,
{
    if count == 0 {
        m
    } else {
        moved_right(m, (count - 1) as nat).shifted_right().at(m.pc + count)
    }
}

/// `moved_right` is what `count` applications of `Right` produce.
pub proof fn lemma_moved_right_is_repeated_right(m: Machine, count: nat, input: Option<u8>)
    requires
        count > 0,
    ensures
        moved_right(m, (count - 1) as nat).apply(Instruction::Right, input) == Ok::<
            (Machine, Effect),
            Fault,
        >((moved_right(m, count), Effect::Silent)),
    decreases count,
{
    if count > 1 {
        lemma_moved_right_is_repeated_right(m, (count - 1) as nat, input);
    }
}

/// A `Right` executed on the last cell appends exactly one zero cell and selects
/// it; executed anywhere else it leaves the tape alone.
pub proof fn lemma_right_appends_one_zero(m: Machine, input: Option<u8>)
    requires
        m.pointer_valid(),
    ensures
        m.apply(Instruction::Right, input) matches Ok((after, effect)) && {
            &&& effect == Effect::Silent
            &&& after.ptr == m.ptr + 1
            &&& after.pointer_valid()
            &&& m.ptr + 1 == m.tape.len() ==> after.tape == m.tape.push(0u8) && after.cell() == 0
            &&& m.ptr + 1 < m.tape.len() ==> after.tape == m.tape
        },
{
}

/// Repeated `Right` never skips a cell: after `count` of them the pointer has
/// advanced by `count`, the tape reaches exactly as far as the pointer has ever
/// been, the old cells are untouched and every new cell holds zero.
pub proof fn lemma_moved_right_fills_with_zeros(m: Machine, count: nat)
    requires
        m.pointer_valid(),
    ensures
        ({
            let after = moved_right(m, count);
            let reach = if m.ptr + count + 1 > m.tape.len() {
                m.ptr + count + 1
            } else {
                m.tape.len()
            };
            &&& after.ptr == m.ptr + count
            &&& after.pc == m.pc + count
            &&& after.tape.len() == reach
            &&& after.tape.subrange(0, m.tape.len() as int) == m.tape
            &&& forall|i: int| m.tape.len() <= i < reach ==> after.tape[i] == 0
        }),
    decreases count,
{
    if count > 0 {
        lemma_moved_right_fills_with_zeros(m, (count - 1) as nat);
        let before = moved_right(m, (count - 1) as nat);
        let after = moved_right(m, count);
        assert(after.tape.subrange(0, m.tape.len() as int) =~= before.tape.subrange(
            0,
            m.tape.len() as int,
        ));
    } else {
        assert(m.tape.subrange(0, m.tape.len() as int) =~= m.tape);
    }
}

/// No transition makes the tape shorter or grows it by more than one cell, and
/// a cell that joins the tape is a zero cell under the pointer: every cell reads
/// zero when it is first visited.
pub proof fn lemma_new_cells_read_zero(m: Machine, inst: Instruction, input: Option<u8>)
    requires
        m.pointer_valid(),
    ensures
        m.apply(inst, input) matches Ok((after, _)) ==> {
            &&& after.pointer_valid()
            &&& after.tape.len() == m.tape.len() || {
                &&& inst == Instruction::Right
                &&& after.tape == m.tape.push(0u8)
                &&& after.ptr == m.tape.len()
                &&& after.cell() == 0
            }
        },
{
}

/// A program in which some character fails to decode is malformed, and running
/// it executes no instruction and writes nothing, under either engine.
pub proof fn lemma_malformed_program_runs_nothing(
    src: Seq<char>,
    position: int,
    input: Seq<u8>,
    budget: nat,
)
    requires
        0 <= position < src.len(),
        decode_at(src, position) is Err,
    ensures
        decoded(src) matches Err(fault) && fault is MalformedProgram && {
            let trace = Trace { output: Seq::empty(), steps: 0, status: Status::Faulted(fault) };
            &&& execute_in_place(src, input, budget) == trace
            &&& execute_by_value(src, input, budget) == trace
        },
{
    lemma_first_malformed_exists(src, position);
}

} // verus!
