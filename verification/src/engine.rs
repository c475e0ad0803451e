//! Running a program to the end: the two engines, and the record of what a run
//! did.

use vstd::prelude::*;
use crate::decoder::{decode, decoded};
use crate::instruction::{targets_in_range, Effect, Fault, Instruction};
use crate::machine::{Machine, State};

verus! {

/// How a run ended.
#[derive(Debug, Clone, Copy, PartialEq, Eq, Structural)]
pub enum Status {
    /// The program counter reached the end of the program.
    Halted,
    /// The step budget was spent before the program halted.
    OutOfSteps,
    /// A fatal condition stopped the run.
    Faulted(Fault),
}

/// Mathematical model of the record of a run.
pub struct Trace {
    /// The bytes written, in order.
    pub output: Seq<u8>,
    /// The number of instructions executed.
    pub steps: nat,
    /// How the run ended.
    pub status: Status,
}

impl Trace {
    /// The record of a run that ends at once.
    pub open spec fn stop(status: Status) -> Trace {
        Trace { output: Seq::empty(), steps: 0, status }
    }

    /// The record of a run that first executes one instruction with the given
    /// effect and then goes on as `self`.
    pub open spec fn preceded_by(self, effect: Effect) -> Trace {
        Trace {
            output: match effect {
                Effect::Emitted(byte) => seq![byte] + self.output,
                _ => self.output,
            },
            steps: self.steps + 1,
            status: self.status,
        }
    }

    /// The record of a run that has already written `output` in `steps`
    /// instructions and then goes on as `self`.
    pub open spec fn resumed_from(self, output: Seq<u8>, steps: nat) -> Trace {
        Trace { output: output + self.output, steps: steps + self.steps, status: self.status }
    }
}

/// The record of a run as an executable value.
#[derive(Debug, PartialEq, Eq)]
pub struct Outcome {
    /// The bytes written, in order.
    pub output: Vec<u8>,
    /// The number of instructions executed.
    pub steps: u64,
    /// How the run ended.
    pub status: Status,
}

impl View for Outcome {
    type V = Trace;

    open spec fn view(&self) -> Trace {
        Trace { output: self.output@, steps: self.steps as nat, status: self.status }
    }
}

/// The byte that the input stream offers next.
pub open spec fn offered(input: Seq<u8>) -> Option<u8> {
    if input.len() > 0 {
        Some(input[0])
    } else {
        None
    }
}

/// The input stream after a step with the given effect.
pub open spec fn remaining(input: Seq<u8>, effect: Effect) -> Seq<u8> {
    if effect == Effect::Consumed {
        input.drop_first()
    } else {
        input
    }
}

/// How a run ends that may execute no instruction at all.
pub open spec fn standstill(m: Machine, insts: Seq<Instruction>) -> Status {
    if m.pc >= insts.len() {
        Status::Halted
    } else {
        Status::OutOfSteps
    }
}

/// The record of running `insts` from state `m` on `input` by in-place
/// transitions, executing at most `budget` instructions.
pub open spec fn run_in_place(insts: Seq<Instruction>, m: Machine, input: Seq<u8>, budget: nat) -> Trace
    decreases budget,
{
    if budget == 0 {
        Trace::stop(standstill(m, insts))
    } else {
        let (after, signal) = m.interpret(insts, offered(input));
        match signal {
            Ok(Some(effect)) => run_in_place(
                insts,
                after,
                remaining(input, effect),
                (budget - 1) as nat,
            ).preceded_by(effect),
            Ok(None) => Trace::stop(Status::Halted),
            Err(fault) => Trace::stop(Status::Faulted(fault)),
        }
    }
}

/// The record of running `insts` from state `m` on `input` by value-passing
/// transitions, executing at most `budget` instructions.
pub open spec fn run_by_value(insts: Seq<Instruction>, m: Machine, input: Seq<u8>, budget: nat) -> Trace
    decreases budget,
{
    if budget == 0 {
        Trace::stop(standstill(m, insts))
    } else {
        match m.interpret_immut(insts, offered(input)) {
            Ok(Some((successor, effect))) => run_by_value(
                insts,
                successor,
                remaining(input, effect),
                (budget - 1) as nat,
            ).preceded_by(effect),
            Ok(None) => Trace::stop(Status::Halted),
            Err(fault) => Trace::stop(Status::Faulted(fault)),
        }
    }
}

/// The record of decoding `src` and running it from the initial state with the
/// in-place engine.  A malformed program executes nothing.
pub open spec fn execute_in_place(src: Seq<char>, input: Seq<u8>, budget: nat) -> Trace {
    match decoded(src) {
        Ok(insts) => run_in_place(insts, Machine::initial(), input, budget),
        Err(fault) => Trace::stop(Status::Faulted(fault)),
    }
}

/// The record of decoding `src` and running it from the initial state with the
/// value-passing engine.  A malformed program executes nothing.
pub open spec fn execute_by_value(src: Seq<char>, input: Seq<u8>, budget: nat) -> Trace {
    match decoded(src) {
        Ok(insts) => run_by_value(insts, Machine::initial(), input, budget),
        Err(fault) => Trace::stop(Status::Faulted(fault)),
    }
}

/// Decodes `program_str` and runs it on `input` with the in-place engine: one
/// machine state is created and updated destructively until the program halts,
/// a fault arises, or `max_steps` instructions have been executed.
///
/// A malformed program is reported before anything runs.  Each `Input`
/// instruction takes the next byte of `input`; one that finds the input spent is
/// fatal.  The budget is what makes the call return on a program that loops
/// forever: it never changes what a run does before it is cut off.
pub fn run_program(program_str: &str, input: &[u8], max_steps: u64) -> (outcome: Outcome)
    ensures
        outcome@ == execute_in_place(program_str@, input@, max_steps as nat),
{
    let instructions = match decode(program_str) {
        Ok(instructions) => instructions,
        Err(fault) => {
            return Outcome { output: Vec::new(), steps: 0, status: Status::Faulted(fault) };
        },
    };
    let mut state = State::new();
    let mut output: Vec<u8> = Vec::new();
    let mut cursor: usize = 0;
    let mut steps: u64 = 0;
    let ghost insts = instructions@;
    let ghost total = run_in_place(insts, Machine::initial(), input@, max_steps as nat);
    assert(input@.skip(0) =~= input@);
    loop
        invariant
            insts == instructions@,
            targets_in_range(insts),
            state@.inv(insts.len()),
            cursor <= input@.len(),
            steps <= max_steps,
            total == run_in_place(
                insts,
                state@,
                input@.skip(cursor as int),
                (max_steps - steps) as nat,
            ).resumed_from(output@, steps as nat),
            total == execute_in_place(program_str@, input@, max_steps as nat),
        decreases max_steps - steps,
    {
        if steps == max_steps {
            let status = if state.is_halted(&instructions) {
                Status::Halted
            } else {
                Status::OutOfSteps
            };
            assert(output@ + Seq::<u8>::empty() =~= output@);
            return Outcome { output, steps, status };
        }
        let offer = if cursor < input.len() {
            Some(input[cursor])
        } else {
            None
        };
        let ghost pending = input@.skip(cursor as int);
        let ghost written = output@;
        assert(offer == offered(pending));
        match state.interpret(&instructions, offer) {
            Ok(Some(effect)) => {
                match effect {
                    Effect::Consumed => {
                        cursor += 1;
                    },
                    Effect::Emitted(byte) => {
                        output.push(byte);
                    },
                    Effect::Silent => {},
                }
                steps += 1;
                proof {
                    assert(input@.skip(cursor as int) =~= remaining(pending, effect));
                    let rest = run_in_place(
                        insts,
                        state@,
                        input@.skip(cursor as int),
                        (max_steps - steps) as nat,
                    );
                    assert(output@ + rest.output =~= written + rest.preceded_by(effect).output);
                }
            },
            Ok(None) => {
                assert(output@ + Seq::<u8>::empty() =~= output@);
                return Outcome { output, steps, status: Status::Halted };
            },
            Err(fault) => {
                assert(output@ + Seq::<u8>::empty() =~= output@);
                return Outcome { output, steps, status: Status::Faulted(fault) };
            },
        }
    }
}

/// Decodes `program_str` and runs it on `input` with the value-passing engine:
/// every transition takes the current machine state by value and yields its
/// successor as a new value, until the program halts, a fault arises, or
/// `max_steps` instructions have been executed.
///
/// Malformed programs, spent input and the budget are treated as by
/// `run_program`.
pub fn run_program_immut(program_str: &str, input: &[u8], max_steps: u64) -> (outcome: Outcome)
    ensures
        outcome@ == execute_by_value(program_str@, input@, max_steps as nat),
{
    let instructions = match decode(program_str) {
        Ok(instructions) => instructions,
        Err(fault) => {
            return Outcome { output: Vec::new(), steps: 0, status: Status::Faulted(fault) };
        },
    };
    let mut state = State::new();
    let mut output: Vec<u8> = Vec::new();
    let mut cursor: usize = 0;
    let mut steps: u64 = 0;
    let ghost insts = instructions@;
    let ghost total = run_by_value(insts, Machine::initial(), input@, max_steps as nat);
    assert(input@.skip(0) =~= input@);
    loop
        invariant
            insts == instructions@,
            targets_in_range(insts),
            state@.inv(insts.len()),
            cursor <= input@.len(),
            steps <= max_steps,
            total == run_by_value(
                insts,
                state@,
                input@.skip(cursor as int),
                (max_steps - steps) as nat,
            ).resumed_from(output@, steps as nat),
            total == execute_by_value(program_str@, input@, max_steps as nat),
        decreases max_steps - steps,
    {
        if steps == max_steps {
            let status = if state.is_halted(&instructions) {
                Status::Halted
            } else {
                Status::OutOfSteps
            };
            assert(output@ + Seq::<u8>::empty() =~= output@);
            return Outcome { output, steps, status };
        }
        let offer = if cursor < input.len() {
            Some(input[cursor])
        } else {
            None
        };
        let ghost pending = input@.skip(cursor as int);
        let ghost written = output@;
        assert(offer == offered(pending));
        let state_opt = state.interpret_immut(&instructions, offer);
        match state_opt {
            Ok(Some((s, effect))) => {
                state = s;
                match effect {
                    Effect::Consumed => {
                        cursor += 1;
                    },
                    Effect::Emitted(byte) => {
                        output.push(byte);
                    },
                    Effect::Silent => {},
                }
                steps += 1;
                proof {
                    assert(input@.skip(cursor as int) =~= remaining(pending, effect));
                    let rest = run_by_value(
                        insts,
                        state@,
                        input@.skip(cursor as int),
                        (max_steps - steps) as nat,
                    );
                    assert(output@ + rest.output =~= written + rest.preceded_by(effect).output);
                }
            },
            Ok(None) => {
                assert(output@ + Seq::<u8>::empty() =~= output@);
                return Outcome { output, steps, status: Status::Halted };
            },
            Err(fault) => {
                assert(output@ + Seq::<u8>::empty() =~= output@);
                return Outcome { output, steps, status: Status::Faulted(fault) };
            },
        }
    }
}

} // verus!
