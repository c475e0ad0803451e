//! The machine state, its mathematical model, and the single-step transition in
//! its two forms: in place and by value.

use vstd::prelude::*;
use crate::instruction::{targets_in_range, Effect, Fault, Instruction};

verus! {

/// Mathematical model of a machine state.
pub struct Machine {
    /// Index of the next instruction to execute.
    pub pc: nat,
    /// Index of the selected cell.
    pub ptr: nat,
    /// The cells.
    pub tape: Seq<u8>,
}

/// The cell value after an increment: 255 wraps to 0.
pub open spec fn incremented(v: u8) -> u8 {
    if v == 255 {
        0u8
    } else {
        (v + 1) as u8
    }
}

/// The cell value after a decrement: 0 wraps to 255.
pub open spec fn decremented(v: u8) -> u8 {
    if v == 0 {
        255u8
    } else {
        (v - 1) as u8
    }
}

impl Machine {
    /// The state every run starts from: one zero cell, selected, and the program
    /// counter on the first instruction.
    pub open spec fn initial() -> Machine {
        Machine { pc: 0, ptr: 0, tape: seq![0u8] }
    }

    /// The tape pointer selects an existing cell.
    pub open spec fn pointer_valid(self) -> bool {
        self.ptr < self.tape.len()
    }

    /// The state invariant with respect to a program of `len` instructions.
    pub open spec fn inv(self, len: nat) -> bool {
        self.pc <= len && self.pointer_valid()
    }

    /// The selected cell.
    pub open spec fn cell(self) -> u8 {
        self.tape[self.ptr as int]
    }

    /// The machine with the program counter moved to `pc`.
    pub open spec fn at(self, pc: nat) -> Machine {
        Machine { pc, ..self }
    }

    /// The machine with the selected cell set to `v`.
    pub open spec fn store(self, v: u8) -> Machine {
        Machine { tape: self.tape.update(self.ptr as int, v), ..self }
    }

    /// The machine with the pointer one cell to the right; a zero cell is appended
    /// exactly when the pointer would otherwise leave the tape.
    pub open spec fn shifted_right(self) -> Machine {
        Machine {
            ptr: self.ptr + 1,
            tape: if self.ptr + 1 == self.tape.len() {
                self.tape.push(0u8)
            } else {
                self.tape
            },
            ..self
        }
    }

    /// The transition relation as a function: the effect of executing `inst` in
    /// state `self` when `input` is the next available input byte, if any.
    ///
    /// A jump that fires lands one past its target; every other instruction, and
    /// a jump that does not fire, advances the program counter by one.
    pub open spec fn apply(self, inst: Instruction, input: Option<u8>) -> Result<
        (Machine, Effect),
        Fault,
    > {
        let next = self.pc + 1;
        match inst {
            Instruction::Left => if self.ptr == 0 {
                Err(Fault::PointerUnderflow { position: self.pc as usize })
            } else {
                Ok((Machine { ptr: (self.ptr - 1) as nat, ..self }.at(next), Effect::Silent))
            },
            Instruction::Right => Ok((self.shifted_right().at(next), Effect::Silent)),
            Instruction::Input => match input {
                Some(byte) => Ok((self.store(byte).at(next), Effect::Consumed)),
                None => Err(Fault::InputExhausted { position: self.pc as usize }),
            },
            Instruction::Output => Ok((self.at(next), Effect::Emitted(self.cell()))),
            Instruction::Inc => Ok((self.store(incremented(self.cell())).at(next), Effect::Silent)),
            Instruction::Dec => Ok((self.store(decremented(self.cell())).at(next), Effect::Silent)),
            Instruction::JmpForward(target) => Ok(
                (
                    self.at(
                        if self.cell() == 0 {
                            (target + 1) as nat
                        } else {
                            next
                        },
                    ),
                    Effect::Silent,
                ),
            ),
            Instruction::JmpBack(target) => Ok(
                (
                    self.at(
                        if self.cell() != 0 {
                            (target + 1) as nat
                        } else {
                            next
                        },
                    ),
                    Effect::Silent,
                ),
            ),
        }
    }

    /// Model of one in-place transition: the state left behind, and the signal
    /// handed back.  `Ok(None)` says the machine had already halted; a fault
    /// leaves the state as it was.
    pub open spec fn interpret(self, insts: Seq<Instruction>, input: Option<u8>) -> (
        Machine,
        Result<Option<Effect>, Fault>,
    ) {
        if self.pc >= insts.len() {
            (self, Ok(None))
        } else {
            match self.apply(insts[self.pc as int], input) {
                Ok((after, effect)) => (after, Ok(Some(effect))),
                Err(fault) => (self, Err(fault)),
            }
        }
    }

    /// Model of one value-passing transition: the successor state with the
    /// effect of the step, `Ok(None)` when the machine had already halted, or a
    /// fault.
    pub open spec fn interpret_immut(self, insts: Seq<Instruction>, input: Option<u8>) -> Result<
        Option<(Machine, Effect)>,
        Fault,
    > {
        if self.pc >= insts.len() {
            Ok(None)
        } else {
            match self.apply(insts[self.pc as int], input) {
                Ok(successor) => Ok(Some(successor)),
                Err(fault) => Err(fault),
            }
        }
    }
}

/// An executable machine state.
#[derive(Debug, PartialEq, Eq)]
pub struct State {
    /// Index of the next instruction to execute.
    pub pc: usize,
    /// Index of the selected cell.
    pub ptr: usize,
    /// The tape.
    pub mem: Vec<u8>,
}

impl View for State {
    type V = Machine;

    open spec fn view(&self) -> Machine {
        Machine { pc: self.pc as nat, ptr: self.ptr as nat, tape: self.mem@ }
    }
}

impl State {
    /// The fresh state of a run.
    pub fn new() -> (s: State)
        ensures
            s@ == Machine::initial(),
    {
        let mut mem: Vec<u8> = Vec::new();
        mem.push(0u8);
        State { pc: 0, ptr: 0, mem }
    }

    /// Whether the program counter has reached the end of the program.
    pub fn is_halted(&self, insts: &Vec<Instruction>) -> (b: bool)
        ensures
            b == (self@.pc >= insts@.len()),
    {
        self.pc >= insts.len()
    }

    /// Whether the next instruction to execute reads a byte of input.
    pub fn awaits_input(&self, insts: &Vec<Instruction>) -> (b: bool)
        ensures
            b == (self@.pc < insts@.len() && insts@[self@.pc as int] == Instruction::Input),
    {
        self.pc < insts.len() && matches!(insts[self.pc], Instruction::Input)
    }

    /// Executes one instruction on a state taken by value and hands back the
    /// successor state as a new value.
    pub fn interpret_immut(self, insts: &Vec<Instruction>, input: Option<u8>) -> (r: Result<
        Option<(State, Effect)>,
        Fault,
    >)
        requires
            targets_in_range(insts@),
            self@.inv(insts@.len()),
        ensures
            self@.interpret_immut(insts@, input) == match r {
                Ok(Some((s, effect))) => Ok(Some((s@, effect))),
                Ok(None) => Ok(None),
                Err(fault) => Err(fault),
            },
            r matches Ok(Some((s, _))) ==> s@.inv(insts@.len()),
    {
        if self.pc == insts.len() {
            Ok(None)
        } else {
            let mut pc = self.pc;
            let mut ptr = self.ptr;
            let mut mem = self.mem;
            let mut effect = Effect::Silent;
            match insts[self.pc] {
                Instruction::Left => {
                    if ptr == 0 {
                        return Err(Fault::PointerUnderflow { position: pc });
                    }
                    ptr -= 1;
                },
                Instruction::Right => {
                    let cells = mem.len();
                    ptr += 1;
                    if ptr == cells {
                        mem.push(0)
                    }
                },
                Instruction::Input => {
                    match input {
                        Some(byte) => {
                            mem[ptr] = byte;
                            effect = Effect::Consumed;
                        },
                        None => {
                            return Err(Fault::InputExhausted { position: pc });
                        },
                    }
                },
                Instruction::Output => {
                    effect = Effect::Emitted(mem[ptr]);
                },
                Instruction::Inc => {
                    if mem[ptr] == u8::MAX {
                        mem[ptr] = 0;
                    } else {
                        mem[ptr] += 1;
                    }
                },
                Instruction::Dec => {
                    if mem[ptr] == 0 {
                        mem[ptr] = u8::MAX;
                    } else {
                        mem[ptr] -= 1;
                    }
                },
                Instruction::JmpForward(tgt) => {
                    if mem[ptr] == 0 {
                        pc = tgt;
                    }
                },
                Instruction::JmpBack(tgt) => {
                    if mem[ptr] != 0 {
                        pc = tgt;
                    }
                },
            }
            pc += 1;
            Ok(Some((State { pc, ptr, mem }, effect)))
        }
    }

    /// Executes one instruction by updating the state in place.
    pub fn interpret(&mut self, insts: &Vec<Instruction>, input: Option<u8>) -> (r: Result<
        Option<Effect>,
        Fault,
    >)
        requires
            targets_in_range(insts@),
            old(self)@.inv(insts@.len()),
        ensures
            (final(self)@, r) == old(self)@.interpret(insts@, input),
            final(self)@.inv(insts@.len()),
    {
        if self.pc == insts.len() {
            Ok(None)
        } else {
            let mut effect = Effect::Silent;
            match insts[self.pc] {
                Instruction::Left => {
                    if self.ptr == 0 {
                        return Err(Fault::PointerUnderflow { position: self.pc });
                    }
                    self.ptr -= 1;
                },
                Instruction::Right => {
                    let cells = self.mem.len();
                    self.ptr += 1;
                    if self.ptr == cells {
                        self.mem.push(0)
                    }
                },
                Instruction::Input => {
                    match input {
                        Some(byte) => {
                            self.mem[self.ptr] = byte;
                            effect = Effect::Consumed;
                        },
                        None => {
                            return Err(Fault::InputExhausted { position: self.pc });
                        },
                    }
                },
                Instruction::Output => {
                    effect = Effect::Emitted(self.mem[self.ptr]);
                },
                Instruction::Inc => {
                    if self.mem[self.ptr] == u8::MAX {
                        self.mem[self.ptr] = 0;
                    } else {
                        self.mem[self.ptr] += 1;
                    }
                },
                Instruction::Dec => {
                    if self.mem[self.ptr] == 0 {
                        self.mem[self.ptr] = u8::MAX;
                    } else {
                        self.mem[self.ptr] -= 1;
                    }
                },
                Instruction::JmpForward(tgt) => {
                    if self.mem[self.ptr] == 0 {
                        self.pc = tgt;
                    }
                },
                Instruction::JmpBack(tgt) => {
                    if self.mem[self.ptr] != 0 {
                        self.pc = tgt;
                    }
                },
            }
            self.pc += 1;
            Ok(Some(effect))
        }
    }
}

} // verus!
