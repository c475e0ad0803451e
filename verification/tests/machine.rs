use tape_machine::instruction::{Effect, Fault, Instruction};
use tape_machine::machine::State;

fn state(pc: usize, ptr: usize, mem: &[u8]) -> State {
    State { pc, ptr, mem: mem.to_vec() }
}

#[test]
fn fresh_state_has_one_zero_cell() {
    let s = State::new();
    assert_eq!(s.pc, 0);
    assert_eq!(s.ptr, 0);
    assert_eq!(s.mem, vec![0u8]);
}

#[test]
fn halted_machine_signals_and_stays_put() {
    let insts = vec![Instruction::Inc];
    let mut s = state(1, 0, &[7]);
    assert_eq!(s.interpret(&insts, Some(9)), Ok(None));
    assert_eq!(s, state(1, 0, &[7]));
    assert_eq!(state(1, 0, &[7]).interpret_immut(&insts, Some(9)), Ok(None));
}

#[test]
fn empty_program_is_halted_from_the_start() {
    let insts: Vec<Instruction> = vec![];
    let mut s = State::new();
    assert!(s.is_halted(&insts));
    assert_eq!(s.interpret(&insts, None), Ok(None));
    assert_eq!(State::new().interpret_immut(&insts, None), Ok(None));
}

#[test]
fn increment_adds_one() {
    let insts = vec![Instruction::Inc];
    let mut s = state(0, 1, &[4, 41, 6]);
    assert_eq!(s.interpret(&insts, None), Ok(Some(Effect::Silent)));
    assert_eq!(s, state(1, 1, &[4, 42, 6]));
}

#[test]
fn decrement_takes_one() {
    let insts = vec![Instruction::Dec];
    let mut s = state(0, 1, &[4, 43, 6]);
    assert_eq!(s.interpret(&insts, None), Ok(Some(Effect::Silent)));
    assert_eq!(s, state(1, 1, &[4, 42, 6]));
}

#[test]
fn increment_at_255_yields_0() {
    let insts = vec![Instruction::Inc];
    let mut s = state(0, 0, &[255]);
    assert_eq!(s.interpret(&insts, None), Ok(Some(Effect::Silent)));
    assert_eq!(s.mem, vec![0u8]);
    assert_eq!(
        state(0, 0, &[255]).interpret_immut(&insts, None),
        Ok(Some((state(1, 0, &[0]), Effect::Silent)))
    );
}

#[test]
fn decrement_at_0_yields_255() {
    let insts = vec![Instruction::Dec];
    let mut s = state(0, 0, &[0]);
    assert_eq!(s.interpret(&insts, None), Ok(Some(Effect::Silent)));
    assert_eq!(s.mem, vec![255u8]);
    assert_eq!(
        state(0, 0, &[0]).interpret_immut(&insts, None),
        Ok(Some((state(1, 0, &[255]), Effect::Silent)))
    );
}

#[test]
fn increment_then_decrement_is_a_round_trip_for_every_value() {
    let insts = vec![Instruction::Inc, Instruction::Dec];
    for v in 0..=255u8 {
        let mut s = state(0, 1, &[9, v, 9]);
        assert_eq!(s.interpret(&insts, None), Ok(Some(Effect::Silent)));
        assert_eq!(s.mem[1], v.wrapping_add(1));
        assert_eq!(s.interpret(&insts, None), Ok(Some(Effect::Silent)));
        assert_eq!(s, state(2, 1, &[9, v, 9]));

        let (s1, _) = state(0, 1, &[9, v, 9]).interpret_immut(&insts, None).unwrap().unwrap();
        let (s2, _) = s1.interpret_immut(&insts, None).unwrap().unwrap();
        assert_eq!(s2, state(2, 1, &[9, v, 9]));
    }
}

#[test]
fn decrement_then_increment_is_a_round_trip_for_every_value() {
    let insts = vec![Instruction::Dec, Instruction::Inc];
    for v in 0..=255u8 {
        let mut s = state(0, 0, &[v]);
        s.interpret(&insts, None).unwrap();
        assert_eq!(s.mem[0], v.wrapping_sub(1));
        s.interpret(&insts, None).unwrap();
        assert_eq!(s.mem[0], v);
    }
}

#[test]
fn right_at_the_tape_end_appends_one_zero_cell() {
    let insts = vec![Instruction::Right];
    let mut s = state(0, 2, &[1, 2, 3]);
    assert_eq!(s.interpret(&insts, None), Ok(Some(Effect::Silent)));
    assert_eq!(s, state(1, 3, &[1, 2, 3, 0]));
}

#[test]
fn right_inside_the_tape_does_not_grow_it() {
    let insts = vec![Instruction::Right];
    let mut s = state(0, 0, &[1, 2, 3]);
    assert_eq!(s.interpret(&insts, None), Ok(Some(Effect::Silent)));
    assert_eq!(s, state(1, 1, &[1, 2, 3]));
}

#[test]
fn repeated_right_visits_only_zero_cells() {
    let insts = vec![Instruction::Right; 40];
    let mut s = State::new();
    for k in 1..=40usize {
        assert_eq!(s.interpret(&insts, None), Ok(Some(Effect::Silent)));
        assert_eq!(s.ptr, k);
        assert_eq!(s.mem.len(), k + 1);
        assert_eq!(s.mem[s.ptr], 0);
    }
    assert_eq!(s.mem, vec![0u8; 41]);
}

#[test]
fn returning_over_old_cells_does_not_grow_the_tape() {
    let insts = vec![
        Instruction::Right,
        Instruction::Inc,
        Instruction::Left,
        Instruction::Right,
        Instruction::Right,
    ];
    let mut s = State::new();
    for _ in 0..5 {
        assert_eq!(s.interpret(&insts, None), Ok(Some(Effect::Silent)));
    }
    assert_eq!(s, state(5, 2, &[0, 1, 0]));
}

#[test]
fn left_moves_the_pointer_back() {
    let insts = vec![Instruction::Left];
    let mut s = state(0, 2, &[1, 2, 3]);
    assert_eq!(s.interpret(&insts, None), Ok(Some(Effect::Silent)));
    assert_eq!(s, state(1, 1, &[1, 2, 3]));
}

#[test]
fn left_on_the_first_cell_is_a_pointer_underflow() {
    let insts = vec![Instruction::Inc, Instruction::Left];
    let mut s = state(1, 0, &[5, 6]);
    assert_eq!(s.interpret(&insts, None), Err(Fault::PointerUnderflow { position: 1 }));
    assert_eq!(s, state(1, 0, &[5, 6]));
    assert_eq!(
        state(1, 0, &[5, 6]).interpret_immut(&insts, None),
        Err(Fault::PointerUnderflow { position: 1 })
    );
}

#[test]
fn input_stores_the_offered_byte() {
    let insts = vec![Instruction::Input];
    let mut s = state(0, 1, &[1, 2, 3]);
    assert_eq!(s.interpret(&insts, Some(200)), Ok(Some(Effect::Consumed)));
    assert_eq!(s, state(1, 1, &[1, 200, 3]));
    assert_eq!(
        state(0, 1, &[1, 2, 3]).interpret_immut(&insts, Some(0)),
        Ok(Some((state(1, 1, &[1, 0, 3]), Effect::Consumed)))
    );
}

#[test]
fn input_without_a_byte_is_input_exhausted() {
    let insts = vec![Instruction::Inc, Instruction::Inc, Instruction::Input];
    let mut s = state(2, 0, &[2]);
    assert_eq!(s.interpret(&insts, None), Err(Fault::InputExhausted { position: 2 }));
    assert_eq!(s, state(2, 0, &[2]));
    assert_eq!(
        state(2, 0, &[2]).interpret_immut(&insts, None),
        Err(Fault::InputExhausted { position: 2 })
    );
}

#[test]
fn offered_byte_is_left_alone_by_other_instructions() {
    let insts = vec![Instruction::Inc, Instruction::Output];
    let mut s = State::new();
    assert_eq!(s.interpret(&insts, Some(77)), Ok(Some(Effect::Silent)));
    assert_eq!(s.interpret(&insts, Some(77)), Ok(Some(Effect::Emitted(1))));
    assert_eq!(s, state(2, 0, &[1]));
}

#[test]
fn output_emits_the_selected_cell() {
    let insts = vec![Instruction::Output];
    let mut s = state(0, 2, &[1, 2, 233]);
    assert_eq!(s.interpret(&insts, None), Ok(Some(Effect::Emitted(233))));
    assert_eq!(s, state(1, 2, &[1, 2, 233]));
    assert_eq!(
        state(0, 0, &[0]).interpret_immut(&insts, None),
        Ok(Some((state(1, 0, &[0]), Effect::Emitted(0))))
    );
}

#[test]
fn forward_jump_on_zero_lands_one_past_its_target() {
    let insts = vec![
        Instruction::JmpForward(2),
        Instruction::Dec,
        Instruction::JmpBack(0),
        Instruction::Inc,
    ];
    let mut s = state(0, 0, &[0]);
    assert_eq!(s.interpret(&insts, None), Ok(Some(Effect::Silent)));
    assert_eq!(s, state(3, 0, &[0]));
}

#[test]
fn forward_jump_on_nonzero_falls_through() {
    let insts = vec![Instruction::JmpForward(2), Instruction::Dec, Instruction::JmpBack(0)];
    let mut s = state(0, 0, &[1]);
    assert_eq!(s.interpret(&insts, None), Ok(Some(Effect::Silent)));
    assert_eq!(s, state(1, 0, &[1]));
}

#[test]
fn backward_jump_on_nonzero_lands_one_past_its_target() {
    let insts = vec![Instruction::JmpForward(2), Instruction::Dec, Instruction::JmpBack(0)];
    let mut s = state(2, 0, &[3]);
    assert_eq!(s.interpret(&insts, None), Ok(Some(Effect::Silent)));
    assert_eq!(s, state(1, 0, &[3]));
}

#[test]
fn backward_jump_on_zero_falls_through() {
    let insts = vec![Instruction::JmpForward(2), Instruction::Dec, Instruction::JmpBack(0)];
    let mut s = state(2, 0, &[0]);
    assert_eq!(s.interpret(&insts, None), Ok(Some(Effect::Silent)));
    assert_eq!(s, state(3, 0, &[0]));
    assert!(s.is_halted(&insts));
}

#[test]
fn forward_jump_to_the_last_instruction_halts() {
    let insts = vec![Instruction::JmpForward(1), Instruction::JmpBack(0)];
    let (s, effect) = State::new().interpret_immut(&insts, None).unwrap().unwrap();
    assert_eq!(effect, Effect::Silent);
    assert_eq!(s, state(2, 0, &[0]));
    assert_eq!(s.interpret_immut(&insts, None), Ok(None));
}

#[test]
fn both_transitions_agree_on_every_instruction() {
    let insts = vec![
        Instruction::Left,
        Instruction::Right,
        Instruction::Input,
        Instruction::Output,
        Instruction::Inc,
        Instruction::Dec,
        Instruction::JmpForward(7),
        Instruction::JmpBack(6),
    ];
    let tapes: [&[u8]; 4] = [&[0], &[255], &[0, 3, 0], &[7, 0, 255]];
    for pc in 0..=insts.len() {
        for tape in tapes {
            for ptr in 0..tape.len() {
                for input in [None, Some(0u8), Some(65u8)] {
                    let mut in_place = state(pc, ptr, tape);
                    let signal = in_place.interpret(&insts, input);
                    let by_value = state(pc, ptr, tape).interpret_immut(&insts, input);
                    match (signal, by_value) {
                        (Ok(Some(e1)), Ok(Some((s, e2)))) => {
                            assert_eq!(e1, e2);
                            assert_eq!(in_place, s);
                        }
                        (Ok(None), Ok(None)) => assert_eq!(in_place, state(pc, ptr, tape)),
                        (Err(f1), Err(f2)) => {
                            assert_eq!(f1, f2);
                            assert_eq!(in_place, state(pc, ptr, tape));
                        }
                        (a, b) => panic!("the transitions disagree: {:?} and {:?}", a, b),
                    }
                }
            }
        }
    }
}

#[test]
fn awaits_input_only_before_an_input_instruction() {
    let insts = vec![Instruction::Inc, Instruction::Input, Instruction::Output];
    assert!(!state(0, 0, &[0]).awaits_input(&insts));
    assert!(state(1, 0, &[0]).awaits_input(&insts));
    assert!(!state(2, 0, &[0]).awaits_input(&insts));
    assert!(!state(3, 0, &[0]).awaits_input(&insts));
}

#[test]
fn is_halted_only_at_the_end() {
    let insts = vec![Instruction::Inc, Instruction::Dec];
    assert!(!state(0, 0, &[0]).is_halted(&insts));
    assert!(!state(1, 0, &[0]).is_halted(&insts));
    assert!(state(2, 0, &[0]).is_halted(&insts));
}
