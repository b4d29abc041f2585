use bfi::{check_balanced, parse, LoadError, Operation, Program, Signal, Tape, MEMORY_CELLS};

fn program(src: &str) -> Program {
    match Program::load(parse(src.as_bytes())) {
        Ok(p) => p,
        Err(e) => panic!("program refused: {:?}", e),
    }
}

#[test]
fn cursors_stay_on_the_tapes() {
    let mut prog = program(">>+<<[->+<]");
    let mut steps = 0;
    while *prog.ops.cell() != Operation::NoOp && steps < 100 {
        prog.step();
        assert!(prog.ops.cursor < prog.ops.data.len());
        assert!(prog.memory.cursor < prog.memory.data.len());
        steps += 1;
    }
}

#[test]
fn increment_and_decrement_undo_each_other() {
    for v in [0u8, 1, 7, 128, 254, 255] {
        let mut prog = program("+-");
        *prog.memory.cell_mut() = v;
        prog.step();
        prog.step();
        assert_eq!(*prog.memory.cell(), v);
        let mut prog = program("-+");
        *prog.memory.cell_mut() = v;
        prog.step();
        prog.step();
        assert_eq!(*prog.memory.cell(), v);
    }
}

#[test]
fn decrement_from_zero_wraps() {
    let mut prog = program("-");
    assert_eq!(prog.step(), Signal::Continue);
    assert_eq!(*prog.memory.cell(), 255);
}

#[test]
fn memory_tape_doubles_with_zeros() {
    let mut tape = Tape::new(vec![3u8, 4]);
    tape.mv_right();
    assert_eq!(tape.data, vec![3, 4]);
    tape.mv_right();
    assert_eq!(tape.data, vec![3, 4, 0, 0]);
    tape.mv_right();
    assert_eq!(tape.data, vec![3, 4, 0, 0]);
    tape.mv_right();
    assert_eq!(tape.data, vec![3, 4, 0, 0, 0, 0, 0, 0]);
    assert_eq!(tape.cursor, 4);
}

#[test]
fn instruction_tape_doubles_with_noops() {
    let mut prog = program("++");
    prog.step();
    assert_eq!(prog.ops.data.len(), 2);
    prog.step();
    assert_eq!(
        prog.ops.data,
        vec![
            Operation::Increment,
            Operation::Increment,
            Operation::NoOp,
            Operation::NoOp
        ]
    );
}

#[test]
fn fresh_memory_is_zeroed() {
    let prog = program("+");
    assert_eq!(prog.memory.data.len(), MEMORY_CELLS);
    assert_eq!(MEMORY_CELLS, 512);
    assert!(prog.memory.data.iter().all(|c| *c == 0));
}

#[test]
fn jump_forward_lands_past_matching_bracket() {
    // [ [ - ] + ] >
    let mut prog = program("[[-]+]>");
    prog.step();
    assert_eq!(prog.ops.cursor, 6);
    assert_eq!(*prog.ops.cell(), Operation::MoveRight);
}

#[test]
fn jump_forward_falls_through_on_nonzero() {
    let mut prog = program("[-]");
    *prog.memory.cell_mut() = 2;
    prog.step();
    assert_eq!(prog.ops.cursor, 1);
}

#[test]
fn jump_back_lands_past_matching_bracket() {
    // + [ > [ - ] < - ]
    let mut prog = program("+[>[-]<-]");
    prog.ops.cursor = 8;
    *prog.memory.cell_mut() = 1;
    prog.step();
    assert_eq!(prog.ops.cursor, 2);
    assert_eq!(*prog.ops.cell(), Operation::MoveRight);
}

#[test]
fn jump_back_falls_through_on_zero() {
    let mut prog = program("[]");
    prog.ops.cursor = 1;
    prog.step();
    assert_eq!(prog.ops.cursor, 2);
}

#[test]
fn scenario_single_increment_halts_after_one_step() {
    let mut prog = program("+");
    assert_eq!(prog.run_for(1), Signal::Paused);
    assert_eq!(*prog.memory.cell(), 1);
    assert_eq!(prog.run_for(1), Signal::Halt);
    assert_eq!(prog.ops.cursor, 1);
}

#[test]
fn scenario_increment_then_decrement() {
    let mut prog = program("+-");
    assert_eq!(prog.run(), Signal::Halt);
    assert_eq!(*prog.memory.cell(), 0);
    assert_eq!(prog.ops.cursor, 2);
}

#[test]
fn scenario_step_from_255() {
    let mut prog = program("+");
    *prog.memory.cell_mut() = 255;
    prog.step();
    assert_eq!(*prog.memory.cell(), 0);
}

#[test]
fn scenario_loop_body_runs_once() {
    let mut prog = program("+[-]");
    assert_eq!(prog.run_for(4), Signal::Paused);
    assert_eq!(*prog.memory.cell(), 0);
    assert_eq!(prog.ops.cursor, 4);
    assert_eq!(prog.run_for(10), Signal::Halt);
    assert_eq!(prog.ops.cursor, 4);
}

#[test]
fn scenario_nested_loops_drain() {
    let mut prog = program("+[[-]]");
    assert_eq!(prog.run(), Signal::Halt);
    assert_eq!(*prog.memory.cell(), 0);
    assert_eq!(prog.ops.cursor, 6);
}

#[test]
fn scenario_thousand_moves_right() {
    let src = ">".repeat(1000);
    let mut prog = program(&src);
    assert_eq!(prog.run(), Signal::Halt);
    assert_eq!(prog.memory.cursor, 1000);
    assert!(prog.memory.data.len() >= 1024);
    assert_eq!(prog.memory.data.len(), 1024);
}

#[test]
fn output_reports_the_cell() {
    let mut prog = program("+++.+");
    assert_eq!(prog.run(), Signal::Output(3));
    assert_eq!(prog.prt(), 3);
    assert_eq!(prog.run(), Signal::Halt);
    assert_eq!(*prog.memory.cell(), 4);
}

#[test]
fn input_stores_the_value() {
    let mut prog = program(",+");
    assert_eq!(prog.run(), Signal::Input);
    prog.inp(65);
    assert_eq!(prog.run(), Signal::Halt);
    assert_eq!(*prog.memory.cell(), 66);
}

#[test]
fn move_left_from_origin_is_refused() {
    let mut prog = program("+<");
    assert_eq!(prog.run(), Signal::Underflow);
    assert_eq!(prog.ops.cursor, 1);
    assert_eq!(prog.memory.cursor, 0);
    assert_eq!(*prog.memory.cell(), 1);
}

#[test]
fn move_left_after_right_returns() {
    let mut prog = program(">+<");
    assert_eq!(prog.run(), Signal::Halt);
    assert_eq!(prog.memory.cursor, 0);
    assert_eq!(prog.memory.data[1], 1);
}

#[test]
fn load_rejects_empty_and_unbalanced() {
    assert_eq!(Program::load(vec![]).err(), Some(LoadError::Empty));
    assert_eq!(Program::load(parse(b"]")).err(), Some(LoadError::Unbalanced));
    assert_eq!(Program::load(parse(b"[")).err(), Some(LoadError::Unbalanced));
    assert_eq!(Program::load(parse(b"][")).err(), Some(LoadError::Unbalanced));
    assert!(Program::load(parse(b"[]")).is_ok());
}

#[test]
fn balance_check() {
    assert!(check_balanced(&[]));
    assert!(check_balanced(&parse(b"+[[-]>]")));
    assert!(!check_balanced(&parse(b"[[]")));
    assert!(!check_balanced(&parse(b"[]]")));
}

#[test]
fn parse_skips_other_symbols() {
    assert_eq!(
        parse(b"a+ -\n[<>.,]x"),
        vec![
            Operation::Increment,
            Operation::Decrement,
            Operation::JumpForward,
            Operation::MoveLeft,
            Operation::MoveRight,
            Operation::Output,
            Operation::Input,
            Operation::JumpBack
        ]
    );
    assert_eq!(parse(b"hello"), vec![]);
}

#[test]
fn symbols_decode() {
    assert_eq!(Operation::from('>'), Operation::MoveRight);
    assert_eq!(Operation::from('<'), Operation::MoveLeft);
    assert_eq!(Operation::from('+'), Operation::Increment);
    assert_eq!(Operation::from('-'), Operation::Decrement);
    assert_eq!(Operation::from('.'), Operation::Output);
    assert_eq!(Operation::from(','), Operation::Input);
    assert_eq!(Operation::from('['), Operation::JumpForward);
    assert_eq!(Operation::from(']'), Operation::JumpBack);
    assert_eq!(Operation::from('q'), Operation::NoOp);
    assert_eq!(Operation::from(b'+'), Operation::Increment);
    assert_eq!(Operation::from(b'a'), Operation::NoOp);
    assert_eq!(Operation::default(), Operation::NoOp);
}
