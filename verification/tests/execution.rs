use brainf::errors::RunError;
use brainf::interpreter::{get_ops, interpret};
use brainf::machine::{run, TAPE_LEN};

const BUDGET: usize = 10_000_000;

#[test]
fn end_to_end_square_of_eight() {
    let input: Vec<u8> = vec![];
    let r = interpret("++++++++[>++++++++<-]>.", &input, BUDGET);
    match r {
        Some(Ok(h)) => {
            assert_eq!(h.output, vec![64]);
            assert_eq!(h.tape[1], 64);
            assert_eq!(h.tape[0], 0);
            assert_eq!(h.pointer, 1);
            assert_eq!(h.tape.len(), TAPE_LEN);
        }
        other => panic!("expected a completed run, got {:?}", other.map(|x| x.map(|h| h.output))),
    }
}

#[test]
fn left_at_pointer_zero_underflows() {
    let input: Vec<u8> = vec![];
    let r = interpret("<", &input, BUDGET);
    assert_eq!(r, Some(Err(RunError::PointerUnderflow { pc: 0 })));
}

#[test]
fn left_past_the_current_pointer_underflows() {
    let input: Vec<u8> = vec![];
    let r = interpret(">><<<", &input, BUDGET);
    assert_eq!(r, Some(Err(RunError::PointerUnderflow { pc: 1 })));
}

#[test]
fn right_to_exactly_the_tape_length_overflows() {
    let input: Vec<u8> = vec![];
    let source = ">".repeat(TAPE_LEN);
    let r = interpret(&source, &input, BUDGET);
    assert_eq!(r, Some(Err(RunError::PointerOverflow { pc: 0 })));
}

#[test]
fn right_to_the_last_cell_is_allowed() {
    let input: Vec<u8> = vec![];
    let source = ">".repeat(TAPE_LEN - 1);
    let r = interpret(&source, &input, BUDGET);
    match r {
        Some(Ok(h)) => assert_eq!(h.pointer, TAPE_LEN - 1),
        other => panic!("expected a completed run, got {:?}", other.map(|x| x.map(|h| h.pointer))),
    }
}

#[test]
fn cell_addition_wraps_modulo_256() {
    let input: Vec<u8> = vec![];
    let source = format!("{}.", "+".repeat(300));
    let r = interpret(&source, &input, BUDGET);
    match r {
        Some(Ok(h)) => assert_eq!(h.output, vec![44]),
        other => panic!("expected a completed run, got {:?}", other.map(|x| x.map(|h| h.output))),
    }
}

#[test]
fn cell_subtraction_wraps_modulo_256() {
    let input: Vec<u8> = vec![];
    let r = interpret("-.", &input, BUDGET);
    match r {
        Some(Ok(h)) => assert_eq!(h.output, vec![255]),
        other => panic!("expected a completed run, got {:?}", other.map(|x| x.map(|h| h.output))),
    }
}

#[test]
fn output_run_emits_once_per_unit() {
    let input: Vec<u8> = vec![];
    let r = interpret("++..", &input, BUDGET);
    match r {
        Some(Ok(h)) => assert_eq!(h.output, vec![2, 2]),
        other => panic!("expected a completed run, got {:?}", other.map(|x| x.map(|h| h.output))),
    }
}

#[test]
fn input_byte_lands_in_the_current_cell() {
    let input: Vec<u8> = vec![65];
    let r = interpret(",.", &input, BUDGET);
    match r {
        Some(Ok(h)) => {
            assert_eq!(h.output, vec![65]);
            assert_eq!(h.input_read, 1);
        }
        other => panic!("expected a completed run, got {:?}", other.map(|x| x.map(|h| h.output))),
    }
}

#[test]
fn merged_input_run_reads_a_single_record() {
    let input: Vec<u8> = vec![65, 66];
    let r = interpret(",,.", &input, BUDGET);
    match r {
        Some(Ok(h)) => {
            assert_eq!(h.output, vec![65]);
            assert_eq!(h.input_read, 1);
        }
        other => panic!("expected a completed run, got {:?}", other.map(|x| x.map(|h| h.output))),
    }
}

#[test]
fn exhausted_input_is_an_error() {
    let input: Vec<u8> = vec![];
    let r = interpret(",", &input, BUDGET);
    assert_eq!(r, Some(Err(RunError::InputExhausted { pc: 0 })));
}

#[test]
fn two_runs_on_fresh_tapes_emit_identical_output() {
    let source = "++[>+++<-]>.+.";
    let input1: Vec<u8> = vec![];
    let input2: Vec<u8> = vec![];
    let out1 = match interpret(source, &input1, BUDGET) {
        Some(Ok(h)) => h.output,
        other => panic!("expected a completed run, got {:?}", other.map(|x| x.map(|h| h.output))),
    };
    let out2 = match interpret(source, &input2, BUDGET) {
        Some(Ok(h)) => h.output,
        other => panic!("expected a completed run, got {:?}", other.map(|x| x.map(|h| h.output))),
    };
    assert_eq!(out1, out2);
    assert_eq!(out1, vec![6, 7]);
}

#[test]
fn a_runaway_loop_exhausts_the_budget() {
    let input: Vec<u8> = vec![];
    let r = interpret("+[]", &input, 1000);
    assert!(r.is_none());
}

#[test]
fn run_accepts_a_resolved_program_directly() {
    let ops = get_ops(vec!['+', '+', '.']).unwrap();
    let input: Vec<u8> = vec![];
    match run(&ops, &input, BUDGET) {
        Some(Ok(h)) => {
            assert_eq!(h.output, vec![2]);
            assert_eq!(h.input_read, 0);
        }
        other => panic!("expected a completed run, got {:?}", other.map(|x| x.map(|h| h.output))),
    }
}
