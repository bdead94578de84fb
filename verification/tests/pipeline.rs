use brainf::encoder::encode_runs;
use brainf::errors::RunError;
use brainf::interpreter::{get_ops, interpret};
use brainf::lexer::lexed;
use brainf::ops::{Op, OpKind};

#[test]
fn lexed_keeps_symbols_in_order() {
    let r = lexed("a+b[-c]>x.");
    assert_eq!(r, vec!['+', '[', '-', ']', '>', '.']);
}

#[test]
fn lexed_drops_everything_outside_the_alphabet() {
    let r = lexed("hello world");
    assert!(r.is_empty());
}

#[test]
fn from_char_classifies_every_symbol() {
    assert_eq!(OpKind::from_char('+'), Ok(OpKind::Inc));
    assert_eq!(OpKind::from_char('-'), Ok(OpKind::Dec));
    assert_eq!(OpKind::from_char('>'), Ok(OpKind::Right));
    assert_eq!(OpKind::from_char('<'), Ok(OpKind::Left));
    assert_eq!(OpKind::from_char('.'), Ok(OpKind::Out));
    assert_eq!(OpKind::from_char(','), Ok(OpKind::In));
    assert_eq!(OpKind::from_char('['), Ok(OpKind::LoopStart));
    assert_eq!(OpKind::from_char(']'), Ok(OpKind::LoopEnd));
}

#[test]
fn from_char_rejects_other_characters() {
    assert_eq!(OpKind::from_char('x'), Err(()));
    assert_eq!(OpKind::from_char(' '), Err(()));
}

#[test]
fn empty_program_is_rejected() {
    let input: Vec<u8> = vec![];
    let r = interpret("hello world", &input, 1000);
    assert_eq!(r, Some(Err(RunError::EmptyProgram)));
}

#[test]
fn run_length_merges_a_run() {
    let r = encode_runs(&vec!['+', '+', '+']);
    assert_eq!(r, vec![Op { kind: OpKind::Inc, operand: 3 }]);
}

#[test]
fn run_length_never_merges_across_a_change() {
    let r = encode_runs(&vec!['+', '-', '+']);
    assert_eq!(
        r,
        vec![
            Op { kind: OpKind::Inc, operand: 1 },
            Op { kind: OpKind::Dec, operand: 1 },
            Op { kind: OpKind::Inc, operand: 1 },
        ]
    );
}

#[test]
fn brackets_never_merge() {
    let r = encode_runs(&vec!['[', '[']);
    assert_eq!(
        r,
        vec![
            Op { kind: OpKind::LoopStart, operand: 0 },
            Op { kind: OpKind::LoopStart, operand: 0 },
        ]
    );
}

#[test]
fn io_symbols_merge_like_arithmetic() {
    let r = encode_runs(&vec!['.', '.', ',', ',']);
    assert_eq!(
        r,
        vec![
            Op { kind: OpKind::Out, operand: 2 },
            Op { kind: OpKind::In, operand: 2 },
        ]
    );
}

#[test]
fn bracket_resolution_links_nested_pairs_both_ways() {
    let r = get_ops(vec!['[', '[', ']', '[', ']', ']']).unwrap();
    let pairs = [(0usize, 5usize), (1, 2), (3, 4)];
    for (open, close) in pairs {
        assert_eq!(r[open].kind, OpKind::LoopStart);
        assert_eq!(r[open].operand, close);
        assert_eq!(r[close].kind, OpKind::LoopEnd);
        assert_eq!(r[close].operand, open);
    }
}

#[test]
fn close_with_no_open_anywhere() {
    let r = get_ops(vec![']']);
    assert_eq!(r, Err(RunError::UnmatchedCloseBracketNoOpen { index: 0 }));
}

#[test]
fn open_with_no_close() {
    let r = get_ops(vec!['[']);
    assert_eq!(r, Err(RunError::UnmatchedOpenBracket { index: 0 }));
}

#[test]
fn close_after_all_opens_are_matched() {
    let r = get_ops(vec!['[', ']', ']']);
    assert_eq!(r, Err(RunError::UnmatchedCloseBracketBeforeOpen { index: 2 }));
}

#[test]
fn unmatched_open_is_reported_at_the_first_one() {
    let r = get_ops(vec!['[', ']', '[', '[']);
    assert_eq!(r, Err(RunError::UnmatchedOpenBracket { index: 2 }));
}

#[test]
fn resolution_counts_operation_indices_not_symbol_indices() {
    // The run "++" collapses to one operation, so the brackets sit at
    // operation indices 1 and 3, not at symbol indices 2 and 4.
    let r = get_ops(vec!['+', '+', '[', '-', ']']).unwrap();
    assert_eq!(r[1].kind, OpKind::LoopStart);
    assert_eq!(r[1].operand, 3);
    assert_eq!(r[3].kind, OpKind::LoopEnd);
    assert_eq!(r[3].operand, 1);
}
