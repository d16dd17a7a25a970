use brainrust::BrainToken;
use brainrust::RunError;
use brainrust::lex;
use brainrust::run;

const BUDGET: u64 = 1_000_000;

#[test]
fn two_increments_write_two() {
    let toks = lex(b"++.").unwrap();
    assert_eq!(run(toks, b"", BUDGET), Ok(vec![2]));
}

#[test]
fn transfer_loop_writes_one() {
    let toks = lex(b"+[>+<-]>.").unwrap();
    assert_eq!(run(toks, b"", BUDGET), Ok(vec![1]));
}

#[test]
fn echo_one_byte() {
    let toks = lex(b",.").unwrap();
    assert_eq!(run(toks, &[65], BUDGET), Ok(vec![65]));
}

#[test]
fn empty_loop_on_zero_cell_terminates() {
    let toks = lex(b"[]").unwrap();
    assert_eq!(run(toks, b"", BUDGET), Ok(vec![]));
}

#[test]
fn empty_program_terminates() {
    let toks = lex(b"").unwrap();
    assert_eq!(run(toks, b"", BUDGET), Ok(vec![]));
}

#[test]
fn nop_is_tolerated() {
    assert_eq!(run(vec![BrainToken::Nop], b"", BUDGET), Ok(vec![]));
}

#[test]
fn decrement_wraps_to_255() {
    let toks = lex(b"-.").unwrap();
    assert_eq!(run(toks, b"", BUDGET), Ok(vec![255]));
}

#[test]
fn increment_wraps_to_zero() {
    let mut src = vec![b'+'; 256];
    src.push(b'.');
    let toks = lex(&src).unwrap();
    assert_eq!(run(toks, b"", BUDGET), Ok(vec![0]));
}

#[test]
fn multiply_loop() {
    let toks = lex(b"++[>+++<-]>.").unwrap();
    assert_eq!(run(toks, b"", BUDGET), Ok(vec![6]));
}

#[test]
fn read_past_input_fails() {
    let toks = lex(b",,").unwrap();
    assert_eq!(run(toks, &[7], BUDGET), Err(RunError::InputExhausted));
}

#[test]
fn move_left_of_tape_fails() {
    let toks = lex(b"<").unwrap();
    assert_eq!(run(toks, b"", BUDGET), Err(RunError::PointerOutOfBounds));
}

#[test]
fn move_right_of_tape_fails() {
    let src = vec![b'>'; 30_000];
    let toks = lex(&src).unwrap();
    assert_eq!(run(toks, b"", 100_000), Err(RunError::PointerOutOfBounds));
}

#[test]
fn move_to_last_cell_is_fine() {
    let src = vec![b'>'; 29_999];
    let toks = lex(&src).unwrap();
    assert_eq!(run(toks, b"", 100_000), Ok(vec![]));
}

#[test]
fn spinning_loop_hits_step_limit() {
    let toks = lex(b"+[]").unwrap();
    assert_eq!(run(toks, b"", 1000), Err(RunError::StepLimit));
}

#[test]
fn step_limit_zero_on_nonempty_program() {
    let toks = lex(b"+").unwrap();
    assert_eq!(run(toks, b"", 0), Err(RunError::StepLimit));
}
