use brainfuck_rust::{interpret, lex, Config, Interpreter, InterpreterError, RunError, StateTransitionError};

const STEPS: u64 = 10_000_000;

fn run_text(text: &str, input: &[u8]) -> Result<Vec<u8>, RunError> {
    let tokens = lex(text);
    interpret(&tokens, &input.to_vec(), STEPS)
}

#[test]
fn hello_world_program() {
    let text = "++++++++[>++++[>++>+++>+++>+<<<<-]>+>+>->>+[<]<-]>>.>---.+++++++..+++.>>.<-.<.+++.------.--------.>>+.>++.";
    let output = run_text(text, &[]).unwrap();
    assert_eq!(String::from_utf8(output).unwrap(), "Hello World!\n");
}

#[test]
fn unmatched_open_bracket_on_zero_cell_fails() {
    assert_eq!(
        run_text("[", &[]),
        Err(RunError::Interpreter(InterpreterError::TokenIndexOutOfBound))
    );
    assert_eq!(
        run_text("+[-][", &[]),
        Err(RunError::Interpreter(InterpreterError::TokenIndexOutOfBound))
    );
}

#[test]
fn unmatched_close_bracket_on_nonzero_cell_fails() {
    assert_eq!(
        run_text("+]", &[]),
        Err(RunError::Interpreter(InterpreterError::TokenIndexOutOfBound))
    );
    assert_eq!(
        run_text("+[-]+]", &[]),
        Err(RunError::Interpreter(InterpreterError::TokenIndexOutOfBound))
    );
}

#[test]
fn tape_errors_pass_through() {
    assert_eq!(
        run_text("<", &[]),
        Err(RunError::State(StateTransitionError::PointerUnderflow))
    );
    assert_eq!(
        run_text("-", &[]),
        Err(RunError::State(StateTransitionError::CellUnderflow))
    );
    assert_eq!(
        run_text(&"+".repeat(256), &[]),
        Err(RunError::State(StateTransitionError::CellOverflow))
    );
    assert_eq!(
        run_text("+[>+]", &[]),
        Err(RunError::State(StateTransitionError::PointerOverflow))
    );
}

#[test]
fn endless_loop_hits_step_limit() {
    let tokens = lex("+[]");
    assert_eq!(
        interpret(&tokens, &Vec::new(), 100),
        Err(RunError::StepLimitReached)
    );
    assert_eq!(RunError::StepLimitReached.message(), "step limit reached");
}

#[test]
fn input_is_read_in_order_and_zero_when_exhausted() {
    assert_eq!(run_text(",.,.", &[65, 66]), Ok(vec![65, 66]));
    assert_eq!(run_text(",+.", &[]), Ok(vec![1]));
    assert_eq!(run_text("+,.", &[]), Ok(vec![0]));
}

#[test]
fn stepping_by_hand() {
    let tokens = lex(",.");
    let mut interpreter = Interpreter::new(&tokens);
    assert!(!interpreter.is_finished());
    assert!(interpreter.awaits_input());
    assert_eq!(interpreter.step(9), Ok(None));
    assert!(!interpreter.awaits_input());
    assert_eq!(interpreter.step(0), Ok(Some(9)));
    assert!(interpreter.is_finished());
    assert_eq!(interpreter.step(0), Ok(None));
    assert_eq!(interpreter.token_index, 2);
}

#[test]
fn jumps_land_after_matching_bracket() {
    let tokens = lex("[[]+]");
    let mut interpreter = Interpreter::new(&tokens);
    assert_eq!(interpreter.jump_forward(), Ok(()));
    assert_eq!(interpreter.token_index, 5);
    interpreter.token_index = 4;
    assert_eq!(interpreter.jump_backward(), Ok(()));
    assert_eq!(interpreter.token_index, 1);
    interpreter.token_index = 2;
    assert_eq!(interpreter.jump_backward(), Ok(()));
    assert_eq!(interpreter.token_index, 2);
}

#[test]
fn jumps_without_match_fail_in_place() {
    let tokens = lex("]+[");
    let mut interpreter = Interpreter::new(&tokens);
    assert_eq!(interpreter.jump_backward(), Err(InterpreterError::TokenIndexOutOfBound));
    assert_eq!(interpreter.token_index, 0);
    interpreter.token_index = 2;
    assert_eq!(interpreter.jump_forward(), Err(InterpreterError::TokenIndexOutOfBound));
    assert_eq!(interpreter.token_index, 2);
}

#[test]
fn config_needs_a_path() {
    let args = vec![String::from("bf")];
    assert_eq!(
        Config::build(&args).err(),
        Some("no path to brainfuck file provided.")
    );
    let args = vec![String::from("bf"), String::from("prog.bf")];
    assert_eq!(Config::build(&args).unwrap().brainfuck_file_path, "prog.bf");
}
