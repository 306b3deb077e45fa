use vstd::prelude::*;

pub mod config;
pub mod interpreter;
pub mod state;
pub mod token;

pub use config::Config;
pub use interpreter::{Interpreter, InterpreterError, RunError};
pub use state::{State, StateTransitionError};
pub use token::{Token, TokenValue};

use interpreter::{initial_machine, run_of};

verus! {

/// Turns program text into a program: one token for each character that has
/// an instruction meaning, in order, then the end marker.
pub fn lex(program_string: &str) -> (r: Vec<Token>)
    ensures
        r@ == token::program_of(program_string@),
        token::is_program(r@),
{
    let mut tokens: Vec<Token> = Vec::new();
    let ghost text = program_string@;
    for c in it: program_string.chars()
        invariant
            it.seq() == text,
            tokens@ == token::tokens_of(text.take(it.index() as int)),
    {
        proof {
            assert(text.take(it.index() + 1).drop_last() =~= text.take(it.index() as int));
        }
        if let Some(t) = Token::build(c) {
            tokens.push(t);
        }
    }
    proof {
        assert(text.take(text.len() as int) =~= text);
        token::lemma_program_of_is_program(text);
    }
    tokens.push(Token::build_end());
    tokens
}

/// Runs a program on a fresh tape for at most `max_steps` steps, input
/// instructions reading `input` in order (0 once it is used up). Returns
/// the bytes emitted, or the error that stopped the run.
pub fn interpret(tokens: &Vec<Token>, input: &Vec<u8>, max_steps: u64) -> (r: Result<
    Vec<u8>,
    RunError,
>)
    requires
        token::is_program(tokens@),
    ensures
        ({
            let t = run_of(tokens@, initial_machine(), input@, max_steps as nat);
            match r {
                Ok(out) => t.error is None && out@ == t.output,
                Err(e) => t.error == Some(e),
            }
        }),
{
    let mut interpreter = Interpreter::new(tokens);
    assert(interpreter@ == initial_machine());
    interpreter.interpret(input, max_steps)
}

} // verus!
