use vstd::prelude::*;

use crate::state::{State, StateTransitionError, TAPE_SIZE};
use crate::token::{is_program, Token, TokenValue};

verus! {

/// A failed bracket search.
#[derive(PartialEq, Eq, Structural, Clone, Copy, Debug)]
pub enum InterpreterError {
    /// A bracket search ran past either end of the program without finding
    /// the matching bracket.
    TokenIndexOutOfBound,
    /// The bracket structure is unbalanced. The searches here never count
    /// below zero, so they report a missing match as `TokenIndexOutOfBound`.
    NestingError,
}

impl InterpreterError {
    /// A short description of the error.
    pub fn message(&self) -> &'static str {
        match self {
            InterpreterError::TokenIndexOutOfBound => "token index is out of bound",
            InterpreterError::NestingError => "loop nesting is incorrect",
        }
    }
}

/// Why a run stopped short of the end of its program.
#[derive(PartialEq, Eq, Structural, Clone, Copy, Debug)]
pub enum RunError {
    /// A tape operation failed.
    State(StateTransitionError),
    /// A bracket search failed.
    Interpreter(InterpreterError),
    /// The run used up the steps it was allowed.
    StepLimitReached,
}

impl RunError {
    /// A short description of the error.
    pub fn message(&self) -> &'static str {
        match self {
            RunError::State(e) => e.message(),
            RunError::Interpreter(e) => e.message(),
            RunError::StepLimitReached => "step limit reached",
        }
    }
}

/// How a bracket changes the nesting depth while scanning forward.
pub open spec fn weight(t: Token) -> int {
    match t.value {
        TokenValue::JumpForwardIfZero => 1,
        TokenValue::JumpBackwardIfNonZero => -1,
        _ => 0,
    }
}

/// Opening brackets minus closing brackets among the tokens `lo .. hi`.
pub open spec fn nesting(p: Seq<Token>, lo: int, hi: int) -> int
    decreases hi - lo,
{
    if hi <= lo {
        0
    } else {
        nesting(p, lo, hi - 1) + weight(p[hi - 1])
    }
}

/// The token at `m` is the closing bracket that matches the opening bracket
/// at `c`: it is the first place after `c` where more brackets close than
/// open.
pub open spec fn closes_at(p: Seq<Token>, c: int, m: int) -> bool {
    &&& c < m < p.len()
    &&& nesting(p, c + 1, m + 1) == -1
    &&& forall|k: int| c < k <= m ==> #[trigger] nesting(p, c + 1, k) >= 0
}

/// The token at `m` is the opening bracket that matches the closing bracket
/// at `c`: it is the first place before `c` where, scanning backward, more
/// brackets open than close.
pub open spec fn opens_at(p: Seq<Token>, c: int, m: int) -> bool {
    &&& 0 <= m < c
    &&& nesting(p, m, c) == 1
    &&& forall|k: int| m < k <= c ==> #[trigger] nesting(p, k, c) <= 0
}

/// Where execution goes on when the loop opened at `c` is skipped: just
/// after its closing bracket, if it has one.
pub open spec fn forward_target(p: Seq<Token>, c: int) -> Option<int> {
    if exists|m: int| closes_at(p, c, m) {
        Some((choose|m: int| closes_at(p, c, m)) + 1)
    } else {
        None
    }
}

/// Where execution goes on when the loop closed at `c` is repeated: just
/// after its opening bracket, if it has one.
pub open spec fn backward_target(p: Seq<Token>, c: int) -> Option<int> {
    if exists|m: int| opens_at(p, c, m) {
        Some((choose|m: int| opens_at(p, c, m)) + 1)
    } else {
        None
    }
}

/// An opening bracket has at most one matching closing bracket.
pub proof fn lemma_closes_at_unique(p: Seq<Token>, c: int, m1: int, m2: int)
    requires
        closes_at(p, c, m1),
        closes_at(p, c, m2),
    ensures
        m1 == m2,
{
}

/// A closing bracket has at most one matching opening bracket.
pub proof fn lemma_opens_at_unique(p: Seq<Token>, c: int, m1: int, m2: int)
    requires
        opens_at(p, c, m1),
        opens_at(p, c, m2),
    ensures
        m1 == m2,
{
}

/// The nesting of a range is that of its first token plus that of the rest.
pub proof fn lemma_nesting_front(p: Seq<Token>, lo: int, hi: int)
    requires
        0 <= lo < hi <= p.len(),
    ensures
        nesting(p, lo, hi) == weight(p[lo]) + nesting(p, lo + 1, hi),
    decreases hi - lo,
{
    if lo + 1 < hi {
        lemma_nesting_front(p, lo, hi - 1);
    } else {
        assert(nesting(p, lo, lo) == 0);
        assert(nesting(p, lo + 1, hi) == 0);
    }
}


/// A running program: the tape, the program, and the index of the token
/// to execute next.
pub struct Interpreter<'a> {
    pub state: State,
    pub tokens: &'a Vec<Token>,
    pub token_index: usize,
}

/// The abstract state of a run: the cells, the pointer and the cursor.
pub struct Machine {
    pub cells: Seq<u8>,
    pub pointer: int,
    pub cursor: int,
}

/// The machine with the cursor on the next token.
pub open spec fn advance(m: Machine) -> Machine {
    Machine { cursor: m.cursor + 1, ..m }
}

/// The effect of executing the token at the cursor of `m` in program `p`:
/// the next machine and the byte emitted, if any, or the error that stops
/// the run. `input` is the byte that an input instruction stores. On the
/// end marker nothing changes.
pub open spec fn step_of(p: Seq<Token>, m: Machine, input: u8) -> Result<
    (Machine, Option<u8>),
    RunError,
> {
    let cell = m.cells[m.pointer];
    match p[m.cursor].value {
        TokenValue::MoveRight => if m.pointer == TAPE_SIZE - 1 {
            Err(RunError::State(StateTransitionError::PointerOverflow))
        } else {
            Ok((advance(Machine { pointer: m.pointer + 1, ..m }), None))
        },
        TokenValue::MoveLeft => if m.pointer == 0 {
            Err(RunError::State(StateTransitionError::PointerUnderflow))
        } else {
            Ok((advance(Machine { pointer: m.pointer - 1, ..m }), None))
        },
        TokenValue::IncrementCell => if cell == 255 {
            Err(RunError::State(StateTransitionError::CellOverflow))
        } else {
            Ok((advance(Machine { cells: m.cells.update(m.pointer, (cell + 1) as u8), ..m }), None))
        },
        TokenValue::DecrementCell => if cell == 0 {
            Err(RunError::State(StateTransitionError::CellUnderflow))
        } else {
            Ok((advance(Machine { cells: m.cells.update(m.pointer, (cell - 1) as u8), ..m }), None))
        },
        TokenValue::Output => Ok((advance(m), Some(cell))),
        TokenValue::Input => Ok((advance(Machine { cells: m.cells.update(m.pointer, input), ..m }), None)),
        TokenValue::JumpForwardIfZero => if cell == 0 {
            match forward_target(p, m.cursor) {
                Some(t) => Ok((Machine { cursor: t, ..m }, None)),
                None => Err(RunError::Interpreter(InterpreterError::TokenIndexOutOfBound)),
            }
        } else {
            Ok((advance(m), None))
        },
        TokenValue::JumpBackwardIfNonZero => if cell != 0 {
            match backward_target(p, m.cursor) {
                Some(t) => Ok((Machine { cursor: t, ..m }, None)),
                None => Err(RunError::Interpreter(InterpreterError::TokenIndexOutOfBound)),
            }
        } else {
            Ok((advance(m), None))
        },
        TokenValue::End => Ok((m, None)),
    }
}

/// The machine a run starts from: every cell 0, pointer and cursor on the
/// first cell and token.
pub open spec fn initial_machine() -> Machine {
    Machine { cells: Seq::new(TAPE_SIZE as nat, |i: int| 0u8), pointer: 0, cursor: 0 }
}

/// How a bounded run ends: the machine it stops in, the bytes it emitted,
/// and the error that stopped it, if any.
pub struct Trace {
    pub machine: Machine,
    pub output: Seq<u8>,
    pub error: Option<RunError>,
}

/// The bytes that one step emits.
pub open spec fn emitted(out: Option<u8>) -> Seq<u8> {
    match out {
        Some(b) => seq![b],
        None => seq![],
    }
}

/// The byte that the next input instruction reads: the first one left, or 0
/// once the input is used up.
pub open spec fn next_input(input: Seq<u8>) -> u8 {
    if input.len() > 0 {
        input[0]
    } else {
        0
    }
}

/// The input left after executing the token at the cursor of `m`.
pub open spec fn input_after(p: Seq<Token>, m: Machine, input: Seq<u8>) -> Seq<u8> {
    if p[m.cursor].value == TokenValue::Input && input.len() > 0 {
        input.drop_first()
    } else {
        input
    }
}

/// A trace with `out` emitted before it.
pub open spec fn after_output(out: Seq<u8>, t: Trace) -> Trace {
    Trace { output: out + t.output, ..t }
}

/// Program `p` run from `m` on `input` for at most `fuel` steps. It stops
/// successfully on the end marker, and with an error when a step fails or
/// when no step is left.
pub open spec fn run_of(p: Seq<Token>, m: Machine, input: Seq<u8>, fuel: nat) -> Trace
    decreases fuel,
{
    if p[m.cursor].value == TokenValue::End {
        Trace { machine: m, output: seq![], error: None }
    } else if fuel == 0 {
        Trace { machine: m, output: seq![], error: Some(RunError::StepLimitReached) }
    } else {
        match step_of(p, m, next_input(input)) {
            Err(e) => Trace { machine: m, output: seq![], error: Some(e) },
            Ok((next, out)) => after_output(
                emitted(out),
                run_of(p, next, input_after(p, m, input), (fuel - 1) as nat),
            ),
        }
    }
}

/// A forward jump lands just after a closing bracket, and the tokens it
/// skips hold as many opening as closing brackets.
pub proof fn lemma_forward_target_balanced(p: Seq<Token>, c: int)
    requires
        0 <= c < p.len(),
        forward_target(p, c) is Some,
    ensures
        ({
            let t = forward_target(p, c)->0;
            &&& c + 1 < t <= p.len()
            &&& p[t - 1].value == TokenValue::JumpBackwardIfNonZero
            &&& nesting(p, c + 1, t - 1) == 0
        }),
{
    let m = choose|m: int| closes_at(p, c, m);
    assert(nesting(p, c + 1, m + 1) == nesting(p, c + 1, m) + weight(p[m]));
    assert(nesting(p, c + 1, m) >= 0);
}

/// A backward jump lands just after an opening bracket, and the tokens
/// between it and the closing bracket hold as many opening as closing
/// brackets.
pub proof fn lemma_backward_target_balanced(p: Seq<Token>, c: int)
    requires
        0 <= c < p.len(),
        backward_target(p, c) is Some,
    ensures
        ({
            let t = backward_target(p, c)->0;
            &&& 0 < t <= c
            &&& p[t - 1].value == TokenValue::JumpForwardIfZero
            &&& nesting(p, t, c) == 0
        }),
{
    let m = choose|m: int| opens_at(p, c, m);
    lemma_nesting_front(p, m, c);
    assert(nesting(p, m + 1, c) <= 0);
}

/// A run that reaches an opening bracket on a zero cell, when the bracket
/// has no matching closing bracket, stops there with an error.
pub proof fn lemma_unmatched_open_fails(p: Seq<Token>, m: Machine, input: Seq<u8>, fuel: nat)
    requires
        is_program(p),
        0 <= m.cursor < p.len(),
        p[m.cursor].value == TokenValue::JumpForwardIfZero,
        m.cells[m.pointer] == 0,
        forall|k: int| !closes_at(p, m.cursor, k),
        fuel > 0,
    ensures
        run_of(p, m, input, fuel) == (Trace {
            machine: m,
            output: seq![],
            error: Some(RunError::Interpreter(InterpreterError::TokenIndexOutOfBound)),
        }),
{
}

/// A run that reaches a closing bracket on a nonzero cell, when the bracket
/// has no matching opening bracket, stops there with an error.
pub proof fn lemma_unmatched_close_fails(p: Seq<Token>, m: Machine, input: Seq<u8>, fuel: nat)
    requires
        is_program(p),
        0 <= m.cursor < p.len(),
        p[m.cursor].value == TokenValue::JumpBackwardIfNonZero,
        m.cells[m.pointer] != 0,
        forall|k: int| !opens_at(p, m.cursor, k),
        fuel > 0,
    ensures
        run_of(p, m, input, fuel) == (Trace {
            machine: m,
            output: seq![],
            error: Some(RunError::Interpreter(InterpreterError::TokenIndexOutOfBound)),
        }),
{
}

impl<'a> Interpreter<'a> {
    /// The tape is well formed, the tokens form a program and the cursor
    /// addresses one of them.
    pub open spec fn wf(&self) -> bool {
        &&& self.state.wf()
        &&& is_program(self.tokens@)
        &&& self.token_index < self.tokens@.len()
    }

    /// The abstract state of this run.
    pub open spec fn view(&self) -> Machine {
        Machine {
            cells: self.state.cells@,
            pointer: self.state.pointer as int,
            cursor: self.token_index as int,
        }
    }

    /// A run of `tokens` on a fresh tape, with the cursor on the first token.
    pub fn new(tokens: &'a Vec<Token>) -> (r: Interpreter<'a>)
        requires
            is_program(tokens@),
        ensures
            r.wf(),
            r.tokens == tokens,
            r.token_index == 0,
            r.state.pointer == 0,
            r.state.cells@ == Seq::new(TAPE_SIZE as nat, |i: int| 0u8),
    {
        let state = State::new();
        Interpreter { state, tokens, token_index: 0 }
    }

    /// The cursor is on the end marker: the run is over.
    pub fn is_finished(&self) -> (r: bool)
        requires
            self.wf(),
        ensures
            r == (self.tokens@[self.token_index as int].value == TokenValue::End),
    {
        self.tokens[self.token_index].value == TokenValue::End
    }

    /// The cursor is on an input instruction: the next step stores a byte
    /// read from the input.
    pub fn awaits_input(&self) -> (r: bool)
        requires
            self.wf(),
        ensures
            r == (self.tokens@[self.token_index as int].value == TokenValue::Input),
    {
        self.tokens[self.token_index].value == TokenValue::Input
    }

    /// Executes the token at the cursor. `input` is the byte that an input
    /// instruction stores; other instructions ignore it. Returns the byte
    /// that an output instruction emits. On failure nothing changes.
    pub fn step(&mut self, input: u8) -> (r: Result<Option<u8>, RunError>)
        requires
            old(self).wf(),
        ensures
            final(self).wf(),
            final(self).tokens == old(self).tokens,
            match step_of(old(self).tokens@, old(self)@, input) {
                Ok((m, out)) => r == Ok::<Option<u8>, RunError>(out) && final(self)@ == m,
                Err(e) => r == Err::<Option<u8>, RunError>(e) && final(self)@ == old(self)@,
            },
    {
        let here = self.token_index;
        let len = self.tokens.len();
        let instruction = self.tokens[here].value;
        assert(instruction != TokenValue::End ==> here + 1 < len);
        match instruction {
            TokenValue::MoveRight => match self.state.move_right() {
                Ok(()) => {
                    self.token_index = here + 1;
                    Ok(None)
                },
                Err(e) => Err(RunError::State(e)),
            },
            TokenValue::MoveLeft => match self.state.move_left() {
                Ok(()) => {
                    self.token_index = here + 1;
                    Ok(None)
                },
                Err(e) => Err(RunError::State(e)),
            },
            TokenValue::IncrementCell => match self.state.increment_cell() {
                Ok(()) => {
                    self.token_index = here + 1;
                    Ok(None)
                },
                Err(e) => Err(RunError::State(e)),
            },
            TokenValue::DecrementCell => match self.state.decrement_cell() {
                Ok(()) => {
                    self.token_index = here + 1;
                    Ok(None)
                },
                Err(e) => Err(RunError::State(e)),
            },
            TokenValue::Output => {
                let v = self.state.get_cell_value();
                self.token_index = here + 1;
                Ok(Some(v))
            },
            TokenValue::Input => {
                self.state.set_cell_value(input);
                self.token_index = here + 1;
                Ok(None)
            },
            TokenValue::JumpForwardIfZero => {
                if self.state.get_cell_value() == 0 {
                    match self.jump_forward() {
                        Ok(()) => Ok(None),
                        Err(e) => Err(RunError::Interpreter(e)),
                    }
                } else {
                    self.token_index = here + 1;
                    Ok(None)
                }
            },
            TokenValue::JumpBackwardIfNonZero => {
                if self.state.get_cell_value() != 0 {
                    match self.jump_backward() {
                        Ok(()) => Ok(None),
                        Err(e) => Err(RunError::Interpreter(e)),
                    }
                } else {
                    self.token_index = here + 1;
                    Ok(None)
                }
            },
            TokenValue::End => Ok(None),
        }
    }

    /// Runs the program from the cursor until the end marker, for at most
    /// `max_steps` steps. Input instructions read `input` in order, and 0
    /// once it is used up. Returns the bytes emitted; on failure the
    /// machine stays where the failing step found it.
    pub fn interpret(&mut self, input: &Vec<u8>, max_steps: u64) -> (r: Result<Vec<u8>, RunError>)
        requires
            old(self).wf(),
        ensures
            final(self).wf(),
            final(self).tokens == old(self).tokens,
            ({
                let t = run_of(old(self).tokens@, old(self)@, input@, max_steps as nat);
                &&& final(self)@ == t.machine
                &&& match r {
                    Ok(out) => t.error is None && out@ == t.output,
                    Err(e) => t.error == Some(e),
                }
            }),
    {
        let ghost p = self.tokens@;
        let ghost start = self@;
        let mut output: Vec<u8> = Vec::new();
        let mut pos: usize = 0;
        let mut left: u64 = max_steps;
        proof {
            assert(input@.subrange(0, input.len() as int) =~= input@);
            let t = run_of(p, start, input@, max_steps as nat);
            assert(output@ + t.output =~= t.output);
        }
        loop
            invariant
                self.wf(),
                self.tokens == old(self).tokens,
                p == self.tokens@,
                start == old(self)@,
                pos <= input.len(),
                run_of(p, start, input@, max_steps as nat) == after_output(
                    output@,
                    run_of(p, self@, input@.subrange(pos as int, input.len() as int), left as nat),
                ),
            decreases left,
        {
            let ghost rest = input@.subrange(pos as int, input.len() as int);
            if self.is_finished() {
                assert(output@ + seq![] =~= output@);
                return Ok(output);
            }
            if left == 0 {
                assert(output@ + seq![] =~= output@);
                return Err(RunError::StepLimitReached);
            }
            let byte = if pos < input.len() {
                input[pos]
            } else {
                0
            };
            let reads = self.awaits_input();
            let ghost before = self@;
            match self.step(byte) {
                Err(e) => {
                    assert(output@ + seq![] =~= output@);
                    return Err(e);
                },
                Ok(out) => {
                    let ghost old_output = output@;
                    if let Some(b) = out {
                        output.push(b);
                    }
                    if reads && pos < input.len() {
                        pos = pos + 1;
                    }
                    proof {
                        assert(output@ =~= old_output + emitted(out));
                        assert(input_after(p, before, rest) =~= input@.subrange(
                            pos as int,
                            input.len() as int,
                        ));
                        let t = run_of(p, self@, input_after(p, before, rest), (left - 1) as nat);
                        assert(old_output + (emitted(out) + t.output) =~= output@ + t.output);
                    }
                },
            }
            left = left - 1;
        }
    }

    /// Skips the loop whose opening bracket is at the cursor: moves the
    /// cursor just after the matching closing bracket. Fails, leaving the
    /// cursor where it is, when there is none.
    pub fn jump_forward(&mut self) -> (r: Result<(), InterpreterError>)
        requires
            old(self).wf(),
        ensures
            final(self).state == old(self).state,
            final(self).tokens == old(self).tokens,
            final(self).wf(),
            forward_target(old(self).tokens@, old(self).token_index as int) matches Some(t) ==> r
                is Ok && final(self).token_index == t,
            forward_target(old(self).tokens@, old(self).token_index as int) is None ==> r == Err::<
                (),
                InterpreterError,
            >(InterpreterError::TokenIndexOutOfBound) && final(self).token_index
                == old(self).token_index,
    {
        let ghost p = self.tokens@;
        let ghost c = self.token_index as int;
        let len = self.tokens.len();
        let mut depth: usize = 0;
        let mut i: usize = self.token_index + 1;
        while i < len
            invariant
                p == self.tokens@,
                self.state == old(self).state,
                self.tokens == old(self).tokens,
                len == p.len(),
                self.token_index == old(self).token_index,
                c == self.token_index,
                self.wf(),
                c + 1 <= i <= len,
                depth == nesting(p, c + 1, i as int),
                depth <= i - c - 1,
                forall|k: int| c < k <= i ==> #[trigger] nesting(p, c + 1, k) >= 0,
            decreases len - i,
        {
            assert(nesting(p, c + 1, i + 1) == nesting(p, c + 1, i as int) + weight(p[i as int]));
            match self.tokens[i].value {
                TokenValue::JumpForwardIfZero => {
                    depth = depth + 1;
                },
                TokenValue::JumpBackwardIfNonZero => {
                    if depth == 0 {
                        proof {
                            assert(closes_at(p, c, i as int));
                            let m = choose|m: int| closes_at(p, c, m);
                            lemma_closes_at_unique(p, c, m, i as int);
                        }
                        self.token_index = i + 1;
                        return Ok(());
                    }
                    depth = depth - 1;
                },
                _ => {},
            }
            i = i + 1;
        }
        proof {
            assert forall|m: int| !closes_at(p, c, m) by {
                if c < m < p.len() {
                    assert(nesting(p, c + 1, m + 1) >= 0);
                }
            }
        }
        Err(InterpreterError::TokenIndexOutOfBound)
    }

    /// Repeats the loop whose closing bracket is at the cursor: moves the
    /// cursor just after the matching opening bracket. Fails, leaving the
    /// cursor where it is, when there is none.
    pub fn jump_backward(&mut self) -> (r: Result<(), InterpreterError>)
        requires
            old(self).wf(),
        ensures
            final(self).state == old(self).state,
            final(self).tokens == old(self).tokens,
            final(self).wf(),
            backward_target(old(self).tokens@, old(self).token_index as int) matches Some(t) ==> r
                is Ok && final(self).token_index == t,
            backward_target(old(self).tokens@, old(self).token_index as int) is None ==> r == Err::<
                (),
                InterpreterError,
            >(InterpreterError::TokenIndexOutOfBound) && final(self).token_index
                == old(self).token_index,
    {
        let ghost p = self.tokens@;
        let ghost c = self.token_index as int;
        let mut depth: usize = 0;
        let mut i: usize = self.token_index;
        while i > 0
            invariant
                p == self.tokens@,
                self.state == old(self).state,
                self.tokens == old(self).tokens,
                self.token_index == old(self).token_index,
                c == self.token_index,
                self.wf(),
                0 <= i <= c,
                depth == -nesting(p, i as int, c),
                depth <= c - i,
                forall|k: int| i <= k <= c ==> #[trigger] nesting(p, k, c) <= 0,
            decreases i,
        {
            i = i - 1;
            proof {
                lemma_nesting_front(p, i as int, c);
            }
            match self.tokens[i].value {
                TokenValue::JumpBackwardIfNonZero => {
                    depth = depth + 1;
                },
                TokenValue::JumpForwardIfZero => {
                    if depth == 0 {
                        proof {
                            assert(opens_at(p, c, i as int));
                            let m = choose|m: int| opens_at(p, c, m);
                            lemma_opens_at_unique(p, c, m, i as int);
                        }
                        self.token_index = i + 1;
                        return Ok(());
                    }
                    depth = depth - 1;
                },
                _ => {},
            }
        }
        proof {
            assert forall|m: int| !opens_at(p, c, m) by {
                if 0 <= m < c {
                    assert(nesting(p, m, c) <= 0);
                }
            }
        }
        Err(InterpreterError::TokenIndexOutOfBound)
    }
}

} // verus!
