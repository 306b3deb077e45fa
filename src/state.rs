use vstd::prelude::*;

verus! {

/// Number of cells on the tape.
pub const TAPE_SIZE: usize = 30000;

/// A failed move of the pointer or a failed change of a cell.
#[derive(PartialEq, Eq, Structural, Clone, Copy, Debug)]
pub enum StateTransitionError {
    PointerUnderflow,
    PointerOverflow,
    CellUnderflow,
    CellOverflow,
}

impl StateTransitionError {
    /// A short description of the error.
    pub fn message(&self) -> &'static str {
        match self {
            StateTransitionError::PointerUnderflow => "pointer underflow (state.pointer < 0)",
            StateTransitionError::PointerOverflow => "pointer overflow (state.pointer > 29999)",
            StateTransitionError::CellUnderflow => "cell underflow (state.cells[*] < 0)",
            StateTransitionError::CellOverflow => "cell overflow (state.cells[*] > 255)",
        }
    }
}

/// The tape: a fixed row of byte cells and a pointer to the current one.
#[derive(Debug)]
pub struct State {
    pub cells: Vec<u8>,
    pub pointer: usize,
}

impl State {
    /// The tape has its full size and the pointer addresses one of its cells.
    pub open spec fn wf(&self) -> bool {
        &&& self.cells@.len() == TAPE_SIZE
        &&& self.pointer < TAPE_SIZE
    }

    /// The value of the current cell.
    pub open spec fn current(&self) -> u8 {
        self.cells@[self.pointer as int]
    }

    /// A fresh tape: every cell 0, the pointer on the first cell.
    pub fn new() -> (r: State)
        ensures
            r.wf(),
            r.pointer == 0,
            r.cells@ == Seq::new(TAPE_SIZE as nat, |i: int| 0u8),
    {
        let mut cells: Vec<u8> = Vec::new();
        while cells.len() < TAPE_SIZE
            invariant
                cells.len() <= TAPE_SIZE,
                forall|i: int| 0 <= i < cells.len() ==> cells@[i] == 0u8,
            decreases TAPE_SIZE - cells.len(),
        {
            cells.push(0u8);
        }
        assert(cells@ =~= Seq::new(TAPE_SIZE as nat, |i: int| 0u8));
        State { cells, pointer: 0 }
    }

    /// Moves the pointer one cell to the left; fails on the first cell.
    pub fn move_left(&mut self) -> (r: Result<(), StateTransitionError>)
        requires
            old(self).wf(),
        ensures
            final(self).wf(),
            final(self).cells@ == old(self).cells@,
            old(self).pointer == 0 ==> r == Err::<(), StateTransitionError>(
                StateTransitionError::PointerUnderflow,
            ) && final(self).pointer == 0,
            old(self).pointer > 0 ==> r is Ok && final(self).pointer == old(self).pointer - 1,
    {
        if self.pointer == 0 {
            Err(StateTransitionError::PointerUnderflow)
        } else {
            self.pointer = self.pointer - 1;
            Ok(())
        }
    }

    /// Moves the pointer one cell to the right; fails on the last cell.
    pub fn move_right(&mut self) -> (r: Result<(), StateTransitionError>)
        requires
            old(self).wf(),
        ensures
            final(self).wf(),
            final(self).cells@ == old(self).cells@,
            old(self).pointer == TAPE_SIZE - 1 ==> r == Err::<(), StateTransitionError>(
                StateTransitionError::PointerOverflow,
            ) && final(self).pointer == old(self).pointer,
            old(self).pointer < TAPE_SIZE - 1 ==> r is Ok && final(self).pointer == old(self).pointer
                + 1,
    {
        if self.pointer == TAPE_SIZE - 1 {
            Err(StateTransitionError::PointerOverflow)
        } else {
            self.pointer = self.pointer + 1;
            Ok(())
        }
    }

    /// Adds one to the current cell; fails, leaving it as it is, at 255.
    pub fn increment_cell(&mut self) -> (r: Result<(), StateTransitionError>)
        requires
            old(self).wf(),
        ensures
            final(self).wf(),
            final(self).pointer == old(self).pointer,
            old(self).current() == 255 ==> r == Err::<(), StateTransitionError>(
                StateTransitionError::CellOverflow,
            ) && final(self).cells@ == old(self).cells@,
            old(self).current() < 255 ==> r is Ok && final(self).cells@ == old(self).cells@.update(
                old(self).pointer as int,
                (old(self).current() + 1) as u8,
            ),
    {
        match self.cells[self.pointer].checked_add(1) {
            None => Err(StateTransitionError::CellOverflow),
            Some(v) => {
                self.cells.set(self.pointer, v);
                Ok(())
            },
        }
    }

    /// Subtracts one from the current cell; fails, leaving it as it is, at 0.
    pub fn decrement_cell(&mut self) -> (r: Result<(), StateTransitionError>)
        requires
            old(self).wf(),
        ensures
            final(self).wf(),
            final(self).pointer == old(self).pointer,
            old(self).current() == 0 ==> r == Err::<(), StateTransitionError>(
                StateTransitionError::CellUnderflow,
            ) && final(self).cells@ == old(self).cells@,
            old(self).current() > 0 ==> r is Ok && final(self).cells@ == old(self).cells@.update(
                old(self).pointer as int,
                (old(self).current() - 1) as u8,
            ),
    {
        match self.cells[self.pointer].checked_sub(1) {
            None => Err(StateTransitionError::CellUnderflow),
            Some(v) => {
                self.cells.set(self.pointer, v);
                Ok(())
            },
        }
    }

    /// The value of the current cell.
    pub fn get_cell_value(&mut self) -> (r: u8)
        requires
            old(self).wf(),
        ensures
            *final(self) == *old(self),
            r == old(self).current(),
    {
        self.cells[self.pointer]
    }

    /// Overwrites the current cell with `value`.
    pub fn set_cell_value(&mut self, value: u8)
        requires
            old(self).wf(),
        ensures
            final(self).wf(),
            final(self).pointer == old(self).pointer,
            final(self).cells@ == old(self).cells@.update(old(self).pointer as int, value),
    {
        self.cells.set(self.pointer, value);
    }
}

} // verus!
