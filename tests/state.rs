use brainfuck_rust::{State, StateTransitionError};

#[test]
fn test_move_left_underflow() {
    let mut state = State::new();

    match state.move_left() {
        Err(StateTransitionError::PointerUnderflow) => assert!(true),
        _ => assert!(
            false,
            "moving left from cell 0 should lead to an PointerUnderflowError"
        ),
    }
    assert_eq!(state.pointer, 0);
}

#[test]
fn test_move_right_overflow() {
    let mut state = State::new();

    for _ in 0..29999 {
        state.move_right().unwrap();
    }

    match state.move_right() {
        Err(StateTransitionError::PointerOverflow) => assert!(true),
        _ => assert!(
            false,
            "moving right from cell 29999 should lead to an PointerOverflow"
        ),
    }
    assert_eq!(state.pointer, 29999);
}

#[test]
fn test_set_get_cell_value() {
    let mut state = State::new();

    state.set_cell_value(42);
    state.move_right().unwrap();
    state.move_left().unwrap();
    let cell_value = state.get_cell_value();

    assert_eq!(cell_value, 42);
}

#[test]
fn test_increment_cell_value() {
    let mut state = State::new();

    state.set_cell_value(42);
    state.move_right().unwrap();
    state.move_left().unwrap();
    state.increment_cell().unwrap();
    let cell_value = state.get_cell_value();

    assert_eq!(cell_value, 43);

    for _ in 0..212 {
        state.increment_cell().unwrap();
    }

    match state.increment_cell() {
        Err(StateTransitionError::CellOverflow) => assert!(true),
        _ => assert!(
            false,
            "incrementing a cell above 255 should cause a CellOverflow"
        ),
    }
}

#[test]
fn test_decrement_cell_value() {
    let mut state = State::new();

    state.set_cell_value(42);
    state.decrement_cell().unwrap();
    state.move_right().unwrap();
    state.move_left().unwrap();
    let cell_value = state.get_cell_value();

    assert_eq!(cell_value, 41);

    for _ in 0..41 {
        state.decrement_cell().unwrap();
    }

    match state.decrement_cell() {
        Err(StateTransitionError::CellUnderflow) => assert!(true),
        _ => assert!(
            false,
            "incrementing a cell below 0 should cause a CellUnderflow"
        ),
    }
}

#[test]
fn new_tape_is_all_zero() {
    let state = State::new();
    assert_eq!(state.cells.len(), 30000);
    assert!(state.cells.iter().all(|c| *c == 0));
    assert_eq!(state.pointer, 0);
}

#[test]
fn failed_moves_leave_pointer_unchanged() {
    let mut state = State::new();
    assert_eq!(state.move_left(), Err(StateTransitionError::PointerUnderflow));
    assert_eq!(state.pointer, 0);
    state.pointer = 29999;
    assert_eq!(state.move_right(), Err(StateTransitionError::PointerOverflow));
    assert_eq!(state.pointer, 29999);
    assert_eq!(state.move_left(), Ok(()));
    assert_eq!(state.pointer, 29998);
}

#[test]
fn failed_cell_changes_leave_cell_unchanged() {
    let mut state = State::new();
    assert_eq!(state.decrement_cell(), Err(StateTransitionError::CellUnderflow));
    assert_eq!(state.cells[0], 0);
    state.set_cell_value(255);
    assert_eq!(state.increment_cell(), Err(StateTransitionError::CellOverflow));
    assert_eq!(state.cells[0], 255);
    assert_eq!(state.decrement_cell(), Ok(()));
    assert_eq!(state.cells[0], 254);
}

#[test]
fn set_cell_value_touches_only_current_cell() {
    let mut state = State::new();
    state.move_right().unwrap();
    state.set_cell_value(7);
    assert_eq!(state.cells[0], 0);
    assert_eq!(state.cells[1], 7);
    assert_eq!(state.cells[2], 0);
}

#[test]
fn error_messages_name_the_bound() {
    assert_eq!(
        StateTransitionError::PointerUnderflow.message(),
        "pointer underflow (state.pointer < 0)"
    );
    assert_eq!(
        StateTransitionError::CellOverflow.message(),
        "cell overflow (state.cells[*] > 255)"
    );
}
