//! Tests for the cyclic selection state and its wrap-around arithmetic.

use notnow::selection::modulo;
use notnow::selection::SelectionState;

#[test]
fn modulo_results() {
    assert_eq!(modulo(-4, 3), 2);
    assert_eq!(modulo(-3, 3), 0);
    assert_eq!(modulo(-2, 3), 1);
    assert_eq!(modulo(-1, 3), 2);
    assert_eq!(modulo(0, 3), 0);
    assert_eq!(modulo(1, 3), 1);
    assert_eq!(modulo(2, 3), 2);
    assert_eq!(modulo(3, 3), 0);
    assert_eq!(modulo(4, 3), 1);
    assert_eq!(modulo(5, 3), 2);
}

#[test]
fn selection_state_immediate_advancement() {
    let mut state = SelectionState::<u16>::new(42);
    let items: Vec<u16> = vec![42, 43, 44];

    state.advance();
    state.advance();
    state.advance();
    state.advance();

    let current = state.normalize(&items);
    assert_eq!(current, 1);
    assert!(state.has_cycled(items.len()));
}

#[test]
fn selection_state_stays_cycled() {
    let mut state = SelectionState::<u16>::new(7);
    let items: Vec<u16> = vec![8, 7, 6];

    state.advance();
    state.advance();
    state.advance();
    state.advance();

    for _ in 1..200 {
        let _ = state.normalize(&items);
        assert!(state.has_cycled(items.len()));
    }
}

#[test]
fn selection_state_reset_cycled() {
    let mut state = SelectionState::<u16>::new(4);
    let items: Vec<u16> = vec![3, 9, 4];

    state.advance();
    state.advance();
    state.advance();
    state.advance();
    assert_eq!(state.normalize(&items), 0);
    assert!(state.has_cycled(items.len()));

    state.advance();
    assert_eq!(state.normalize(&items), 1);
    state.reset_cycled();

    state.advance();
    assert_eq!(state.normalize(&items), 2);
    assert!(!state.has_cycled(items.len()));

    state.advance();
    assert_eq!(state.normalize(&items), 0);
    assert!(!state.has_cycled(items.len()));

    state.advance();
    assert_eq!(state.normalize(&items), 1);
    assert!(!state.has_cycled(items.len()));

    state.advance();
    assert_eq!(state.normalize(&items), 2);
    assert!(state.has_cycled(items.len()));
}

#[test]
fn reverse_selection() {
    let mut state = SelectionState::<u16>::new(1);
    let items: Vec<u16> = vec![2, 1, 3];

    state.reverse(true);
    assert!(!state.has_cycled(items.len()));
    assert!(!state.has_advanced());

    state.advance();
    assert!(state.has_advanced());
    assert_eq!(state.normalize(&items), 0);
    assert!(!state.has_cycled(items.len()));
    assert!(!state.has_advanced());

    state.advance();
    assert!(state.has_advanced());
    assert_eq!(state.normalize(&items), 2);
    assert!(!state.has_cycled(items.len()));
    assert!(!state.has_advanced());

    state.advance();
    assert!(state.has_advanced());
    assert_eq!(state.normalize(&items), 1);
    assert!(!state.has_cycled(items.len()));
    assert!(!state.has_advanced());

    state.reverse(false);
    assert!(!state.has_advanced());
    assert_eq!(state.normalize(&items), 1);
    assert!(!state.has_cycled(items.len()));
    assert!(!state.has_advanced());

    state.advance();
    assert!(state.has_advanced());
    assert_eq!(state.normalize(&items), 2);
    assert!(!state.has_cycled(items.len()));
    assert!(!state.has_advanced());

    state.advance();
    assert!(state.has_advanced());
    assert_eq!(state.normalize(&items), 0);
    assert!(!state.has_cycled(items.len()));
    assert!(!state.has_advanced());
}

#[test]
fn forward_advances_wrap_around() {
    // Seven forward advances from start index 0 in a five-element
    // sequence land on (0 + 7) mod 5, never a negative index.
    let mut state = SelectionState::<u16>::new(10);
    let items: Vec<u16> = vec![10, 20, 30, 40, 50];
    for _ in 0..7 {
        state.advance();
    }
    assert_eq!(state.normalize(&items), 2);
}

#[test]
fn reverse_advances_return_to_start() {
    // Three forward advances from start index 1, then three reverse
    // advances, return the selection to index 1.
    let mut state = SelectionState::<u16>::new(20);
    let items: Vec<u16> = vec![10, 20, 30, 40, 50];
    for _ in 0..3 {
        state.advance();
    }
    assert_eq!(state.normalize(&items), 4);
    state.reverse(true);
    for _ in 0..3 {
        state.advance();
    }
    assert_eq!(state.normalize(&items), 1);
}

#[test]
fn cycle_threshold_is_strict() {
    // The cycle flag stays off while the cumulative delta's magnitude is
    // at most the element count and turns on once it exceeds it.
    let mut state = SelectionState::<u16>::new(0);
    state.advance();
    state.advance();
    state.advance();
    assert!(!state.has_cycled(3));
    state.advance();
    assert!(state.has_cycled(3));
    state.reset_cycled();
    assert!(!state.has_cycled(3));
    assert!(!state.has_cycled(0));
}
