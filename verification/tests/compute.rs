use std::collections::HashSet;

use juggling_tools::{compute_transitions, Params, State};

fn params(num_props: u8, max_height: u8) -> Params {
    Params {
        num_props,
        max_height,
    }
}

#[test]
fn test_state_count() {
    let ts = compute_transitions(&params(3, 5)).unwrap();
    assert_eq!(ts.states.len(), 10); // C(5,3) = 10
}

#[test]
fn test_transition_count() {
    let ts = compute_transitions(&params(3, 5)).unwrap();
    assert_eq!(ts.transitions.len(), 22);
}

#[test]
fn test_ground_state() {
    let ts = compute_transitions(&params(3, 5)).unwrap();
    assert_eq!(ts.ground_state.bits(), 0b00111);
}

#[test]
fn compute_test_metadata() {
    let ts = compute_transitions(&params(3, 5)).unwrap();
    assert_eq!(ts.num_props, 3);
    assert_eq!(ts.max_height, 5);
}

#[test]
fn compute_test_invalid_params() {
    assert!(compute_transitions(&params(5, 3)).is_err());
}

#[test]
fn compute_test_single_state() {
    let ts = compute_transitions(&params(3, 3)).unwrap();
    assert_eq!(ts.states.len(), 1);
    assert_eq!(ts.transitions.len(), 1);
}

#[test]
fn test_transitions_reference_valid_states() {
    let ts = compute_transitions(&params(3, 5)).unwrap();
    let state_set: HashSet<State> = ts.states.iter().copied().collect();
    for t in &ts.transitions {
        assert!(
            state_set.contains(&t.from()),
            "transition from {:?} not in states",
            t.from()
        );
        assert!(
            state_set.contains(&t.to()),
            "transition to {:?} not in states",
            t.to()
        );
    }
}

#[test]
fn compute_test_preserves_prop_count() {
    let ts = compute_transitions(&params(3, 5)).unwrap();
    for t in &ts.transitions {
        assert_eq!(
            t.from().bits().count_ones(),
            t.to().bits().count_ones(),
            "prop count changed: from {:?} to {:?}",
            t.from(),
            t.to()
        );
    }
}
