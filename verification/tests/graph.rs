use std::collections::HashSet;

use juggling_tools::{compute_graph, Params, ParamsError, State, MAX_MAX_HEIGHT};

fn params(num_props: u8, max_height: u8) -> Params {
    Params {
        num_props,
        max_height,
    }
}

#[test]
fn graph_test_validate_accepts_valid_params() {
    assert!(params(3, 5).validate().is_ok());
}

#[test]
fn graph_test_validate_rejects_max_height_above_limit() {
    assert_eq!(
        params(3, MAX_MAX_HEIGHT + 1).validate().unwrap_err(),
        ParamsError::MaxHeightTooLarge
    );
}

#[test]
fn graph_test_validate_rejects_num_props_above_limit() {
    assert_eq!(
        params(MAX_MAX_HEIGHT + 1, 5).validate().unwrap_err(),
        ParamsError::NumPropsTooLarge
    );
}

#[test]
fn graph_test_validate_rejects_max_height_less_than_num_props() {
    assert_eq!(
        params(5, 3).validate().unwrap_err(),
        ParamsError::MaxHeightLessThanNumProps
    );
}

#[test]
fn graph_test_validate_accepts_equal_num_props_and_max_height() {
    assert!(params(5, 5).validate().is_ok());
}

#[test]
fn test_compute_graph_state_count() {
    let graph = compute_graph(&params(3, 5)).unwrap();
    assert_eq!(graph.states.len(), 10); // C(5,3) = 10
}

#[test]
fn test_compute_graph_edge_count() {
    let graph = compute_graph(&params(3, 5)).unwrap();
    // 3 props in 5 slots: 6 states with rightmost=1 produce 3 transitions each (18),
    // plus 4 states with rightmost=0 produce 1 each (4) = 22 total
    assert_eq!(graph.edges.len(), 22);
}

#[test]
fn test_compute_graph_ground_state() {
    let graph = compute_graph(&params(3, 5)).unwrap();
    // Ground state is the lowest bits set: 0b00111
    assert_eq!(graph.ground_state.bits(), 0b00111);
}

#[test]
fn test_compute_graph_metadata() {
    let graph = compute_graph(&params(3, 5)).unwrap();
    assert_eq!(graph.num_props, 3);
    assert_eq!(graph.max_height, 5);
}

#[test]
fn graph_test_compute_graph_single_state() {
    // num_props == max_height: only one state, one self-loop
    let graph = compute_graph(&params(3, 3)).unwrap();
    assert_eq!(graph.states.len(), 1);
    assert_eq!(graph.edges.len(), 1);
    assert_eq!(graph.edges[0].from, graph.edges[0].to);
}

#[test]
fn test_compute_graph_edges_reference_valid_states() {
    let graph = compute_graph(&params(3, 5)).unwrap();
    let state_set: HashSet<State> = graph.states.iter().copied().collect();
    for edge in &graph.edges {
        assert!(
            state_set.contains(&edge.from),
            "edge from {:?} not in states",
            edge.from
        );
        assert!(
            state_set.contains(&edge.to),
            "edge to {:?} not in states",
            edge.to
        );
    }
}

#[test]
fn test_compute_graph_preserves_prop_count() {
    let graph = compute_graph(&params(3, 5)).unwrap();
    for edge in &graph.edges {
        assert_eq!(
            edge.from.bits().count_ones(),
            edge.to.bits().count_ones(),
            "prop count changed: from {:?} to {:?}",
            edge.from,
            edge.to
        );
    }
}

#[test]
fn test_compute_graph_invalid_params() {
    assert!(compute_graph(&params(5, 3)).is_err());
}

#[test]
fn test_graph_params_error_display() {
    assert!(!ParamsError::MaxHeightTooLarge.message().is_empty());
    assert!(!ParamsError::NumPropsTooLarge.message().is_empty());
    assert!(!ParamsError::MaxHeightLessThanNumProps.message().is_empty());
}
