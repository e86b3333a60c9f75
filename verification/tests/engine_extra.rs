use juggling_tools::text::decimal_string;
use juggling_tools::{
    compute_throws, compute_transitions, siteswap_char, Graph, GraphParams, Params, ParamsError,
    State, StateNotationQuery, ThrowsQuery,
};

#[test]
fn test_generate_ground_state_first() {
    let states = State::generate(3, 5);
    assert_eq!(states[0].bits(), (1u32 << 3) - 1);
    let states = State::generate(2, 7);
    assert_eq!(states[0].bits(), (1u32 << 2) - 1);
}

#[test]
fn test_generate_zero_props() {
    let states = State::generate(0, 5);
    assert_eq!(states.len(), 1);
    assert_eq!(states[0].bits(), 0);
}

#[test]
fn test_zero_props_single_self_loop() {
    let ts = compute_transitions(&Params {
        num_props: 0,
        max_height: 5,
    })
    .unwrap();
    assert_eq!(ts.states.len(), 1);
    assert_eq!(ts.transitions.len(), 1);
    assert_eq!(ts.transitions[0].throw_height(), 0);
    assert_eq!(ts.transitions[0].to().bits(), 0);
}

#[test]
fn test_invalid_params_error_kind() {
    let err = compute_transitions(&Params {
        num_props: 5,
        max_height: 3,
    })
    .unwrap_err();
    assert_eq!(err, ParamsError::MaxHeightLessThanNumProps);
}

#[test]
fn test_decimal_string_values() {
    assert_eq!(decimal_string(0), "0");
    assert_eq!(decimal_string(7), "7");
    assert_eq!(decimal_string(12345), "12345");
    assert_eq!(decimal_string(u64::MAX), "18446744073709551615");
}

#[test]
fn test_siteswap_char_alphabet() {
    assert_eq!(siteswap_char(0), '0');
    assert_eq!(siteswap_char(9), '9');
    assert_eq!(siteswap_char(10), 'a');
    assert_eq!(siteswap_char(35), 'z');
    assert_eq!(siteswap_char(36), '?');
}

#[test]
fn test_graph_new_counts() {
    let graph = Graph::new(&GraphParams {
        num_props: 3,
        max_height: 5,
        compact: false,
        reversed: false,
    });
    assert_eq!(graph.nodes.len(), 10);
    assert_eq!(graph.edges.len(), 22);
    assert_eq!(graph.num_props, 3);
    assert_eq!(graph.max_height, 5);
}

#[test]
fn test_compute_throws_rejects_oversized_width() {
    let s = State::new(0b111, 3).unwrap();
    assert!(compute_throws(s, 33).is_err());
}

#[test]
fn test_compute_throws_rejects_state_beyond_width() {
    let s = State::new(0b111, 3).unwrap();
    assert!(compute_throws(s, 2).is_err());
}

#[test]
fn test_compute_throws_ground_state() {
    let s = State::new(0b00111, 5).unwrap();
    let throws = compute_throws(s, 5).unwrap();
    let heights: Vec<u8> = throws.iter().map(|t| t.height()).collect();
    assert_eq!(heights, vec![3, 4, 5]);
    let destinations: Vec<u32> = throws.iter().map(|t| t.destination().bits()).collect();
    assert_eq!(destinations, vec![0b00111, 0b01011, 0b10011]);
}

#[test]
fn test_throws_query_to_state() {
    let q = ThrowsQuery {
        state: 0b01011,
        max_height: 5,
        compact: true,
        reversed: false,
    };
    assert!(q.validate().is_ok());
    assert_eq!(q.to_state().bits(), 0b01011);
}

#[test]
fn test_state_notation_query_to_library_params() {
    let q = StateNotationQuery {
        num_props: 4,
        max_height: 7,
        compact: false,
        reversed: true,
    };
    let p = q.to_library_params();
    assert_eq!(p.num_props, 4);
    assert_eq!(p.max_height, 7);
}

#[test]
fn test_state_new_error_messages() {
    let err = State::new(0, 40).unwrap_err();
    assert!(!err.is_empty());
    let err = State::new(0b1000, 3).unwrap_err();
    assert!(!err.is_empty());
}
