use juggling_tools::{Bits, StateNotationQuery, ThrowsQuery, MAX_MAX_HEIGHT};

fn throws_params(state: Bits, max_height: u8) -> ThrowsQuery {
    ThrowsQuery {
        state,
        max_height,
        compact: false,
        reversed: false,
    }
}

#[test]
fn test_throws_validate_accepts_valid_params() {
    assert!(throws_params(0b00111, 5).validate().is_ok());
}

#[test]
fn test_throws_validate_accepts_zero_state() {
    assert!(throws_params(0, 5).validate().is_ok());
}

#[test]
fn test_throws_validate_rejects_max_height_above_limit() {
    assert!(throws_params(0, MAX_MAX_HEIGHT + 1).validate().is_err());
}

#[test]
fn test_throws_validate_rejects_zero_max_height() {
    assert!(throws_params(0, 0).validate().is_err());
}

#[test]
fn test_throws_validate_rejects_state_bits_exceeding_max_height() {
    assert!(throws_params(0b100000, 5).validate().is_err());
}

#[test]
fn test_throws_validate_accepts_state_at_max_height_boundary() {
    // All bits set within max_height
    assert!(throws_params(0b11111, 5).validate().is_ok());
}

fn params(num_props: u8, max_height: u8) -> StateNotationQuery {
    StateNotationQuery {
        num_props,
        max_height,
        compact: false,
        reversed: false,
    }
}

#[test]
fn params_test_validate_accepts_valid_params() {
    assert!(params(3, 5).validate().is_ok());
}

#[test]
fn params_test_validate_rejects_max_height_above_limit() {
    assert!(params(3, MAX_MAX_HEIGHT + 1).validate().is_err());
}

#[test]
fn params_test_validate_rejects_num_props_above_limit() {
    assert!(params(MAX_MAX_HEIGHT + 1, 5).validate().is_err());
}

#[test]
fn params_test_validate_rejects_max_height_less_than_num_props() {
    assert!(params(5, 3).validate().is_err());
}

#[test]
fn params_test_validate_accepts_equal_num_props_and_max_height() {
    assert!(params(5, 5).validate().is_ok());
}
