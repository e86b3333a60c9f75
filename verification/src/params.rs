//! Validated request descriptors: the engine's own parameters and the query
//! shapes that the serving layer hands in.

use vstd::prelude::*;

verus! {

use vstd::arithmetic::power2::{pow2, lemma_pow2_pos, lemma2_to64};
use vstd::bits::lemma_u32_shr_is_div;
use vstd::pervasive::unreached;
use crate::state::State;
use crate::{Bits, MAX_MAX_HEIGHT};

/// Parameters for generating a state transition graph or table.
#[derive(Debug, Clone, Copy)]
pub struct Params {
    /// The number of props (balls) being juggled.
    pub num_props: u8,
    /// The maximum throw height: the number of beat positions in each state.
    pub max_height: u8,
}

/// The ways in which [`Params`] can fail validation.
#[derive(Debug, Clone, Copy, PartialEq, Eq, Structural)]
pub enum ParamsError {
    /// The requested `max_height` exceeds [`MAX_MAX_HEIGHT`].
    MaxHeightTooLarge,
    /// The requested `num_props` exceeds [`MAX_MAX_HEIGHT`].
    NumPropsTooLarge,
    /// `max_height` is less than `num_props`: more props than beat slots.
    MaxHeightLessThanNumProps,
}

impl ParamsError {
    /// A human-readable description of the validation failure.
    pub fn message(&self) -> (r: String)
        ensures
            *self == ParamsError::MaxHeightTooLarge ==> r@ == "max_height exceeds the bit width"@,
            *self == ParamsError::NumPropsTooLarge ==> r@ == "num_props exceeds the bit width"@,
            *self == ParamsError::MaxHeightLessThanNumProps ==> r@
                == "max_height must be >= num_props"@,
    {
        match self {
            ParamsError::MaxHeightTooLarge => "max_height exceeds the bit width".to_owned(),
            ParamsError::NumPropsTooLarge => "num_props exceeds the bit width".to_owned(),
            ParamsError::MaxHeightLessThanNumProps => "max_height must be >= num_props".to_owned(),
        }
    }
}

impl Params {
    /// Both bounds fit the bit width and there are at least as many beat slots
    /// as props.
    pub open spec fn valid(&self) -> bool {
        self.max_height <= MAX_MAX_HEIGHT && self.num_props <= MAX_MAX_HEIGHT && self.num_props
            <= self.max_height
    }

    /// The error that validation reports for these parameters: the first of
    /// width, prop count, and their relative order that fails.
    pub open spec fn validation_error(&self) -> ParamsError {
        if self.max_height > MAX_MAX_HEIGHT {
            ParamsError::MaxHeightTooLarge
        } else if self.num_props > MAX_MAX_HEIGHT {
            ParamsError::NumPropsTooLarge
        } else {
            ParamsError::MaxHeightLessThanNumProps
        }
    }

    /// Checks the parameters against the bit width, reporting the first bound
    /// that fails: width, then prop count, then their relative order.
    pub fn validate(&self) -> (r: Result<(), ParamsError>)
        ensures
            r is Ok <==> self.valid(),
            !self.valid() ==> (r matches Err(e) && e == self.validation_error()),
    {
        if self.max_height > MAX_MAX_HEIGHT {
            return Err(ParamsError::MaxHeightTooLarge);
        }
        if self.num_props > MAX_MAX_HEIGHT {
            return Err(ParamsError::NumPropsTooLarge);
        }
        if self.max_height < self.num_props {
            return Err(ParamsError::MaxHeightLessThanNumProps);
        }
        Ok(())
    }
}

/// Parameters of a graph request as the serving layer sees them: the engine's
/// parameters plus the presentation flags it is agnostic to.
#[derive(Debug, Clone, Copy)]
pub struct GraphParams {
    /// The number of props (balls) being juggled.
    pub num_props: u8,
    /// The maximum throw height.
    pub max_height: u8,
    /// Whether states are rendered as raw integers rather than binary strings.
    pub compact: bool,
    /// Whether non-compact renderings are character-reversed.
    pub reversed: bool,
}

impl GraphParams {
    /// The engine parameters these request parameters carry.
    pub fn to_params(&self) -> (r: Params)
        ensures
            r.num_props == self.num_props,
            r.max_height == self.max_height,
    {
        Params { num_props: self.num_props, max_height: self.max_height }
    }

    /// Checks the carried engine parameters; the presentation flags cannot fail.
    pub fn validate(&self) -> (r: Result<(), ParamsError>)
        ensures
            r is Ok <==> (Params { num_props: self.num_props, max_height: self.max_height }).valid(),
            !(Params { num_props: self.num_props, max_height: self.max_height }).valid() ==> (
            r matches Err(e) && e == (Params {
                num_props: self.num_props,
                max_height: self.max_height,
            }).validation_error()),
    {
        self.to_params().validate()
    }
}

/// Parameters of a throws request: one raw state, the width to read it under,
/// and the presentation flags.
#[derive(Debug, Clone, Copy)]
pub struct ThrowsQuery {
    /// The raw bitmask of the state whose throws are requested.
    pub state: Bits,
    /// The maximum throw height.
    pub max_height: u8,
    /// Whether states are rendered as raw integers rather than binary strings.
    pub compact: bool,
    /// Whether non-compact renderings are character-reversed.
    pub reversed: bool,
}

impl ThrowsQuery {
    /// The width is positive, fits the bit width, and the state fits under it.
    pub open spec fn valid(&self) -> bool {
        0 < self.max_height <= MAX_MAX_HEIGHT && (self.state as nat) < pow2(self.max_height as nat)
    }

    /// Checks the width and that the state has no bit at or above it.
    pub fn validate(&self) -> (r: Result<(), String>)
        ensures
            r is Ok <==> self.valid(),
            self.max_height > MAX_MAX_HEIGHT || self.max_height == 0 ==> (r matches Err(m) && m@
                == "max_height must be between 1 and the bit width"@),
            0 < self.max_height <= MAX_MAX_HEIGHT && (self.state as nat) >= pow2(
                self.max_height as nat,
            ) ==> (r matches Err(m) && m@ == "bits set at or above max_height"@),
    {
        if self.max_height > MAX_MAX_HEIGHT || self.max_height == 0 {
            return Err("max_height must be between 1 and the bit width".to_owned());
        }
        proof {
            lemma_pow2_pos(self.max_height as nat);
            if self.max_height < MAX_MAX_HEIGHT {
                lemma_u32_shr_is_div(self.state, self.max_height as u32);
                assert((self.state as nat) / pow2(self.max_height as nat) == 0 <==> (
                self.state as nat) < pow2(self.max_height as nat)) by (nonlinear_arith)
                    requires
                        pow2(self.max_height as nat) > 0,
                ;
            } else {
                lemma2_to64();
            }
        }
        if self.max_height < MAX_MAX_HEIGHT && self.state >> self.max_height != 0 {
            return Err("bits set at or above max_height".to_owned());
        }
        Ok(())
    }

    /// The validated state this query denotes; callers validate first.
    pub fn to_state(&self) -> (r: State)
        requires
            self.valid(),
        ensures
            r@ == self.state,
    {
        match State::new(self.state, self.max_height) {
            Ok(s) => s,
            Err(_) => unreached(),
        }
    }
}

/// Parameters of a graph or table request in the serving layer's shape.
#[derive(Debug, Clone, Copy)]
pub struct StateNotationQuery {
    /// The number of props (balls) being juggled.
    pub num_props: u8,
    /// The maximum throw height.
    pub max_height: u8,
    /// Whether states are rendered as raw integers rather than binary strings.
    pub compact: bool,
    /// Whether non-compact renderings are character-reversed.
    pub reversed: bool,
}

impl StateNotationQuery {
    /// The engine parameters this query carries.
    pub fn to_library_params(&self) -> (r: Params)
        ensures
            r.num_props == self.num_props,
            r.max_height == self.max_height,
    {
        Params { num_props: self.num_props, max_height: self.max_height }
    }

    /// Checks the carried engine parameters.
    pub fn validate(&self) -> (r: Result<(), ParamsError>)
        ensures
            r is Ok <==> (Params { num_props: self.num_props, max_height: self.max_height }).valid(),
            !(Params { num_props: self.num_props, max_height: self.max_height }).valid() ==> (
            r matches Err(e) && e == (Params {
                num_props: self.num_props,
                max_height: self.max_height,
            }).validation_error()),
    {
        self.to_library_params().validate()
    }
}

} // verus!
