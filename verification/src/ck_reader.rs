//! Pointing-kernel segment tags.
//!
//! Evaluation of pointing (attitude) kernels is outside this engine's
//! scope; only the segment-type tags of such kernels are decoded here, so
//! that callers can classify segments they encounter.

use vstd::prelude::*;

use crate::error_handling::{SpiceError, SpiceErrorType, SpiceResult};

verus! {

/// Pointing-kernel segment types.
#[derive(Debug, Clone, Copy, PartialEq, Eq, Structural)]
pub enum CkSegmentType {
    /// Discrete pointing instances with quaternions
    Type1,
    /// Pointing intervals with constant angular velocity
    Type2,
    /// Discrete pointing with linear interpolation
    Type3,
    /// Chebyshev polynomial pointing
    Type4,
    /// MEX/Rosetta attitude interpolation
    Type5,
    /// ESOC/MEX pointing with SPICE-style interpolation
    Type6,
}

/// The type-tag number of each pointing segment type.
pub open spec fn spec_ck_segment_type_code(t: CkSegmentType) -> int {
    match t {
        CkSegmentType::Type1 => 1,
        CkSegmentType::Type2 => 2,
        CkSegmentType::Type3 => 3,
        CkSegmentType::Type4 => 4,
        CkSegmentType::Type5 => 5,
        CkSegmentType::Type6 => 6,
    }
}

impl CkSegmentType {
    /// Decode a pointing segment-type tag; tags outside 1 ..= 6 fail
    /// `InvalidArgument`.
    pub fn from_i32(value: i32) -> (r: SpiceResult<Self>)
        ensures
            match r {
                Ok(t) => spec_ck_segment_type_code(t) == value as int,
                Err(e) => e.error_type == SpiceErrorType::InvalidArgument && !(1 <= value
                    && value <= 6),
            },
    {
        match value {
            1 => Ok(CkSegmentType::Type1),
            2 => Ok(CkSegmentType::Type2),
            3 => Ok(CkSegmentType::Type3),
            4 => Ok(CkSegmentType::Type4),
            5 => Ok(CkSegmentType::Type5),
            6 => Ok(CkSegmentType::Type6),
            _ => Err(
                SpiceError::new(
                    SpiceErrorType::InvalidArgument,
                    String::from_str("unsupported pointing segment type"),
                ),
            ),
        }
    }
}

} // verus!
