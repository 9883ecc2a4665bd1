//! Intel VT-d-specific failure modes.

use vstd::prelude::*;
use vstd::std_specs::convert::FromSpecImpl;

use crate::error::Error;

verus! {

/// Errors that preserve VT-d-specific context before being collapsed into the
/// crate-wide public error vocabulary.
#[derive(Clone, Copy, Debug, PartialEq, Eq, Structural)]
pub enum VtdError {
    UnsupportedAddressWidth,
    UnsupportedGranule,
    PageSelectiveInvalidationUnavailable,
    InvalidDomainId,
    InvalidSourceId,
    RegisterTransitionTimeout,
}

impl From<VtdError> for Error {
    fn from(value: VtdError) -> (r: Self) {
        match value {
            VtdError::UnsupportedAddressWidth => Error::InvalidWidth,
            VtdError::UnsupportedGranule => Error::InvalidGranule,
            VtdError::PageSelectiveInvalidationUnavailable => Error::FeatureUnavailable,
            VtdError::InvalidDomainId => Error::InvalidAddressSpace,
            VtdError::InvalidSourceId => Error::InvalidClient,
            VtdError::RegisterTransitionTimeout => Error::ControllerUnavailable,
        }
    }
}

impl FromSpecImpl<VtdError> for Error {
    open spec fn obeys_from_spec() -> bool {
        true
    }

    open spec fn from_spec(value: VtdError) -> Self {
        match value {
            VtdError::UnsupportedAddressWidth => Error::InvalidWidth,
            VtdError::UnsupportedGranule => Error::InvalidGranule,
            VtdError::PageSelectiveInvalidationUnavailable => Error::FeatureUnavailable,
            VtdError::InvalidDomainId => Error::InvalidAddressSpace,
            VtdError::InvalidSourceId => Error::InvalidClient,
            VtdError::RegisterTransitionTimeout => Error::ControllerUnavailable,
        }
    }
}

} // verus!
