//! Failure modes shared by all remapping units.

use vstd::prelude::*;
use vstd::std_specs::convert::{FromSpec, FromSpecImpl};

use crate::arch::aarch64::iort::IortError;
use crate::arch::x86_64::amd::ivrs::IvrsError;
use crate::arch::x86_64::intel::dmar::DmarError;
use crate::memory::PagingError;

verus! {

/// Shared public IOMMU failure modes.
#[derive(Clone, Copy, Debug, PartialEq, Eq, Structural)]
pub enum Error {
    Unsupported,
    ControllerUnavailable,
    InvalidController,
    InvalidAddressSpace,
    InvalidClient,
    InvalidBinding,
    InvalidAddress,
    InvalidRange,
    InvalidGranule,
    InvalidWidth,
    AlreadyMapped,
    NotMapped,
    FeatureUnavailable,
    AddressOverflow,
    PageTable(PagingError),
}

impl From<PagingError> for Error {
    fn from(value: PagingError) -> (r: Self) {
        Error::PageTable(value)
    }
}

impl FromSpecImpl<PagingError> for Error {
    open spec fn obeys_from_spec() -> bool {
        true
    }

    open spec fn from_spec(value: PagingError) -> Self {
        Error::PageTable(value)
    }
}

impl From<DmarError> for Error {
    fn from(value: DmarError) -> (r: Self) {
        match value {
            DmarError::Acpi(_) => Error::InvalidController,
            DmarError::Mapping(error) => Error::PageTable(error),
            DmarError::BdfRanges(_) | DmarError::Malformed(_) => Error::InvalidRange,
        }
    }
}

impl FromSpecImpl<DmarError> for Error {
    open spec fn obeys_from_spec() -> bool {
        true
    }

    open spec fn from_spec(value: DmarError) -> Self {
        match value {
            DmarError::Acpi(_) => Error::InvalidController,
            DmarError::Mapping(error) => Error::PageTable(error),
            DmarError::BdfRanges(_) => Error::InvalidRange,
            DmarError::Malformed(_) => Error::InvalidRange,
        }
    }
}

impl From<IvrsError> for Error {
    fn from(value: IvrsError) -> (r: Self) {
        match value {
            IvrsError::Acpi(_) => Error::InvalidController,
            IvrsError::Mapping(error) => Error::PageTable(error),
            IvrsError::BdfRanges(_) | IvrsError::Malformed(_) => Error::InvalidRange,
        }
    }
}

impl FromSpecImpl<IvrsError> for Error {
    open spec fn obeys_from_spec() -> bool {
        true
    }

    open spec fn from_spec(value: IvrsError) -> Self {
        match value {
            IvrsError::Acpi(_) => Error::InvalidController,
            IvrsError::Mapping(error) => Error::PageTable(error),
            IvrsError::BdfRanges(_) => Error::InvalidRange,
            IvrsError::Malformed(_) => Error::InvalidRange,
        }
    }
}

impl From<IortError> for Error {
    fn from(value: IortError) -> (r: Self) {
        match value {
            IortError::Acpi(_) => Error::InvalidController,
            IortError::Mapping(error) => Error::PageTable(error),
            IortError::BdfRanges(_) | IortError::Malformed(_) => Error::InvalidRange,
        }
    }
}

impl FromSpecImpl<IortError> for Error {
    open spec fn obeys_from_spec() -> bool {
        true
    }

    open spec fn from_spec(value: IortError) -> Self {
        match value {
            IortError::Acpi(_) => Error::InvalidController,
            IortError::Mapping(error) => Error::PageTable(error),
            IortError::BdfRanges(_) => Error::InvalidRange,
            IortError::Malformed(_) => Error::InvalidRange,
        }
    }
}

/// The errors of the three tables mean the same to a caller: a table that is
/// not what it should be makes its controller invalid, a range that cannot be
/// held or a structure that cannot be read makes a range invalid, and an error
/// of page tables stays what it is.
pub proof fn law_table_errors_keep_their_meaning(
    acpi: crate::firm::acpi::AcpiError,
    ranges: crate::firm::pcie::BdfRangeSetError,
    paging: PagingError,
    message: &'static str,
)
    ensures
        <Error as FromSpec<DmarError>>::from_spec(DmarError::Acpi(acpi))
            == Error::InvalidController,
        <Error as FromSpec<IvrsError>>::from_spec(IvrsError::Acpi(acpi))
            == Error::InvalidController,
        <Error as FromSpec<IortError>>::from_spec(IortError::Acpi(acpi))
            == Error::InvalidController,
        <Error as FromSpec<DmarError>>::from_spec(DmarError::BdfRanges(ranges))
            == Error::InvalidRange,
        <Error as FromSpec<IvrsError>>::from_spec(IvrsError::BdfRanges(ranges))
            == Error::InvalidRange,
        <Error as FromSpec<IortError>>::from_spec(IortError::BdfRanges(ranges))
            == Error::InvalidRange,
        <Error as FromSpec<DmarError>>::from_spec(DmarError::Malformed(message))
            == Error::InvalidRange,
        <Error as FromSpec<IvrsError>>::from_spec(IvrsError::Malformed(message))
            == Error::InvalidRange,
        <Error as FromSpec<IortError>>::from_spec(IortError::Malformed(message))
            == Error::InvalidRange,
        <Error as FromSpec<DmarError>>::from_spec(DmarError::Mapping(paging)) == Error::PageTable(
            paging,
        ),
        <Error as FromSpec<IvrsError>>::from_spec(IvrsError::Mapping(paging)) == Error::PageTable(
            paging,
        ),
        <Error as FromSpec<IortError>>::from_spec(IortError::Mapping(paging)) == Error::PageTable(
            paging,
        ),
{
}

} // verus!
