//! What can go wrong with a domain name.

use vstd::prelude::*;
use vstd::std_specs::convert::FromSpecImpl;
use crate::util::Range;

verus! {

/// The marker that the IDNA routines return when UTS #46 processing met an
/// error. It carries no detail.
#[verifier::external_type_specification]
#[verifier::external_body]
pub struct ExIdnaErrors(idna::Errors);

/// What an error says, without the values that only a running program holds.
pub enum Violation {
    /// The name is not well formed under UTS #46.
    NormalizationFailed,
    /// The last label is not the required one.
    RootMismatch { expected: Seq<char>, actual: Seq<char> },
    /// The name has no labels.
    SegmentsNotValid,
    /// The number of labels is outside the required range.
    LevelsOutOfRange { actual: usize, expected_range: Range },
    /// The length of the name is outside the required range.
    LengthOutOfRange { actual: usize, expected_range: Range },
}

/// Why a domain name was refused.
#[derive(Debug)]
pub enum DomainValidationError {
    /// IDNA processing failed. The cause holds no further detail.
    IdnaToAsciiFailed { source: idna::Errors },
    /// The domain does not end in the expected root.
    RootMismatch { expected: String, actual: String },
    /// The domain could not be split into labels.
    SegmentsNotValid {  },
    /// The number of labels is outside the expected range.
    LevelsOutOfRange { actual: usize, expected_range: Range },
    /// The length of the domain is outside the expected range.
    LengthOutOfRange { actual: usize, expected_range: Range },
}

impl View for DomainValidationError {
    type V = Violation;

    open spec fn view(&self) -> Violation {
        match self {
            DomainValidationError::IdnaToAsciiFailed { .. } => Violation::NormalizationFailed,
            DomainValidationError::RootMismatch { expected, actual } => Violation::RootMismatch {
                expected: expected@,
                actual: actual@,
            },
            DomainValidationError::SegmentsNotValid {  } => Violation::SegmentsNotValid,
            DomainValidationError::LevelsOutOfRange { actual, expected_range } => {
                Violation::LevelsOutOfRange { actual: *actual, expected_range: *expected_range }
            },
            DomainValidationError::LengthOutOfRange { actual, expected_range } => {
                Violation::LengthOutOfRange { actual: *actual, expected_range: *expected_range }
            },
        }
    }
}

/// The errors of this library.
#[derive(Debug)]
pub enum DiveError {
    /// The domain name is not valid.
    DomainNotValid { source: DomainValidationError },
}

/// A result whose error is an error of this library.
pub type DiveResult<T = ()> = Result<T, DiveError>;

impl View for DiveError {
    type V = Violation;

    open spec fn view(&self) -> Violation {
        match self {
            DiveError::DomainNotValid { source } => source@,
        }
    }
}

impl From<idna::Errors> for DomainValidationError {
    /// The failure of IDNA processing as a validation error.
    fn from(source: idna::Errors) -> (e: DomainValidationError) {
        DomainValidationError::IdnaToAsciiFailed { source }
    }
}

impl FromSpecImpl<idna::Errors> for DomainValidationError {
    open spec fn obeys_from_spec() -> bool {
        true
    }

    open spec fn from_spec(source: idna::Errors) -> DomainValidationError {
        DomainValidationError::IdnaToAsciiFailed { source }
    }
}

impl From<DomainValidationError> for DiveError {
    /// A validation error as an error of the library.
    fn from(source: DomainValidationError) -> (e: DiveError) {
        DiveError::DomainNotValid { source }
    }
}

impl FromSpecImpl<DomainValidationError> for DiveError {
    open spec fn obeys_from_spec() -> bool {
        true
    }

    open spec fn from_spec(source: DomainValidationError) -> DiveError {
        DiveError::DomainNotValid { source }
    }
}

impl DiveError {
    /// IDNA processing failed with `source`.
    pub fn idna_to_ascii_failed(source: idna::Errors) -> (e: Self)
        ensures
            e == (DiveError::DomainNotValid {
                source: DomainValidationError::IdnaToAsciiFailed { source },
            }),
            e@ == Violation::NormalizationFailed,
    {
        DiveError::DomainNotValid { source: DomainValidationError::IdnaToAsciiFailed { source } }
    }

    /// The domain ends in `actual` where `expected` was required.
    pub fn domain_root_mismatch(expected: String, actual: String) -> (e: Self)
        ensures
            e == (DiveError::DomainNotValid {
                source: DomainValidationError::RootMismatch { expected, actual },
            }),
            e@ == (Violation::RootMismatch { expected: expected@, actual: actual@ }),
    {
        DiveError::DomainNotValid {
            source: DomainValidationError::RootMismatch { expected, actual },
        }
    }

    /// The domain has no labels.
    pub fn domain_segments_not_valid() -> (e: Self)
        ensures
            e == (DiveError::DomainNotValid { source: DomainValidationError::SegmentsNotValid {  } }),
            e@ == Violation::SegmentsNotValid,
    {
        DiveError::DomainNotValid { source: DomainValidationError::SegmentsNotValid {  } }
    }

    /// The domain has `actual` labels, outside `expected_range`.
    pub fn domain_levels_out_of_range(expected_range: Range, actual: usize) -> (e: Self)
        ensures
            e == (DiveError::DomainNotValid {
                source: DomainValidationError::LevelsOutOfRange { actual, expected_range },
            }),
            e@ == (Violation::LevelsOutOfRange { actual, expected_range }),
    {
        DiveError::DomainNotValid {
            source: DomainValidationError::LevelsOutOfRange { actual, expected_range },
        }
    }

    /// The domain is `actual` long, outside `expected_range`.
    pub fn domain_length_out_of_range(expected_range: Range, actual: usize) -> (e: Self)
        ensures
            e == (DiveError::DomainNotValid {
                source: DomainValidationError::LengthOutOfRange { actual, expected_range },
            }),
            e@ == (Violation::LengthOutOfRange { actual, expected_range }),
    {
        DiveError::DomainNotValid {
            source: DomainValidationError::LengthOutOfRange { actual, expected_range },
        }
    }
}

} // verus!
