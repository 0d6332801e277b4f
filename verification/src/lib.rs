//! Validation and normalisation of internet domain names against
//! configurable structural constraints.

pub mod chars;
pub mod decimal;
pub mod domain;
pub mod error;
pub mod labels;
pub mod util;

pub use domain::{Domain, DomainValidator};
pub use error::{DiveError, DiveResult, DomainValidationError};
