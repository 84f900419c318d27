//! The error kinds the library reports to its callers.

use vstd::prelude::*;

verus! {

/// What can go wrong across the configuration lifecycle.
///
/// `MalformedInput` covers a persisted document that is not in the canonical
/// encoding; `ValidationFailure` a validation run that produced errors;
/// `PreconditionViolation` inputs outside the adjustment calculator's stated
/// domain; `MissingFile` a path handed to `ensure_file_exists` that names no
/// file.
#[derive(Clone, Copy, Debug, PartialEq, Eq, Structural)]
pub enum ConfigError {
    MalformedInput,
    ValidationFailure,
    PreconditionViolation,
    MissingFile,
}

/// The descriptive text attached to each error kind.
pub open spec fn spec_message(e: ConfigError) -> Seq<char> {
    match e {
        ConfigError::MalformedInput => "Invalid JSON format"@,
        ConfigError::ValidationFailure => "Configuration validation failed"@,
        ConfigError::PreconditionViolation => "Inputs violate the calculator's preconditions"@,
        ConfigError::MissingFile => "File not found"@,
    }
}

impl ConfigError {
    /// A descriptive message for reporting to the caller.
    pub fn message(&self) -> (m: &'static str)
        ensures
            m@ == spec_message(*self),
    {
        match self {
            ConfigError::MalformedInput => "Invalid JSON format",
            ConfigError::ValidationFailure => "Configuration validation failed",
            ConfigError::PreconditionViolation => "Inputs violate the calculator's preconditions",
            ConfigError::MissingFile => "File not found",
        }
    }
}

} // verus!
