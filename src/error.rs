//! Failures of a resolution, and the exit status that reports each.

use vstd::prelude::*;

verus! {

/// Exit status of a successful run.
pub const EXIT_OK: i32 = 0;

/// Exit status for bad arguments, a bad pattern or a name that is not text.
pub const ERROR_ARGS: i32 = 2;

/// Exit status when no directory matched.
pub const ERROR_NOMATCH: i32 = 4;

/// Exit status when the resolved directory is the starting one.
pub const ERROR_SAMEDIR: i32 = 8;

/// Exit status when the downward step found several directories.
pub const ERROR_AMBIGUOUS: i32 = 16;

/// Why a resolution failed.
#[derive(Debug, Clone, Copy, PartialEq, Eq, Structural)]
pub enum UpError {
    /// The walk, up or down, found no directory.
    NoMatch,
    /// The downward step found more than one directory.
    Ambiguous,
    /// A name met on the way is not valid UTF-8.
    InvalidEncoding,
    /// A glob or regex pattern does not compile.
    InvalidPattern,
    /// A level count is not a decimal number that fits.
    InvalidCount,
}

/// The exit status that reports `e`.
pub open spec fn exit_code_of(e: UpError) -> i32 {
    match e {
        UpError::NoMatch => ERROR_NOMATCH,
        UpError::Ambiguous => ERROR_AMBIGUOUS,
        UpError::InvalidEncoding => ERROR_ARGS,
        UpError::InvalidPattern => ERROR_ARGS,
        UpError::InvalidCount => ERROR_ARGS,
    }
}

impl UpError {
    /// The exit status that reports this failure.
    pub fn exit_code(&self) -> (r: i32)
        ensures
            r == exit_code_of(*self),
    {
        match self {
            UpError::NoMatch => ERROR_NOMATCH,
            UpError::Ambiguous => ERROR_AMBIGUOUS,
            UpError::InvalidEncoding => ERROR_ARGS,
            UpError::InvalidPattern => ERROR_ARGS,
            UpError::InvalidCount => ERROR_ARGS,
        }
    }
}

} // verus!
