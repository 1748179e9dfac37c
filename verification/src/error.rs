use vstd::prelude::*;

verus! {

/// Why an archive operation did not produce its result.
#[derive(Clone, Copy, Debug, PartialEq, Eq, Structural)]
pub enum ArchiveError {
    /// The entity exists neither locally nor remotely.
    NotFound,
    /// The remote source is rate limited, and the single retry failed too.
    Retryable,
    /// A required field is absent or malformed, or a write was rejected.
    DataError,
    /// A walk along reply references came back to a post it had already seen.
    CycleDetected,
}

impl ArchiveError {
    /// A short, stable description of the error.
    pub fn describe(&self) -> (text: String)
        ensures
            text@ == description(*self),
    {
        match self {
            ArchiveError::NotFound => String::from_str("not found"),
            ArchiveError::Retryable => String::from_str("rate limited, retry later"),
            ArchiveError::DataError => String::from_str("malformed or rejected data"),
            ArchiveError::CycleDetected => String::from_str("reference cycle detected"),
        }
    }
}

/// The text that [`ArchiveError::describe`] gives for each error.
pub open spec fn description(error: ArchiveError) -> Seq<char> {
    match error {
        ArchiveError::NotFound => "not found"@,
        ArchiveError::Retryable => "rate limited, retry later"@,
        ArchiveError::DataError => "malformed or rejected data"@,
        ArchiveError::CycleDetected => "reference cycle detected"@,
    }
}

} // verus!
