use vstd::prelude::*;

verus! {

/// The error kinds a download run can surface.
#[derive(Debug, PartialEq)]
pub enum RgetError {
    /// An operating-system I/O failure, with its message.
    Io(String),
    /// No download configuration was found and no valid URL was given.
    MissingUrl,
    /// The server answered with a status that is not a success status.
    HttpErrorCode(u16),
    /// The transport failed while a request was in flight.
    FailedRequest(String),
    /// The stored download configuration is structurally invalid.
    InvalidConfig(String),
    /// The stored download configuration could not be parsed.
    InvalidToml(String),
    /// The download configuration could not be serialized.
    InvalidDownloadConfig(String),
    /// The given URL could not be parsed.
    InvalidUrl(String),
    /// A worker terminated abnormally instead of reporting a result.
    FailedThread(String),
    /// A part file on disk is longer than the span planned for its segment.
    InconsistentResumeState { part: u64, existing: u64, planned: u64 },
    /// All failures of a run whose segments did not all succeed, together.
    Multiple(Vec<RgetError>),
}

} // verus!
