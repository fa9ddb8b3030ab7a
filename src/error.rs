use vstd::prelude::*;

verus! {

/// Every way an operation on a container can fail.
#[derive(Debug, PartialEq, Eq)]
pub enum MabiError {
    IoFail(String),
    WrongFormat,
    Encoding,
    CorruptedFile,
    UnrecognizedPath(String),
    InvalidRegexp(String),
    InvalidVersion,
    CompressError(String),
    TimeError,
    ReadHeaderFail(String),
    ReadIndexFail(String),
    ExtractFail(String, String),
    TraversingFail(String),
    PackingFail(String, String),
    InternalError,
    /// The data ends before a field that the layout places there.
    Truncated,
    /// A size or count does not fit the 32-bit fields of the layout.
    TooLarge,
}

} // verus!
