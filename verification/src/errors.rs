//! Failures of loading a cache and of walking its entries.

use vstd::prelude::*;

verus! {

/// Structural reason for which a buffer was rejected.
#[derive(Debug, Clone, Copy, PartialEq, Eq, Structural)]
pub enum ErrorKind {
    /// An expected constant (magic number, version word) is not there.
    Tag,
    /// The buffer ends before the requested bytes.
    Eof,
    /// A declared count, size or offset exceeds what can be addressed.
    TooLarge,
    /// A field holds a value outside of its set of valid codes.
    IsA,
}

/// Position-annotated parse failure.
#[derive(Debug, Clone, Copy, PartialEq, Eq, Structural)]
pub struct ParseError {
    /// Offset, from the start of the buffer, of the element that failed to parse.
    pub offset: usize,
    /// What went wrong there.
    pub code: ErrorKind,
}

/// Information about a failure of an operation.
///
/// The variants that name a `path` carry the path of the cache file, or of the
/// directory, that the failure is about.
#[derive(Debug, PartialEq, Eq)]
#[non_exhaustive]
pub enum Error {
    /// A directory named by a cache could not be enumerated.
    ReadDir { path: String },
    /// The cache file could not be opened.
    Open { path: String },
    /// The cache file could not be mapped into memory.
    MapFile { path: String },
    /// The metadata of the cache file could not be read.
    ReadMetaData { path: String },
    /// The cache file has no content.
    FileIsEmpty { path: String },
    /// The content of the cache file is not in the expected format.
    Parse { path: String, source: ParseError },
    /// A record refers to a string that starts outside of the string area.
    OffsetIsInvalid { path: String },
    /// A byte string is not terminated by exactly one NUL, at its end.
    FromBytesWithNul,
    /// A byte string holds no NUL terminator.
    FromBytesUntilNul,
    /// A byte string is not valid UTF-8.
    Utf8,
}

/// What an [`Error`] says: its kind, the text of the path that it names, and
/// where and why parsing failed.
pub enum ErrorView {
    /// A directory named by a cache could not be enumerated.
    ReadDir { path: Seq<char> },
    /// The cache file could not be opened.
    Open { path: Seq<char> },
    /// The cache file could not be mapped into memory.
    MapFile { path: Seq<char> },
    /// The metadata of the cache file could not be read.
    ReadMetaData { path: Seq<char> },
    /// The cache file has no content.
    FileIsEmpty { path: Seq<char> },
    /// The content of the cache file is not in the expected format.
    Parse { path: Seq<char>, source: ParseError },
    /// A record refers to a string that starts outside of the string area.
    OffsetIsInvalid { path: Seq<char> },
    /// A byte string is not terminated by exactly one NUL, at its end.
    FromBytesWithNul,
    /// A byte string holds no NUL terminator.
    FromBytesUntilNul,
    /// A byte string is not valid UTF-8.
    Utf8,
}

impl View for Error {
    type V = ErrorView;

    open spec fn view(&self) -> ErrorView {
        match self {
            Error::ReadDir { path } => ErrorView::ReadDir { path: path@ },
            Error::Open { path } => ErrorView::Open { path: path@ },
            Error::MapFile { path } => ErrorView::MapFile { path: path@ },
            Error::ReadMetaData { path } => ErrorView::ReadMetaData { path: path@ },
            Error::FileIsEmpty { path } => ErrorView::FileIsEmpty { path: path@ },
            Error::Parse { path, source } => ErrorView::Parse { path: path@, source: *source },
            Error::OffsetIsInvalid { path } => ErrorView::OffsetIsInvalid { path: path@ },
            Error::FromBytesWithNul => ErrorView::FromBytesWithNul,
            Error::FromBytesUntilNul => ErrorView::FromBytesUntilNul,
            Error::Utf8 => ErrorView::Utf8,
        }
    }
}

impl Error {
    /// The failure to parse the file at `path`, as reported by a header or
    /// record parser.
    pub fn from_parse(source: ParseError, path: &str) -> (r: Error)
        ensures
            r@ == (ErrorView::Parse { path: path@, source }),
    {
        Error::Parse { path: path.to_owned(), source }
    }
}

} // verus!
