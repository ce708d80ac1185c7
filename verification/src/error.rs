//! The failures that reading or changing a table of contents can report.

use vstd::prelude::*;

verus! {

/// Why an operation on a table of contents failed.
#[derive(Clone, Copy, Debug, PartialEq, Eq, Structural)]
pub enum TocError {
    /// The magic bytes of the header or of the container are wrong.
    SignatureMismatch,
    /// The header does not span exactly sixteen bytes.
    MalformedHeader,
    /// A directory entry or the range it names lies outside the manifest.
    MalformedSection,
    /// Tables that run in parallel do not fit one another: they differ in
    /// length, or one of them cannot take a further entry.
    SectionSizeMismatch,
    /// The compressed stream is truncated or corrupt.
    CodecError,
    /// The span index names no span, or the span it names cannot be searched
    /// or cannot grow.
    InvalidSpan,
    /// The file name does not fit its field, is not UTF-8, or names no file
    /// where one is looked for.
    InvalidFileName,
}

} // verus!
