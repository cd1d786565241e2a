//! The closed set of failures the container reader can report.

use vstd::prelude::*;

verus! {

/// The three families a failure belongs to.
#[derive(Clone, Copy, Debug, PartialEq, Eq, Structural)]
pub enum ErrorKind {
    /// The bytes are not a container this reader supports.
    Format,
    /// The container was scanned in full and a required field never appeared.
    IncompleteMetadata,
    /// A read or a seek ran past the end of the stream.
    Io,
}

/// Why an extraction stopped. Where it stopped is the offset that the
/// extraction leaves its stream at.
#[derive(Clone, Copy, Debug, PartialEq, Eq, Structural)]
pub enum MkvError {
    /// The first four bytes are not the EBML header magic: they spell
    /// `found`.
    InvalidHeader { found: u32 },
    /// The element after the header is not the Segment: its identifier is
    /// `found`.
    MissingSegment { found: u32 },
    /// The first byte of a variable-length integer has no bit set.
    InvalidVint,
    /// The first byte of an identifier announces more than four bytes.
    InvalidElementId,
    /// Every region was scanned and no usable TimecodeScale was seen.
    MissingTimecodeScale,
    /// Every region was scanned and no usable Duration was seen.
    MissingDuration,
    /// A read wanted more bytes than the stream holds, or a seek went past its end.
    UnexpectedEof,
}

impl MkvError {
    /// The family of this error.
    pub open spec fn spec_kind(self) -> ErrorKind {
        match self {
            MkvError::InvalidHeader { .. } => ErrorKind::Format,
            MkvError::MissingSegment { .. } => ErrorKind::Format,
            MkvError::InvalidVint => ErrorKind::Format,
            MkvError::InvalidElementId => ErrorKind::Format,
            MkvError::MissingTimecodeScale => ErrorKind::IncompleteMetadata,
            MkvError::MissingDuration => ErrorKind::IncompleteMetadata,
            MkvError::UnexpectedEof => ErrorKind::Io,
        }
    }

    /// The text shown to a user for this error.
    pub open spec fn spec_message(self) -> Seq<char> {
        match self {
            MkvError::InvalidHeader { .. } => "Invalid MKV file"@,
            MkvError::MissingSegment { .. } => "Invalid Segment element"@,
            MkvError::InvalidVint => "Invalid VINT encoding"@,
            MkvError::InvalidElementId => "Invalid element ID"@,
            MkvError::MissingTimecodeScale => "Missing TimecodeScale in MKV metadata"@,
            MkvError::MissingDuration => "Missing Duration in MKV metadata"@,
            MkvError::UnexpectedEof => "failed to fill whole buffer"@,
        }
    }

    /// Classifies the error as a format, incomplete-metadata or I/O failure.
    #[verifier::when_used_as_spec(spec_kind)]
    pub fn kind(self) -> (k: ErrorKind)
        ensures
            k == self.spec_kind(),
    {
        match self {
            MkvError::InvalidHeader { .. } => ErrorKind::Format,
            MkvError::MissingSegment { .. } => ErrorKind::Format,
            MkvError::InvalidVint => ErrorKind::Format,
            MkvError::InvalidElementId => ErrorKind::Format,
            MkvError::MissingTimecodeScale => ErrorKind::IncompleteMetadata,
            MkvError::MissingDuration => ErrorKind::IncompleteMetadata,
            MkvError::UnexpectedEof => ErrorKind::Io,
        }
    }

    /// Renders the error as text.
    pub fn message(self) -> (s: String)
        ensures
            s@ == self.spec_message(),
    {
        match self {
            MkvError::InvalidHeader { .. } => "Invalid MKV file".to_owned(),
            MkvError::MissingSegment { .. } => "Invalid Segment element".to_owned(),
            MkvError::InvalidVint => "Invalid VINT encoding".to_owned(),
            MkvError::InvalidElementId => "Invalid element ID".to_owned(),
            MkvError::MissingTimecodeScale => "Missing TimecodeScale in MKV metadata".to_owned(),
            MkvError::MissingDuration => "Missing Duration in MKV metadata".to_owned(),
            MkvError::UnexpectedEof => "failed to fill whole buffer".to_owned(),
        }
    }
}

} // verus!
