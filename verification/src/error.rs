//! Error taxonomy of the format engine.
//!
//! `MissionSerdeError` covers failures while reading or writing the typed
//! descriptor representation (value coercions, descriptor structure);
//! `StructError` covers misuse of the staged construction machinery;
//! `PlaymissionError` is the engine-wide error that the public operations
//! return, and the two smaller kinds convert into it.
use vstd::prelude::*;

verus! {

/// Errors of the typed descriptor layer: a raw string failed to coerce
/// into its declared value type, a required entry was absent, or two
/// property sets overlapped where they may not.
#[derive(Debug, Clone, PartialEq)]
pub enum MissionSerdeError {
    FailedBool(String),
    FailedFloat(String),
    FailedInt(String),
    NoFileEntry(String),
    Overlap(String),
}

/// Errors of the staged construction machinery: a stage was driven with
/// an intermediary it cannot accept.
#[derive(Debug, Clone, PartialEq)]
pub enum StructError {
    WrongIntermediary,
}

/// Engine-wide error type.
#[derive(Debug, Clone, PartialEq)]
pub enum PlaymissionError {
    /// A datafile line is not in the form `Key = Value`.
    MalformedDatafileLine(String),
    /// A merged value of the named key had the first type where the
    /// default declared the second.
    MergedWrongType(String, String, String),
    /// A required file is absent from the archive.
    MissingFile(String),
    /// A required property is absent.
    MissingProperty(String),
    /// A property key was already taken.
    TakenKey(String),
    /// A file name was already taken.
    TakenFileName(String),
    /// A raw string failed to coerce to the named value type.
    WrongTypeCast(String, String),
    /// A property held the wrong type when extracting a fixed field.
    WrongTypeFound(String, String),
    /// An object that must carry a datafile name carries none.
    NoDatafileName,
    /// The tag normalizer found an opening tag with no matching close.
    NoMatchingTag(String),
    /// The tag normalizer or descriptor parser found malformed structure.
    MalformedStructure(String),
    /// A buffer that must hold text is not valid UTF-8.
    Encoding,
    /// The archive container could not be read or written.
    ArchiveFormat(String),
    /// A construction stage was misdriven.
    Struct(StructError),
    /// A typed-descriptor failure.
    Serde(MissionSerdeError),
}

impl PlaymissionError {
    /// Wraps a typed-descriptor failure.
    pub fn from_serde(e: MissionSerdeError) -> (r: PlaymissionError)
        ensures
            r == PlaymissionError::Serde(e),
    {
        PlaymissionError::Serde(e)
    }
}

} // verus!
