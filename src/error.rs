use vstd::prelude::*;

verus! {

/// The ways a decode call can fail. Every error is fatal to the call that
/// reports it: nothing is recovered from a partly valid document.
#[derive(Debug, Clone, Copy, PartialEq, Eq)]
pub enum AssetError {
    /// The placement list has no instance section.
    MissingRequiredSection,
    /// A section was opened and never closed by its terminator line.
    UnterminatedSection,
    /// The instance line at this position (counted within the instance
    /// section, from zero) has too few fields or a field that is not a number.
    MalformedLine(usize),
    /// The chunk header at this byte offset declares more bytes than remain.
    TruncatedChunk(usize),
    /// A fixed-width record was handed fewer bytes than its layout needs.
    InsufficientRecordBytes,
}

} // verus!
