use vstd::prelude::*;

verus! {

/// The per-file failures of the extraction pipeline. A missing metadata
/// section is not among them: it is a normal empty result, not an error.
#[derive(Clone, Copy, Debug, PartialEq, Eq, Structural)]
pub enum ModError {
    /// The compressed stream's header or checksum is invalid or truncated.
    CorruptCompressionStream,
    /// The binary image's header or section table is not consistent.
    MalformedBinaryImage,
    /// A metadata record is not valid UTF-8 text.
    MalformedMetadataRecord,
}

impl ModError {
    /// A short human-readable description, for callers that report failures.
    pub fn message(&self) -> (r: &'static str)
        ensures
            r@.len() > 0,
    {
        match self {
            ModError::CorruptCompressionStream => {
                proof { reveal_strlit("corrupt compressed stream"); }
                "corrupt compressed stream"
            },
            ModError::MalformedBinaryImage => {
                proof { reveal_strlit("malformed binary image"); }
                "malformed binary image"
            },
            ModError::MalformedMetadataRecord => {
                proof { reveal_strlit("metadata record is not valid text"); }
                "metadata record is not valid text"
            },
        }
    }
}

} // verus!
