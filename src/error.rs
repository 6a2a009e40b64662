use vstd::prelude::*;

use crate::section::SectionId;

verus! {

/// Why a container could not be decoded. Decoding is all-or-nothing: the first
/// violated rule is reported and no partial module is produced.
#[derive(Debug, Clone, Copy, PartialEq, Eq, Structural)]
pub enum DecodeError {
    /// The buffer is shorter than the header, or its magic or version is wrong.
    BadHeader,
    /// A read ran past the end of the buffer.
    UnexpectedEnd,
    /// A variable-length integer does not fit in 32 bits.
    IntegerOverflow,
    /// A string payload is not valid UTF-8.
    InvalidUtf8,
    /// A section's header or declared length runs past the end of the buffer.
    TruncatedSection,
    /// A value-type tag outside the four known ones.
    UnknownValueType(u8),
    /// An export-kind tag outside the four known ones.
    UnknownExportKind(u8),
    /// A signature does not start with the function form marker.
    MalformedType,
    /// A section that decoding needs is absent.
    MissingSection(SectionId),
    /// The function at this index has no body in the code section.
    MissingFunctionBody(u32),
    /// The function at this index names a signature that does not exist.
    InvalidTypeIndex(u32),
    /// The export at this index names a function that does not exist.
    InvalidExportTarget(u32),
}

} // verus!
