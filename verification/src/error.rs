use vstd::prelude::*;

verus! {

/// Every way in which building or reading an image can fail.
#[derive(Clone, Copy, Debug, PartialEq, Eq, Structural)]
pub enum IsoError {
    /// The underlying byte store could not be read, written or positioned.
    IOFailed,
    /// An identifier holds a byte outside the character set of its field.
    InvalidCharacter,
    /// An identifier is longer than its field allows.
    IdentifierTooLong,
    /// A boot image was asked for by a name that the root directory does not hold.
    BootImageNotFound,
    /// The image does not fit into the byte store it is written to.
    SinkTooSmall,
    /// The bytes that are read do not form a valid image.
    CorruptImage,
    /// A lookup by name found nothing.
    NotFound,
}

impl IsoError {
    /// A short English description of the failure.
    pub open spec fn spec_message(&self) -> Seq<char> {
        match self {
            IsoError::IOFailed => "the byte store failed"@,
            IsoError::InvalidCharacter => "invalid character in identifier"@,
            IsoError::IdentifierTooLong => "identifier too long"@,
            IsoError::BootImageNotFound => "boot image not found"@,
            IsoError::SinkTooSmall => "the byte store is too small"@,
            IsoError::CorruptImage => "corrupt image"@,
            IsoError::NotFound => "not found"@,
        }
    }

    /// A short English description of the failure.
    pub fn message(&self) -> (text: &'static str)
        ensures
            text@ == self.spec_message(),
    {
        match self {
            IsoError::IOFailed => "the byte store failed",
            IsoError::InvalidCharacter => "invalid character in identifier",
            IsoError::IdentifierTooLong => "identifier too long",
            IsoError::BootImageNotFound => "boot image not found",
            IsoError::SinkTooSmall => "the byte store is too small",
            IsoError::CorruptImage => "corrupt image",
            IsoError::NotFound => "not found",
        }
    }
}

} // verus!
