use vstd::prelude::*;

verus! {

/// What can go wrong while building or opening a container.
#[derive(Clone, Copy, Debug, PartialEq, Eq, Structural)]
pub enum EctError {
    /// Bad magic tag, header shorter than nine bytes, or a metadata length
    /// that runs past the end of the data.
    CorruptedFormat,
    /// The magic tag is right but the format version is not the supported one.
    UnsupportedVersion(u8),
    /// The metadata block is present but does not parse.
    CorruptedMetadata,
    /// Wrong password or tampered ciphertext; the two are not told apart.
    AuthenticationFailed,
    /// A usage error: an empty helper question, a helper question or name too
    /// long for the metadata block, or a container of the other content kind.
    InvalidInput,
    /// The cipher or the metadata encoder refused its input.
    EncryptionFailed,
}

} // verus!
