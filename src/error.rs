//! Failures of one extraction call.
use vstd::prelude::*;

verus! {

/// Why an extraction call failed. An existing destination is no failure.
#[derive(Clone, Copy, Debug, PartialEq, Eq, Structural)]
pub enum ExtractError {
    /// The output's directories could not be created.
    DirectoryCreation,
    /// An output file could not be opened.
    Open,
    /// The record has no `$DATA` attribute of the requested name.
    AttributeMissing,
    /// An attribute's type, value or position could not be decoded.
    AttributeDecode,
    /// The valid data length was asked of an attribute that is not `$DATA`.
    WrongAttributeType,
    /// The on-disk position needed for the valid data length is unknown.
    VdlUnavailable,
    /// The drive named for the boot sector is not present.
    DriveUnavailable,
    /// The cipher refused a piece.
    Cipher,
    /// Writing an output failed.
    Write,
    /// Reading the volume failed or came up short.
    Read,
    /// The modification time could not be translated or applied.
    Timestamp,
}

} // verus!
