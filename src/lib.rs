//! Extraction of NTFS data streams into a destination tree: output naming,
//! the valid-data-length boundary, slack separation, chunked encryption and
//! timestamp translation, each stated and proved against a model.
pub mod cipher;
pub mod encrypted;
pub mod error;
pub mod paths;
pub mod plan;
pub mod stream;
pub mod timestamp;
pub mod vdl;
