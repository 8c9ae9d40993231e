//! The valid data length of a non-resident `$DATA` attribute, read from its
//! raw on-disk attribute record.
use crate::error::ExtractError;
use vstd::prelude::*;

verus! {

/// Bytes of the attribute record header that are read.
pub const RECORD_HEADER_LEN: usize = 64;

/// Offset of the valid data length field in a non-resident attribute header.
pub const VDL_OFFSET: usize = 56;

/// The kind of an attribute, as far as extraction tells them apart.
#[derive(Clone, Copy, Debug, PartialEq, Eq, Structural)]
pub enum AttributeType {
    Data,
    IndexAllocation,
    Other,
}

/// The little-endian 32-bit integer at `b[i..i + 4]`.
pub open spec fn le_u32_at(b: Seq<u8>, i: int) -> int {
    b[i] + 256 * b[i + 1] + 65536 * b[i + 2] + 16777216 * b[i + 3]
}

/// Where to read the record of an attribute whose valid data length is
/// wanted: only a `$DATA` attribute has one, and only a known position can
/// be read.
pub fn valid_data_length_position(ty: AttributeType, position: Option<u64>) -> (r: Result<u64, ExtractError>)
    ensures
        ty != AttributeType::Data ==> r == Err::<u64, ExtractError>(ExtractError::WrongAttributeType),
        ty == AttributeType::Data && position is None ==> r == Err::<u64, ExtractError>(ExtractError::VdlUnavailable),
        ty == AttributeType::Data && position is Some ==> r == Ok::<u64, ExtractError>(position->0),
{
    match ty {
        AttributeType::Data => match position {
            Some(p) => Ok(p),
            None => Err(ExtractError::VdlUnavailable),
        },
        _ => Err(ExtractError::WrongAttributeType),
    }
}

/// Decodes the valid data length from the first bytes of an attribute
/// record; fails with a read error when fewer than `RECORD_HEADER_LEN` bytes
/// were read.
pub fn decode_valid_data_length(record: &[u8]) -> (r: Result<u64, ExtractError>)
    ensures
        record@.len() < RECORD_HEADER_LEN ==> r == Err::<u64, ExtractError>(ExtractError::Read),
        record@.len() >= RECORD_HEADER_LEN ==> r == Ok::<u64, ExtractError>(
            le_u32_at(record@, VDL_OFFSET as int) as u64,
        ),
{
    if record.len() < RECORD_HEADER_LEN {
        return Err(ExtractError::Read);
    }
    let b0 = record[VDL_OFFSET] as u64;
    let b1 = record[VDL_OFFSET + 1] as u64;
    let b2 = record[VDL_OFFSET + 2] as u64;
    let b3 = record[VDL_OFFSET + 3] as u64;
    Ok(b0 + 256 * b1 + 65536 * b2 + 16777216 * b3)
}

} // verus!
