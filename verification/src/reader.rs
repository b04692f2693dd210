use crate::error::DnsPacketParseError;
use vstd::prelude::*;

verus! {

/// The first byte position that a read at `index` misses in a buffer of
/// `length` bytes, when the read does not fit.
pub open spec fn first_missing(index: int, length: int) -> int {
    if index >= length {
        index
    } else {
        length
    }
}

/// The failure of a read at `index` that does not fit in `length` bytes.
pub open spec fn out_of_bounds(index: int, length: int) -> DnsPacketParseError {
    DnsPacketParseError::OutOfBounds {
        index: first_missing(index, length) as usize,
        length: length as usize,
    }
}

/// The number that two bytes spell, most significant byte first.
pub open spec fn be16(a: u8, b: u8) -> u16 {
    (a as int * 256 + b as int) as u16
}

/// The number that four bytes spell, most significant byte first.
pub open spec fn be32(a: u8, b: u8, c: u8, d: u8) -> u32 {
    (a as int * 16777216 + b as int * 65536 + c as int * 256 + d as int) as u32
}

/// What reading one byte at `index` gives.
pub open spec fn spec_get8(index: int, value: Seq<u8>) -> Result<u8, DnsPacketParseError> {
    if 0 <= index < value.len() {
        Ok(value[index])
    } else {
        Err(out_of_bounds(index, value.len() as int))
    }
}

/// What reading a big-endian 16-bit number at `index` gives.
pub open spec fn spec_get16(index: int, value: Seq<u8>) -> Result<u16, DnsPacketParseError> {
    if 0 <= index && index + 2 <= value.len() {
        Ok(be16(value[index], value[index + 1]))
    } else {
        Err(out_of_bounds(index, value.len() as int))
    }
}

/// What reading a big-endian 32-bit number at `index` gives.
pub open spec fn spec_get32(index: int, value: Seq<u8>) -> Result<u32, DnsPacketParseError> {
    if 0 <= index && index + 4 <= value.len() {
        Ok(be32(value[index], value[index + 1], value[index + 2], value[index + 3]))
    } else {
        Err(out_of_bounds(index, value.len() as int))
    }
}

/// Reads the byte at `index`, or reports `index` as out of bounds.
pub fn get8(index: usize, value: &[u8]) -> (r: Result<u8, DnsPacketParseError>)
    ensures
        r == spec_get8(index as int, value@),
{
    if index < value.len() {
        Ok(value[index])
    } else {
        Err(DnsPacketParseError::OutOfBounds { index, length: value.len() })
    }
}

/// Reads two bytes at `index` as a big-endian number, or reports the first
/// of them that the buffer lacks.
pub fn get16(index: usize, value: &[u8]) -> (r: Result<u16, DnsPacketParseError>)
    ensures
        r == spec_get16(index as int, value@),
{
    let length: usize = value.len();
    if index >= length {
        Err(DnsPacketParseError::OutOfBounds { index, length })
    } else if length - index < 2 {
        Err(DnsPacketParseError::OutOfBounds { index: length, length })
    } else {
        let a: u16 = value[index] as u16;
        let b: u16 = value[index + 1] as u16;
        Ok(a * 256 + b)
    }
}

/// Reads four bytes at `index` as a big-endian number, or reports the first
/// of them that the buffer lacks.
pub fn get32(index: usize, value: &[u8]) -> (r: Result<u32, DnsPacketParseError>)
    ensures
        r == spec_get32(index as int, value@),
{
    let length: usize = value.len();
    if index >= length {
        Err(DnsPacketParseError::OutOfBounds { index, length })
    } else if length - index < 4 {
        Err(DnsPacketParseError::OutOfBounds { index: length, length })
    } else {
        let a: u32 = value[index] as u32;
        let b: u32 = value[index + 1] as u32;
        let c: u32 = value[index + 2] as u32;
        let d: u32 = value[index + 3] as u32;
        Ok(a * 16777216 + b * 65536 + c * 256 + d)
    }
}

} // verus!
