//! Unpacking a fixed record of numbers from bytes.
//!
//! The record is 32 bytes long: a signed and an unsigned 32-bit integer, a
//! signed 16-bit integer, two bytes of padding, a 32-bit and a 64-bit
//! floating-point number, all little-endian, and one more 64-bit
//! floating-point number that is big-endian. The floating-point numbers are
//! handed out as their bit patterns.

use crate::encoding::{base64_decoded, from_base64};
use vstd::prelude::*;

verus! {

/// The length of a record.
pub const RECORD_LEN: usize = 32;

/// The two bytes at `at`, least significant first.
pub open spec fn le16(bytes: Seq<u8>, at: int) -> nat {
    (bytes[at] + bytes[at + 1] * 0x100) as nat
}

/// The four bytes at `at`, least significant first.
pub open spec fn le32(bytes: Seq<u8>, at: int) -> nat {
    (le16(bytes, at) + le16(bytes, at + 2) * 0x1_0000) as nat
}

/// The eight bytes at `at`, least significant first.
pub open spec fn le64(bytes: Seq<u8>, at: int) -> nat {
    (le32(bytes, at) + le32(bytes, at + 4) * 0x1_0000_0000) as nat
}

/// The two bytes at `at`, most significant first.
pub open spec fn be16(bytes: Seq<u8>, at: int) -> nat {
    (bytes[at] * 0x100 + bytes[at + 1]) as nat
}

/// The four bytes at `at`, most significant first.
pub open spec fn be32(bytes: Seq<u8>, at: int) -> nat {
    (be16(bytes, at) * 0x1_0000 + be16(bytes, at + 2)) as nat
}

/// The eight bytes at `at`, most significant first.
pub open spec fn be64(bytes: Seq<u8>, at: int) -> nat {
    (be32(bytes, at) * 0x1_0000_0000 + be32(bytes, at + 4)) as nat
}

/// The number that the 16-bit pattern `value` stands for in two's
/// complement.
pub open spec fn signed16(value: nat) -> int {
    if value < 0x8000 {
        value as int
    } else {
        value - 0x1_0000
    }
}

/// The number that the 32-bit pattern `value` stands for in two's
/// complement.
pub open spec fn signed32(value: nat) -> int {
    if value < 0x8000_0000 {
        value as int
    } else {
        value - 0x1_0000_0000
    }
}

/// The numbers of one record.
#[derive(Debug, Clone, Copy, PartialEq, Eq, Structural)]
pub struct Unpacked {
    pub int: i32,
    pub uint: u32,
    pub short: i16,
    /// The bit pattern of the 32-bit floating-point number.
    pub float_bits: u32,
    /// The bit pattern of the little-endian 64-bit floating-point number.
    pub double_bits: u64,
    /// The bit pattern of the big-endian 64-bit floating-point number.
    pub big_endian_double_bits: u64,
}

/// Why no record was unpacked.
#[derive(Debug, Clone, Copy, PartialEq, Eq, Structural)]
pub enum UnpackError {
    /// The text is not base64.
    NotBase64,
    /// There are fewer bytes than a record has.
    TooShort,
}

/// The record at the start of `bytes`.
pub open spec fn record(bytes: Seq<u8>) -> Unpacked {
    Unpacked {
        int: signed32(le32(bytes, 0)) as i32,
        uint: le32(bytes, 4) as u32,
        short: signed16(le16(bytes, 8)) as i16,
        float_bits: le32(bytes, 12) as u32,
        double_bits: le64(bytes, 16) as u64,
        big_endian_double_bits: be64(bytes, 24) as u64,
    }
}

/// What `unpack` answers for `bytes`.
pub open spec fn unpacked(bytes: Seq<u8>) -> Result<Unpacked, UnpackError> {
    if bytes.len() < RECORD_LEN {
        Err(UnpackError::TooShort)
    } else {
        Ok(record(bytes))
    }
}

fn read_le16(bytes: &[u8], at: usize) -> (r: u16)
    requires
        at + 2 <= bytes@.len() <= usize::MAX,
    ensures
        r == le16(bytes@, at as int),
{
    bytes[at] as u16 + bytes[at + 1] as u16 * 0x100
}

fn read_le32(bytes: &[u8], at: usize) -> (r: u32)
    requires
        at + 4 <= bytes@.len() <= usize::MAX,
    ensures
        r == le32(bytes@, at as int),
{
    let low = read_le16(bytes, at);
    let high = read_le16(bytes, at + 2);
    low as u32 + high as u32 * 0x1_0000
}

fn read_le64(bytes: &[u8], at: usize) -> (r: u64)
    requires
        at + 8 <= bytes@.len() <= usize::MAX,
    ensures
        r == le64(bytes@, at as int),
{
    let low = read_le32(bytes, at);
    let high = read_le32(bytes, at + 4);
    low as u64 + high as u64 * 0x1_0000_0000
}

fn read_be16(bytes: &[u8], at: usize) -> (r: u16)
    requires
        at + 2 <= bytes@.len() <= usize::MAX,
    ensures
        r == be16(bytes@, at as int),
{
    bytes[at] as u16 * 0x100 + bytes[at + 1] as u16
}

fn read_be32(bytes: &[u8], at: usize) -> (r: u32)
    requires
        at + 4 <= bytes@.len() <= usize::MAX,
    ensures
        r == be32(bytes@, at as int),
{
    let high = read_be16(bytes, at);
    let low = read_be16(bytes, at + 2);
    high as u32 * 0x1_0000 + low as u32
}

fn read_be64(bytes: &[u8], at: usize) -> (r: u64)
    requires
        at + 8 <= bytes@.len() <= usize::MAX,
    ensures
        r == be64(bytes@, at as int),
{
    let high = read_be32(bytes, at);
    let low = read_be32(bytes, at + 4);
    high as u64 * 0x1_0000_0000 + low as u64
}

fn to_i16(value: u16) -> (r: i16)
    ensures
        r == signed16(value as nat),
{
    if value < 0x8000 {
        value as i16
    } else {
        (value - 0x8000) as i16 + i16::MIN
    }
}

fn to_i32(value: u32) -> (r: i32)
    ensures
        r == signed32(value as nat),
{
    if value < 0x8000_0000 {
        value as i32
    } else {
        (value - 0x8000_0000) as i32 + i32::MIN
    }
}

/// Unpacks the record at the start of `bytes`. Bytes after the record are
/// not looked at.
pub fn unpack(bytes: &[u8]) -> (r: Result<Unpacked, UnpackError>)
    ensures
        r == unpacked(bytes@),
{
    if bytes.len() < RECORD_LEN {
        return Err(UnpackError::TooShort);
    }
    Ok(
        Unpacked {
            int: to_i32(read_le32(bytes, 0)),
            uint: read_le32(bytes, 4),
            short: to_i16(read_le16(bytes, 8)),
            float_bits: read_le32(bytes, 12),
            double_bits: read_le64(bytes, 16),
            big_endian_double_bits: read_be64(bytes, 24),
        },
    )
}

/// What `unpack_base64` answers for `text`.
pub open spec fn unpacked_base64(text: Seq<char>) -> Result<Unpacked, UnpackError> {
    match base64_decoded(text) {
        None => Err(UnpackError::NotBase64),
        Some(bytes) => unpacked(bytes),
    }
}

/// Unpacks the record that `text` holds in base64.
pub fn unpack_base64(text: &str) -> (r: Result<Unpacked, UnpackError>)
    ensures
        r == unpacked_base64(text@),
{
    match from_base64(text) {
        None => Err(UnpackError::NotBase64),
        Some(bytes) => unpack(bytes.as_slice()),
    }
}

} // verus!
