//! Byte orders, and the integers that byte sequences stand for.
use byteorder::{BigEndian, LittleEndian, ReadBytesExt};
use vstd::prelude::*;

verus! {

/// Byte order of a GGUF file.
#[derive(Debug, Clone, Copy, PartialEq, Eq, Structural)]
pub enum ByteOrder {
    LE,
    BE,
}

impl Default for ByteOrder {
    fn default() -> (order: Self)
        ensures
            order == ByteOrder::LE,
    {
        ByteOrder::LE
    }
}

/// The number whose base-256 digits are `bytes`, least significant first.
pub open spec fn le_value(bytes: Seq<u8>) -> nat
    decreases bytes.len(),
{
    if bytes.len() == 0 {
        0
    } else {
        bytes[0] as nat + 256 * le_value(bytes.skip(1))
    }
}

/// The number whose base-256 digits are `bytes`, most significant first.
pub open spec fn be_value(bytes: Seq<u8>) -> nat
    decreases bytes.len(),
{
    if bytes.len() == 0 {
        0
    } else {
        256 * be_value(bytes.drop_last()) + bytes.last() as nat
    }
}

/// The unsigned number that `bytes` stand for in byte order `order`.
pub open spec fn uint_value(order: ByteOrder, bytes: Seq<u8>) -> nat {
    match order {
        ByteOrder::LE => le_value(bytes),
        ByteOrder::BE => be_value(bytes),
    }
}

/// Half the number of values that `width` bytes can hold.
pub open spec fn half_range(width: nat) -> int {
    if width == 1 {
        0x80
    } else if width == 2 {
        0x8000
    } else if width == 4 {
        0x8000_0000
    } else {
        0x8000_0000_0000_0000
    }
}

/// The two's complement reading of the unsigned number `n` of `width` bytes.
pub open spec fn signed_value(n: nat, width: nat) -> int {
    if n < half_range(width) {
        n as int
    } else {
        n - 2 * half_range(width)
    }
}

/// The error that a read from a byte source reports.
#[verifier::external_type_specification]
#[verifier::external_body]
pub struct ExIoError(std::io::Error);

/// `byteorder::ReadBytesExt::read_u8` on a slice: the first byte, or an error if there is none.
#[verifier::external_body]
pub(crate) fn front_u8(src: &[u8]) -> (r: Result<u8, std::io::Error>)
    ensures
        r is Ok <==> src@.len() >= 1,
        r matches Ok(v) ==> v == src@[0],
{
    let mut rest = src;
    rest.read_u8()
}

/// `byteorder::ReadBytesExt::read_i8` on a slice: the first byte as a two's complement number, or
/// an error if there is none.
#[verifier::external_body]
pub(crate) fn front_i8(src: &[u8]) -> (r: Result<i8, std::io::Error>)
    ensures
        r is Ok <==> src@.len() >= 1,
        r matches Ok(v) ==> v == signed_value(src@[0] as nat, 1),
{
    let mut rest = src;
    rest.read_i8()
}

/// `byteorder::ReadBytesExt::read_u16` with `LittleEndian` on a slice: the first two bytes as a
/// number, or an error if there are fewer.
#[verifier::external_body]
pub(crate) fn front_u16_le(src: &[u8]) -> (r: Result<u16, std::io::Error>)
    ensures
        r is Ok <==> src@.len() >= 2,
        r matches Ok(v) ==> v == le_value(src@.take(2)),
{
    let mut rest = src;
    rest.read_u16::<LittleEndian>()
}

/// `byteorder::ReadBytesExt::read_u16` with `BigEndian` on a slice: the first two bytes as a
/// number, or an error if there are fewer.
#[verifier::external_body]
pub(crate) fn front_u16_be(src: &[u8]) -> (r: Result<u16, std::io::Error>)
    ensures
        r is Ok <==> src@.len() >= 2,
        r matches Ok(v) ==> v == be_value(src@.take(2)),
{
    let mut rest = src;
    rest.read_u16::<BigEndian>()
}

/// `byteorder::ReadBytesExt::read_i16` with `LittleEndian` on a slice: the first two bytes as a
/// two's complement number, or an error if there are fewer.
#[verifier::external_body]
pub(crate) fn front_i16_le(src: &[u8]) -> (r: Result<i16, std::io::Error>)
    ensures
        r is Ok <==> src@.len() >= 2,
        r matches Ok(v) ==> v == signed_value(le_value(src@.take(2)), 2),
{
    let mut rest = src;
    rest.read_i16::<LittleEndian>()
}

/// `byteorder::ReadBytesExt::read_i16` with `BigEndian` on a slice: the first two bytes as a
/// two's complement number, or an error if there are fewer.
#[verifier::external_body]
pub(crate) fn front_i16_be(src: &[u8]) -> (r: Result<i16, std::io::Error>)
    ensures
        r is Ok <==> src@.len() >= 2,
        r matches Ok(v) ==> v == signed_value(be_value(src@.take(2)), 2),
{
    let mut rest = src;
    rest.read_i16::<BigEndian>()
}

/// `byteorder::ReadBytesExt::read_u32` with `LittleEndian` on a slice: the first four bytes as a
/// number, or an error if there are fewer.
#[verifier::external_body]
pub(crate) fn front_u32_le(src: &[u8]) -> (r: Result<u32, std::io::Error>)
    ensures
        r is Ok <==> src@.len() >= 4,
        r matches Ok(v) ==> v == le_value(src@.take(4)),
{
    let mut rest = src;
    rest.read_u32::<LittleEndian>()
}

/// `byteorder::ReadBytesExt::read_u32` with `BigEndian` on a slice: the first four bytes as a
/// number, or an error if there are fewer.
#[verifier::external_body]
pub(crate) fn front_u32_be(src: &[u8]) -> (r: Result<u32, std::io::Error>)
    ensures
        r is Ok <==> src@.len() >= 4,
        r matches Ok(v) ==> v == be_value(src@.take(4)),
{
    let mut rest = src;
    rest.read_u32::<BigEndian>()
}

/// `byteorder::ReadBytesExt::read_i32` with `LittleEndian` on a slice: the first four bytes as a
/// two's complement number, or an error if there are fewer.
#[verifier::external_body]
pub(crate) fn front_i32_le(src: &[u8]) -> (r: Result<i32, std::io::Error>)
    ensures
        r is Ok <==> src@.len() >= 4,
        r matches Ok(v) ==> v == signed_value(le_value(src@.take(4)), 4),
{
    let mut rest = src;
    rest.read_i32::<LittleEndian>()
}

/// `byteorder::ReadBytesExt::read_i32` with `BigEndian` on a slice: the first four bytes as a
/// two's complement number, or an error if there are fewer.
#[verifier::external_body]
pub(crate) fn front_i32_be(src: &[u8]) -> (r: Result<i32, std::io::Error>)
    ensures
        r is Ok <==> src@.len() >= 4,
        r matches Ok(v) ==> v == signed_value(be_value(src@.take(4)), 4),
{
    let mut rest = src;
    rest.read_i32::<BigEndian>()
}

/// `byteorder::ReadBytesExt::read_u64` with `LittleEndian` on a slice: the first eight bytes as a
/// number, or an error if there are fewer.
#[verifier::external_body]
pub(crate) fn front_u64_le(src: &[u8]) -> (r: Result<u64, std::io::Error>)
    ensures
        r is Ok <==> src@.len() >= 8,
        r matches Ok(v) ==> v == le_value(src@.take(8)),
{
    let mut rest = src;
    rest.read_u64::<LittleEndian>()
}

/// `byteorder::ReadBytesExt::read_u64` with `BigEndian` on a slice: the first eight bytes as a
/// number, or an error if there are fewer.
#[verifier::external_body]
pub(crate) fn front_u64_be(src: &[u8]) -> (r: Result<u64, std::io::Error>)
    ensures
        r is Ok <==> src@.len() >= 8,
        r matches Ok(v) ==> v == be_value(src@.take(8)),
{
    let mut rest = src;
    rest.read_u64::<BigEndian>()
}

/// `byteorder::ReadBytesExt::read_i64` with `LittleEndian` on a slice: the first eight bytes as a
/// two's complement number, or an error if there are fewer.
#[verifier::external_body]
pub(crate) fn front_i64_le(src: &[u8]) -> (r: Result<i64, std::io::Error>)
    ensures
        r is Ok <==> src@.len() >= 8,
        r matches Ok(v) ==> v == signed_value(le_value(src@.take(8)), 8),
{
    let mut rest = src;
    rest.read_i64::<LittleEndian>()
}

/// `byteorder::ReadBytesExt::read_i64` with `BigEndian` on a slice: the first eight bytes as a
/// two's complement number, or an error if there are fewer.
#[verifier::external_body]
pub(crate) fn front_i64_be(src: &[u8]) -> (r: Result<i64, std::io::Error>)
    ensures
        r is Ok <==> src@.len() >= 8,
        r matches Ok(v) ==> v == signed_value(be_value(src@.take(8)), 8),
{
    let mut rest = src;
    rest.read_i64::<BigEndian>()
}

} // verus!
