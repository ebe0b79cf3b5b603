//! Primitive Sv2 wire encodings: little-endian integers, `u24`, `bool`,
//! and the error taxonomy shared by every codec layer.

use vstd::prelude::*;
use vstd::bytes::*;
use vstd::slice::*;

verus! {

/// Failure conditions of encoding and decoding Sv2 values.
#[derive(Debug, Clone, PartialEq, Eq)]
pub enum CodecError {
    OutOfBound,
    NotABool(u8),
    /// (expected size, actual size)
    WriteError(usize, usize),
    U24TooBig(u32),
    InvalidSignatureSize(usize),
    InvalidU256(usize),
    InvalidU24(u32),
    InvalidB0255Size(usize),
    InvalidB064KSize(usize),
    InvalidB016MSize(usize),
    InvalidSeq0255Size(usize),
    NonPrimitiveTypeCannotBeEncoded,
    PrimitiveConversionError,
    DecodableConversionError,
    UnInitializedDecoder,
    IoError,
    ReadError(usize, usize),
    VoidFieldMarker,
    /// (is fixed, size, header size, max size, offending value, offending length)
    ValueExceedsMaxSize(bool, usize, usize, usize, Vec<u8>, usize),
    SeqExceedsMaxSize,
    NoDecodableFieldPassed,
    ValueIsNotAValidProtocol(u8),
    UnknownMessageType(u8),
    Sv2OptionHaveMoreThenOneElement(u8),
}

/// `p` is an initial segment of `s`.
pub open spec fn prefix_of(p: Seq<u8>, s: Seq<u8>) -> bool {
    p.len() <= s.len() && p == s.subrange(0, p.len() as int)
}

/// Wire form of a `u24`: three little-endian bytes.
pub open spec fn spec_u24_to_le_bytes(x: u32) -> Seq<u8> {
    seq![(x & 0xff) as u8, ((x >> 8) & 0xff) as u8, ((x >> 16) & 0xff) as u8]
}

/// Value of three little-endian bytes as a `u24`.
pub open spec fn spec_u24_from_le_bytes(s: Seq<u8>) -> u32
    recommends
        s.len() == 3,
{
    (s[0] + s[1] * 0x100 + s[2] * 0x10000) as u32
}

pub broadcast proof fn lemma_u24_to_from_le_bytes(x: u32)
    requires
        x < 0x1000000,
    ensures
        #[trigger] spec_u24_from_le_bytes(spec_u24_to_le_bytes(x)) == x,
        spec_u24_to_le_bytes(x).len() == 3,
{
    assert(x & 0xff < 0x100 && (x >> 8) & 0xff < 0x100 && (x >> 16) & 0xff < 0x100)
        by (bit_vector);
    assert((x & 0xff) + ((x >> 8) & 0xff) * 0x100 + ((x >> 16) & 0xff) * 0x10000 == x)
        by (bit_vector)
        requires
            x < 0x1000000,
    ;
}

pub proof fn lemma_u24_from_to_le_bytes(s: Seq<u8>)
    requires
        s.len() == 3,
    ensures
        spec_u24_from_le_bytes(s) < 0x1000000,
        spec_u24_to_le_bytes(spec_u24_from_le_bytes(s)) == s,
{
    let a = s[0];
    let b = s[1];
    let c = s[2];
    let x = spec_u24_from_le_bytes(s);
    assert(a + b * 0x100 + c * 0x10000 < 0x1000000);
    let y = (a + b * 0x100 + c * 0x10000) as u32;
    assert((y & 0xff) == y % 0x100 && ((y >> 8) & 0xff) == (y / 0x100) % 0x100 && ((y >> 16)
        & 0xff) == (y / 0x10000) % 0x100) by (bit_vector);
    assert(y % 0x100 == a && (y / 0x100) % 0x100 == b && (y / 0x10000) % 0x100 == c) by (
    nonlinear_arith)
        requires
            y == a + b * 0x100 + c * 0x10000,
            a < 0x100,
            b < 0x100,
            c < 0x100,
    ;
    assert(spec_u24_to_le_bytes(x) =~= s);
}

/// Appends the single byte of a `u8`.
pub fn encode_u8(x: u8, dst: &mut Vec<u8>)
    ensures
        final(dst)@ == old(dst)@ + seq![x],
{
    dst.push(x);
}

/// Appends the two little-endian bytes of a `u16`.
pub fn encode_u16(x: u16, dst: &mut Vec<u8>)
    ensures
        final(dst)@ == old(dst)@ + spec_u16_to_le_bytes(x),
{
    let mut b = u16_to_le_bytes(x);
    dst.append(&mut b);
}

/// Appends the three little-endian bytes of a `u24` value.
pub fn encode_u24(x: u32, dst: &mut Vec<u8>)
    requires
        x < 0x1000000,
    ensures
        final(dst)@ == old(dst)@ + spec_u24_to_le_bytes(x),
{
    proof {
        assert((x & 0xff) < 0x100 && ((x >> 8) & 0xff) < 0x100 && ((x >> 16) & 0xff) < 0x100)
            by (bit_vector);
    }
    dst.push((x & 0xff) as u8);
    dst.push(((x >> 8) & 0xff) as u8);
    dst.push(((x >> 16) & 0xff) as u8);
    assert(dst@ =~= old(dst)@ + spec_u24_to_le_bytes(x));
}

/// Appends the four little-endian bytes of a `u32`.
pub fn encode_u32(x: u32, dst: &mut Vec<u8>)
    ensures
        final(dst)@ == old(dst)@ + spec_u32_to_le_bytes(x),
{
    let mut b = u32_to_le_bytes(x);
    dst.append(&mut b);
}

/// Appends the eight little-endian bytes of a `u64`.
pub fn encode_u64(x: u64, dst: &mut Vec<u8>)
    ensures
        final(dst)@ == old(dst)@ + spec_u64_to_le_bytes(x),
{
    let mut b = u64_to_le_bytes(x);
    dst.append(&mut b);
}

/// Wire form of a `bool`: one byte, `0x00` or `0x01`.
pub open spec fn spec_bool_to_byte(b: bool) -> u8 {
    if b {
        1
    } else {
        0
    }
}

/// Appends the single wire byte of a `bool`.
pub fn encode_bool(b: bool, dst: &mut Vec<u8>)
    ensures
        final(dst)@ == old(dst)@ + seq![spec_bool_to_byte(b)],
{
    dst.push(if b {
        1
    } else {
        0
    });
}

/// Reads a `u8` at `offset`.
pub fn decode_u8(data: &[u8], offset: usize) -> (r: Result<u8, CodecError>)
    requires
        offset <= data@.len(),
    ensures
        offset + 1 <= data@.len() ==> r == Ok::<u8, CodecError>(data@[offset as int]),
        offset + 1 > data@.len() ==> r == Err::<u8, CodecError>(CodecError::OutOfBound),
{
    if data.len() - offset >= 1 {
        Ok(*slice_index_get(data, offset))
    } else {
        Err(CodecError::OutOfBound)
    }
}

/// Reads a little-endian `u16` at `offset`.
pub fn decode_u16(data: &[u8], offset: usize) -> (r: Result<u16, CodecError>)
    requires
        offset <= data@.len(),
    ensures
        offset + 2 <= data@.len() ==> r == Ok::<u16, CodecError>(
            spec_u16_from_le_bytes(data@.subrange(offset as int, offset + 2)),
        ),
        offset + 2 > data@.len() ==> r == Err::<u16, CodecError>(CodecError::OutOfBound),
{
    if data.len() - offset >= 2 {
        let w = slice_subrange(data, offset, offset + 2);
        Ok(u16_from_le_bytes(w))
    } else {
        Err(CodecError::OutOfBound)
    }
}

/// Reads a little-endian `u24` at `offset`.
pub fn decode_u24(data: &[u8], offset: usize) -> (r: Result<u32, CodecError>)
    requires
        offset <= data@.len(),
    ensures
        offset + 3 <= data@.len() ==> r == Ok::<u32, CodecError>(
            spec_u24_from_le_bytes(data@.subrange(offset as int, offset + 3)),
        ),
        offset + 3 > data@.len() ==> r == Err::<u32, CodecError>(CodecError::OutOfBound),
        r matches Ok(x) ==> x < 0x1000000,
{
    if data.len() - offset >= 3 {
        let b0 = *slice_index_get(data, offset);
        let b1 = *slice_index_get(data, offset + 1);
        let b2 = *slice_index_get(data, offset + 2);
        let x: u32 = (b0 as u32) + (b1 as u32) * 0x100 + (b2 as u32) * 0x10000;
        proof {
            let s = data@.subrange(offset as int, offset + 3);
            assert(s[0] == b0 && s[1] == b1 && s[2] == b2);
        }
        Ok(x)
    } else {
        Err(CodecError::OutOfBound)
    }
}

/// Reads a little-endian `u32` at `offset`.
pub fn decode_u32(data: &[u8], offset: usize) -> (r: Result<u32, CodecError>)
    requires
        offset <= data@.len(),
    ensures
        offset + 4 <= data@.len() ==> r == Ok::<u32, CodecError>(
            spec_u32_from_le_bytes(data@.subrange(offset as int, offset + 4)),
        ),
        offset + 4 > data@.len() ==> r == Err::<u32, CodecError>(CodecError::OutOfBound),
{
    if data.len() - offset >= 4 {
        let w = slice_subrange(data, offset, offset + 4);
        Ok(u32_from_le_bytes(w))
    } else {
        Err(CodecError::OutOfBound)
    }
}

/// Reads a little-endian `u64` at `offset`.
pub fn decode_u64(data: &[u8], offset: usize) -> (r: Result<u64, CodecError>)
    requires
        offset <= data@.len(),
    ensures
        offset + 8 <= data@.len() ==> r == Ok::<u64, CodecError>(
            spec_u64_from_le_bytes(data@.subrange(offset as int, offset + 8)),
        ),
        offset + 8 > data@.len() ==> r == Err::<u64, CodecError>(CodecError::OutOfBound),
{
    if data.len() - offset >= 8 {
        let w = slice_subrange(data, offset, offset + 8);
        Ok(u64_from_le_bytes(w))
    } else {
        Err(CodecError::OutOfBound)
    }
}

/// Reads a `bool` at `offset`; any byte other than `0x00` or `0x01` is rejected.
pub fn decode_bool(data: &[u8], offset: usize) -> (r: Result<bool, CodecError>)
    requires
        offset <= data@.len(),
    ensures
        offset + 1 > data@.len() ==> r == Err::<bool, CodecError>(CodecError::OutOfBound),
        offset + 1 <= data@.len() ==> r == (if data@[offset as int] == 0 {
            Ok::<bool, CodecError>(false)
        } else if data@[offset as int] == 1 {
            Ok::<bool, CodecError>(true)
        } else {
            Err::<bool, CodecError>(CodecError::NotABool(data@[offset as int]))
        }),
{
    if data.len() - offset >= 1 {
        let b = *slice_index_get(data, offset);
        if b == 0 {
            Ok(false)
        } else if b == 1 {
            Ok(true)
        } else {
            Err(CodecError::NotABool(b))
        }
    } else {
        Err(CodecError::OutOfBound)
    }
}

} // verus!
