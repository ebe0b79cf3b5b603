//! The structural codec layer: a compound type declares its layout as a
//! list of field markers; the decoder walks the markers, sizes each field
//! from the buffer, and decodes it in place.

use vstd::prelude::*;
use vstd::bytes::*;
use crate::codec::CodecError;
use crate::codec::spec_bool_to_byte;
use crate::codec::encode_u16;
use crate::codec::encode_u32;
use crate::codec::encode_u64;
use crate::codec::encode_u8;
use crate::codec::encode_bool;
use crate::codec::decode_u8;
use crate::codec::decode_u16;
use crate::codec::decode_u32;
use crate::codec::decode_u64;
use crate::codec::decode_bool;
use crate::datatypes::U24;
use crate::datatypes::U256;
use crate::datatypes::ShortTxId;
use crate::datatypes::Signature;
use crate::datatypes::U32AsRef;
use crate::datatypes::B032;
use crate::datatypes::B0255;
use crate::datatypes::B064K;
use crate::datatypes::B016M;
use crate::datatypes::Inner;

verus! {

/// Marker of one primitive wire type.
#[derive(Debug, Clone, Copy, PartialEq, Eq, Structural)]
pub enum PrimitiveMarker {
    U8,
    U16,
    Bool,
    U24,
    U256,
    ShortTxId,
    Signature,
    U32,
    U32AsRef,
    U64,
    B032,
    B0255,
    B064K,
    B016M,
}

/// Marker of one field: a primitive, or a nested structure of fields.
#[derive(Debug, PartialEq, Eq)]
pub enum FieldMarker {
    Primitive(PrimitiveMarker),
    Struct(Vec<FieldMarker>),
}

/// Clamps an offset to the end of the buffer.
pub open spec fn clamp_to(len: int, off: int) -> int {
    if off <= len {
        off
    } else {
        len
    }
}

/// Total size of the encoded value of marker `m` that starts at `offset`:
/// the constant for a fixed type, prefix plus declared length for a
/// variable one, `None` when the prefix lies beyond the buffer.
pub open spec fn spec_primitive_hint(m: PrimitiveMarker, data: Seq<u8>, offset: int) -> Option<
    int,
> {
    match m {
        PrimitiveMarker::U8 => Some(1),
        PrimitiveMarker::U16 => Some(2),
        PrimitiveMarker::Bool => Some(1),
        PrimitiveMarker::U24 => Some(3),
        PrimitiveMarker::U256 => Some(32),
        PrimitiveMarker::ShortTxId => Some(6),
        PrimitiveMarker::Signature => Some(64),
        PrimitiveMarker::U32 => Some(4),
        PrimitiveMarker::U32AsRef => Some(4),
        PrimitiveMarker::U64 => Some(8),
        PrimitiveMarker::B032 => if 0 <= offset && offset + 1 <= data.len() {
            Some(1 + data[offset])
        } else {
            None
        },
        PrimitiveMarker::B0255 => if 0 <= offset && offset + 1 <= data.len() {
            Some(1 + data[offset])
        } else {
            None
        },
        PrimitiveMarker::B064K => if 0 <= offset && offset + 2 <= data.len() {
            Some(2 + spec_u16_from_le_bytes(data.subrange(offset, offset + 2)))
        } else {
            None
        },
        PrimitiveMarker::B016M => if 0 <= offset && offset + 3 <= data.len() {
            Some(3 + crate::codec::spec_u24_from_le_bytes(data.subrange(offset, offset + 3)))
        } else {
            None
        },
    }
}

/// Total size of the encoded field of shape `f` that starts at `offset`:
/// for a structure, each field is sized after the one before it.
pub open spec fn spec_field_hint(f: FieldMarker, data: Seq<u8>, offset: int) -> Option<int>
    decreases f, 1int, 0int,
{
    match f {
        FieldMarker::Primitive(p) => spec_primitive_hint(p, data, offset),
        FieldMarker::Struct(_) => spec_fields_hint_from(f, data, offset, 0),
    }
}

/// Total size of the fields of `f` from index `i` on, the first of them
/// starting at `offset`.
pub open spec fn spec_fields_hint_from(f: FieldMarker, data: Seq<u8>, offset: int, i: int) -> Option<
    int,
>
    recommends
        f is Struct,
    decreases
            f,
            0int,
            (if f is Struct && i <= f->Struct_0@.len() {
                f->Struct_0@.len() - i
            } else {
                0
            }),
    via spec_fields_hint_from_decreases
{
    if f is Struct && 0 <= i < f->Struct_0@.len() {
        match spec_field_hint(f->Struct_0@[i], data, offset) {
            Some(n) => match spec_fields_hint_from(
                f,
                data,
                clamp_to(data.len() as int, offset + n),
                i + 1,
            ) {
                Some(rest) => Some(n + rest),
                None => None,
            },
            None => None,
        }
    } else {
        Some(0)
    }
}

#[via_fn]
proof fn spec_fields_hint_from_decreases(f: FieldMarker, data: Seq<u8>, offset: int, i: int) {
    if f is Struct && 0 <= i < f->Struct_0@.len() {
        assert(decreases_to!(f => f->Struct_0));
        assert(decreases_to!(f->Struct_0 => f->Struct_0@));
        assert(decreases_to!(f->Struct_0@ => f->Struct_0@[i]));
        assert(decreases_to!(f => f->Struct_0@[i]));
    }
}

/// A size hint is never negative.
proof fn lemma_field_hint_nonneg(f: FieldMarker, data: Seq<u8>, offset: int)
    ensures
        spec_field_hint(f, data, offset) matches Some(n) ==> n >= 0,
    decreases f, 1int, 0int,
{
    match f {
        FieldMarker::Primitive(_) => {},
        FieldMarker::Struct(_) => {
            lemma_fields_hint_from_nonneg(f, data, offset, 0);
        },
    }
}

/// The size of a run of fields is never negative.
proof fn lemma_fields_hint_from_nonneg(f: FieldMarker, data: Seq<u8>, offset: int, i: int)
    requires
        f is Struct,
    ensures
        spec_fields_hint_from(f, data, offset, i) matches Some(n) ==> n >= 0,
    decreases
            f,
            0int,
            (if i <= f->Struct_0@.len() {
                f->Struct_0@.len() - i
            } else {
                0
            }),
{
    if 0 <= i < f->Struct_0@.len() {
        assert(decreases_to!(f => f->Struct_0));
        assert(decreases_to!(f->Struct_0 => f->Struct_0@));
        assert(decreases_to!(f->Struct_0@ => f->Struct_0@[i]));
        assert(decreases_to!(f => f->Struct_0@[i]));
        lemma_field_hint_nonneg(f->Struct_0@[i], data, offset);
        match spec_field_hint(f->Struct_0@[i], data, offset) {
            Some(n) => {
                lemma_fields_hint_from_nonneg(
                    f,
                    data,
                    clamp_to(data.len() as int, offset + n),
                    i + 1,
                );
            },
            None => {},
        }
    }
}

/// One decoded primitive value.
#[derive(Debug, Clone, PartialEq, Eq)]
pub enum DecodablePrimitive {
    U8(u8),
    U16(u16),
    Bool(bool),
    U24(U24),
    U256(U256),
    ShortTxId(ShortTxId),
    Signature(Signature),
    U32(u32),
    U32AsRef(U32AsRef),
    U64(u64),
    B032(B032),
    B0255(B0255),
    B064K(B064K),
    B016M(B016M),
}

/// One decoded field: a primitive, or a nested structure of decoded fields.
#[derive(Debug, PartialEq, Eq)]
pub enum DecodableField {
    Primitive(DecodablePrimitive),
    Struct(Vec<DecodableField>),
}

impl DecodablePrimitive {
    /// The held value respects its type's size discipline.
    pub open spec fn wf(self) -> bool {
        match self {
            DecodablePrimitive::U24(v) => v.wf(),
            DecodablePrimitive::U256(v) => v.wf(),
            DecodablePrimitive::ShortTxId(v) => v.wf(),
            DecodablePrimitive::Signature(v) => v.wf(),
            DecodablePrimitive::U32AsRef(v) => v.wf(),
            DecodablePrimitive::B032(v) => v.wf(),
            DecodablePrimitive::B0255(v) => v.wf(),
            DecodablePrimitive::B064K(v) => v.wf(),
            DecodablePrimitive::B016M(v) => v.wf(),
            _ => true,
        }
    }

    /// The wire encoding of the held value.
    pub open spec fn enc(self) -> Seq<u8> {
        match self {
            DecodablePrimitive::U8(v) => seq![v],
            DecodablePrimitive::U16(v) => spec_u16_to_le_bytes(v),
            DecodablePrimitive::Bool(v) => seq![spec_bool_to_byte(v)],
            DecodablePrimitive::U24(v) => v.enc(),
            DecodablePrimitive::U256(v) => v.enc(),
            DecodablePrimitive::ShortTxId(v) => v.enc(),
            DecodablePrimitive::Signature(v) => v.enc(),
            DecodablePrimitive::U32(v) => spec_u32_to_le_bytes(v),
            DecodablePrimitive::U32AsRef(v) => v.enc(),
            DecodablePrimitive::U64(v) => spec_u64_to_le_bytes(v),
            DecodablePrimitive::B032(v) => v.enc(),
            DecodablePrimitive::B0255(v) => v.enc(),
            DecodablePrimitive::B064K(v) => v.enc(),
            DecodablePrimitive::B016M(v) => v.enc(),
        }
    }

    /// The marker this value answers to.
    pub open spec fn marker(self) -> PrimitiveMarker {
        match self {
            DecodablePrimitive::U8(_) => PrimitiveMarker::U8,
            DecodablePrimitive::U16(_) => PrimitiveMarker::U16,
            DecodablePrimitive::Bool(_) => PrimitiveMarker::Bool,
            DecodablePrimitive::U24(_) => PrimitiveMarker::U24,
            DecodablePrimitive::U256(_) => PrimitiveMarker::U256,
            DecodablePrimitive::ShortTxId(_) => PrimitiveMarker::ShortTxId,
            DecodablePrimitive::Signature(_) => PrimitiveMarker::Signature,
            DecodablePrimitive::U32(_) => PrimitiveMarker::U32,
            DecodablePrimitive::U32AsRef(_) => PrimitiveMarker::U32AsRef,
            DecodablePrimitive::U64(_) => PrimitiveMarker::U64,
            DecodablePrimitive::B032(_) => PrimitiveMarker::B032,
            DecodablePrimitive::B0255(_) => PrimitiveMarker::B0255,
            DecodablePrimitive::B064K(_) => PrimitiveMarker::B064K,
            DecodablePrimitive::B016M(_) => PrimitiveMarker::B016M,
        }
    }

    /// Serialized length of the held value.
    pub fn get_size(&self) -> (r: usize)
        requires
            self.wf(),
        ensures
            r == self.enc().len(),
    {
        proof {
            lemma_auto_spec_u16_to_from_le_bytes();
            lemma_auto_spec_u32_to_from_le_bytes();
            lemma_auto_spec_u64_to_from_le_bytes();
        }
        match self {
            DecodablePrimitive::U8(_) => 1,
            DecodablePrimitive::U16(_) => 2,
            DecodablePrimitive::Bool(_) => 1,
            DecodablePrimitive::U24(_) => 3,
            DecodablePrimitive::U256(v) => v.get_size(),
            DecodablePrimitive::ShortTxId(v) => v.get_size(),
            DecodablePrimitive::Signature(v) => v.get_size(),
            DecodablePrimitive::U32(_) => 4,
            DecodablePrimitive::U32AsRef(v) => v.get_size(),
            DecodablePrimitive::U64(_) => 8,
            DecodablePrimitive::B032(v) => v.get_size(),
            DecodablePrimitive::B0255(v) => v.get_size(),
            DecodablePrimitive::B064K(v) => v.get_size(),
            DecodablePrimitive::B016M(v) => v.get_size(),
        }
    }
}

impl PrimitiveMarker {
    /// Total size of the encoded value of this type that starts at
    /// `offset`, read from the length prefix where the type has one.
    pub fn size_hint_(&self, data: &[u8], offset: usize) -> (r: Result<usize, CodecError>)
        requires
            offset <= data@.len(),
        ensures
            r matches Ok(n) ==> n <= 0x1000003,
            self is U8 ==> r == Ok::<usize, CodecError>(1),
            self is U16 ==> r == Ok::<usize, CodecError>(2),
            self is Bool ==> r == Ok::<usize, CodecError>(1),
            self is U24 ==> r == Ok::<usize, CodecError>(3),
            self is U256 ==> r == Ok::<usize, CodecError>(32),
            self is ShortTxId ==> r == Ok::<usize, CodecError>(6),
            self is Signature ==> r == Ok::<usize, CodecError>(64),
            self is U32 ==> r == Ok::<usize, CodecError>(4),
            self is U32AsRef ==> r == Ok::<usize, CodecError>(4),
            self is U64 ==> r == Ok::<usize, CodecError>(8),
            (self is B032 || self is B0255) && offset + 1 <= data@.len() ==> r == Ok::<
                usize,
                CodecError,
            >((1 + data@[offset as int]) as usize),
            self is B064K && offset + 2 <= data@.len() ==> r == Ok::<usize, CodecError>(
                (2 + spec_u16_from_le_bytes(data@.subrange(offset as int, offset + 2))) as usize,
            ),
            self is B016M && offset + 3 <= data@.len() ==> r == Ok::<usize, CodecError>(
                (3 + crate::codec::spec_u24_from_le_bytes(
                    data@.subrange(offset as int, offset + 3),
                )) as usize,
            ),
            (self is B032 || self is B0255) && offset + 1 > data@.len() ==> r == Err::<
                usize,
                CodecError,
            >(CodecError::OutOfBound),
            self is B064K && offset + 2 > data@.len() ==> r == Err::<usize, CodecError>(
                CodecError::OutOfBound,
            ),
            self is B016M && offset + 3 > data@.len() ==> r == Err::<usize, CodecError>(
                CodecError::OutOfBound,
            ),
            spec_primitive_hint(*self, data@, offset as int) matches Some(n) ==> r == Ok::<
                usize,
                CodecError,
            >(n as usize),
            spec_primitive_hint(*self, data@, offset as int) is None ==> r == Err::<
                usize,
                CodecError,
            >(CodecError::OutOfBound),
    {
        match self {
            PrimitiveMarker::U8 => Ok(1),
            PrimitiveMarker::U16 => Ok(2),
            PrimitiveMarker::Bool => Ok(1),
            PrimitiveMarker::U24 => Ok(3),
            PrimitiveMarker::U256 => Ok(32),
            PrimitiveMarker::ShortTxId => Ok(6),
            PrimitiveMarker::Signature => Ok(64),
            PrimitiveMarker::U32 => Ok(4),
            PrimitiveMarker::U32AsRef => Ok(4),
            PrimitiveMarker::U64 => Ok(8),
            PrimitiveMarker::B032 => B032::size_hint(data, offset),
            PrimitiveMarker::B0255 => B0255::size_hint(data, offset),
            PrimitiveMarker::B064K => B064K::size_hint(data, offset),
            PrimitiveMarker::B016M => B016M::size_hint(data, offset),
        }
    }

    /// Decodes one value of this type that starts at `offset`.
    ///
    /// On success the decoded value answers to this marker and its encoding
    /// is exactly the bytes consumed; when the buffer starts with any
    /// well-formed encoding of this marker's type, decoding succeeds on it.
    pub fn decode(&self, data: &[u8], offset: usize) -> (r: Result<
        (DecodablePrimitive, usize),
        CodecError,
    >)
        requires
            offset <= data@.len(),
        ensures
            r matches Ok(p) ==> p.0.wf() && p.0.marker() == self && offset + p.1 <= data@.len()
                && p.1 == p.0.enc().len() && p.0.enc() == data@.subrange(
                offset as int,
                offset + p.1,
            ),
            forall|p: DecodablePrimitive|
                p.wf() && p.marker() == *self && crate::codec::prefix_of(
                    p.enc(),
                    data@.skip(offset as int),
                ) ==> (r matches Ok(q) && q.0.enc() == p.enc() && q.1 == p.enc().len()),
    {
        match self {
            PrimitiveMarker::U8 | PrimitiveMarker::U16 | PrimitiveMarker::Bool
                | PrimitiveMarker::U32 | PrimitiveMarker::U64 => self.decode_plain(data, offset),
            PrimitiveMarker::U24 | PrimitiveMarker::U256 | PrimitiveMarker::ShortTxId
                | PrimitiveMarker::Signature | PrimitiveMarker::U32AsRef => self.decode_fixed_bytes(
                data,
                offset,
            ),
            PrimitiveMarker::B032 | PrimitiveMarker::B0255 | PrimitiveMarker::B064K
                | PrimitiveMarker::B016M => self.decode_bounded_bytes(data, offset),
        }
    }

    /// Decodes a plain integer or boolean that starts at `offset`.
    #[verifier::rlimit(100)]
    fn decode_plain(&self, data: &[u8], offset: usize) -> (r: Result<
        (DecodablePrimitive, usize),
        CodecError,
    >)
        requires
            offset <= data@.len(),
            self is U8 || self is U16 || self is Bool || self is U32 || self is U64,
        ensures
            r matches Ok(p) ==> p.0.wf() && p.0.marker() == self && offset + p.1 <= data@.len()
                && p.1 == p.0.enc().len() && p.0.enc() == data@.subrange(
                offset as int,
                offset + p.1,
            ),
            forall|p: DecodablePrimitive|
                p.wf() && p.marker() == *self && crate::codec::prefix_of(
                    p.enc(),
                    data@.skip(offset as int),
                ) ==> (r matches Ok(q) && q.0.enc() == p.enc() && q.1 == p.enc().len()),
    {
        proof {
            lemma_auto_spec_u16_to_from_le_bytes();
            lemma_auto_spec_u32_to_from_le_bytes();
            lemma_auto_spec_u64_to_from_le_bytes();
        }
        match self {
            PrimitiveMarker::U8 => match decode_u8(data, offset) {
                Ok(v) => {
                    proof {
                        assert(seq![v] =~= data@.subrange(offset as int, offset + 1));
                        assert forall|p: DecodablePrimitive|
                            p.wf() && p.marker() == PrimitiveMarker::U8
                                && crate::codec::prefix_of(
                                p.enc(),
                                data@.skip(offset as int),
                            ) implies p.enc() == seq![v] by {
                            assert(p is U8);
                            assert(p.enc() =~= data@.subrange(offset as int, offset + 1));
                        }
                    }
                    Ok((DecodablePrimitive::U8(v), 1))
                },
                Err(e) => {
                    proof {
                        assert forall|p: DecodablePrimitive|
                            p.wf() && p.marker() == PrimitiveMarker::U8
                                implies !crate::codec::prefix_of(
                                p.enc(),
                                data@.skip(offset as int),
                            ) by {
                            assert(p is U8);
                        }
                    }
                    Err(e)
                },
            },
            PrimitiveMarker::U16 => match decode_u16(data, offset) {
                Ok(v) => {
                    proof {
                        assert(spec_u16_to_le_bytes(v) =~= data@.subrange(offset as int, offset + 2));
                        assert forall|p: DecodablePrimitive|
                            p.wf() && p.marker() == PrimitiveMarker::U16
                                && crate::codec::prefix_of(
                                p.enc(),
                                data@.skip(offset as int),
                            ) implies p.enc() == spec_u16_to_le_bytes(v) by {
                            assert(p is U16);
                            assert(p.enc() =~= data@.subrange(offset as int, offset + 2));
                        }
                    }
                    Ok((DecodablePrimitive::U16(v), 2))
                },
                Err(e) => {
                    proof {
                        assert forall|p: DecodablePrimitive|
                            p.wf() && p.marker() == PrimitiveMarker::U16
                                implies !crate::codec::prefix_of(
                                p.enc(),
                                data@.skip(offset as int),
                            ) by {
                            assert(p is U16);
                        }
                    }
                    Err(e)
                },
            },
            PrimitiveMarker::Bool => match decode_bool(data, offset) {
                Ok(v) => {
                    proof {
                        assert(seq![spec_bool_to_byte(v)] =~= data@.subrange(
                            offset as int,
                            offset + 1,
                        ));
                        assert forall|p: DecodablePrimitive|
                            p.wf() && p.marker() == PrimitiveMarker::Bool
                                && crate::codec::prefix_of(
                                p.enc(),
                                data@.skip(offset as int),
                            ) implies p.enc() == seq![spec_bool_to_byte(v)] by {
                            assert(p is Bool);
                            assert(p.enc() =~= data@.subrange(offset as int, offset + 1));
                        }
                    }
                    Ok((DecodablePrimitive::Bool(v), 1))
                },
                Err(e) => {
                    proof {
                        assert forall|p: DecodablePrimitive|
                            p.wf() && p.marker() == PrimitiveMarker::Bool
                                implies !crate::codec::prefix_of(
                                p.enc(),
                                data@.skip(offset as int),
                            ) by {
                            assert(p is Bool);
                            if offset + 1 <= data@.len() {
                                if crate::codec::prefix_of(p.enc(), data@.skip(offset as int)) {
                                    assert(p.enc()[0] == data@[offset as int]);
                                }
                            }
                        }
                    }
                    Err(e)
                },
            },
            PrimitiveMarker::U32 => match decode_u32(data, offset) {
                Ok(v) => {
                    proof {
                        assert(spec_u32_to_le_bytes(v) =~= data@.subrange(offset as int, offset + 4));
                        assert forall|p: DecodablePrimitive|
                            p.wf() && p.marker() == PrimitiveMarker::U32
                                && crate::codec::prefix_of(
                                p.enc(),
                                data@.skip(offset as int),
                            ) implies p.enc() == spec_u32_to_le_bytes(v) by {
                            assert(p is U32);
                            assert(p.enc() =~= data@.subrange(offset as int, offset + 4));
                        }
                    }
                    Ok((DecodablePrimitive::U32(v), 4))
                },
                Err(e) => {
                    proof {
                        assert forall|p: DecodablePrimitive|
                            p.wf() && p.marker() == PrimitiveMarker::U32
                                implies !crate::codec::prefix_of(
                                p.enc(),
                                data@.skip(offset as int),
                            ) by {
                            assert(p is U32);
                        }
                    }
                    Err(e)
                },
            },
            PrimitiveMarker::U64 => match decode_u64(data, offset) {
                Ok(v) => {
                    proof {
                        assert(spec_u64_to_le_bytes(v) =~= data@.subrange(offset as int, offset + 8));
                        assert forall|p: DecodablePrimitive|
                            p.wf() && p.marker() == PrimitiveMarker::U64
                                && crate::codec::prefix_of(
                                p.enc(),
                                data@.skip(offset as int),
                            ) implies p.enc() == spec_u64_to_le_bytes(v) by {
                            assert(p is U64);
                            assert(p.enc() =~= data@.subrange(offset as int, offset + 8));
                        }
                    }
                    Ok((DecodablePrimitive::U64(v), 8))
                },
                Err(e) => {
                    proof {
                        assert forall|p: DecodablePrimitive|
                            p.wf() && p.marker() == PrimitiveMarker::U64
                                implies !crate::codec::prefix_of(
                                p.enc(),
                                data@.skip(offset as int),
                            ) by {
                            assert(p is U64);
                        }
                    }
                    Err(e)
                },
            },
            _ => Err(CodecError::NoDecodableFieldPassed),
        }
    }

    /// Decodes a fixed-size byte value that starts at `offset`.
    #[verifier::rlimit(100)]
    fn decode_fixed_bytes(&self, data: &[u8], offset: usize) -> (r: Result<
        (DecodablePrimitive, usize),
        CodecError,
    >)
        requires
            offset <= data@.len(),
            self is U24 || self is U256 || self is ShortTxId || self is Signature || self is U32AsRef,
        ensures
            r matches Ok(p) ==> p.0.wf() && p.0.marker() == self && offset + p.1 <= data@.len()
                && p.1 == p.0.enc().len() && p.0.enc() == data@.subrange(
                offset as int,
                offset + p.1,
            ),
            forall|p: DecodablePrimitive|
                p.wf() && p.marker() == *self && crate::codec::prefix_of(
                    p.enc(),
                    data@.skip(offset as int),
                ) ==> (r matches Ok(q) && q.0.enc() == p.enc() && q.1 == p.enc().len()),
    {
        proof {
            lemma_auto_spec_u16_to_from_le_bytes();
            lemma_auto_spec_u32_to_from_le_bytes();
            lemma_auto_spec_u64_to_from_le_bytes();
        }
        match self {
            PrimitiveMarker::U24 => match U24::decode(data, offset) {
                Ok(p) => {
                    proof {
                        assert forall|q: DecodablePrimitive|
                            q.wf() && q.marker() == PrimitiveMarker::U24
                                && crate::codec::prefix_of(
                                q.enc(),
                                data@.skip(offset as int),
                            ) implies q.enc() == p.0.enc() && q.enc().len() == p.1 by {
                            assert(q is U24);
                            assert(crate::codec::prefix_of(
                                (q->U24_0).enc(),
                                data@.skip(offset as int),
                            ));
                        }
                    }
                    Ok((DecodablePrimitive::U24(p.0), p.1))
                },
                Err(e) => {
                    proof {
                        assert forall|q: DecodablePrimitive|
                            q.wf() && q.marker() == PrimitiveMarker::U24
                                implies !crate::codec::prefix_of(
                                q.enc(),
                                data@.skip(offset as int),
                            ) by {
                            assert(q is U24);
                            if crate::codec::prefix_of(q.enc(), data@.skip(offset as int)) {
                                assert(crate::codec::prefix_of(
                                    (q->U24_0).enc(),
                                    data@.skip(offset as int),
                                ));
                            }
                        }
                    }
                    Err(e)
                },
            },
            PrimitiveMarker::U256 => match U256::decode(data, offset) {
                Ok(p) => {
                    proof {
                        assert forall|q: DecodablePrimitive|
                            q.wf() && q.marker() == PrimitiveMarker::U256
                                && crate::codec::prefix_of(
                                q.enc(),
                                data@.skip(offset as int),
                            ) implies q.enc() == p.0.enc() && q.enc().len() == p.1 by {
                            assert(q is U256);
                            assert(crate::codec::prefix_of(
                                (q->U256_0).enc(),
                                data@.skip(offset as int),
                            ));
                        }
                    }
                    Ok((DecodablePrimitive::U256(p.0), p.1))
                },
                Err(e) => {
                    proof {
                        assert forall|q: DecodablePrimitive|
                            q.wf() && q.marker() == PrimitiveMarker::U256
                                implies !crate::codec::prefix_of(
                                q.enc(),
                                data@.skip(offset as int),
                            ) by {
                            assert(q is U256);
                            if crate::codec::prefix_of(q.enc(), data@.skip(offset as int)) {
                                assert(crate::codec::prefix_of(
                                    (q->U256_0).enc(),
                                    data@.skip(offset as int),
                                ));
                            }
                        }
                    }
                    Err(e)
                },
            },
            PrimitiveMarker::ShortTxId => match ShortTxId::decode(data, offset) {
                Ok(p) => {
                    proof {
                        assert forall|q: DecodablePrimitive|
                            q.wf() && q.marker() == PrimitiveMarker::ShortTxId
                                && crate::codec::prefix_of(
                                q.enc(),
                                data@.skip(offset as int),
                            ) implies q.enc() == p.0.enc() && q.enc().len() == p.1 by {
                            assert(q is ShortTxId);
                            assert(crate::codec::prefix_of(
                                (q->ShortTxId_0).enc(),
                                data@.skip(offset as int),
                            ));
                        }
                    }
                    Ok((DecodablePrimitive::ShortTxId(p.0), p.1))
                },
                Err(e) => {
                    proof {
                        assert forall|q: DecodablePrimitive|
                            q.wf() && q.marker() == PrimitiveMarker::ShortTxId
                                implies !crate::codec::prefix_of(
                                q.enc(),
                                data@.skip(offset as int),
                            ) by {
                            assert(q is ShortTxId);
                            if crate::codec::prefix_of(q.enc(), data@.skip(offset as int)) {
                                assert(crate::codec::prefix_of(
                                    (q->ShortTxId_0).enc(),
                                    data@.skip(offset as int),
                                ));
                            }
                        }
                    }
                    Err(e)
                },
            },
            PrimitiveMarker::Signature => match Signature::decode(data, offset) {
                Ok(p) => {
                    proof {
                        assert forall|q: DecodablePrimitive|
                            q.wf() && q.marker() == PrimitiveMarker::Signature
                                && crate::codec::prefix_of(
                                q.enc(),
                                data@.skip(offset as int),
                            ) implies q.enc() == p.0.enc() && q.enc().len() == p.1 by {
                            assert(q is Signature);
                            assert(crate::codec::prefix_of(
                                (q->Signature_0).enc(),
                                data@.skip(offset as int),
                            ));
                        }
                    }
                    Ok((DecodablePrimitive::Signature(p.0), p.1))
                },
                Err(e) => {
                    proof {
                        assert forall|q: DecodablePrimitive|
                            q.wf() && q.marker() == PrimitiveMarker::Signature
                                implies !crate::codec::prefix_of(
                                q.enc(),
                                data@.skip(offset as int),
                            ) by {
                            assert(q is Signature);
                            if crate::codec::prefix_of(q.enc(), data@.skip(offset as int)) {
                                assert(crate::codec::prefix_of(
                                    (q->Signature_0).enc(),
                                    data@.skip(offset as int),
                                ));
                            }
                        }
                    }
                    Err(e)
                },
            },
            PrimitiveMarker::U32AsRef => match U32AsRef::decode(data, offset) {
                Ok(p) => {
                    proof {
                        assert forall|q: DecodablePrimitive|
                            q.wf() && q.marker() == PrimitiveMarker::U32AsRef
                                && crate::codec::prefix_of(
                                q.enc(),
                                data@.skip(offset as int),
                            ) implies q.enc() == p.0.enc() && q.enc().len() == p.1 by {
                            assert(q is U32AsRef);
                            assert(crate::codec::prefix_of(
                                (q->U32AsRef_0).enc(),
                                data@.skip(offset as int),
                            ));
                        }
                    }
                    Ok((DecodablePrimitive::U32AsRef(p.0), p.1))
                },
                Err(e) => {
                    proof {
                        assert forall|q: DecodablePrimitive|
                            q.wf() && q.marker() == PrimitiveMarker::U32AsRef
                                implies !crate::codec::prefix_of(
                                q.enc(),
                                data@.skip(offset as int),
                            ) by {
                            assert(q is U32AsRef);
                            if crate::codec::prefix_of(q.enc(), data@.skip(offset as int)) {
                                assert(crate::codec::prefix_of(
                                    (q->U32AsRef_0).enc(),
                                    data@.skip(offset as int),
                                ));
                            }
                        }
                    }
                    Err(e)
                },
            },
            _ => Err(CodecError::NoDecodableFieldPassed),
        }
    }

    /// Decodes a length-prefixed byte string that starts at `offset`.
    #[verifier::rlimit(100)]
    fn decode_bounded_bytes(&self, data: &[u8], offset: usize) -> (r: Result<
        (DecodablePrimitive, usize),
        CodecError,
    >)
        requires
            offset <= data@.len(),
            self is B032 || self is B0255 || self is B064K || self is B016M,
        ensures
            r matches Ok(p) ==> p.0.wf() && p.0.marker() == self && offset + p.1 <= data@.len()
                && p.1 == p.0.enc().len() && p.0.enc() == data@.subrange(
                offset as int,
                offset + p.1,
            ),
            forall|p: DecodablePrimitive|
                p.wf() && p.marker() == *self && crate::codec::prefix_of(
                    p.enc(),
                    data@.skip(offset as int),
                ) ==> (r matches Ok(q) && q.0.enc() == p.enc() && q.1 == p.enc().len()),
    {
        proof {
            lemma_auto_spec_u16_to_from_le_bytes();
            lemma_auto_spec_u32_to_from_le_bytes();
            lemma_auto_spec_u64_to_from_le_bytes();
        }
        match self {
            PrimitiveMarker::B032 => match B032::decode(data, offset) {
                Ok(p) => {
                    proof {
                        assert forall|q: DecodablePrimitive|
                            q.wf() && q.marker() == PrimitiveMarker::B032
                                && crate::codec::prefix_of(
                                q.enc(),
                                data@.skip(offset as int),
                            ) implies q.enc() == p.0.enc() && q.enc().len() == p.1 by {
                            assert(q is B032);
                            assert(crate::codec::prefix_of(
                                (q->B032_0).enc(),
                                data@.skip(offset as int),
                            ));
                        }
                    }
                    Ok((DecodablePrimitive::B032(p.0), p.1))
                },
                Err(e) => {
                    proof {
                        assert forall|q: DecodablePrimitive|
                            q.wf() && q.marker() == PrimitiveMarker::B032
                                implies !crate::codec::prefix_of(
                                q.enc(),
                                data@.skip(offset as int),
                            ) by {
                            assert(q is B032);
                            if crate::codec::prefix_of(q.enc(), data@.skip(offset as int)) {
                                assert(crate::codec::prefix_of(
                                    (q->B032_0).enc(),
                                    data@.skip(offset as int),
                                ));
                            }
                        }
                    }
                    Err(e)
                },
            },
            PrimitiveMarker::B0255 => match B0255::decode(data, offset) {
                Ok(p) => {
                    proof {
                        assert forall|q: DecodablePrimitive|
                            q.wf() && q.marker() == PrimitiveMarker::B0255
                                && crate::codec::prefix_of(
                                q.enc(),
                                data@.skip(offset as int),
                            ) implies q.enc() == p.0.enc() && q.enc().len() == p.1 by {
                            assert(q is B0255);
                            assert(crate::codec::prefix_of(
                                (q->B0255_0).enc(),
                                data@.skip(offset as int),
                            ));
                        }
                    }
                    Ok((DecodablePrimitive::B0255(p.0), p.1))
                },
                Err(e) => {
                    proof {
                        assert forall|q: DecodablePrimitive|
                            q.wf() && q.marker() == PrimitiveMarker::B0255
                                implies !crate::codec::prefix_of(
                                q.enc(),
                                data@.skip(offset as int),
                            ) by {
                            assert(q is B0255);
                            if crate::codec::prefix_of(q.enc(), data@.skip(offset as int)) {
                                assert(crate::codec::prefix_of(
                                    (q->B0255_0).enc(),
                                    data@.skip(offset as int),
                                ));
                            }
                        }
                    }
                    Err(e)
                },
            },
            PrimitiveMarker::B064K => match B064K::decode(data, offset) {
                Ok(p) => {
                    proof {
                        assert forall|q: DecodablePrimitive|
                            q.wf() && q.marker() == PrimitiveMarker::B064K
                                && crate::codec::prefix_of(
                                q.enc(),
                                data@.skip(offset as int),
                            ) implies q.enc() == p.0.enc() && q.enc().len() == p.1 by {
                            assert(q is B064K);
                            assert(crate::codec::prefix_of(
                                (q->B064K_0).enc(),
                                data@.skip(offset as int),
                            ));
                        }
                    }
                    Ok((DecodablePrimitive::B064K(p.0), p.1))
                },
                Err(e) => {
                    proof {
                        assert forall|q: DecodablePrimitive|
                            q.wf() && q.marker() == PrimitiveMarker::B064K
                                implies !crate::codec::prefix_of(
                                q.enc(),
                                data@.skip(offset as int),
                            ) by {
                            assert(q is B064K);
                            if crate::codec::prefix_of(q.enc(), data@.skip(offset as int)) {
                                assert(crate::codec::prefix_of(
                                    (q->B064K_0).enc(),
                                    data@.skip(offset as int),
                                ));
                            }
                        }
                    }
                    Err(e)
                },
            },
            PrimitiveMarker::B016M => match B016M::decode(data, offset) {
                Ok(p) => {
                    proof {
                        assert forall|q: DecodablePrimitive|
                            q.wf() && q.marker() == PrimitiveMarker::B016M
                                && crate::codec::prefix_of(
                                q.enc(),
                                data@.skip(offset as int),
                            ) implies q.enc() == p.0.enc() && q.enc().len() == p.1 by {
                            assert(q is B016M);
                            assert(crate::codec::prefix_of(
                                (q->B016M_0).enc(),
                                data@.skip(offset as int),
                            ));
                        }
                    }
                    Ok((DecodablePrimitive::B016M(p.0), p.1))
                },
                Err(e) => {
                    proof {
                        assert forall|q: DecodablePrimitive|
                            q.wf() && q.marker() == PrimitiveMarker::B016M
                                implies !crate::codec::prefix_of(
                                q.enc(),
                                data@.skip(offset as int),
                            ) by {
                            assert(q is B016M);
                            if crate::codec::prefix_of(q.enc(), data@.skip(offset as int)) {
                                assert(crate::codec::prefix_of(
                                    (q->B016M_0).enc(),
                                    data@.skip(offset as int),
                                ));
                            }
                        }
                    }
                    Err(e)
                },
            },
            _ => Err(CodecError::NoDecodableFieldPassed),
        }
    }
}

impl DecodableField {
    /// Every held value respects its type's size discipline.
    pub open spec fn wf(self) -> bool
        decreases self, 1int, 0int,
    {
        match self {
            DecodableField::Primitive(p) => p.wf(),
            DecodableField::Struct(_) => self.fields_wf_from(0),
        }
    }

    /// The fields from index `i` on are well formed.
    pub open spec fn fields_wf_from(self, i: int) -> bool
        recommends
            self is Struct,
        decreases
                self,
                0int,
                (if self is Struct && i <= self->Struct_0@.len() {
                    self->Struct_0@.len() - i
                } else {
                    0
                }),
        via Self::fields_wf_from_decreases
    {
        if self is Struct && 0 <= i < self->Struct_0@.len() {
            self->Struct_0@[i].wf() && self.fields_wf_from(i + 1)
        } else {
            true
        }
    }

    /// The concatenated encodings of all held values, in field order.
    pub open spec fn enc(self) -> Seq<u8>
        decreases self, 1int, 0int,
    {
        match self {
            DecodableField::Primitive(p) => p.enc(),
            DecodableField::Struct(_) => self.fields_enc_from(0),
        }
    }

    /// The concatenated encodings of the fields from index `i` on.
    pub open spec fn fields_enc_from(self, i: int) -> Seq<u8>
        recommends
            self is Struct,
        decreases
                self,
                0int,
                (if self is Struct && i <= self->Struct_0@.len() {
                    self->Struct_0@.len() - i
                } else {
                    0
                }),
        via Self::fields_enc_from_decreases
    {
        if self is Struct && 0 <= i < self->Struct_0@.len() {
            self->Struct_0@[i].enc() + self.fields_enc_from(i + 1)
        } else {
            Seq::empty()
        }
    }

    #[via_fn]
    proof fn fields_wf_from_decreases(self, i: int) {
        if self is Struct && 0 <= i < self->Struct_0@.len() {
            assert(decreases_to!(self => self->Struct_0));
            assert(decreases_to!(self->Struct_0 => self->Struct_0@));
            assert(decreases_to!(self->Struct_0@ => self->Struct_0@[i]));
            assert(decreases_to!(self => self->Struct_0@[i]));
        }
    }

    #[via_fn]
    proof fn fields_enc_from_decreases(self, i: int) {
        if self is Struct && 0 <= i < self->Struct_0@.len() {
            assert(decreases_to!(self => self->Struct_0));
            assert(decreases_to!(self->Struct_0 => self->Struct_0@));
            assert(decreases_to!(self->Struct_0@ => self->Struct_0@[i]));
            assert(decreases_to!(self => self->Struct_0@[i]));
        }
    }
}

/// The decoded field has exactly the shape the marker describes.
pub open spec fn df_shape(d: DecodableField, f: FieldMarker) -> bool
    decreases d, 1int, 0int,
{
    match d {
        DecodableField::Primitive(p) => f matches FieldMarker::Primitive(m) && p.marker() == m,
        DecodableField::Struct(_) => f is Struct && f->Struct_0@.len() == d->Struct_0@.len()
            && df_shape_from(d, f, 0),
    }
}

/// The fields from index `i` on have the shapes the markers describe.
pub open spec fn df_shape_from(d: DecodableField, f: FieldMarker, i: int) -> bool
    recommends
        d is Struct,
        f is Struct,
    decreases
            d,
            0int,
            (if d is Struct && i <= d->Struct_0@.len() {
                d->Struct_0@.len() - i
            } else {
                0
            }),
    via df_shape_from_decreases
{
    if d is Struct && 0 <= i < d->Struct_0@.len() {
        (f is Struct && i < f->Struct_0@.len() && df_shape(d->Struct_0@[i], f->Struct_0@[i]))
            && df_shape_from(d, f, i + 1)
    } else {
        true
    }
}

#[via_fn]
proof fn df_shape_from_decreases(d: DecodableField, f: FieldMarker, i: int) {
    if d is Struct && 0 <= i < d->Struct_0@.len() {
        assert(decreases_to!(d => d->Struct_0));
        assert(decreases_to!(d->Struct_0 => d->Struct_0@));
        assert(decreases_to!(d->Struct_0@ => d->Struct_0@[i]));
        assert(decreases_to!(d => d->Struct_0@[i]));
    }
}

/// Shape agreement from an index reaches every later field.
proof fn lemma_df_shape_at(d: DecodableField, f: FieldMarker, j: int, i: int)
    requires
        d is Struct,
        f is Struct,
        df_shape_from(d, f, j),
        0 <= j <= i < d->Struct_0@.len(),
    ensures
        i < f->Struct_0@.len(),
        df_shape(d->Struct_0@[i], f->Struct_0@[i]),
    decreases i - j,
{
    if j < i {
        lemma_df_shape_at(d, f, j + 1, i);
    }
}

impl FieldMarker {
    /// Total size of the encoded field of this shape that starts at
    /// `offset`: for a structure, the sum of its parts, each sized after
    /// the one before it. The returned total is exactly `spec_field_hint`;
    /// an error comes when a length prefix lies beyond the buffer, or when
    /// the total would not fit the machine.
    pub fn size_hint_(&self, data: &[u8], offset: usize) -> (r: Result<usize, CodecError>)
        requires
            offset <= data@.len(),
        ensures
            r matches Ok(n) ==> spec_field_hint(*self, data@, offset as int) == Some(n as int),
            spec_field_hint(*self, data@, offset as int) is None ==> r is Err,
            spec_field_hint(*self, data@, offset as int) matches Some(n) ==> (offset + n
                <= usize::MAX ==> r == Ok::<usize, CodecError>(n as usize)),
        decreases *self,
    {
        match self {
            FieldMarker::Primitive(p) => match p.size_hint_(data, offset) {
                Ok(n) => Ok(n),
                Err(e) => Err(e),
            },
            FieldMarker::Struct(ps) => {
                let dlen = data.len();
                let mut size: usize = 0;
                let mut i: usize = 0;
                while i < ps.len()
                    invariant
                        i <= ps@.len(),
                        offset + size <= usize::MAX,
                        size >= 0,
                        *self == FieldMarker::Struct(*ps),
                        offset <= data@.len(),
                        data@.len() <= usize::MAX,
                        ({
                            let full = spec_fields_hint_from(*self, data@, offset as int, 0);
                            let cur = clamp_to(data@.len() as int, offset + size);
                            match spec_fields_hint_from(*self, data@, cur, i as int) {
                                Some(k) => full == Some(size + k),
                                None => full is None,
                            }
                        }),
                    decreases ps@.len() - i,
                {
                    let inner_offset = if offset + size <= data.len() {
                        offset + size
                    } else {
                        data.len()
                    };
                    proof {
                        let vv = *self;
                        assert(decreases_to!(vv => vv->Struct_0@[i as int])) by {
                            assert(decreases_to!(vv => vv->Struct_0));
                            assert(decreases_to!(vv->Struct_0 => vv->Struct_0@));
                            assert(decreases_to!(vv->Struct_0@ => vv->Struct_0@[i as int]));
                        }
                    }
                    let n = match ps[i].size_hint_(data, inner_offset) {
                        Ok(n) => n,
                        Err(e) => {
                            proof {
                                let cur = clamp_to(data@.len() as int, offset + size);
                                assert(inner_offset == cur);
                                match spec_field_hint(ps@[i as int], data@, cur) {
                                    Some(nn) => {
                                        let next = clamp_to(data@.len() as int, cur + nn);
                                        lemma_field_hint_nonneg(ps@[i as int], data@, cur);
                                        lemma_fields_hint_from_nonneg(*self, data@, next, i + 1);
                                    },
                                    None => {},
                                }
                            }
                            return Err(e);
                        },
                    };
                    proof {
                        lemma_field_hint_nonneg(ps@[i as int], data@, inner_offset as int);
                    }
                    if n > usize::MAX - offset - size {
                        proof {
                            let cur = clamp_to(data@.len() as int, offset + size);
                            let next = clamp_to(data@.len() as int, cur + n);
                            lemma_fields_hint_from_nonneg(*self, data@, next, i + 1);
                        }
                        return Err(CodecError::OutOfBound);
                    }
                    proof {
                        let cur = clamp_to(data@.len() as int, offset + size);
                        let next = clamp_to(data@.len() as int, cur + n);
                        assert(next == clamp_to(data@.len() as int, offset + size + n));
                        lemma_fields_hint_from_nonneg(*self, data@, next, i + 1);
                    }
                    size = size + n;
                    i = i + 1;
                }
                Ok(size)
            },
        }
    }

    /// Decodes one field of this shape that starts at `offset`.
    ///
    /// On success the decoded field is well formed, its shape matches the
    /// marker, and its encoding is exactly the bytes consumed; when the
    /// buffer starts with any well-formed encoding of this shape, decoding
    /// succeeds on it.
    pub fn decode(&self, data: &[u8], offset: usize) -> (r: Result<
        (DecodableField, usize),
        CodecError,
    >)
        requires
            offset <= data@.len(),
        ensures
            r matches Ok(p) ==> p.0.wf() && offset + p.1 <= data@.len() && p.0.enc()
                == data@.subrange(offset as int, offset + p.1),
            forall|d: DecodableField|
                d.wf() && df_shape(d, *self) && crate::codec::prefix_of(
                    d.enc(),
                    data@.skip(offset as int),
                ) ==> (r matches Ok(q) && q.0.enc() == d.enc() && q.1 == d.enc().len()),
        decreases *self,
    {
        match self {
            FieldMarker::Primitive(p) => match p.decode(data, offset) {
                Ok((v, n)) => {
                    proof {
                        assert forall|d: DecodableField|
                            d.wf() && df_shape(d, *self) && crate::codec::prefix_of(
                                d.enc(),
                                data@.skip(offset as int),
                            ) implies d.enc() == v.enc() && d.enc().len() == n by {
                            assert(d is Primitive);
                            assert(crate::codec::prefix_of(
                                (d->Primitive_0).enc(),
                                data@.skip(offset as int),
                            ));
                        }
                    }
                    Ok((DecodableField::Primitive(v), n))
                },
                Err(e) => {
                    proof {
                        assert forall|d: DecodableField|
                            d.wf() && df_shape(d, *self) implies !crate::codec::prefix_of(
                            d.enc(),
                            data@.skip(offset as int),
                        ) by {
                            assert(d is Primitive);
                            if crate::codec::prefix_of(d.enc(), data@.skip(offset as int)) {
                                assert(crate::codec::prefix_of(
                                    (d->Primitive_0).enc(),
                                    data@.skip(offset as int),
                                ));
                            }
                        }
                    }
                    Err(e)
                },
            },
            FieldMarker::Struct(ps) => {
                let dlen = data.len();
                let mut fields: Vec<DecodableField> = Vec::new();
                let mut consumed: usize = 0;
                let mut i: usize = 0;
                while i < ps.len()
                    invariant
                        i <= ps@.len(),
                        *self == FieldMarker::Struct(*ps),
                        offset <= data@.len(),
                        data@.len() <= usize::MAX,
                        offset + consumed <= data@.len(),
                        fields@.len() == i,
                        forall|j: int| 0 <= j < i ==> (#[trigger] fields@[j]).wf(),
                        flat_enc_upto(fields@, i as int) == data@.subrange(
                            offset as int,
                            offset + consumed,
                        ),
                        forall|d: DecodableField|
                            d.wf() && #[trigger] df_shape(d, *self) && crate::codec::prefix_of(
                                d.enc(),
                                data@.skip(offset as int),
                            ) ==> flat_enc_upto(d->Struct_0@, i as int) == data@.subrange(
                                offset as int,
                                offset + consumed,
                            ),
                    decreases ps@.len() - i,
                {
                    proof {
                        let vv = *self;
                        assert(decreases_to!(vv => vv->Struct_0@[i as int])) by {
                            assert(decreases_to!(vv => vv->Struct_0));
                            assert(decreases_to!(vv->Struct_0 => vv->Struct_0@));
                            assert(decreases_to!(vv->Struct_0@ => vv->Struct_0@[i as int]));
                        }
                    }
                    let res = ps[i].decode(data, offset + consumed);
                    proof {
                        assert forall|d: DecodableField|
                            d.wf() && #[trigger] df_shape(d, *self) && crate::codec::prefix_of(
                                d.enc(),
                                data@.skip(offset as int),
                            ) implies (res matches Ok(q) && q.0.enc() == d->Struct_0@[i as int].enc()
                            && q.1 == d->Struct_0@[i as int].enc().len() && d->Struct_0@[
                            i as int
                        ].enc() == data@.subrange(
                            offset + consumed,
                            offset + consumed + d->Struct_0@[i as int].enc().len(),
                        )) by {
                            let sk = data@.skip(offset as int);
                            assert(flat_enc_upto(d->Struct_0@, i as int) =~= sk.subrange(
                                0,
                                consumed as int,
                            ));
                            lemma_struct_field_window(d, i as int, sk);
                            let elem = d->Struct_0@[i as int];
                            let l = elem.enc().len() as int;
                            assert(elem.enc() =~= data@.subrange(
                                offset + consumed,
                                offset + consumed + l,
                            ));
                            assert(elem.enc() =~= data@.skip((offset + consumed) as int).subrange(
                                0,
                                l,
                            ));
                            lemma_df_shape_at(d, *self, 0, i as int);
                            self.lemma_wf_field(d, i as int);
                            assert(crate::codec::prefix_of(
                                elem.enc(),
                                data@.skip((offset + consumed) as int),
                            ));
                        }
                    }
                    let (v, n) = match res {
                        Ok(p) => p,
                        Err(e) => {
                            return Err(e);
                        },
                    };
                    let ghost prev = fields@;
                    fields.push(v);
                    consumed = consumed + n;
                    proof {
                        lemma_flat_enc_upto_prefix(fields@, prev, i as int);
                        assert(flat_enc_upto(fields@, i + 1) =~= flat_enc_upto(prev, i as int)
                            + v.enc());
                        assert(flat_enc_upto(fields@, i + 1) =~= data@.subrange(
                            offset as int,
                            offset + consumed,
                        ));
                        assert forall|d: DecodableField|
                            d.wf() && #[trigger] df_shape(d, *self) && crate::codec::prefix_of(
                                d.enc(),
                                data@.skip(offset as int),
                            ) implies flat_enc_upto(d->Struct_0@, i + 1) == data@.subrange(
                            offset as int,
                            offset + consumed,
                        ) by {
                            assert(flat_enc_upto(d->Struct_0@, i + 1) =~= flat_enc_upto(
                                d->Struct_0@,
                                i as int,
                            ) + d->Struct_0@[i as int].enc());
                            assert(flat_enc_upto(d->Struct_0@, i + 1) =~= data@.subrange(
                                offset as int,
                                offset + consumed,
                            ));
                        }
                    }
                    i = i + 1;
                }
                let out = DecodableField::Struct(fields);
                proof {
                    if out->Struct_0@.len() == 0 {
                        assert(out.enc() =~= flat_enc_upto(out->Struct_0@, 0));
                    } else {
                        lemma_struct_enc_is_flat(out, out->Struct_0@.len() as int);
                    }
                    assert(out.enc() == flat_enc_upto(out->Struct_0@, out->Struct_0@.len() as int));
                    lemma_struct_wf_from_fields(out, 0);
                    assert forall|d: DecodableField|
                        d.wf() && #[trigger] df_shape(d, *self) && crate::codec::prefix_of(
                            d.enc(),
                            data@.skip(offset as int),
                        ) implies d.enc() == out.enc() && d.enc().len() == consumed by {
                        let len = d->Struct_0@.len() as int;
                        if len == 0 {
                            assert(d.enc() =~= flat_enc_upto(d->Struct_0@, 0));
                        } else {
                            lemma_struct_enc_is_flat(d, len);
                        }
                        assert(d.enc() == flat_enc_upto(d->Struct_0@, len));
                    }
                }
                Ok((out, consumed))
            },
        }
    }

    /// Every field of a well-shaped, well-formed structure is well formed.
    proof fn lemma_wf_field(&self, d: DecodableField, i: int)
        requires
            d is Struct,
            d.wf(),
            0 <= i < d->Struct_0@.len(),
        ensures
            d->Struct_0@[i].wf(),
    {
        lemma_df_wf_prefix(d, 0, i);
    }
}

/// Well-formedness from an index reaches every later decoded field.
proof fn lemma_df_wf_prefix(d: DecodableField, j: int, i: int)
    requires
        d is Struct,
        d.fields_wf_from(j),
        0 <= j <= i < d->Struct_0@.len(),
    ensures
        d->Struct_0@[i].wf(),
    decreases i - j,
{
    if j < i {
        lemma_df_wf_prefix(d, j + 1, i);
    }
}

/// The concatenated encodings of the first `i` fields.
pub open spec fn flat_enc_upto(fs: Seq<DecodableField>, i: int) -> Seq<u8>
    decreases i,
{
    if i <= 0 || i > fs.len() {
        Seq::empty()
    } else {
        flat_enc_upto(fs, i - 1) + fs[i - 1].enc()
    }
}

/// Inside a structure's encoding laid out in `s`, field `i` occupies the
/// window right after the first `i` fields.
proof fn lemma_struct_field_window(d: DecodableField, i: int, s: Seq<u8>)
    requires
        d is Struct,
        0 <= i < d->Struct_0@.len(),
        crate::codec::prefix_of(d.enc(), s),
        flat_enc_upto(d->Struct_0@, i) == s.subrange(0, flat_enc_upto(d->Struct_0@, i).len() as int),
    ensures
        ({
            let u = flat_enc_upto(d->Struct_0@, i).len() as int;
            let l = d->Struct_0@[i].enc().len() as int;
            &&& u + l <= d.enc().len() <= s.len()
            &&& d->Struct_0@[i].enc() == s.subrange(u, u + l)
            &&& flat_enc_upto(d->Struct_0@, i + 1).len() == u + l
        }),
{
    let u = flat_enc_upto(d->Struct_0@, i).len() as int;
    let l = d->Struct_0@[i].enc().len() as int;
    if i == 0 {
        assert(flat_enc_upto(d->Struct_0@, 0) =~= Seq::<u8>::empty());
        lemma_struct_enc_is_flat(d, 0);
    } else {
        lemma_struct_enc_is_flat(d, i);
    }
    assert(d.enc() == d.fields_enc_from(0));
    assert(d.fields_enc_from(i) == d->Struct_0@[i].enc() + d.fields_enc_from(i + 1));
    let a = flat_enc_upto(d->Struct_0@, i);
    let b = d->Struct_0@[i].enc();
    let c = d.fields_enc_from(i + 1);
    assert(d.enc() =~= a + b + c);
    assert((a + b + c).subrange(u, u + l) =~= b);
    assert(d.enc().subrange(u, u + l) == b);
    assert(s.subrange(u, u + l) =~= d.enc().subrange(u, u + l));
    assert(flat_enc_upto(d->Struct_0@, i + 1) =~= a + b);
}

/// Two field runs that agree on their first `i` entries encode those
/// entries alike.
proof fn lemma_flat_enc_upto_prefix(a: Seq<DecodableField>, b: Seq<DecodableField>, i: int)
    requires
        0 <= i <= a.len(),
        i <= b.len(),
        forall|j: int| 0 <= j < i ==> a[j] == b[j],
    ensures
        flat_enc_upto(a, i) == flat_enc_upto(b, i),
    decreases i,
{
    if i > 0 {
        lemma_flat_enc_upto_prefix(a, b, i - 1);
    }
}

/// A structure's encoding is the concatenation of its fields' encodings.
proof fn lemma_struct_enc_is_flat(v: DecodableField, i: int)
    requires
        v is Struct,
        0 <= i <= v->Struct_0@.len(),
    ensures
        v.fields_enc_from(0) == (if i == 0 {
            v.fields_enc_from(i)
        } else if i == v->Struct_0@.len() {
            flat_enc_upto(v->Struct_0@, i)
        } else {
            flat_enc_upto(v->Struct_0@, i) + v.fields_enc_from(i)
        }),
    decreases i,
{
    if i > 0 {
        lemma_struct_enc_is_flat(v, i - 1);
        if i == 1 {
            assert(v.fields_enc_from(0) == v->Struct_0@[0].enc() + v.fields_enc_from(1));
            assert(flat_enc_upto(v->Struct_0@, 0) =~= Seq::<u8>::empty());
            assert(flat_enc_upto(v->Struct_0@, 1) =~= v->Struct_0@[0].enc());
        }
        if i == v->Struct_0@.len() {
            assert(v.fields_enc_from(i) =~= Seq::<u8>::empty());
            assert(v.fields_enc_from(0) =~= flat_enc_upto(v->Struct_0@, i));
        } else {
            assert(v.fields_enc_from(i - 1) == v->Struct_0@[i - 1].enc() + v.fields_enc_from(i));
            assert(v.fields_enc_from(0) =~= flat_enc_upto(v->Struct_0@, i) + v.fields_enc_from(
                i,
            ));
        }
    }
}

/// A structure whose fields are each well formed is well formed.
proof fn lemma_struct_wf_from_fields(v: DecodableField, i: int)
    requires
        v is Struct,
        0 <= i <= v->Struct_0@.len(),
        forall|j: int| 0 <= j < v->Struct_0@.len() ==> (#[trigger] v->Struct_0@[j]).wf(),
    ensures
        v.fields_wf_from(i),
    decreases v->Struct_0@.len() - i,
{
    if i < v->Struct_0@.len() {
        lemma_struct_wf_from_fields(v, i + 1);
    }
}

/// One value to be encoded.
#[derive(Debug, Clone, PartialEq, Eq)]
pub enum EncodablePrimitive {
    U8(u8),
    U16(u16),
    Bool(bool),
    U24(U24),
    U256(U256),
    ShortTxId(ShortTxId),
    Signature(Signature),
    U32(u32),
    U32AsRef(U32AsRef),
    U64(u64),
    B032(B032),
    B0255(B0255),
    B064K(B064K),
    B016M(B016M),
}

/// One field to be encoded: a value, or a nested structure of fields.
#[derive(Debug, PartialEq, Eq)]
pub enum EncodableField {
    Primitive(EncodablePrimitive),
    Struct(Vec<EncodableField>),
}

impl EncodablePrimitive {
    /// The held value respects its type's size discipline.
    pub open spec fn wf(self) -> bool {
        match self {
            EncodablePrimitive::U24(v) => v.wf(),
            EncodablePrimitive::U256(v) => v.wf(),
            EncodablePrimitive::ShortTxId(v) => v.wf(),
            EncodablePrimitive::Signature(v) => v.wf(),
            EncodablePrimitive::U32AsRef(v) => v.wf(),
            EncodablePrimitive::B032(v) => v.wf(),
            EncodablePrimitive::B0255(v) => v.wf(),
            EncodablePrimitive::B064K(v) => v.wf(),
            EncodablePrimitive::B016M(v) => v.wf(),
            _ => true,
        }
    }

    /// The wire encoding of the held value.
    pub open spec fn enc(self) -> Seq<u8> {
        match self {
            EncodablePrimitive::U8(v) => seq![v],
            EncodablePrimitive::U16(v) => spec_u16_to_le_bytes(v),
            EncodablePrimitive::Bool(v) => seq![spec_bool_to_byte(v)],
            EncodablePrimitive::U24(v) => v.enc(),
            EncodablePrimitive::U256(v) => v.enc(),
            EncodablePrimitive::ShortTxId(v) => v.enc(),
            EncodablePrimitive::Signature(v) => v.enc(),
            EncodablePrimitive::U32(v) => spec_u32_to_le_bytes(v),
            EncodablePrimitive::U32AsRef(v) => v.enc(),
            EncodablePrimitive::U64(v) => spec_u64_to_le_bytes(v),
            EncodablePrimitive::B032(v) => v.enc(),
            EncodablePrimitive::B0255(v) => v.enc(),
            EncodablePrimitive::B064K(v) => v.enc(),
            EncodablePrimitive::B016M(v) => v.enc(),
        }
    }

    /// Appends the wire encoding to `dst`.
    pub fn encode(&self, dst: &mut Vec<u8>)
        requires
            self.wf(),
        ensures
            final(dst)@ == old(dst)@ + self.enc(),
    {
        match self {
            EncodablePrimitive::U8(v) => encode_u8(*v, dst),
            EncodablePrimitive::U16(v) => encode_u16(*v, dst),
            EncodablePrimitive::Bool(v) => encode_bool(*v, dst),
            EncodablePrimitive::U24(v) => v.encode_into(dst),
            EncodablePrimitive::U256(v) => v.encode_into(dst),
            EncodablePrimitive::ShortTxId(v) => v.encode_into(dst),
            EncodablePrimitive::Signature(v) => v.encode_into(dst),
            EncodablePrimitive::U32(v) => encode_u32(*v, dst),
            EncodablePrimitive::U32AsRef(v) => v.encode_into(dst),
            EncodablePrimitive::U64(v) => encode_u64(*v, dst),
            EncodablePrimitive::B032(v) => v.encode_into(dst),
            EncodablePrimitive::B0255(v) => v.encode_into(dst),
            EncodablePrimitive::B064K(v) => v.encode_into(dst),
            EncodablePrimitive::B016M(v) => v.encode_into(dst),
        }
    }

    /// Serialized length of the held value.
    pub fn get_size(&self) -> (r: usize)
        requires
            self.wf(),
        ensures
            r == self.enc().len(),
    {
        proof {
            lemma_auto_spec_u16_to_from_le_bytes();
            lemma_auto_spec_u32_to_from_le_bytes();
            lemma_auto_spec_u64_to_from_le_bytes();
        }
        match self {
            EncodablePrimitive::U8(_) => 1,
            EncodablePrimitive::U16(_) => 2,
            EncodablePrimitive::Bool(_) => 1,
            EncodablePrimitive::U24(_) => 3,
            EncodablePrimitive::U256(v) => v.get_size(),
            EncodablePrimitive::ShortTxId(v) => v.get_size(),
            EncodablePrimitive::Signature(v) => v.get_size(),
            EncodablePrimitive::U32(_) => 4,
            EncodablePrimitive::U32AsRef(v) => v.get_size(),
            EncodablePrimitive::U64(_) => 8,
            EncodablePrimitive::B032(v) => v.get_size(),
            EncodablePrimitive::B0255(v) => v.get_size(),
            EncodablePrimitive::B064K(v) => v.get_size(),
            EncodablePrimitive::B016M(v) => v.get_size(),
        }
    }
}

impl EncodableField {
    /// Every held value respects its type's size discipline.
    pub open spec fn wf(self) -> bool
        decreases self, 1int, 0int,
    {
        match self {
            EncodableField::Primitive(p) => p.wf(),
            EncodableField::Struct(_) => self.fields_wf_from(0),
        }
    }

    /// The fields from index `i` on are well formed.
    pub open spec fn fields_wf_from(self, i: int) -> bool
        recommends
            self is Struct,
        decreases
                self,
                0int,
                (if self is Struct && i <= self->Struct_0@.len() {
                    self->Struct_0@.len() - i
                } else {
                    0
                }),
        via Self::fields_wf_from_decreases
    {
        if self is Struct && 0 <= i < self->Struct_0@.len() {
            self->Struct_0@[i].wf() && self.fields_wf_from(i + 1)
        } else {
            true
        }
    }

    /// The concatenated encodings of all held values, in field order.
    pub open spec fn enc(self) -> Seq<u8>
        decreases self, 1int, 0int,
    {
        match self {
            EncodableField::Primitive(p) => p.enc(),
            EncodableField::Struct(_) => self.fields_enc_from(0),
        }
    }

    /// The concatenated encodings of the fields from index `i` on.
    pub open spec fn fields_enc_from(self, i: int) -> Seq<u8>
        recommends
            self is Struct,
        decreases
                self,
                0int,
                (if self is Struct && i <= self->Struct_0@.len() {
                    self->Struct_0@.len() - i
                } else {
                    0
                }),
        via Self::fields_enc_from_decreases
    {
        if self is Struct && 0 <= i < self->Struct_0@.len() {
            self->Struct_0@[i].enc() + self.fields_enc_from(i + 1)
        } else {
            Seq::empty()
        }
    }

    #[via_fn]
    proof fn fields_wf_from_decreases(self, i: int) {
        if self is Struct && 0 <= i < self->Struct_0@.len() {
            assert(decreases_to!(self => self->Struct_0));
            assert(decreases_to!(self->Struct_0 => self->Struct_0@));
            assert(decreases_to!(self->Struct_0@ => self->Struct_0@[i]));
            assert(decreases_to!(self => self->Struct_0@[i]));
        }
    }

    #[via_fn]
    proof fn fields_enc_from_decreases(self, i: int) {
        if self is Struct && 0 <= i < self->Struct_0@.len() {
            assert(decreases_to!(self => self->Struct_0));
            assert(decreases_to!(self->Struct_0 => self->Struct_0@));
            assert(decreases_to!(self->Struct_0@ => self->Struct_0@[i]));
            assert(decreases_to!(self => self->Struct_0@[i]));
        }
    }

    /// The encoding of the fields up to index `i`.
    pub open spec fn fields_enc_upto(self, i: int) -> Seq<u8>
        decreases i,
    {
        if !(self is Struct) || i <= 0 || i > self->Struct_0@.len() {
            Seq::empty()
        } else {
            self.fields_enc_upto(i - 1) + self->Struct_0@[i - 1].enc()
        }
    }

    /// Splits the whole structure encoding at `i`.
    proof fn lemma_enc_split(self, i: int)
        requires
            self is Struct,
            0 <= i <= self->Struct_0@.len(),
        ensures
            self.fields_enc_from(0) == (if i == 0 {
                self.fields_enc_from(i)
            } else if i == self->Struct_0@.len() {
                self.fields_enc_upto(i)
            } else {
                self.fields_enc_upto(i) + self.fields_enc_from(i)
            }),
        decreases i,
    {
        if i > 0 {
            self.lemma_enc_split(i - 1);
            if i == 1 {
                assert(self.fields_enc_upto(0) =~= Seq::<u8>::empty());
            }
            if i == self->Struct_0@.len() {
                assert(self.fields_enc_from(i) =~= Seq::<u8>::empty());
                assert(self.fields_enc_from(0) =~= self.fields_enc_upto(i));
            } else {
                assert(self.fields_enc_from(0) =~= self.fields_enc_upto(i)
                    + self.fields_enc_from(i));
            }
        }
    }

    /// Appends the wire encoding of the whole field to `dst`.
    pub fn encode(&self, dst: &mut Vec<u8>)
        requires
            self.wf(),
        ensures
            final(dst)@ == old(dst)@ + self.enc(),
        decreases *self,
    {
        match self {
            EncodableField::Primitive(p) => p.encode(dst),
            EncodableField::Struct(ps) => {
                let mut i: usize = 0;
                while i < ps.len()
                    invariant
                        i <= ps@.len(),
                        *self == EncodableField::Struct(*ps),
                        self.wf(),
                        dst@ == old(dst)@ + self.fields_enc_upto(i as int),
                    decreases ps@.len() - i,
                {
                    proof {
                        let vv = *self;
                        assert(decreases_to!(vv => vv->Struct_0@[i as int])) by {
                            assert(decreases_to!(vv => vv->Struct_0));
                            assert(decreases_to!(vv->Struct_0 => vv->Struct_0@));
                            assert(decreases_to!(vv->Struct_0@ => vv->Struct_0@[i as int]));
                        }
                        self.lemma_wf_at(i as int);
                    }
                    ps[i].encode(dst);
                    i = i + 1;
                }
                proof {
                    if ps@.len() == 0 {
                        assert(self.enc() =~= Seq::<u8>::empty());
                        assert(final(dst)@ =~= old(dst)@ + self.enc());
                    } else {
                        self.lemma_enc_split(ps@.len() as int);
                    }
                }
            },
        }
    }

    /// Every field of a well-formed structure is well formed.
    proof fn lemma_wf_at(self, i: int)
        requires
            self is Struct,
            self.wf(),
            0 <= i < self->Struct_0@.len(),
        ensures
            self->Struct_0@[i].wf(),
    {
        self.lemma_wf_prefix(0, i);
    }

    /// Well-formedness from an index reaches every later field.
    proof fn lemma_wf_prefix(self, j: int, i: int)
        requires
            self is Struct,
            self.fields_wf_from(j),
            0 <= j <= i < self->Struct_0@.len(),
        ensures
            self->Struct_0@[i].wf(),
        decreases i - j,
    {
        if j < i {
            self.lemma_wf_prefix(j + 1, i);
        }
    }

    /// Serialized length of the whole field.
    pub fn get_size(&self) -> (r: usize)
        requires
            self.wf(),
            self.enc().len() <= usize::MAX,
        ensures
            r == self.enc().len(),
        decreases *self,
    {
        match self {
            EncodableField::Primitive(p) => p.get_size(),
            EncodableField::Struct(ps) => {
                let mut size: usize = 0;
                let mut i: usize = 0;
                while i < ps.len()
                    invariant
                        i <= ps@.len(),
                        *self == EncodableField::Struct(*ps),
                        self.wf(),
                        self.enc().len() <= usize::MAX,
                        size == self.fields_enc_upto(i as int).len(),
                    decreases ps@.len() - i,
                {
                    proof {
                        let vv = *self;
                        assert(decreases_to!(vv => vv->Struct_0@[i as int])) by {
                            assert(decreases_to!(vv => vv->Struct_0));
                            assert(decreases_to!(vv->Struct_0 => vv->Struct_0@));
                            assert(decreases_to!(vv->Struct_0@ => vv->Struct_0@[i as int]));
                        }
                        self.lemma_wf_at(i as int);
                        self.lemma_enc_split(i + 1);
                        self.lemma_enc_split(i as int);
                        assert(ps@[i as int].enc().len() <= self.enc().len());
                    }
                    let n = ps[i].get_size();
                    size = size + n;
                    i = i + 1;
                }
                proof {
                    if ps@.len() == 0 {
                        assert(self.enc() =~= Seq::<u8>::empty());
                    } else {
                        self.lemma_enc_split(ps@.len() as int);
                    }
                }
                size
            },
        }
    }
}

/// Serialized length of an in-memory value.
pub trait GetSize {
    /// The value respects its type's size discipline.
    spec fn spec_wf(&self) -> bool;

    /// The value's wire encoding.
    spec fn spec_encoded(&self) -> Seq<u8>;

    /// Serialized length of the value in bytes.
    fn get_size(&self) -> (r: usize)
        requires
            self.spec_wf(),
        ensures
            r == self.spec_encoded().len(),
    ;
}

impl GetSize for Vec<u8> {
    open spec fn spec_wf(&self) -> bool {
        true
    }

    open spec fn spec_encoded(&self) -> Seq<u8> {
        self@
    }

    fn get_size(&self) -> (r: usize) {
        self.len()
    }
}

impl GetSize for crate::mining::SetNewPrevHash {
    open spec fn spec_wf(&self) -> bool {
        self.wf()
    }

    open spec fn spec_encoded(&self) -> Seq<u8> {
        self.enc()
    }

    fn get_size(&self) -> (r: usize) {
        crate::mining::SetNewPrevHash::get_size(self)
    }
}

impl GetSize for crate::mining::NewMiningJob {
    open spec fn spec_wf(&self) -> bool {
        self.wf()
    }

    open spec fn spec_encoded(&self) -> Seq<u8> {
        self.enc()
    }

    fn get_size(&self) -> (r: usize) {
        crate::mining::NewMiningJob::get_size(self)
    }
}

impl GetSize for crate::mining::NewExtendedMiningJob {
    open spec fn spec_wf(&self) -> bool {
        self.wf()
    }

    open spec fn spec_encoded(&self) -> Seq<u8> {
        self.enc()
    }

    fn get_size(&self) -> (r: usize) {
        crate::mining::NewExtendedMiningJob::get_size(self)
    }
}

impl GetSize for crate::common_messages::SetupConnection {
    open spec fn spec_wf(&self) -> bool {
        self.wf()
    }

    open spec fn spec_encoded(&self) -> Seq<u8> {
        self.enc()
    }

    fn get_size(&self) -> (r: usize) {
        crate::common_messages::SetupConnection::get_size(self)
    }
}

/// A wire type whose encoded size is one compile-time constant.
pub trait Fixed {
    /// The constant encoded size.
    spec fn spec_size() -> nat;

    /// The constant encoded size in bytes.
    fn size() -> (r: usize)
        ensures
            r == Self::spec_size(),
    ;
}

impl Fixed for U24 {
    open spec fn spec_size() -> nat {
        3
    }

    fn size() -> (r: usize) {
        3
    }
}

impl Fixed for Inner<true, 4, 0, 0> {
    open spec fn spec_size() -> nat {
        4
    }

    fn size() -> (r: usize) {
        4
    }
}

impl Fixed for Inner<true, 6, 0, 0> {
    open spec fn spec_size() -> nat {
        6
    }

    fn size() -> (r: usize) {
        6
    }
}

impl Fixed for Inner<true, 32, 0, 0> {
    open spec fn spec_size() -> nat {
        32
    }

    fn size() -> (r: usize) {
        32
    }
}

impl Fixed for Inner<true, 64, 0, 0> {
    open spec fn spec_size() -> nat {
        64
    }

    fn size() -> (r: usize) {
        64
    }
}

/// A wire type whose encoded size varies behind a length prefix.
pub trait Variable {
    /// Size of the length prefix.
    spec fn spec_header_size() -> nat;

    /// Largest allowed payload.
    spec fn spec_max_size() -> nat;

    /// Size of the length prefix in bytes.
    fn header_size() -> (r: usize)
        ensures
            r == Self::spec_header_size(),
    ;

    /// Largest allowed payload in bytes.
    fn max_size() -> (r: usize)
        ensures
            r == Self::spec_max_size(),
    ;
}

impl Variable for Inner<false, 1, 1, 32> {
    open spec fn spec_header_size() -> nat {
        1
    }

    open spec fn spec_max_size() -> nat {
        32
    }

    fn header_size() -> (r: usize) {
        1
    }

    fn max_size() -> (r: usize) {
        32
    }
}

impl Variable for Inner<false, 1, 1, 255> {
    open spec fn spec_header_size() -> nat {
        1
    }

    open spec fn spec_max_size() -> nat {
        255
    }

    fn header_size() -> (r: usize) {
        1
    }

    fn max_size() -> (r: usize) {
        255
    }
}

impl Variable for Inner<false, 1, 2, 65535> {
    open spec fn spec_header_size() -> nat {
        2
    }

    open spec fn spec_max_size() -> nat {
        65535
    }

    fn header_size() -> (r: usize) {
        2
    }

    fn max_size() -> (r: usize) {
        65535
    }
}

impl Variable for Inner<false, 1, 3, 16777215> {
    open spec fn spec_header_size() -> nat {
        3
    }

    open spec fn spec_max_size() -> nat {
        16777215
    }

    fn header_size() -> (r: usize) {
        3
    }

    fn max_size() -> (r: usize) {
        16777215
    }
}

/// A compound type that can state its field layout.
pub trait GetMarker {
    /// The field markers of the type, in wire order.
    fn get_marker() -> FieldMarker;
}

impl GetMarker for crate::mining::SetNewPrevHash {
    /// Two channel and job ids, the hash, and two header fields.
    fn get_marker() -> (r: FieldMarker)
        ensures
            ({
                &&& r matches FieldMarker::Struct(fs)
                &&& fs@.len() == 5
                &&& fs@[0] == FieldMarker::Primitive(PrimitiveMarker::U32)
                &&& fs@[1] == FieldMarker::Primitive(PrimitiveMarker::U32)
                &&& fs@[2] == FieldMarker::Primitive(PrimitiveMarker::U256)
                &&& fs@[3] == FieldMarker::Primitive(PrimitiveMarker::U32)
                &&& fs@[4] == FieldMarker::Primitive(PrimitiveMarker::U32)
            }),
    {
        let mut fs: Vec<FieldMarker> = Vec::new();
        fs.push(FieldMarker::Primitive(PrimitiveMarker::U32));
        fs.push(FieldMarker::Primitive(PrimitiveMarker::U32));
        fs.push(FieldMarker::Primitive(PrimitiveMarker::U256));
        fs.push(FieldMarker::Primitive(PrimitiveMarker::U32));
        fs.push(FieldMarker::Primitive(PrimitiveMarker::U32));
        FieldMarker::Struct(fs)
    }
}

impl GetMarker for crate::common_messages::SetupConnectionSuccess {
    /// The used version and the flags.
    fn get_marker() -> (r: FieldMarker)
        ensures
            ({
                &&& r matches FieldMarker::Struct(fs)
                &&& fs@.len() == 2
                &&& fs@[0] == FieldMarker::Primitive(PrimitiveMarker::U16)
                &&& fs@[1] == FieldMarker::Primitive(PrimitiveMarker::U32)
            }),
    {
        let mut fs: Vec<FieldMarker> = Vec::new();
        fs.push(FieldMarker::Primitive(PrimitiveMarker::U16));
        fs.push(FieldMarker::Primitive(PrimitiveMarker::U32));
        FieldMarker::Struct(fs)
    }
}

impl GetMarker for crate::template_distribution::SetNewPrevHash {
    /// The template id, the hash, two header fields, and the target.
    fn get_marker() -> (r: FieldMarker)
        ensures
            ({
                &&& r matches FieldMarker::Struct(fs)
                &&& fs@.len() == 5
                &&& fs@[0] == FieldMarker::Primitive(PrimitiveMarker::U64)
                &&& fs@[1] == FieldMarker::Primitive(PrimitiveMarker::U256)
                &&& fs@[2] == FieldMarker::Primitive(PrimitiveMarker::U32)
                &&& fs@[3] == FieldMarker::Primitive(PrimitiveMarker::U32)
                &&& fs@[4] == FieldMarker::Primitive(PrimitiveMarker::U256)
            }),
    {
        let mut fs: Vec<FieldMarker> = Vec::new();
        fs.push(FieldMarker::Primitive(PrimitiveMarker::U64));
        fs.push(FieldMarker::Primitive(PrimitiveMarker::U256));
        fs.push(FieldMarker::Primitive(PrimitiveMarker::U32));
        fs.push(FieldMarker::Primitive(PrimitiveMarker::U32));
        fs.push(FieldMarker::Primitive(PrimitiveMarker::U256));
        FieldMarker::Struct(fs)
    }
}

impl GetMarker for crate::mining::CloseChannel {
    /// The channel id and the reason code.
    fn get_marker() -> (r: FieldMarker)
        ensures
            ({
                &&& r matches FieldMarker::Struct(fs)
                &&& fs@.len() == 2
                &&& fs@[0] == FieldMarker::Primitive(PrimitiveMarker::U32)
                &&& fs@[1] == FieldMarker::Primitive(PrimitiveMarker::B0255)
            }),
    {
        let mut fs: Vec<FieldMarker> = Vec::new();
        fs.push(FieldMarker::Primitive(PrimitiveMarker::U32));
        fs.push(FieldMarker::Primitive(PrimitiveMarker::B0255));
        FieldMarker::Struct(fs)
    }
}

} // verus!
