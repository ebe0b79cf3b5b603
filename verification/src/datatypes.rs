//! Sv2 data types: fixed-size byte arrays, bounded variable-length byte
//! strings, `U24`, sequences and the Sv2 option.
//!
//! Every type carries a well-formedness predicate, a specification-level wire
//! encoding `enc`, and executable encode / decode functions proved against it.

use vstd::prelude::*;
use vstd::bytes::*;
use vstd::slice::*;
use crate::codec::CodecError;
use crate::codec::prefix_of;
use crate::codec::spec_u24_to_le_bytes;
use crate::codec::spec_u24_from_le_bytes;
use crate::codec::lemma_u24_to_from_le_bytes;
use crate::codec::lemma_u24_from_to_le_bytes;
use crate::codec::encode_u16;
use crate::codec::encode_u24;
use crate::codec::encode_u32;
use crate::codec::decode_u8;
use crate::codec::decode_u16;
use crate::codec::decode_u24;
use crate::codec::decode_u32;

verus! {

/// An Sv2 byte-string value.
///
/// `ISFIXED` selects between a fixed-size array of exactly `SIZE` bytes
/// (no length prefix on the wire) and a variable-length string of at most
/// `MAXSIZE` bytes behind a little-endian length prefix of `HEADERSIZE` bytes.
#[derive(Debug, Clone, PartialEq, Eq)]
#[verifier::ext_equal]
pub struct Inner<const ISFIXED: bool, const SIZE: usize, const HEADERSIZE: usize, const MAXSIZE: usize> {
    pub data: Vec<u8>,
}

/// A 4-byte little-endian view of a `u32`.
pub type U32AsRef = Inner<true, 4, 0, 0>;

/// A 32-byte value, typically a hash.
pub type U256 = Inner<true, 32, 0, 0>;

/// A 6-byte short transaction id.
pub type ShortTxId = Inner<true, 6, 0, 0>;

/// A 32-byte public key.
pub type PubKey = Inner<true, 32, 0, 0>;

/// A 64-byte signature.
pub type Signature = Inner<true, 64, 0, 0>;

/// At most 32 bytes behind a 1-byte length prefix.
pub type B032 = Inner<false, 1, 1, 32>;

/// At most 255 bytes behind a 1-byte length prefix.
pub type B0255 = Inner<false, 1, 1, 255>;

/// `B0255` whose payload is UTF-8 text.
///
/// The alias shares `B0255`'s wire shape, so its well-formedness predicate
/// cannot carry the text invariant; `str0255_from_utf8` is the constructor
/// that checks it, and `is_utf8` states it.
pub type Str0255 = Inner<false, 1, 1, 255>;

/// At most 65535 bytes behind a 2-byte length prefix.
pub type B064K = Inner<false, 1, 2, 65535>;

/// At most 16777215 bytes behind a 3-byte length prefix.
pub type B016M = Inner<false, 1, 3, 16777215>;

impl<const ISFIXED: bool, const SIZE: usize, const HEADERSIZE: usize, const MAXSIZE: usize> View for Inner<
    ISFIXED,
    SIZE,
    HEADERSIZE,
    MAXSIZE,
> {
    type V = Seq<u8>;

    open spec fn view(&self) -> Seq<u8> {
        self.data@
    }
}

impl<const ISFIXED: bool, const SIZE: usize, const HEADERSIZE: usize, const MAXSIZE: usize> Inner<
    ISFIXED,
    SIZE,
    HEADERSIZE,
    MAXSIZE,
> {
    /// The instantiation is one of the Sv2 wire shapes: the bound fits the prefix.
    pub open spec fn params_ok() -> bool {
        if ISFIXED {
            true
        } else {
            (HEADERSIZE == 1 && MAXSIZE <= 0xff) || (HEADERSIZE == 2 && MAXSIZE <= 0xffff) || (
            HEADERSIZE == 3 && MAXSIZE <= 0xffffff)
        }
    }

    /// The held bytes respect the type's size discipline.
    pub open spec fn wf(self) -> bool {
        if ISFIXED {
            self.data@.len() == SIZE
        } else {
            self.data@.len() <= MAXSIZE
        }
    }

    /// Wire form of the length prefix for a payload of `n` bytes.
    pub open spec fn spec_header(n: nat) -> Seq<u8> {
        if HEADERSIZE == 1 {
            seq![n as u8]
        } else if HEADERSIZE == 2 {
            spec_u16_to_le_bytes(n as u16)
        } else {
            spec_u24_to_le_bytes(n as u32)
        }
    }

    /// The value read back from a length prefix.
    pub open spec fn spec_header_value(s: Seq<u8>) -> nat {
        if HEADERSIZE == 1 {
            s[0] as nat
        } else if HEADERSIZE == 2 {
            spec_u16_from_le_bytes(s) as nat
        } else {
            spec_u24_from_le_bytes(s) as nat
        }
    }

    /// The complete wire encoding of this value.
    pub open spec fn enc(self) -> Seq<u8> {
        if ISFIXED {
            self.data@
        } else {
            Self::spec_header(self.data@.len()) + self.data@
        }
    }

    /// Reading back the header of a well-formed value yields its payload length.
    pub proof fn lemma_header_roundtrip(n: nat)
        requires
            Self::params_ok(),
            !ISFIXED,
            n <= MAXSIZE,
        ensures
            Self::spec_header(n).len() == HEADERSIZE,
            Self::spec_header_value(Self::spec_header(n)) == n,
    {
        if HEADERSIZE == 1 {
        } else if HEADERSIZE == 2 {
            lemma_auto_spec_u16_to_from_le_bytes();
        } else {
            lemma_u24_to_from_le_bytes(n as u32);
        }
    }

    /// A length prefix decodes back to the length it was written from.
    pub proof fn lemma_header_inverse(s: Seq<u8>)
        requires
            Self::params_ok(),
            !ISFIXED,
            s.len() == HEADERSIZE,
        ensures
            Self::spec_header(Self::spec_header_value(s)) == s,
    {
        if HEADERSIZE == 1 {
            assert(Self::spec_header(Self::spec_header_value(s)) =~= s);
        } else if HEADERSIZE == 2 {
            lemma_auto_spec_u16_to_from_le_bytes();
            assert(Self::spec_header(Self::spec_header_value(s)) == s);
        } else {
            lemma_u24_from_to_le_bytes(s);
            assert(Self::spec_header(Self::spec_header_value(s)) == s);
        }
    }

    /// Builds a value from owned bytes, rejecting bytes of the wrong size.
    pub fn from_vec(v: Vec<u8>) -> (r: Result<Self, CodecError>)
        requires
            Self::params_ok(),
        ensures
            (if ISFIXED {
                v@.len() == SIZE
            } else {
                v@.len() <= MAXSIZE
            }) ==> r == Ok::<Self, CodecError>(Inner { data: v }),
            !(if ISFIXED {
                v@.len() == SIZE
            } else {
                v@.len() <= MAXSIZE
            }) ==> (r matches Err(e) && (e matches CodecError::ValueExceedsMaxSize(
                f,
                s,
                h,
                mx,
                bad,
                n,
            ) && f == ISFIXED && s == SIZE && h == HEADERSIZE && mx == MAXSIZE && bad@ == v@ && n
                == v@.len())),
            r matches Ok(x) ==> x.wf(),
    {
        let ok = if ISFIXED {
            v.len() == SIZE
        } else {
            v.len() <= MAXSIZE
        };
        if ok {
            Ok(Inner { data: v })
        } else {
            let n = v.len();
            Err(CodecError::ValueExceedsMaxSize(ISFIXED, SIZE, HEADERSIZE, MAXSIZE, v, n))
        }
    }

    /// Serialized length of this value in bytes.
    pub fn get_size(&self) -> (r: usize)
        requires
            Self::params_ok(),
            self.wf(),
        ensures
            r == self.enc().len(),
    {
        proof {
            if !ISFIXED {
                Self::lemma_header_roundtrip(self.data@.len());
            }
        }
        if ISFIXED {
            SIZE
        } else {
            HEADERSIZE + self.data.len()
        }
    }

    /// Appends the wire encoding to `dst`.
    pub fn encode_into(&self, dst: &mut Vec<u8>)
        requires
            Self::params_ok(),
            self.wf(),
        ensures
            final(dst)@ == old(dst)@ + self.enc(),
    {
        if !ISFIXED {
            let n = self.data.len();
            if HEADERSIZE == 1 {
                dst.push(n as u8);
            } else if HEADERSIZE == 2 {
                encode_u16(n as u16, dst);
            } else {
                encode_u24(n as u32, dst);
            }
        }
        let mut payload = self.data.clone();
        dst.append(&mut payload);
        assert(final(dst)@ =~= old(dst)@ + self.enc());
    }

    /// Total size of the encoded value that starts at `offset`, read from the
    /// length prefix alone; the bytes after the prefix need not be present.
    pub fn size_hint(data: &[u8], offset: usize) -> (r: Result<usize, CodecError>)
        requires
            offset <= data@.len(),
            Self::params_ok(),
        ensures
            ISFIXED ==> r == Ok::<usize, CodecError>(SIZE),
            !ISFIXED && offset + HEADERSIZE > data@.len() ==> r == Err::<usize, CodecError>(
                CodecError::OutOfBound,
            ),
            !ISFIXED && offset + HEADERSIZE <= data@.len() ==> r == Ok::<usize, CodecError>(
                (HEADERSIZE + Self::spec_header_value(
                    data@.subrange(offset as int, offset + HEADERSIZE),
                )) as usize,
            ),
    {
        if ISFIXED {
            Ok(SIZE)
        } else if HEADERSIZE == 1 {
            match decode_u8(data, offset) {
                Ok(n) => Ok(HEADERSIZE + n as usize),
                Err(e) => Err(e),
            }
        } else if HEADERSIZE == 2 {
            match decode_u16(data, offset) {
                Ok(n) => Ok(HEADERSIZE + n as usize),
                Err(e) => Err(e),
            }
        } else {
            match decode_u24(data, offset) {
                Ok(n) => Ok(HEADERSIZE + n as usize),
                Err(e) => Err(e),
            }
        }
    }

    /// Decodes one value that starts at `offset`, returning it with the number
    /// of bytes it occupied.
    #[verifier::rlimit(60)]
    pub fn decode(data: &[u8], offset: usize) -> (r: Result<(Self, usize), CodecError>)
        requires
            offset <= data@.len(),
            Self::params_ok(),
        ensures
            r matches Ok(p) ==> p.0.wf() && offset + p.1 <= data@.len() && p.1 == p.0.enc().len()
                && p.0.enc() == data@.subrange(offset as int, offset + p.1),
            forall|m: Self|
                m.wf() && prefix_of(m.enc(), data@.skip(offset as int)) ==> (r matches Ok(p) && p.0@
                    == m@ && p.1 == m.enc().len()),
            ISFIXED && offset + SIZE <= data@.len() ==> (r matches Ok(p) && p.1 == SIZE && p.0@
                == data@.subrange(offset as int, offset + SIZE as int)),
            ISFIXED && offset + SIZE > data@.len() ==> r == Err::<(Self, usize), CodecError>(
                CodecError::OutOfBound,
            ),
            !ISFIXED && offset + HEADERSIZE > data@.len() ==> r == Err::<
                (Self, usize),
                CodecError,
            >(CodecError::OutOfBound),
            !ISFIXED && offset + HEADERSIZE <= data@.len() ==> {
                let n = Self::spec_header_value(
                    data@.subrange(offset as int, offset + HEADERSIZE),
                );
                &&& n > MAXSIZE ==> (r matches Err(e) && e matches CodecError::ValueExceedsMaxSize(
                    f,
                    s,
                    h,
                    mx,
                    bad,
                    a,
                ) && a == n)
                &&& n <= MAXSIZE && offset + HEADERSIZE + n > data@.len() ==> r == Err::<
                    (Self, usize),
                    CodecError,
                >(CodecError::OutOfBound)
                &&& n <= MAXSIZE && offset + HEADERSIZE + n <= data@.len() ==> (r matches Ok(p)
                    && p.1 == HEADERSIZE + n && p.0@ == data@.subrange(
                    offset + HEADERSIZE,
                    offset + HEADERSIZE + n,
                ))
            },
    {
        if ISFIXED {
            if data.len() - offset >= SIZE {
                let v = slice_to_vec(slice_subrange(data, offset, offset + SIZE));
                let out = Inner { data: v };
                proof {
                    assert forall|m: Self|
                        m.wf() && prefix_of(m.enc(), data@.skip(offset as int)) implies m@
                        == out@ by {
                        assert(m.data@ =~= data@.subrange(offset as int, offset + SIZE as int));
                    }
                }
                Ok((out, SIZE))
            } else {
                proof {
                    assert forall|m: Self| m.wf() implies !prefix_of(
                        m.enc(),
                        data@.skip(offset as int),
                    ) by {}
                }
                Err(CodecError::OutOfBound)
            }
        } else {
            let hdr = if HEADERSIZE == 1 {
                match decode_u8(data, offset) {
                    Ok(n) => Ok(n as usize),
                    Err(e) => Err(e),
                }
            } else if HEADERSIZE == 2 {
                match decode_u16(data, offset) {
                    Ok(n) => Ok(n as usize),
                    Err(e) => Err(e),
                }
            } else {
                match decode_u24(data, offset) {
                    Ok(n) => Ok(n as usize),
                    Err(e) => Err(e),
                }
            };
            match hdr {
                Err(e) => {
                    proof {
                        assert forall|m: Self| m.wf() implies !prefix_of(
                            m.enc(),
                            data@.skip(offset as int),
                        ) by {
                            Self::lemma_header_roundtrip(m.data@.len());
                        }
                    }
                    Err(CodecError::OutOfBound)
                },
                Ok(n) => {
                    proof {
                        assert(n == Self::spec_header_value(
                            data@.subrange(offset as int, offset + HEADERSIZE),
                        ));
                    }
                    if n > MAXSIZE {
                        proof {
                            let h = data@.subrange(offset as int, offset + HEADERSIZE);
                            assert forall|m: Self| m.wf() implies !prefix_of(
                                m.enc(),
                                data@.skip(offset as int),
                            ) by {
                                Self::lemma_header_roundtrip(m.data@.len());
                                if prefix_of(m.enc(), data@.skip(offset as int)) {
                                    assert(m.enc().subrange(0, HEADERSIZE as int) =~= h);
                                    assert(m.enc().subrange(0, HEADERSIZE as int)
                                        =~= Self::spec_header(m.data@.len()));
                                    assert(Self::spec_header_value(h) == m.data@.len());
                                }
                            }
                        }
                        Err(
                            CodecError::ValueExceedsMaxSize(
                                ISFIXED,
                                SIZE,
                                HEADERSIZE,
                                MAXSIZE,
                                Vec::new(),
                                n,
                            ),
                        )
                    } else if data.len() - offset < HEADERSIZE + n {
                        proof {
                            let h = data@.subrange(offset as int, offset + HEADERSIZE);
                            assert forall|m: Self| m.wf() implies !prefix_of(
                                m.enc(),
                                data@.skip(offset as int),
                            ) by {
                                Self::lemma_header_roundtrip(m.data@.len());
                                if prefix_of(m.enc(), data@.skip(offset as int)) {
                                    assert(m.enc().subrange(0, HEADERSIZE as int) =~= h);
                                    assert(m.enc().subrange(0, HEADERSIZE as int)
                                        =~= Self::spec_header(m.data@.len()));
                                    assert(Self::spec_header_value(h) == m.data@.len());
                                }
                            }
                        }
                        Err(CodecError::OutOfBound)
                    } else {
                        let v = slice_to_vec(
                            slice_subrange(data, offset + HEADERSIZE, offset + HEADERSIZE + n),
                        );
                        let out = Inner { data: v };
                        proof {
                            let h = data@.subrange(offset as int, offset + HEADERSIZE);
                            Self::lemma_header_roundtrip(out.data@.len());
                            Self::lemma_header_inverse(h);
                            assert(Self::spec_header(out.data@.len()) == h);
                            assert(out.enc() =~= data@.subrange(
                                offset as int,
                                offset + HEADERSIZE + n,
                            ));
                            assert forall|m: Self|
                                m.wf() && prefix_of(m.enc(), data@.skip(offset as int)) implies m@
                                == out@ by {
                                Self::lemma_header_roundtrip(m.data@.len());
                                assert(m.enc().subrange(0, HEADERSIZE as int) =~= h);
                                assert(m.enc().subrange(0, HEADERSIZE as int)
                                    =~= Self::spec_header(m.data@.len()));
                                assert(Self::spec_header_value(h) == m.data@.len());
                                assert(m.data@.len() == n);
                                assert(m.data@ =~= m.enc().subrange(
                                    HEADERSIZE as int,
                                    (HEADERSIZE + n) as int,
                                ));
                                assert(m.enc().subrange(HEADERSIZE as int, (HEADERSIZE + n) as int)
                                    =~= data@.subrange(offset + HEADERSIZE, offset + HEADERSIZE + n));
                            }
                        }
                        Ok((out, HEADERSIZE + n))
                    }
                },
            }
        }
    }

    /// The held bytes, cloned into an owned vector.
    pub fn to_vec(&self) -> (r: Vec<u8>)
        ensures
            r@ == self.data@,
    {
        self.data.clone()
    }

    /// A borrowed view of the held bytes.
    pub fn inner_as_ref(&self) -> (r: &[u8])
        ensures
            r@ == self.data@,
    {
        self.data.as_slice()
    }

    /// Number of held payload bytes.
    pub fn len(&self) -> (r: usize)
        ensures
            r == self.data@.len(),
    {
        self.data.len()
    }
}

impl U32AsRef {
    /// The `u32` this little-endian 4-byte value stands for.
    pub fn as_u32(&self) -> (r: u32)
        requires
            self.wf(),
        ensures
            r == spec_u32_from_le_bytes(self.data@),
    {
        let w = slice_subrange(self.data.as_slice(), 0, 4);
        proof {
            assert(w@ =~= self.data@);
        }
        u32_from_le_bytes(w)
    }

    /// Builds the 4-byte little-endian view of a `u32`.
    pub fn from_u32(v: u32) -> (r: Self)
        ensures
            r.wf(),
            r.data@ == spec_u32_to_le_bytes(v),
    {
        let b = u32_to_le_bytes(v);
        proof {
            lemma_auto_spec_u32_to_from_le_bytes();
        }
        Inner { data: b }
    }
}

/// A 24-bit unsigned integer: values at or above `2^24` are rejected.
#[derive(Debug, Clone, Copy, PartialEq, Eq, Structural)]
pub struct U24(pub u32);

impl U24 {
    /// The held value fits in 24 bits.
    pub open spec fn wf(self) -> bool {
        self.0 < 0x1000000
    }

    /// Wire form: three little-endian bytes.
    pub open spec fn enc(self) -> Seq<u8> {
        spec_u24_to_le_bytes(self.0)
    }

    /// Builds a `U24`, rejecting values that do not fit in 24 bits.
    pub fn new(v: u32) -> (r: Result<U24, CodecError>)
        ensures
            v < 0x1000000 ==> r == Ok::<U24, CodecError>(U24(v)),
            v >= 0x1000000 ==> r == Err::<U24, CodecError>(CodecError::U24TooBig(v)),
    {
        if v < 0x1000000 {
            Ok(U24(v))
        } else {
            Err(CodecError::U24TooBig(v))
        }
    }

    /// Appends the three wire bytes to `dst`.
    pub fn encode_into(&self, dst: &mut Vec<u8>)
        requires
            self.wf(),
        ensures
            final(dst)@ == old(dst)@ + self.enc(),
    {
        encode_u24(self.0, dst);
    }

    /// Decodes a `U24` starting at `offset`.
    pub fn decode(data: &[u8], offset: usize) -> (r: Result<(U24, usize), CodecError>)
        requires
            offset <= data@.len(),
        ensures
            r matches Ok(p) ==> p.0.wf() && p.1 == 3 && offset + 3 <= data@.len() && p.0.enc()
                == data@.subrange(offset as int, offset + 3),
            forall|m: U24|
                m.wf() && prefix_of(m.enc(), data@.skip(offset as int)) ==> r == Ok::<
                    (U24, usize),
                    CodecError,
                >((m, 3)),
            offset + 3 > data@.len() ==> r == Err::<(U24, usize), CodecError>(
                CodecError::OutOfBound,
            ),
            offset + 3 <= data@.len() ==> r == Ok::<(U24, usize), CodecError>(
                (U24(spec_u24_from_le_bytes(data@.subrange(offset as int, offset + 3))), 3),
            ),
    {
        match decode_u24(data, offset) {
            Ok(x) => {
                proof {
                    lemma_u24_from_to_le_bytes(data@.subrange(offset as int, offset + 3));
                    assert forall|m: U24|
                        m.wf() && prefix_of(m.enc(), data@.skip(offset as int)) implies m
                        == U24(x) by {
                        assert(m.enc() =~= data@.subrange(offset as int, offset + 3));
                        lemma_u24_to_from_le_bytes(m.0);
                    }
                }
                Ok((U24(x), 3))
            },
            Err(e) => Err(e),
        }
    }
}

/// A sequence of at most 255 hashes behind a 1-byte count, as carried by a
/// merkle path.
///
/// The protocol's general form is a length-prefixed sequence of any sized
/// type; the messages in scope carry only sequences of 32-byte hashes (and
/// the optional `u32` of `Sv2Option`), so those are the two instantiations
/// this library defines.
#[derive(Debug, Clone, PartialEq, Eq)]
pub struct Seq0255(pub Vec<U256>);

impl View for Seq0255 {
    type V = Seq<Seq<u8>>;

    open spec fn view(&self) -> Seq<Seq<u8>> {
        self.0@.map_values(|x: U256| x@)
    }
}

impl Seq0255 {
    /// At most 255 elements, each a well-formed 32-byte value.
    pub open spec fn wf(self) -> bool {
        self.0@.len() <= 255 && forall|i: int|
            0 <= i < self.0@.len() ==> (#[trigger] self.0@[i]).wf()
    }

    /// The encoded elements, one 32-byte block each, in order.
    pub open spec fn elems_enc(s: Seq<Seq<u8>>) -> Seq<u8>
        decreases s.len(),
    {
        if s.len() == 0 {
            Seq::empty()
        } else {
            s.first() + Self::elems_enc(s.drop_first())
        }
    }

    /// Wire form: a count byte followed by the encoded elements.
    pub open spec fn enc(self) -> Seq<u8> {
        seq![self.0@.len() as u8] + Self::elems_enc(self@)
    }

    /// The encoded elements of a sequence of 32-byte blocks occupy exactly
    /// 32 bytes each.
    pub proof fn lemma_elems_enc_len(s: Seq<Seq<u8>>)
        requires
            forall|i: int| 0 <= i < s.len() ==> (#[trigger] s[i]).len() == 32,
        ensures
            Self::elems_enc(s).len() == 32 * s.len(),
        decreases s.len(),
    {
        if s.len() > 0 {
            Self::lemma_elems_enc_len(s.drop_first());
        }
    }

    /// Appending one element appends its block.
    pub proof fn lemma_elems_enc_push(s: Seq<Seq<u8>>, e: Seq<u8>)
        ensures
            Self::elems_enc(s.push(e)) == Self::elems_enc(s) + e,
        decreases s.len(),
    {
        if s.len() == 0 {
            assert(s.push(e).drop_first() =~= s);
            assert(Self::elems_enc(s.push(e)) =~= Self::elems_enc(s) + e);
        } else {
            assert(s.push(e).drop_first() =~= s.drop_first().push(e));
            Self::lemma_elems_enc_push(s.drop_first(), e);
            assert(Self::elems_enc(s.push(e)) =~= Self::elems_enc(s) + e);
        }
    }

    /// A sequence whose elements are the consecutive 32-byte blocks of `b`
    /// encodes exactly to `b`.
    pub proof fn lemma_elems_enc_blocks(s: Seq<Seq<u8>>, b: Seq<u8>)
        requires
            b.len() == 32 * s.len(),
            forall|i: int| 0 <= i < s.len() ==> (#[trigger] s[i]) == b.subrange(
                32 * i,
                32 * i + 32,
            ),
        ensures
            Self::elems_enc(s) == b,
        decreases s.len(),
    {
        if s.len() == 0 {
            assert(Self::elems_enc(s) =~= b);
        } else {
            let t = s.drop_first();
            let c = b.skip(32);
            assert forall|i: int| 0 <= i < t.len() implies (#[trigger] t[i]) == c.subrange(
                32 * i,
                32 * i + 32,
            ) by {
                assert(t[i] == s[i + 1]);
                assert(s[i + 1] == b.subrange(32 * (i + 1), 32 * (i + 1) + 32));
                assert(c.subrange(32 * i, 32 * i + 32) =~= b.subrange(
                    32 * (i + 1),
                    32 * (i + 1) + 32,
                ));
            }
            Self::lemma_elems_enc_blocks(t, c);
            assert(s.first() == b.subrange(0, 32));
            assert(Self::elems_enc(s) =~= b);
        }
    }

    /// Builds a sequence, rejecting more than 255 elements.
    pub fn new(inner: Vec<U256>) -> (r: Result<Self, CodecError>)
        requires
            forall|i: int| 0 <= i < inner@.len() ==> (#[trigger] inner@[i]).wf(),
        ensures
            inner@.len() <= 255 ==> (r matches Ok(x) && x.wf() && x == (Seq0255(inner))),
            inner@.len() > 255 ==> r == Err::<Self, CodecError>(CodecError::SeqExceedsMaxSize),
    {
        if inner.len() <= 255 {
            Ok(Seq0255(inner))
        } else {
            Err(CodecError::SeqExceedsMaxSize)
        }
    }

    /// Serialized length: one count byte plus 32 bytes per element.
    pub fn get_size(&self) -> (r: usize)
        requires
            self.wf(),
        ensures
            r == self.enc().len(),
    {
        proof {
            Self::lemma_elems_enc_len(self@);
        }
        1 + 32 * self.0.len()
    }

    /// Appends the wire encoding to `dst`.
    pub fn encode_into(&self, dst: &mut Vec<u8>)
        requires
            self.wf(),
        ensures
            final(dst)@ == old(dst)@ + self.enc(),
    {
        let c = self.0.len();
        dst.push(c as u8);
        let mut i: usize = 0;
        while i < c
            invariant
                c == self.0@.len(),
                self.wf(),
                i <= c,
                dst@ == old(dst)@ + seq![c as u8] + Self::elems_enc(self@.take(i as int)),
            decreases c - i,
        {
            let elem = &self.0[i];
            let mut payload = elem.data.clone();
            dst.append(&mut payload);
            proof {
                assert(self@.take(i + 1) =~= self@.take(i as int).push(self@[i as int]));
                Self::lemma_elems_enc_push(self@.take(i as int), self@[i as int]);
                assert(dst@ =~= old(dst)@ + seq![c as u8] + Self::elems_enc(
                    self@.take(i + 1),
                ));
            }
            i = i + 1;
        }
        proof {
            assert(self@.take(c as int) =~= self@);
            assert(final(dst)@ =~= old(dst)@ + self.enc());
        }
    }

    /// Decodes a sequence that starts at `offset`.
    pub fn decode(data: &[u8], offset: usize) -> (r: Result<(Self, usize), CodecError>)
        requires
            offset <= data@.len(),
        ensures
            r matches Ok(p) ==> p.0.wf() && offset + p.1 <= data@.len() && p.1 == p.0.enc().len()
                && p.0.enc() == data@.subrange(offset as int, offset + p.1),
            forall|m: Self|
                m.wf() && prefix_of(m.enc(), data@.skip(offset as int)) ==> (r matches Ok(p) && p.0@
                    == m@ && p.1 == m.enc().len()),
            offset + 1 > data@.len() ==> r == Err::<(Self, usize), CodecError>(
                CodecError::OutOfBound,
            ),
            offset + 1 <= data@.len() && offset + 1 + 32 * data@[offset as int] > data@.len()
                ==> r == Err::<(Self, usize), CodecError>(CodecError::OutOfBound),
            offset + 1 <= data@.len() && offset + 1 + 32 * data@[offset as int] <= data@.len()
                ==> (r matches Ok(p) && p.1 == 1 + 32 * data@[offset as int]),
    {
        if data.len() - offset < 1 {
            proof {
                assert forall|m: Self| m.wf() implies !prefix_of(
                    m.enc(),
                    data@.skip(offset as int),
                ) by {}
            }
            return Err(CodecError::OutOfBound);
        }
        let c = *slice_index_get(data, offset) as usize;
        if data.len() - offset - 1 < 32 * c {
            proof {
                assert forall|m: Self| m.wf() implies !prefix_of(
                    m.enc(),
                    data@.skip(offset as int),
                ) by {
                    Self::lemma_elems_enc_len(m@);
                    if prefix_of(m.enc(), data@.skip(offset as int)) {
                        assert(m.enc()[0] == data@[offset as int]);
                        assert(m.0@.len() == c);
                    }
                }
            }
            return Err(CodecError::OutOfBound);
        }
        let mut elems: Vec<U256> = Vec::new();
        let mut i: usize = 0;
        while i < c
            invariant
                offset + 1 <= data@.len(),
                data@.len() <= usize::MAX,
                c == data@[offset as int],
                offset + 1 + 32 * c <= data@.len(),
                i <= c,
                elems@.len() == i,
                forall|j: int| 0 <= j < i ==> (#[trigger] elems@[j]).wf(),
                forall|j: int|
                    0 <= j < i ==> (#[trigger] elems@[j]).data@ == data@.subrange(
                        offset + 1 + 32 * j,
                        offset + 1 + 32 * j + 32,
                    ),
            decreases c - i,
        {
            let start = offset + 1 + 32 * i;
            let v = slice_to_vec(slice_subrange(data, start, start + 32));
            elems.push(Inner { data: v });
            i = i + 1;
        }
        let out = Seq0255(elems);
        let total = 1 + 32 * c;
        proof {
            let body = data@.subrange(offset + 1, offset + 1 + 32 * c);
            assert forall|j: int| 0 <= j < out@.len() implies (#[trigger] out@[j]) == body.subrange(
                32 * j,
                32 * j + 32,
            ) by {
                assert(out@[j] == out.0@[j].data@);
                assert(body.subrange(32 * j, 32 * j + 32) =~= data@.subrange(
                    offset + 1 + 32 * j,
                    offset + 1 + 32 * j + 32,
                ));
            }
            Self::lemma_elems_enc_blocks(out@, body);
            assert(out.enc() =~= data@.subrange(offset as int, offset + total));
            assert forall|m: Self|
                m.wf() && prefix_of(m.enc(), data@.skip(offset as int)) implies m@ == out@ by {
                Self::lemma_elems_enc_len(m@);
                assert(m.enc()[0] == data@[offset as int]);
                assert(m.0@.len() == c);
                assert(Self::elems_enc(m@) =~= m.enc().subrange(1, 1 + 32 * c));
                assert(m.enc().subrange(1, 1 + 32 * c) =~= body);
                Self::lemma_elems_enc_pinned(m@, body);
                assert(m@ =~= out@);
            }
        }
        Ok((out, total))
    }

    /// A well-formed sequence that encodes to `b` holds exactly the
    /// consecutive 32-byte blocks of `b`.
    pub proof fn lemma_elems_enc_pinned(s: Seq<Seq<u8>>, b: Seq<u8>)
        requires
            forall|i: int| 0 <= i < s.len() ==> (#[trigger] s[i]).len() == 32,
            Self::elems_enc(s) == b,
        ensures
            b.len() == 32 * s.len(),
            forall|i: int| 0 <= i < s.len() ==> (#[trigger] s[i]) == b.subrange(
                32 * i,
                32 * i + 32,
            ),
        decreases s.len(),
    {
        Self::lemma_elems_enc_len(s);
        if s.len() > 0 {
            let t = s.drop_first();
            assert forall|i: int| 0 <= i < t.len() implies (#[trigger] t[i]).len() == 32 by {
                assert(t[i] == s[i + 1]);
            }
            assert(Self::elems_enc(t) =~= b.skip(32));
            Self::lemma_elems_enc_pinned(t, b.skip(32));
            assert(s.first() =~= b.subrange(0, 32));
            assert forall|i: int| 0 <= i < s.len() implies (#[trigger] s[i]) == b.subrange(
                32 * i,
                32 * i + 32,
            ) by {
                if i > 0 {
                    assert(s[i] == t[i - 1]);
                    assert(t[i - 1] == b.skip(32).subrange(32 * (i - 1), 32 * (i - 1) + 32));
                    assert(b.skip(32).subrange(32 * (i - 1), 32 * (i - 1) + 32) =~= b.subrange(
                        32 * i,
                        32 * i + 32,
                    ));
                }
            }
        }
    }

    /// The held elements, cloned into owned byte vectors.
    pub fn to_vec(&self) -> (r: Vec<Vec<u8>>)
        ensures
            r@.len() == self@.len(),
            forall|i: int| 0 <= i < r@.len() ==> (#[trigger] r@[i])@ == self@[i],
    {
        let mut out: Vec<Vec<u8>> = Vec::new();
        let mut i: usize = 0;
        while i < self.0.len()
            invariant
                i <= self.0@.len(),
                out@.len() == i,
                forall|j: int| 0 <= j < i ==> (#[trigger] out@[j])@ == self@[j],
            decreases self.0@.len() - i,
        {
            out.push(self.0[i].data.clone());
            i = i + 1;
        }
        out
    }
}

/// An optional `u32` on the wire: a `Seq0255` constrained to zero or one
/// element.
#[derive(Debug, Clone, PartialEq, Eq)]
pub struct Sv2Option(pub Option<u32>);

impl View for Sv2Option {
    type V = Option<u32>;

    open spec fn view(&self) -> Option<u32> {
        self.0
    }
}

impl Sv2Option {
    /// Wire form: a count byte, then the value's four bytes when present.
    pub open spec fn enc(self) -> Seq<u8> {
        match self.0 {
            Option::None => seq![0u8],
            Option::Some(v) => seq![1u8] + spec_u32_to_le_bytes(v),
        }
    }

    /// Wraps an optional value.
    pub fn new(inner: Option<u32>) -> (r: Self)
        ensures
            r.0 == inner,
    {
        Sv2Option(inner)
    }

    /// The held optional value.
    pub fn into_inner(self) -> (r: Option<u32>)
        ensures
            r == self.0,
    {
        self.0
    }

    /// Serialized length: one count byte, plus four when a value is present.
    pub fn get_size(&self) -> (r: usize)
        ensures
            r == self.enc().len(),
    {
        proof {
            lemma_auto_spec_u32_to_from_le_bytes();
        }
        match self.0 {
            Option::None => 1,
            Option::Some(_) => 5,
        }
    }

    /// Appends the wire encoding to `dst`.
    pub fn encode_into(&self, dst: &mut Vec<u8>)
        ensures
            final(dst)@ == old(dst)@ + self.enc(),
    {
        match self.0 {
            Option::None => {
                dst.push(0);
                assert(final(dst)@ =~= old(dst)@ + self.enc());
            },
            Option::Some(v) => {
                dst.push(1);
                encode_u32(v, dst);
                assert(final(dst)@ =~= old(dst)@ + self.enc());
            },
        }
    }

    /// Decodes an optional value that starts at `offset`; a count above one
    /// is rejected.
    pub fn decode(data: &[u8], offset: usize) -> (r: Result<(Self, usize), CodecError>)
        requires
            offset <= data@.len(),
        ensures
            r matches Ok(p) ==> offset + p.1 <= data@.len() && p.1 == p.0.enc().len() && p.0.enc()
                == data@.subrange(offset as int, offset + p.1),
            forall|m: Self|
                prefix_of(m.enc(), data@.skip(offset as int)) ==> r == Ok::<
                    (Self, usize),
                    CodecError,
                >((m, m.enc().len() as usize)),
            offset + 1 > data@.len() ==> r == Err::<(Self, usize), CodecError>(
                CodecError::OutOfBound,
            ),
            offset + 1 <= data@.len() && data@[offset as int] >= 2 ==> r == Err::<
                (Self, usize),
                CodecError,
            >(CodecError::Sv2OptionHaveMoreThenOneElement(data@[offset as int])),
    {
        proof {
            lemma_auto_spec_u32_to_from_le_bytes();
        }
        if data.len() - offset < 1 {
            return Err(CodecError::OutOfBound);
        }
        let b = *slice_index_get(data, offset);
        if b == 0 {
            let out = Sv2Option(None);
            proof {
                assert(out.enc() =~= data@.subrange(offset as int, offset + 1));
                assert forall|m: Self|
                    prefix_of(m.enc(), data@.skip(offset as int)) implies m == out by {
                    if m.0 is Some {
                        assert(m.enc()[0] == 1);
                        assert(m.enc()[0] == data@[offset as int]);
                    }
                }
            }
            Ok((out, 1))
        } else if b == 1 {
            match decode_u32(data, offset + 1) {
                Ok(v) => {
                    let out = Sv2Option(Some(v));
                    proof {
                        assert(out.enc() =~= data@.subrange(offset as int, offset + 5));
                        assert forall|m: Self|
                            prefix_of(m.enc(), data@.skip(offset as int)) implies m == out by {
                            if m.0 is None {
                                assert(m.enc()[0] == 0);
                                assert(m.enc()[0] == data@[offset as int]);
                            } else {
                                let w = m.0.unwrap();
                                assert(m.enc() == seq![1u8] + spec_u32_to_le_bytes(w));
                                assert(m.enc().subrange(1, 5) =~= spec_u32_to_le_bytes(w));
                                assert(m.enc().subrange(1, 5) =~= data@.subrange(
                                    offset + 1,
                                    offset + 5,
                                ));
                            }
                        }
                    }
                    Ok((out, 5))
                },
                Err(e) => {
                    proof {
                        assert forall|m: Self| !prefix_of(
                            m.enc(),
                            data@.skip(offset as int),
                        ) by {
                            if m.0 is None {
                                assert(m.enc()[0] == 0);
                            }
                        }
                    }
                    Err(e)
                },
            }
        } else {
            proof {
                assert forall|m: Self| !prefix_of(m.enc(), data@.skip(offset as int)) by {
                    if m.0 is None {
                        assert(m.enc()[0] == 0);
                    } else {
                        assert(m.enc()[0] == 1);
                    }
                }
            }
            Err(CodecError::Sv2OptionHaveMoreThenOneElement(b))
        }
    }
}

/// Whether a byte continues a multi-byte UTF-8 character.
pub open spec fn is_utf8_cont(b: u8) -> bool {
    0x80 <= b && b <= 0xbf
}

/// Whether a byte run is well-formed UTF-8: each character is one to four
/// bytes in the shapes RFC 3629 allows, overlong forms and surrogates
/// excluded.
pub open spec fn is_utf8(s: Seq<u8>) -> bool
    decreases s.len(),
{
    if s.len() == 0 {
        true
    } else {
        let b0 = s[0];
        if b0 < 0x80 {
            is_utf8(s.skip(1))
        } else if 0xc2 <= b0 && b0 <= 0xdf {
            s.len() >= 2 && is_utf8_cont(s[1]) && is_utf8(s.skip(2))
        } else if b0 == 0xe0 {
            s.len() >= 3 && 0xa0 <= s[1] && s[1] <= 0xbf && is_utf8_cont(s[2]) && is_utf8(s.skip(3))
        } else if (0xe1 <= b0 && b0 <= 0xec) || b0 == 0xee || b0 == 0xef {
            s.len() >= 3 && is_utf8_cont(s[1]) && is_utf8_cont(s[2]) && is_utf8(s.skip(3))
        } else if b0 == 0xed {
            s.len() >= 3 && 0x80 <= s[1] && s[1] <= 0x9f && is_utf8_cont(s[2]) && is_utf8(s.skip(3))
        } else if b0 == 0xf0 {
            s.len() >= 4 && 0x90 <= s[1] && s[1] <= 0xbf && is_utf8_cont(s[2]) && is_utf8_cont(s[3])
                && is_utf8(s.skip(4))
        } else if 0xf1 <= b0 && b0 <= 0xf3 {
            s.len() >= 4 && is_utf8_cont(s[1]) && is_utf8_cont(s[2]) && is_utf8_cont(s[3])
                && is_utf8(s.skip(4))
        } else if b0 == 0xf4 {
            s.len() >= 4 && 0x80 <= s[1] && s[1] <= 0x8f && is_utf8_cont(s[2]) && is_utf8_cont(s[3])
                && is_utf8(s.skip(4))
        } else {
            false
        }
    }
}

/// Whether a byte continues a multi-byte UTF-8 character.
fn utf8_cont(b: u8) -> (r: bool)
    ensures
        r == is_utf8_cont(b),
{
    0x80 <= b && b <= 0xbf
}

/// Checks that a byte run is well-formed UTF-8.
pub fn utf8_ok(s: &[u8]) -> (r: bool)
    ensures
        r == is_utf8(s@),
{
    let n = s.len();
    let mut i: usize = 0;
    proof {
        assert(s@.skip(0) =~= s@);
    }
    while i < n
        invariant
            i <= n,
            n == s@.len(),
            is_utf8(s@) == is_utf8(s@.skip(i as int)),
        decreases n - i,
    {
        let b0 = *slice_index_get(s, i);
        let step: usize = if b0 < 0x80 {
            1
        } else if 0xc2 <= b0 && b0 <= 0xdf {
            if n - i <= 1 || !utf8_cont(*slice_index_get(s, i + 1)) {
                return false;
            }
            2
        } else if b0 == 0xe0 {
            if n - i <= 2 {
                return false;
            }
            let b1 = *slice_index_get(s, i + 1);
            if !(0xa0 <= b1 && b1 <= 0xbf) || !utf8_cont(*slice_index_get(s, i + 2)) {
                return false;
            }
            3
        } else if (0xe1 <= b0 && b0 <= 0xec) || b0 == 0xee || b0 == 0xef {
            if n - i <= 2 || !utf8_cont(*slice_index_get(s, i + 1)) || !utf8_cont(
                *slice_index_get(s, i + 2),
            ) {
                return false;
            }
            3
        } else if b0 == 0xed {
            if n - i <= 2 {
                return false;
            }
            let b1 = *slice_index_get(s, i + 1);
            if !(0x80 <= b1 && b1 <= 0x9f) || !utf8_cont(*slice_index_get(s, i + 2)) {
                return false;
            }
            3
        } else if b0 == 0xf0 {
            if n - i <= 3 {
                return false;
            }
            let b1 = *slice_index_get(s, i + 1);
            if !(0x90 <= b1 && b1 <= 0xbf) || !utf8_cont(*slice_index_get(s, i + 2)) || !utf8_cont(
                *slice_index_get(s, i + 3),
            ) {
                return false;
            }
            4
        } else if 0xf1 <= b0 && b0 <= 0xf3 {
            if n - i <= 3 || !utf8_cont(*slice_index_get(s, i + 1)) || !utf8_cont(
                *slice_index_get(s, i + 2),
            ) || !utf8_cont(*slice_index_get(s, i + 3)) {
                return false;
            }
            4
        } else if b0 == 0xf4 {
            if n - i <= 3 {
                return false;
            }
            let b1 = *slice_index_get(s, i + 1);
            if !(0x80 <= b1 && b1 <= 0x8f) || !utf8_cont(*slice_index_get(s, i + 2)) || !utf8_cont(
                *slice_index_get(s, i + 3),
            ) {
                return false;
            }
            4
        } else {
            return false;
        };
        proof {
            let t = s@.skip(i as int);
            assert(t[0] == s@[i as int]);
            if step == 1 {
                assert(t.skip(1) =~= s@.skip(i + 1));
            } else if step == 2 {
                assert(t[1] == s@[i + 1]);
                assert(t.skip(2) =~= s@.skip(i + 2));
            } else if step == 3 {
                assert(t[1] == s@[i + 1] && t[2] == s@[i + 2]);
                assert(t.skip(3) =~= s@.skip(i + 3));
            } else {
                assert(t[1] == s@[i + 1] && t[2] == s@[i + 2] && t[3] == s@[i + 3]);
                assert(t.skip(4) =~= s@.skip(i + 4));
            }
        }
        i = i + step;
    }
    proof {
        assert(s@.skip(n as int) =~= Seq::<u8>::empty());
    }
    true
}

/// Builds a `Str0255`, rejecting bytes that are no UTF-8 text or do not fit
/// the 255-byte bound.
pub fn str0255_from_utf8(v: Vec<u8>) -> (r: Result<Str0255, CodecError>)
    ensures
        (v@.len() <= 255 && is_utf8(v@)) <==> r is Ok,
        r matches Ok(x) ==> x.wf() && x@ == v@ && is_utf8(x@),
{
    if !utf8_ok(v.as_slice()) {
        let n = v.len();
        return Err(CodecError::ValueExceedsMaxSize(false, 1, 1, 255, v, n));
    }
    Str0255::from_vec(v)
}

} // verus!
