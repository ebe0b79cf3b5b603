//! Sv2 framing: the 6-byte header, plain Sv2 frames, Noise handshake frames,
//! and the size hint that drives incremental decoding.

use vstd::prelude::*;
use vstd::bytes::*;
use vstd::slice::*;
use crate::codec::CodecError;
use crate::codec::prefix_of;
use crate::codec::spec_u24_from_le_bytes;
use crate::codec::encode_u16;
use crate::codec::encode_u8;
use crate::codec::decode_u16;
use crate::codec::decode_u8;
use crate::datatypes::U24;

verus! {

/// Number of bytes in an Sv2 frame header.
pub const HEADER_SIZE: usize = 6;

/// Failure conditions of the frame layer.
#[derive(Debug, Clone, PartialEq, Eq)]
pub enum FramingError {
    BinarySv2Error(CodecError),
    ExpectedHandshakeFrame,
    ExpectedSv2Frame,
    UnexpectedHeaderLength(isize),
}

/// The 6-byte Sv2 frame header.
#[derive(Debug, Clone, Copy, PartialEq, Eq, Structural)]
pub struct Header {
    /// Extension id; its most significant bit flags a channel message.
    pub extension_type: u16,
    /// Message id within the extension.
    pub msg_type: u8,
    /// Payload length in bytes.
    pub msg_length: U24,
}

/// Sets or clears the channel-message bit of an `extension_type` value.
pub fn update_extension_type(extension_type: u16, channel_msg: bool) -> (r: u16)
    ensures
        channel_msg ==> r == (extension_type | 0x8000u16),
        !channel_msg ==> r == (extension_type & 0x7fffu16),
{
    if channel_msg {
        extension_type | 0x8000u16
    } else {
        extension_type & 0x7fffu16
    }
}

impl Header {
    /// The declared payload length fits in 24 bits.
    pub open spec fn wf(self) -> bool {
        self.msg_length.wf()
    }

    /// Wire form: extension type, message type, payload length, little-endian.
    pub open spec fn enc(self) -> Seq<u8> {
        spec_u16_to_le_bytes(self.extension_type) + seq![self.msg_type] + self.msg_length.enc()
    }

    /// The encoded header is 6 bytes.
    pub proof fn lemma_enc_len(self)
        ensures
            self.enc().len() == 6,
    {
        lemma_auto_spec_u16_to_from_le_bytes();
    }

    /// Declared payload length in bytes.
    pub fn len(&self) -> (r: usize)
        ensures
            r == self.msg_length.0,
    {
        self.msg_length.0 as usize
    }

    /// Builds a header for a payload of `len` bytes; `None` when the length
    /// does not fit in 24 bits.
    pub fn from_len(len: u32, message_type: u8, extension_type: u16) -> (r: Option<Header>)
        ensures
            len < 0x1000000 ==> r == Some(
                Header {
                    extension_type: extension_type,
                    msg_type: message_type,
                    msg_length: U24(len),
                },
            ),
            len >= 0x1000000 ==> r is None,
{
        match U24::new(len) {
            Ok(l) => Some(
                Header { extension_type: extension_type, msg_type: message_type, msg_length: l },
            ),
            Err(_) => None,
        }
    }

    /// Appends the six header bytes to `dst`.
    pub fn encode_into(&self, dst: &mut Vec<u8>)
        requires
            self.wf(),
        ensures
            final(dst)@ == old(dst)@ + self.enc(),
    {
        encode_u16(self.extension_type, dst);
        encode_u8(self.msg_type, dst);
        self.msg_length.encode_into(dst);
        assert(final(dst)@ =~= old(dst)@ + self.enc());
    }

    /// Decodes the header found at the start of `data`; fails only when fewer
    /// than six bytes are present.
    pub fn from_bytes(data: &[u8]) -> (r: Result<Header, CodecError>)
        ensures
            data@.len() >= 6 ==> (r matches Ok(h) && h.wf() && h.enc() == data@.subrange(0, 6)),
            data@.len() < 6 ==> r == Err::<Header, CodecError>(CodecError::OutOfBound),
            forall|m: Header|
                m.wf() && prefix_of(m.enc(), data@) ==> r == Ok::<Header, CodecError>(m),
    {
        proof {
            lemma_auto_spec_u16_to_from_le_bytes();
        }
        if data.len() < 6 {
            proof {
                assert forall|m: Header| m.wf() implies !prefix_of(m.enc(), data@) by {
                    m.lemma_enc_len();
                }
            }
            return Err(CodecError::OutOfBound);
        }
        let ext = match decode_u16(data, 0) {
            Ok(v) => v,
            Err(_) => 0,
        };
        let mt = match decode_u8(data, 2) {
            Ok(v) => v,
            Err(_) => 0,
        };
        let ml = match U24::decode(data, 3) {
            Ok(p) => p.0,
            Err(_) => U24(0),
        };
        let h = Header { extension_type: ext, msg_type: mt, msg_length: ml };
        proof {
            assert(h.enc() =~= data@.subrange(0, 6));
            assert forall|m: Header| m.wf() && prefix_of(m.enc(), data@) implies m == h by {
                m.lemma_enc_len();
                assert(m.enc() =~= data@.subrange(0, 6));
                assert(spec_u16_to_le_bytes(m.extension_type) =~= m.enc().subrange(0, 2));
                assert(spec_u16_to_le_bytes(m.extension_type) =~= data@.subrange(0, 2));
                assert(m.msg_type == m.enc()[2]);
                assert(m.msg_length.enc() =~= m.enc().subrange(3, 6));
                assert(m.msg_length.enc() =~= data@.subrange(3, 6));
                crate::codec::lemma_u24_to_from_le_bytes(m.msg_length.0);
            }
        }
        Ok(h)
    }
}

/// A plain Sv2 frame: a header and a payload, either still serialized as one
/// byte run or held as a payload to be serialized.
#[derive(Debug, Clone, PartialEq, Eq)]
pub enum Sv2Frame {
    /// A frame read off the wire: `serialized` holds header and payload.
    Raw { header: Header, serialized: Vec<u8> },
    /// A frame built from an encoded message, not yet serialized.
    Payload { header: Header, payload: Vec<u8> },
}

impl Sv2Frame {
    /// The header describes the payload and both are consistent.
    pub open spec fn wf(self) -> bool {
        match self {
            Sv2Frame::Raw { header, serialized } => header.wf() && serialized@.len() == 6
                + header.msg_length.0 && serialized@.subrange(0, 6) == header.enc(),
            Sv2Frame::Payload { header, payload } => header.wf() && payload@.len()
                == header.msg_length.0,
        }
    }

    /// The frame's header.
    pub open spec fn spec_header(self) -> Header {
        match self {
            Sv2Frame::Raw { header, .. } => header,
            Sv2Frame::Payload { header, .. } => header,
        }
    }

    /// The frame's payload bytes.
    pub open spec fn spec_payload(self) -> Seq<u8> {
        match self {
            Sv2Frame::Raw { serialized, .. } => serialized@.skip(6),
            Sv2Frame::Payload { payload, .. } => payload@,
        }
    }

    /// Wire form: six header bytes followed by the payload.
    pub open spec fn enc(self) -> Seq<u8> {
        match self {
            Sv2Frame::Raw { serialized, .. } => serialized@,
            Sv2Frame::Payload { header, payload } => header.enc() + payload@,
        }
    }

    /// The frame's header.
    pub fn header(&self) -> (r: Header)
        ensures
            r == self.spec_header(),
    {
        match self {
            Sv2Frame::Raw { header, .. } => *header,
            Sv2Frame::Payload { header, .. } => *header,
        }
    }

    /// Payload bytes of an already serialized frame; `None` for a frame that
    /// still holds its message unserialized.
    pub fn payload(&self) -> (r: Option<&[u8]>)
        requires
            self.wf(),
        ensures
            self matches Sv2Frame::Raw { .. } ==> (r matches Some(p) && p@ == self.spec_payload()),
            self matches Sv2Frame::Payload { .. } ==> r is None,
    {
        match self {
            Sv2Frame::Raw { serialized, .. } => Some(
                slice_subrange(serialized.as_slice(), 6, serialized.len()),
            ),
            Sv2Frame::Payload { .. } => None,
        }
    }

    /// Length of the serialized frame in bytes.
    pub fn encoded_length(&self) -> (r: usize)
        requires
            self.wf(),
        ensures
            r == self.enc().len(),
    {
        match self {
            Sv2Frame::Raw { serialized, .. } => serialized.len(),
            Sv2Frame::Payload { header, payload } => {
                proof {
                    header.lemma_enc_len();
                }
                payload.len() + HEADER_SIZE
            },
        }
    }

    /// Reports whether `bytes` is a whole frame.
    ///
    /// Returns `0` when `bytes` is exactly one frame. When fewer than six
    /// bytes arrived it returns how many header bytes are missing, a
    /// positive count. Otherwise it returns the payload delta: negative
    /// when payload bytes are still missing (their negated count), positive
    /// when bytes beyond the declared frame are present (their count).
    pub fn size_hint(bytes: &[u8]) -> (r: isize)
        requires
            bytes@.len() + 0x1000000 <= isize::MAX,
        ensures
            bytes@.len() < 6 ==> r == 6 - bytes@.len(),
            bytes@.len() >= 6 ==> {
                let msg_len = spec_u24_from_le_bytes(bytes@.subrange(3, 6)) as int;
                &&& r == bytes@.len() - 6 - msg_len
                &&& (bytes@.len() - 6 == msg_len <==> r == 0)
                &&& (bytes@.len() - 6 < msg_len <==> r < 0)
                &&& (bytes@.len() - 6 > msg_len <==> r > 0)
            },
    {
        match Header::from_bytes(bytes) {
            Err(_) => (HEADER_SIZE - bytes.len()) as isize,
            Ok(header) => {
                proof {
                    lemma_auto_spec_u16_to_from_le_bytes();
                    crate::codec::lemma_u24_to_from_le_bytes(header.msg_length.0);
                    assert(header.msg_length.enc() =~= header.enc().subrange(3, 6));
                    assert(header.enc().subrange(3, 6) =~= bytes@.subrange(3, 6));
                }
                let ml = header.len();
                (bytes.len() - HEADER_SIZE) as isize - (ml as isize)
            },
        }
    }

    /// Builds a frame from bytes assumed to hold one serialized frame;
    /// the result of `size_hint` is returned as the error when they do not.
    pub fn from_bytes(bytes: Vec<u8>) -> (r: Result<Self, isize>)
        requires
            bytes@.len() + 0x1000000 <= isize::MAX,
        ensures
            r matches Ok(f) ==> f.wf() && f.enc() == bytes@ && (f matches Sv2Frame::Raw { .. }),
            bytes@.len() >= 6 && bytes@.len() - 6 == spec_u24_from_le_bytes(
                bytes@.subrange(3, 6),
            ) ==> r is Ok,
            bytes@.len() < 6 ==> r == Err::<Self, isize>((6 - bytes@.len()) as isize),
            bytes@.len() >= 6 && bytes@.len() - 6 != spec_u24_from_le_bytes(
                bytes@.subrange(3, 6),
            ) ==> r == Err::<Self, isize>(
                (bytes@.len() - 6 - spec_u24_from_le_bytes(bytes@.subrange(3, 6))) as isize,
            ),
    {
        let hint = Self::size_hint(bytes.as_slice());
        if hint == 0 {
            Ok(Self::from_bytes_unchecked(bytes))
        } else {
            Err(hint)
        }
    }

    /// Wraps bytes that are known to start with a valid header.
    pub fn from_bytes_unchecked(bytes: Vec<u8>) -> (r: Self)
        requires
            bytes@.len() >= 6,
        ensures
            r matches Sv2Frame::Raw { header, serialized } && serialized@ == bytes@ && header.wf()
                && header.enc() == bytes@.subrange(0, 6),
            bytes@.len() - 6 == spec_u24_from_le_bytes(bytes@.subrange(3, 6)) ==> r.wf(),
    {
        let header = match Header::from_bytes(bytes.as_slice()) {
            Ok(h) => h,
            Err(_) => Header { extension_type: 0, msg_type: 0, msg_length: U24(0) },
        };
        proof {
            lemma_auto_spec_u16_to_from_le_bytes();
            crate::codec::lemma_u24_to_from_le_bytes(header.msg_length.0);
            assert(header.msg_length.enc() =~= header.enc().subrange(3, 6));
            assert(header.enc().subrange(3, 6) =~= bytes@.subrange(3, 6));
        }
        Sv2Frame::Raw { header, serialized: bytes }
    }

    /// Frames an encoded message under a fresh header; `None` when the
    /// message is too long for a frame.
    pub fn from_message(
        message: Vec<u8>,
        message_type: u8,
        extension_type: u16,
        channel_msg: bool,
    ) -> (r: Option<Self>)
        ensures
            message@.len() < 0x1000000 ==> (r matches Some(f) && f.wf() && f.spec_payload()
                == message@ && f.spec_header().msg_type == message_type
                && f.spec_header().msg_length.0 == message@.len() && f.spec_header().extension_type
                == (if channel_msg {
                extension_type | 0x8000u16
            } else {
                extension_type & 0x7fffu16
            })),
            message@.len() >= 0x1000000 ==> r is None,
    {
        let extension_type = update_extension_type(extension_type, channel_msg);
        if message.len() < 0x1000000 {
            let len = message.len() as u32;
            match Header::from_len(len, message_type, extension_type) {
                Some(header) => Some(Sv2Frame::Payload { header, payload: message }),
                None => None,
            }
        } else {
            None
        }
    }

    /// Serializes the frame: the six header bytes followed by the payload.
    pub fn serialize(self) -> (r: Vec<u8>)
        requires
            self.wf(),
        ensures
            r@ == self.enc(),
    {
        match self {
            Sv2Frame::Raw { serialized, .. } => serialized,
            Sv2Frame::Payload { header, payload } => {
                let mut out: Vec<u8> = Vec::new();
                header.encode_into(&mut out);
                let mut p = payload;
                out.append(&mut p);
                out
            },
        }
    }
}

/// An opaque frame exchanged while the Noise handshake runs; it has no
/// header, its length is implied by the handshake step.
#[derive(Debug, Clone, PartialEq, Eq)]
pub struct HandShakeFrame {
    pub payload: Vec<u8>,
}

impl HandShakeFrame {
    /// The payload as an owned vector.
    pub fn get_payload_when_handshaking(&self) -> (r: Vec<u8>)
        ensures
            r@ == self.payload@,
    {
        self.payload.clone()
    }

    /// Wraps handshake bytes; nothing about them is checked.
    pub fn from_bytes(bytes: Vec<u8>) -> (r: Result<Self, isize>)
        ensures
            r matches Ok(f) && f.payload@ == bytes@,
    {
        Ok(Self::from_bytes_unchecked(bytes))
    }

    /// Wraps handshake bytes.
    pub fn from_bytes_unchecked(bytes: Vec<u8>) -> (r: Self)
        ensures
            r.payload@ == bytes@,
    {
        HandShakeFrame { payload: bytes }
    }

    /// Length of the payload in bytes.
    pub fn encoded_length(&self) -> (r: usize)
        ensures
            r == self.payload@.len(),
    {
        self.payload.len()
    }
}

/// Wraps a byte run as a handshake frame.
pub fn handshake_message_to_frame(message: &[u8]) -> (r: HandShakeFrame)
    ensures
        r.payload@ == message@,
{
    HandShakeFrame { payload: slice_to_vec(message) }
}

/// Either kind of frame, for contexts that carry both.
#[derive(Debug, Clone, PartialEq, Eq)]
pub enum Frame {
    HandShake(HandShakeFrame),
    Sv2(Sv2Frame),
}

impl Frame {
    /// Length of the serialized frame in bytes.
    pub fn encoded_length(&self) -> (r: usize)
        requires
            self matches Frame::Sv2(f) ==> f.wf(),
        ensures
            self matches Frame::HandShake(f) ==> r == f.payload@.len(),
            self matches Frame::Sv2(f) ==> r == f.enc().len(),
    {
        match self {
            Frame::HandShake(f) => f.encoded_length(),
            Frame::Sv2(f) => f.encoded_length(),
        }
    }

    /// The Sv2 frame held, or an error for a handshake frame.
    pub fn into_sv2(self) -> (r: Result<Sv2Frame, FramingError>)
        ensures
            self matches Frame::Sv2(f) ==> r == Ok::<Sv2Frame, FramingError>(f),
            self matches Frame::HandShake(_) ==> r == Err::<Sv2Frame, FramingError>(
                FramingError::ExpectedSv2Frame,
            ),
    {
        match self {
            Frame::Sv2(f) => Ok(f),
            Frame::HandShake(_) => Err(FramingError::ExpectedSv2Frame),
        }
    }

    /// The handshake frame held, or an error for an Sv2 frame.
    pub fn into_handshake(self) -> (r: Result<HandShakeFrame, FramingError>)
        ensures
            self matches Frame::HandShake(f) ==> r == Ok::<HandShakeFrame, FramingError>(f),
            self matches Frame::Sv2(_) ==> r == Err::<HandShakeFrame, FramingError>(
                FramingError::ExpectedHandshakeFrame,
            ),
    {
        match self {
            Frame::HandShake(f) => Ok(f),
            Frame::Sv2(_) => Err(FramingError::ExpectedHandshakeFrame),
        }
    }
}

} // verus!
