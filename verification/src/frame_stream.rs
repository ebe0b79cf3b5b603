//! The stateful frame decoder: bytes are fed in, whole frames come out.
//!
//! In handshake mode the caller names how many bytes the current handshake
//! step expects. In transport mode the stream reads a 6-byte header and the
//! payload it declares; when a Noise codec is present the payload is
//! decrypted before it is surfaced. On a partial read the stream reports how
//! many bytes are still needed and consumes nothing.

use vstd::prelude::*;
use crate::codec::spec_u24_from_le_bytes;
use crate::framing::Header;
use crate::framing::HandShakeFrame;
use crate::framing::Sv2Frame;
use crate::datatypes::U24;
use crate::noise::NoiseCodec;
use crate::noise::NoiseError;

verus! {

/// Failure conditions of the frame stream.
#[derive(Debug, Clone, PartialEq, Eq)]
pub enum StreamError {
    /// The buffered bytes do not hold a whole frame yet; this many more are
    /// needed.
    MissingBytes(usize),
    /// The payload could not be decrypted; the connection is terminal.
    Decryption(NoiseError),
}

/// A single-consumer byte stream that emits whole frames.
pub struct FrameStream {
    buffer: Vec<u8>,
    codec: Option<NoiseCodec>,
}

impl FrameStream {
    /// The bytes fed in and not yet consumed.
    pub closed spec fn buffered(self) -> Seq<u8> {
        self.buffer@
    }

    /// Whether payloads are decrypted before being surfaced.
    pub closed spec fn is_transport(self) -> bool {
        self.codec is Some
    }

    /// An empty stream that surfaces payloads as they are.
    pub fn new() -> (r: Self)
        ensures
            r.buffered() == Seq::<u8>::empty(),
            !r.is_transport(),
    {
        FrameStream { buffer: Vec::new(), codec: None }
    }

    /// An empty stream that decrypts payloads with the given codec.
    pub fn with_transport_mode(codec: NoiseCodec) -> (r: Self)
        ensures
            r.buffered() == Seq::<u8>::empty(),
            r.is_transport(),
    {
        FrameStream { buffer: Vec::new(), codec: Some(codec) }
    }

    /// Switches the stream to transport mode; from here on payloads are
    /// decrypted. The mode change happens at a frame boundary: buffered
    /// bytes stay buffered.
    pub fn into_transport_mode(&mut self, codec: NoiseCodec)
        ensures
            final(self).buffered() == old(self).buffered(),
            final(self).is_transport(),
    {
        self.codec = Some(codec);
    }

    /// Number of bytes fed in and not yet consumed.
    pub fn buffered_len(&self) -> (r: usize)
        ensures
            r == self.buffered().len(),
    {
        self.buffer.len()
    }

    /// Appends newly arrived bytes.
    pub fn feed(&mut self, bytes: &[u8])
        ensures
            final(self).buffered() == old(self).buffered() + bytes@,
            final(self).is_transport() == old(self).is_transport(),
    {
        let mut incoming = vstd::slice::slice_to_vec(bytes);
        self.buffer.append(&mut incoming);
    }

    /// Removes and returns the first `n` buffered bytes.
    fn split_take(&mut self, n: usize) -> (r: Vec<u8>)
        requires
            n <= old(self).buffered().len(),
        ensures
            r@ == old(self).buffered().subrange(0, n as int),
            final(self).buffered() == old(self).buffered().skip(n as int),
            final(self).is_transport() == old(self).is_transport(),
    {
        let mut rest = self.buffer.split_off(n);
        core::mem::swap(&mut self.buffer, &mut rest);
        rest
    }

    /// Emits the handshake frame of the current step, which expects exactly
    /// `expected` bytes; with fewer buffered, reports how many are missing
    /// and consumes nothing.
    pub fn next_handshake_frame(&mut self, expected: usize) -> (r: Result<
        HandShakeFrame,
        StreamError,
    >)
        ensures
            final(self).is_transport() == old(self).is_transport(),
            old(self).buffered().len() >= expected ==> (r matches Ok(f) && f.payload@ == old(
                self,
            ).buffered().subrange(0, expected as int) && final(self).buffered() == old(
                self,
            ).buffered().skip(expected as int)),
            old(self).buffered().len() < expected ==> r == Err::<HandShakeFrame, StreamError>(
                StreamError::MissingBytes((expected - old(self).buffered().len()) as usize),
            ) && final(self).buffered() == old(self).buffered(),
    {
        if self.buffer.len() >= expected {
            let payload = self.split_take(expected);
            Ok(HandShakeFrame { payload })
        } else {
            Err(StreamError::MissingBytes(expected - self.buffer.len()))
        }
    }

    /// Emits the next whole Sv2 frame.
    ///
    /// With fewer bytes than one whole frame buffered, reports exactly how
    /// many are missing and consumes nothing. In transport mode the payload
    /// is decrypted and the emitted header declares the shorter plaintext;
    /// a payload that cannot be decrypted is terminal and consumes nothing.
    pub fn next_frame(&mut self) -> (r: Result<Sv2Frame, StreamError>)
        requires
            old(self).buffered().len() < 0x7fffffff,
        ensures
            final(self).is_transport() == old(self).is_transport(),
            old(self).buffered().len() < 6 ==> r == Err::<Sv2Frame, StreamError>(
                StreamError::MissingBytes((6 - old(self).buffered().len()) as usize),
            ) && final(self).buffered() == old(self).buffered(),
            old(self).buffered().len() >= 6 ==> {
                let msg_len = spec_u24_from_le_bytes(old(self).buffered().subrange(3, 6)) as int;
                &&& old(self).buffered().len() < 6 + msg_len ==> r == Err::<Sv2Frame, StreamError>(
                    StreamError::MissingBytes((6 + msg_len - old(self).buffered().len()) as usize),
                ) && final(self).buffered() == old(self).buffered()
                &&& old(self).buffered().len() >= 6 + msg_len && !old(self).is_transport() ==> (r
                    matches Ok(f) && f.wf() && f.enc() == old(self).buffered().subrange(
                    0,
                    6 + msg_len,
                ) && final(self).buffered() == old(self).buffered().skip(6 + msg_len))
                &&& old(self).buffered().len() >= 6 + msg_len && old(self).is_transport() ==> ((r
                    matches Ok(f) ==> f.wf() && f.spec_payload().len() + 16 == msg_len
                    && final(self).buffered() == old(self).buffered().skip(6 + msg_len)) && (r
                    is Err ==> final(self).buffered() == old(self).buffered()))
            },
    {
        if self.buffer.len() < 6 {
            return Err(StreamError::MissingBytes(6 - self.buffer.len()));
        }
        let header = match Header::from_bytes(self.buffer.as_slice()) {
            Ok(h) => h,
            Err(_) => {
                return Err(StreamError::MissingBytes(0));
            },
        };
        proof {
            vstd::bytes::lemma_auto_spec_u16_to_from_le_bytes();
            crate::codec::lemma_u24_to_from_le_bytes(header.msg_length.0);
            assert(header.msg_length.enc() =~= header.enc().subrange(3, 6));
            assert(header.enc().subrange(3, 6) =~= self.buffer@.subrange(3, 6));
        }
        let msg_len = header.len();
        let total = 6 + msg_len;
        if self.buffer.len() < total {
            return Err(StreamError::MissingBytes(total - self.buffer.len()));
        }
        let is_transport = match &self.codec {
            Some(_) => true,
            None => false,
        };
        if !is_transport {
            let bytes = self.split_take(total);
            proof {
                assert(bytes@.subrange(3, 6) =~= old(self).buffered().subrange(3, 6));
            }
            let frame = Sv2Frame::from_bytes_unchecked(bytes);
            return Ok(frame);
        }
        if msg_len < 16 {
            return Err(StreamError::Decryption(NoiseError::DecryptError));
        }
        let ghost buffered0 = self.buffered();
        let header_bytes = vstd::slice::slice_to_vec(
            vstd::slice::slice_subrange(self.buffer.as_slice(), 0, 6),
        );
        let mut ciphertext = vstd::slice::slice_to_vec(
            vstd::slice::slice_subrange(self.buffer.as_slice(), 6, total),
        );
        let codec = match &mut self.codec {
            Some(c) => c,
            None => {
                return Err(StreamError::Decryption(NoiseError::DecryptError));
            },
        };
        match codec.decrypt(&mut ciphertext) {
            Ok(()) => {},
            Err(e) => {
                return Err(StreamError::Decryption(e));
            },
        }
        let plaintext = ciphertext;
        let _ = self.split_take(total);
        let new_header = Header {
            extension_type: header.extension_type,
            msg_type: header.msg_type,
            msg_length: U24((msg_len - 16) as u32),
        };
        let mut serialized: Vec<u8> = Vec::new();
        new_header.encode_into(&mut serialized);
        let mut p = plaintext;
        serialized.append(&mut p);
        let frame = Sv2Frame::Raw { header: new_header, serialized };
        proof {
            assert(frame.enc().subrange(0, 6) =~= new_header.enc());
        }
        Ok(frame)
    }
}

} // verus!
