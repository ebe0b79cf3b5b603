//! The Noise_NX handshake and AEAD transport.
//!
//! The cryptography is done by outside crates behind trusted wrappers; this
//! module verifies what is around it: the handshake step ordering, the frame
//! lengths of each step, the certificate layout and its validity window, and
//! the cipher negotiation.

use vstd::prelude::*;
use vstd::bytes::*;
use crate::codec::CodecError;
use crate::codec::encode_u16;
use crate::codec::encode_u32;
use crate::codec::decode_u16;
use crate::codec::decode_u32;
use crate::framing::HandShakeFrame;
use vstd::slice::slice_to_vec;
use vstd::slice::slice_subrange;
use ed25519_dalek::Signer;
use ed25519_dalek::Verifier;

verus! {

/// Byte that names the ChaChaPoly AEAD in the cipher negotiation.
pub const CIPHER_CHACHA_POLY: u8 = 1;

/// Number of bytes an AEAD tag adds to a ciphertext.
pub const AEAD_TAG_LEN: usize = 16;

/// Length of the initiator's first handshake frame: its ephemeral key.
pub const HANDSHAKE_STEP_0_LEN: usize = 32;

/// Length of the responder's handshake frame: an ephemeral key, the
/// encrypted static key, and the encrypted 74-byte certificate.
pub const HANDSHAKE_STEP_1_LEN: usize = 170;

/// Length of the certificate carried in the responder's handshake frame.
pub const SIGNATURE_NOISE_MESSAGE_LEN: usize = 74;

/// Failure conditions of the handshake and the transport.
#[derive(Debug, Clone, PartialEq, Eq)]
pub enum NoiseError {
    /// The underlying Noise library refused a handshake operation.
    HandshakeFailed,
    /// A handshake frame did not have the length its step demands.
    InvalidMessageLength(usize, usize),
    /// The certificate's signature did not verify or its window is wrong.
    InvalidCertificate,
    /// No offered cipher is supported.
    UnsupportedCiphers(Vec<u8>),
    /// The AEAD refused to encrypt.
    EncryptError,
    /// The AEAD refused to decrypt: the data was forged or reordered.
    DecryptError,
    /// A step was called on the wrong side or in the wrong phase.
    WrongStep,
}

#[verifier::external_type_specification]
#[verifier::external_body]
pub struct ExHandshakeState(snow::HandshakeState);

#[verifier::external_type_specification]
#[verifier::external_body]
pub struct ExTransportState(snow::TransportState);

#[verifier::external_type_specification]
#[verifier::external_body]
pub struct ExSigningKey(ed25519_dalek::SigningKey);

/// Whether `sig` is a valid Ed25519 signature on `msg` under the public key
/// `pk`; Ed25519 verification depends on these three values alone.
pub uninterp spec fn sig_valid(pk: Seq<u8>, msg: Seq<u8>, sig: Seq<u8>) -> bool;

/// Relies on snow's Builder: parses the Noise_NX_25519_ChaChaPoly_SHA256
/// pattern and builds the initiator handshake state.
#[verifier::external_body]
fn new_initiator_handshake() -> (r: Result<snow::HandshakeState, NoiseError>)
{
    let params = match "Noise_NX_25519_ChaChaPoly_SHA256".parse::<snow::params::NoiseParams>() {
        Ok(p) => p,
        Err(_) => return Err(NoiseError::HandshakeFailed),
    };
    match snow::Builder::new(params).build_initiator() {
        Ok(h) => Ok(h),
        Err(_) => Err(NoiseError::HandshakeFailed),
    }
}

/// Relies on snow's Builder: builds the responder handshake state around the
/// given 32-byte x25519 static private key. The key must hold exactly
/// 32 bytes: snow copies it into a fixed-size array.
#[verifier::external_body]
fn new_responder_handshake(static_priv: &Vec<u8>) -> (r: Result<snow::HandshakeState, NoiseError>)
    requires
        static_priv@.len() == 32,
{
    let params = match "Noise_NX_25519_ChaChaPoly_SHA256".parse::<snow::params::NoiseParams>() {
        Ok(p) => p,
        Err(_) => return Err(NoiseError::HandshakeFailed),
    };
    match snow::Builder::new(params).local_private_key(static_priv.as_slice()).build_responder() {
        Ok(h) => Ok(h),
        Err(_) => Err(NoiseError::HandshakeFailed),
    }
}

/// Relies on snow's Builder::generate_keypair: a fresh x25519 keypair,
/// 32 bytes of private key and 32 bytes of public key.
#[verifier::external_body]
fn generate_static_keypair() -> (r: Result<(Vec<u8>, Vec<u8>), NoiseError>)
    ensures
        r matches Ok(p) ==> p.0@.len() == 32 && p.1@.len() == 32,
{
    let params = match "Noise_NX_25519_ChaChaPoly_SHA256".parse::<snow::params::NoiseParams>() {
        Ok(p) => p,
        Err(_) => return Err(NoiseError::HandshakeFailed),
    };
    match snow::Builder::new(params).generate_keypair() {
        Ok(k) => Ok((k.private, k.public)),
        Err(_) => Err(NoiseError::HandshakeFailed),
    }
}

/// Relies on snow's HandshakeState::write_message: emits the next handshake
/// message carrying `payload`; its length depends on the step and the
/// ephemeral keys snow drew.
#[verifier::external_body]
fn handshake_write(h: &mut snow::HandshakeState, payload: &Vec<u8>) -> (r: Result<
    Vec<u8>,
    NoiseError,
>)
{
    let mut buf = vec![0u8; payload.len() + 1024];
    match h.write_message(payload.as_slice(), &mut buf) {
        Ok(n) => {
            buf.truncate(n);
            Ok(buf)
        },
        Err(_) => Err(NoiseError::HandshakeFailed),
    }
}

/// Relies on snow's HandshakeState::read_message: consumes the peer's
/// handshake message and returns the payload it carried.
#[verifier::external_body]
fn handshake_read(h: &mut snow::HandshakeState, message: &Vec<u8>) -> (r: Result<
    Vec<u8>,
    NoiseError,
>)
{
    let mut buf = vec![0u8; message.len() + 1024];
    match h.read_message(message.as_slice(), &mut buf) {
        Ok(n) => {
            buf.truncate(n);
            Ok(buf)
        },
        Err(_) => Err(NoiseError::HandshakeFailed),
    }
}

/// Relies on snow's HandshakeState::get_remote_static: the peer's 32-byte
/// static key once the handshake has carried it, else nothing.
#[verifier::external_body]
fn handshake_remote_static(h: &snow::HandshakeState) -> (r: Option<Vec<u8>>)
    ensures
        r matches Some(v) ==> v@.len() == 32,
{
    h.get_remote_static().map(|s| s.to_vec())
}

/// Relies on snow's HandshakeState::into_transport_mode: turns a finished
/// handshake into the AEAD transport.
#[verifier::external_body]
fn handshake_into_transport(h: snow::HandshakeState) -> (r: Result<
    snow::TransportState,
    NoiseError,
>)
{
    match h.into_transport_mode() {
        Ok(t) => Ok(t),
        Err(_) => Err(NoiseError::HandshakeFailed),
    }
}

/// Relies on snow's TransportState::write_message: seals a payload under the
/// session key, adding exactly the 16-byte AEAD tag.
#[verifier::external_body]
fn transport_seal(t: &mut snow::TransportState, payload: &Vec<u8>) -> (r: Result<
    Vec<u8>,
    NoiseError,
>)
    ensures
        r matches Ok(v) ==> v@.len() == payload@.len() + 16,
{
    let mut buf = vec![0u8; payload.len() + 16];
    match t.write_message(payload.as_slice(), &mut buf) {
        Ok(n) => {
            buf.truncate(n);
            Ok(buf)
        },
        Err(_) => Err(NoiseError::EncryptError),
    }
}

/// Relies on snow's TransportState::read_message: opens a sealed message,
/// removing exactly the 16-byte AEAD tag; forged data is refused.
#[verifier::external_body]
fn transport_open(t: &mut snow::TransportState, message: &Vec<u8>) -> (r: Result<
    Vec<u8>,
    NoiseError,
>)
    ensures
        r matches Ok(v) ==> message@.len() == v@.len() + 16,
{
    if message.len() < 16 {
        return Err(NoiseError::DecryptError);
    }
    let mut buf = vec![0u8; message.len() - 16];
    match t.read_message(message.as_slice(), &mut buf) {
        Ok(n) => {
            buf.truncate(n);
            Ok(buf)
        },
        Err(_) => Err(NoiseError::DecryptError),
    }
}

/// Relies on ed25519-dalek's SigningKey::generate with the operating
/// system's randomness; if the operating system's randomness source fails,
/// the process aborts inside the random number generator, as an allocation
/// failure would.
#[verifier::external_body]
fn ed25519_generate() -> (r: ed25519_dalek::SigningKey)
{
    ed25519_dalek::SigningKey::generate(&mut rand::rngs::OsRng)
}

/// Relies on ed25519-dalek's VerifyingKey::to_bytes: the 32-byte public key
/// of a signing key.
#[verifier::external_body]
fn ed25519_public_bytes(k: &ed25519_dalek::SigningKey) -> (r: Vec<u8>)
    ensures
        r@.len() == 32,
{
    k.verifying_key().to_bytes().to_vec()
}

/// Relies on ed25519-dalek's Signer::sign: a 64-byte Ed25519 signature.
#[verifier::external_body]
fn ed25519_sign(k: &ed25519_dalek::SigningKey, msg: &Vec<u8>) -> (r: Vec<u8>)
    ensures
        r@.len() == 64,
{
    k.sign(msg.as_slice()).to_bytes().to_vec()
}

/// Relies on ed25519-dalek's Verifier::verify: whether the signature checks
/// out under the given public key, a function of the three byte runs alone.
#[verifier::external_body]
fn ed25519_verify(pk: &Vec<u8>, msg: &Vec<u8>, sig: &Vec<u8>) -> (r: bool)
    requires
        pk@.len() == 32,
        sig@.len() == 64,
    ensures
        r == sig_valid(pk@, msg@, sig@),
{
    let pk_arr: [u8; 32] = match pk.as_slice().try_into() {
        Ok(a) => a,
        Err(_) => return false,
    };
    let sig_arr: [u8; 64] = match sig.as_slice().try_into() {
        Ok(a) => a,
        Err(_) => return false,
    };
    let key = match ed25519_dalek::VerifyingKey::from_bytes(&pk_arr) {
        Ok(k) => k,
        Err(_) => return false,
    };
    key.verify(msg.as_slice(), &ed25519_dalek::Signature::from_bytes(&sig_arr)).is_ok()
}

/// The certificate a responder sends over its static key: a version, a
/// validity window, and the authority's signature.
#[derive(Debug, Clone, PartialEq, Eq)]
pub struct SignatureNoiseMessage {
    /// Certificate format version.
    pub version: u16,
    /// First unix second at which the certificate is valid.
    pub valid_from: u32,
    /// First unix second at which the certificate is no longer valid.
    pub not_valid_after: u32,
    /// The authority's Ed25519 signature over the window and the static key.
    pub signature: Vec<u8>,
}

impl View for SignatureNoiseMessage {
    type V = (u16, u32, u32, Seq<u8>);

    open spec fn view(&self) -> Self::V {
        (self.version, self.valid_from, self.not_valid_after, self.signature@)
    }
}

impl SignatureNoiseMessage {
    /// The signature holds exactly 64 bytes.
    pub open spec fn wf(self) -> bool {
        self.signature@.len() == 64
    }

    /// Wire form: version, window bounds, signature; integers little-endian.
    pub open spec fn enc(self) -> Seq<u8> {
        spec_u16_to_le_bytes(self.version) + spec_u32_to_le_bytes(self.valid_from)
            + spec_u32_to_le_bytes(self.not_valid_after) + self.signature@
    }

    /// The bytes the authority signs: the certificate fields followed by the
    /// 32-byte static key the certificate vouches for.
    pub open spec fn spec_signed_part(
        version: u16,
        valid_from: u32,
        not_valid_after: u32,
        static_key: Seq<u8>,
    ) -> Seq<u8> {
        spec_u16_to_le_bytes(version) + spec_u32_to_le_bytes(valid_from) + spec_u32_to_le_bytes(
            not_valid_after,
        ) + static_key
    }

    /// Builds the byte run the authority signs.
    pub fn signed_part(
        version: u16,
        valid_from: u32,
        not_valid_after: u32,
        static_key: &Vec<u8>,
    ) -> (r: Vec<u8>)
        ensures
            r@ == Self::spec_signed_part(version, valid_from, not_valid_after, static_key@),
    {
        let mut out: Vec<u8> = Vec::new();
        encode_u16(version, &mut out);
        encode_u32(valid_from, &mut out);
        encode_u32(not_valid_after, &mut out);
        let mut sk = static_key.clone();
        out.append(&mut sk);
        proof {
            assert(out@ =~= Self::spec_signed_part(
                version,
                valid_from,
                not_valid_after,
                static_key@,
            ));
        }
        out
    }

    /// Encodes the certificate; always 74 bytes.
    pub fn to_bytes(&self) -> (r: Vec<u8>)
        requires
            self.wf(),
        ensures
            r@ == self.enc(),
            r@.len() == 74,
    {
        proof {
            lemma_auto_spec_u16_to_from_le_bytes();
            lemma_auto_spec_u32_to_from_le_bytes();
        }
        let mut out: Vec<u8> = Vec::new();
        encode_u16(self.version, &mut out);
        encode_u32(self.valid_from, &mut out);
        encode_u32(self.not_valid_after, &mut out);
        let mut sig = self.signature.clone();
        out.append(&mut sig);
        proof {
            assert(out@ =~= self.enc());
        }
        out
    }

    /// Decodes a certificate that occupies `data` exactly.
    pub fn decode(data: &[u8]) -> (r: Result<Self, CodecError>)
        ensures
            r matches Ok(m) ==> m.wf() && m.enc() == data@,
            forall|m: Self| m.wf() && m.enc() == data@ ==> (r matches Ok(p) && p@ == m@),
            data@.len() == 74 ==> r is Ok,
            data@.len() != 74 ==> r is Err,
    {
        proof {
            lemma_auto_spec_u16_to_from_le_bytes();
            lemma_auto_spec_u32_to_from_le_bytes();
        }
        if data.len() != 74 {
            proof {
                assert forall|m: Self| m.wf() implies m.enc() != data@ by {
                    assert(m.enc().len() == 74);
                }
            }
            if data.len() < 74 {
                return Err(CodecError::OutOfBound);
            }
            return Err(CodecError::ReadError(74, data.len()));
        }
        let version = match decode_u16(data, 0) {
            Ok(v) => v,
            Err(e) => {
                return Err(e);
            },
        };
        let valid_from = match decode_u32(data, 2) {
            Ok(v) => v,
            Err(e) => {
                return Err(e);
            },
        };
        let not_valid_after = match decode_u32(data, 6) {
            Ok(v) => v,
            Err(e) => {
                return Err(e);
            },
        };
        let signature = slice_to_vec(slice_subrange(data, 10, 74));
        let out = SignatureNoiseMessage { version, valid_from, not_valid_after, signature };
        proof {
            assert(out.enc() =~= data@);
            assert forall|m: Self| m.wf() && m.enc() == data@ implies out@ == m@ by {
                assert(spec_u16_to_le_bytes(m.version) =~= m.enc().subrange(0, 2));
                assert(m.enc().subrange(0, 2) =~= data@.subrange(0, 2));
                assert(spec_u32_to_le_bytes(m.valid_from) =~= m.enc().subrange(2, 6));
                assert(m.enc().subrange(2, 6) =~= data@.subrange(2, 6));
                assert(spec_u32_to_le_bytes(m.not_valid_after) =~= m.enc().subrange(6, 10));
                assert(m.enc().subrange(6, 10) =~= data@.subrange(6, 10));
                assert(m.signature@ =~= m.enc().subrange(10, 74));
                assert(m.enc().subrange(10, 74) =~= data@.subrange(10, 74));
            }
        }
        Ok(out)
    }

    /// The certificate window contains the given time.
    pub fn window_contains(&self, now: u32) -> (r: bool)
        ensures
            r == (self.valid_from <= now && now < self.not_valid_after),
    {
        self.valid_from <= now && now < self.not_valid_after
    }
}

/// Picks the first cipher of the peer's list that this library supports;
/// only ChaChaPoly is.
pub fn choose_cipher(list: &Vec<u8>) -> (r: Option<u8>)
    ensures
        r matches Some(c) ==> c == CIPHER_CHACHA_POLY && list@.contains(CIPHER_CHACHA_POLY),
        r is None ==> !list@.contains(CIPHER_CHACHA_POLY),
{
    let mut i: usize = 0;
    while i < list.len()
        invariant
            i <= list@.len(),
            forall|j: int| 0 <= j < i ==> list@[j] != CIPHER_CHACHA_POLY,
        decreases list@.len() - i,
    {
        if list[i] == CIPHER_CHACHA_POLY {
            return Some(CIPHER_CHACHA_POLY);
        }
        i = i + 1;
    }
    None
}

/// The AEAD transport both sides hold once the handshake and the cipher
/// negotiation are done.
pub struct NoiseCodec {
    transport: snow::TransportState,
}

impl NoiseCodec {
    /// Seals `msg` in place under the session key; 16 bytes of tag are added.
    pub fn encrypt(&mut self, msg: &mut Vec<u8>) -> (r: Result<(), NoiseError>)
        ensures
            r is Ok ==> final(msg)@.len() == old(msg)@.len() + 16,
            r is Err ==> final(msg)@ == old(msg)@,
    {
        match transport_seal(&mut self.transport, msg) {
            Ok(out) => {
                *msg = out;
                Ok(())
            },
            Err(e) => Err(e),
        }
    }

    /// Opens `msg` in place; fails on forged or reordered data, and 16 bytes
    /// of tag are removed on success.
    pub fn decrypt(&mut self, msg: &mut Vec<u8>) -> (r: Result<(), NoiseError>)
        ensures
            r is Ok ==> old(msg)@.len() == final(msg)@.len() + 16,
            r is Err ==> final(msg)@ == old(msg)@,
    {
        match transport_open(&mut self.transport, msg) {
            Ok(out) => {
                *msg = out;
                Ok(())
            },
            Err(e) => Err(e),
        }
    }
}

/// Which step an initiator performs next.
#[derive(Debug, Clone, Copy, PartialEq, Eq, Structural)]
pub enum InitiatorStage {
    /// `step_0` has not run yet.
    Fresh,
    /// `step_0` ran; the responder's frame is awaited.
    SentEphemeral,
    /// `step_2` ran; the chosen cipher is awaited.
    SentCipherList,
    /// The handshake is finished or failed; no step may run.
    Done,
}

/// The connection opener's half of the handshake.
pub struct Initiator {
    handshake: Option<snow::HandshakeState>,
    /// Authority public key the responder's certificate must verify under;
    /// with `None` the certificate is accepted unchecked.
    authority_pk: Option<Vec<u8>>,
    stage: InitiatorStage,
}

impl Initiator {
    /// While steps remain, the handshake state is present.
    pub closed spec fn wf(self) -> bool {
        &&& (self.stage is Fresh || self.stage is SentEphemeral || self.stage is SentCipherList
            ==> self.handshake is Some)
        &&& (self.authority_pk matches Some(pk) ==> pk@.len() == 32)
    }

    /// The stage the initiator is at.
    pub closed spec fn stage(self) -> InitiatorStage {
        self.stage
    }

    /// Builds an initiator; with an authority key of 32 bytes the responder's
    /// certificate will be checked against it.
    pub fn new(authority_pk: Option<Vec<u8>>) -> (r: Result<Initiator, NoiseError>)
        ensures
            r matches Ok(i) ==> i.wf() && i.stage() is Fresh,
            (match authority_pk {
                Some(pk) => pk@.len() == 32,
                None => true,
            }) ==> !(r matches Err(e) && e == NoiseError::InvalidCertificate),
    {
        match &authority_pk {
            Some(pk) => {
                if pk.len() != 32 {
                    return Err(NoiseError::InvalidCertificate);
                }
            },
            None => {},
        }
        match new_initiator_handshake() {
            Ok(h) => Ok(
                Initiator { handshake: Some(h), authority_pk, stage: InitiatorStage::Fresh },
            ),
            Err(_) => Err(NoiseError::HandshakeFailed),
        }
    }

    /// First handshake step: emits the 32-byte ephemeral key frame.
    pub fn step_0(&mut self) -> (r: Result<HandShakeFrame, NoiseError>)
        requires
            old(self).wf(),
        ensures
            final(self).wf(),
            old(self).stage() is Fresh ==> (match r {
                Ok(f) => f.payload@.len() == 32 && final(self).stage() is SentEphemeral,
                Err(_) => final(self).stage() is Done,
            }),
            !(old(self).stage() is Fresh) ==> r == Err::<HandShakeFrame, NoiseError>(
                NoiseError::WrongStep,
            ) && final(self).stage() == old(self).stage(),
    {
        match self.stage {
            InitiatorStage::Fresh => {},
            _ => {
                return Err(NoiseError::WrongStep);
            },
        }
        let h = match &mut self.handshake {
            Some(h) => h,
            None => {
                self.stage = InitiatorStage::Done;
                return Err(NoiseError::HandshakeFailed);
            },
        };
        let payload: Vec<u8> = Vec::new();
        match handshake_write(h, &payload) {
            Ok(out) => {
                if out.len() != HANDSHAKE_STEP_0_LEN {
                    self.stage = InitiatorStage::Done;
                    return Err(NoiseError::InvalidMessageLength(HANDSHAKE_STEP_0_LEN, out.len()));
                }
                self.stage = InitiatorStage::SentEphemeral;
                Ok(HandShakeFrame { payload: out })
            },
            Err(e) => {
                self.stage = InitiatorStage::Done;
                Err(e)
            },
        }
    }

    /// Third handshake step: consumes the responder's 170-byte frame, checks
    /// the certificate's window against `now` and its signature against the
    /// authority key, and emits the cipher list proposal.
    pub fn step_2(&mut self, message: Vec<u8>, now: u32) -> (r: Result<HandShakeFrame, NoiseError>)
        requires
            old(self).wf(),
        ensures
            final(self).wf(),
            !(old(self).stage() is SentEphemeral) ==> r == Err::<HandShakeFrame, NoiseError>(
                NoiseError::WrongStep,
            ) && final(self).stage() == old(self).stage(),
            old(self).stage() is SentEphemeral && message@.len() != 170 ==> (r matches Err(e) && e
                == NoiseError::InvalidMessageLength(170, message@.len() as usize)),
            old(self).stage() is SentEphemeral ==> (match r {
                Ok(f) => f.payload@ == seq![CIPHER_CHACHA_POLY] && final(self).stage()
                    is SentCipherList,
                Err(_) => final(self).stage() is Done || final(self).stage() == old(self).stage(),
            }),
    {
        match self.stage {
            InitiatorStage::SentEphemeral => {},
            _ => {
                return Err(NoiseError::WrongStep);
            },
        }
        if message.len() != HANDSHAKE_STEP_1_LEN {
            return Err(NoiseError::InvalidMessageLength(HANDSHAKE_STEP_1_LEN, message.len()));
        }
        let h = match &mut self.handshake {
            Some(h) => h,
            None => {
                self.stage = InitiatorStage::Done;
                return Err(NoiseError::HandshakeFailed);
            },
        };
        let cert_bytes = match handshake_read(h, &message) {
            Ok(p) => p,
            Err(e) => {
                self.stage = InitiatorStage::Done;
                return Err(e);
            },
        };
        let cert = match SignatureNoiseMessage::decode(cert_bytes.as_slice()) {
            Ok(c) => c,
            Err(_) => {
                self.stage = InitiatorStage::Done;
                return Err(NoiseError::InvalidCertificate);
            },
        };
        if !cert.window_contains(now) {
            self.stage = InitiatorStage::Done;
            return Err(NoiseError::InvalidCertificate);
        }
        let verified = match &self.authority_pk {
            Some(pk) => {
                match handshake_remote_static(&*h) {
                    Some(remote_static) => {
                        let signed = SignatureNoiseMessage::signed_part(
                            cert.version,
                            cert.valid_from,
                            cert.not_valid_after,
                            &remote_static,
                        );
                        ed25519_verify(pk, &signed, &cert.signature)
                    },
                    None => false,
                }
            },
            None => true,
        };
        if !verified {
            self.stage = InitiatorStage::Done;
            return Err(NoiseError::InvalidCertificate);
        }
        let mut list: Vec<u8> = Vec::new();
        list.push(CIPHER_CHACHA_POLY);
        self.stage = InitiatorStage::SentCipherList;
        proof {
            assert(list@ =~= seq![CIPHER_CHACHA_POLY]);
        }
        Ok(HandShakeFrame { payload: list })
    }

    /// Final initiator step: accepts the responder's chosen cipher and turns
    /// the handshake into the AEAD transport.
    pub fn step_4(&mut self, cipher_chosen: Vec<u8>) -> (r: Result<NoiseCodec, NoiseError>)
        requires
            old(self).wf(),
        ensures
            final(self).wf(),
            !(old(self).stage() is SentCipherList) ==> r == Err::<NoiseCodec, NoiseError>(
                NoiseError::WrongStep,
            ) && final(self).stage() == old(self).stage(),
            old(self).stage() is SentCipherList && !cipher_chosen@.contains(CIPHER_CHACHA_POLY)
                ==> (r matches Err(e) && e matches NoiseError::UnsupportedCiphers(_)),
            old(self).stage() is SentCipherList ==> final(self).stage() is Done,
    {
        match self.stage {
            InitiatorStage::SentCipherList => {},
            _ => {
                return Err(NoiseError::WrongStep);
            },
        }
        self.stage = InitiatorStage::Done;
        match choose_cipher(&cipher_chosen) {
            Some(_) => {},
            None => {
                return Err(NoiseError::UnsupportedCiphers(cipher_chosen));
            },
        }
        let hs = self.handshake.take();
        let h = match hs {
            Some(h) => h,
            None => {
                return Err(NoiseError::HandshakeFailed);
            },
        };
        match handshake_into_transport(h) {
            Ok(t) => Ok(NoiseCodec { transport: t }),
            Err(e) => Err(e),
        }
    }
}

/// Which step a responder performs next.
#[derive(Debug, Clone, Copy, PartialEq, Eq, Structural)]
pub enum ResponderStage {
    /// `step_1` has not run yet.
    Fresh,
    /// `step_1` ran; the cipher list is awaited.
    SentCertificate,
    /// The handshake is finished or failed; no step may run.
    Done,
}

/// The connection acceptor's half of the handshake: it authenticates itself
/// with a certificate over its static key.
pub struct Responder {
    handshake: Option<snow::HandshakeState>,
    authority: ed25519_dalek::SigningKey,
    static_pub: Vec<u8>,
    cert_validity: u32,
    stage: ResponderStage,
}

impl Responder {
    /// While steps remain, the handshake state is present.
    pub closed spec fn wf(self) -> bool {
        &&& (self.stage is Fresh || self.stage is SentCertificate ==> self.handshake is Some)
        &&& self.static_pub@.len() == 32
    }

    /// The stage the responder is at.
    pub closed spec fn stage(self) -> ResponderStage {
        self.stage
    }

    /// Draws a fresh authority signing key.
    pub fn generate_key() -> ed25519_dalek::SigningKey {
        ed25519_generate()
    }

    /// The 32-byte public half of an authority key.
    pub fn public_key(key: &ed25519_dalek::SigningKey) -> (r: Vec<u8>)
        ensures
            r@.len() == 32,
    {
        ed25519_public_bytes(key)
    }

    /// Builds a responder that signs its static key with `authority` and
    /// declares the certificate valid for `cert_validity` seconds.
    pub fn new(authority: ed25519_dalek::SigningKey, cert_validity: u32) -> (r: Result<
        Responder,
        NoiseError,
    >)
        ensures
            r matches Ok(x) ==> x.wf() && x.stage() is Fresh,
    {
        let (static_priv, static_pub) = match generate_static_keypair() {
            Ok(p) => p,
            Err(e) => {
                return Err(e);
            },
        };
        match new_responder_handshake(&static_priv) {
            Ok(h) => Ok(
                Responder {
                    handshake: Some(h),
                    authority,
                    static_pub,
                    cert_validity,
                    stage: ResponderStage::Fresh,
                },
            ),
            Err(e) => Err(e),
        }
    }

    /// Second handshake step: consumes the initiator's 32-byte ephemeral
    /// frame and emits the 170-byte frame holding this side's keys and the
    /// certificate signed for a window starting at `now`.
    pub fn step_1(&mut self, re_pub: Vec<u8>, now: u32) -> (r: Result<HandShakeFrame, NoiseError>)
        requires
            old(self).wf(),
        ensures
            final(self).wf(),
            !(old(self).stage() is Fresh) ==> r == Err::<HandShakeFrame, NoiseError>(
                NoiseError::WrongStep,
            ) && final(self).stage() == old(self).stage(),
            old(self).stage() is Fresh && re_pub@.len() != 32 ==> (r matches Err(e) && e
                == NoiseError::InvalidMessageLength(32, re_pub@.len() as usize)),
            old(self).stage() is Fresh ==> (match r {
                Ok(f) => f.payload@.len() == 170 && final(self).stage() is SentCertificate,
                Err(_) => final(self).stage() is Done || final(self).stage() == old(self).stage(),
            }),
    {
        match self.stage {
            ResponderStage::Fresh => {},
            _ => {
                return Err(NoiseError::WrongStep);
            },
        }
        if re_pub.len() != HANDSHAKE_STEP_0_LEN {
            return Err(NoiseError::InvalidMessageLength(HANDSHAKE_STEP_0_LEN, re_pub.len()));
        }
        let h = match &mut self.handshake {
            Some(h) => h,
            None => {
                self.stage = ResponderStage::Done;
                return Err(NoiseError::HandshakeFailed);
            },
        };
        match handshake_read(h, &re_pub) {
            Ok(_) => {},
            Err(e) => {
                self.stage = ResponderStage::Done;
                return Err(e);
            },
        }
        let not_valid_after = if now <= u32::MAX - self.cert_validity {
            now + self.cert_validity
        } else {
            u32::MAX
        };
        let signed = SignatureNoiseMessage::signed_part(0, now, not_valid_after, &self.static_pub);
        let signature = ed25519_sign(&self.authority, &signed);
        let cert = SignatureNoiseMessage {
            version: 0,
            valid_from: now,
            not_valid_after,
            signature,
        };
        let cert_bytes = cert.to_bytes();
        match handshake_write(h, &cert_bytes) {
            Ok(out) => {
                if out.len() != HANDSHAKE_STEP_1_LEN {
                    self.stage = ResponderStage::Done;
                    return Err(NoiseError::InvalidMessageLength(HANDSHAKE_STEP_1_LEN, out.len()));
                }
                self.stage = ResponderStage::SentCertificate;
                Ok(HandShakeFrame { payload: out })
            },
            Err(e) => {
                self.stage = ResponderStage::Done;
                Err(e)
            },
        }
    }

    /// Final responder step: picks a cipher from the initiator's proposal and
    /// turns the handshake into the AEAD transport.
    pub fn step_3(&mut self, cipher_list: Vec<u8>) -> (r: Result<
        (HandShakeFrame, NoiseCodec),
        NoiseError,
    >)
        requires
            old(self).wf(),
        ensures
            final(self).wf(),
            !(old(self).stage() is SentCertificate) ==> (r matches Err(e) && e
                == NoiseError::WrongStep) && final(self).stage() == old(self).stage(),
            old(self).stage() is SentCertificate && !cipher_list@.contains(CIPHER_CHACHA_POLY)
                ==> (r matches Err(e) && e matches NoiseError::UnsupportedCiphers(_)),
            old(self).stage() is SentCertificate ==> final(self).stage() is Done,
            r matches Ok(p) ==> p.0.payload@ == seq![CIPHER_CHACHA_POLY],
    {
        match self.stage {
            ResponderStage::SentCertificate => {},
            _ => {
                return Err(NoiseError::WrongStep);
            },
        }
        self.stage = ResponderStage::Done;
        match choose_cipher(&cipher_list) {
            Some(_) => {},
            None => {
                return Err(NoiseError::UnsupportedCiphers(cipher_list));
            },
        }
        let hs = self.handshake.take();
        let h = match hs {
            Some(h) => h,
            None => {
                return Err(NoiseError::HandshakeFailed);
            },
        };
        let t = match handshake_into_transport(h) {
            Ok(t) => t,
            Err(e) => {
                return Err(e);
            },
        };
        let mut chosen: Vec<u8> = Vec::new();
        chosen.push(CIPHER_CHACHA_POLY);
        proof {
            assert(chosen@ =~= seq![CIPHER_CHACHA_POLY]);
        }
        Ok((HandShakeFrame { payload: chosen }, NoiseCodec { transport: t }))
    }
}

} // verus!
