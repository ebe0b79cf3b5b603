//! Job-declaration sub-protocol: the token request pair and the dispatch of
//! incoming job-declaration messages to role handlers.

use vstd::prelude::*;
use vstd::bytes::*;
use crate::codec::CodecError;
use crate::codec::prefix_of;
use crate::codec::spec_bool_to_byte;
use crate::codec::encode_u32;
use crate::codec::encode_bool;
use crate::codec::decode_u32;
use crate::codec::decode_bool;
use crate::datatypes::Str0255;
use crate::datatypes::B0255;
use crate::datatypes::B064K;

verus! {

/// Message type byte of `AllocateMiningJobToken`.
pub const MESSAGE_TYPE_ALLOCATE_MINING_JOB_TOKEN: u8 = 0x50;

/// Message type byte of `AllocateMiningJobTokenSuccess`.
pub const MESSAGE_TYPE_ALLOCATE_MINING_JOB_TOKEN_SUCCESS: u8 = 0x51;

/// A request for an identifier for a mining job to be declared later.
#[derive(Debug, Clone, PartialEq, Eq)]
pub struct AllocateMiningJobToken {
    /// Whatever the pool needs to identify the client.
    pub user_identifier: Str0255,
    /// Unique identifier for pairing the response.
    pub request_id: u32,
}

impl View for AllocateMiningJobToken {
    type V = (Seq<u8>, u32);

    open spec fn view(&self) -> Self::V {
        (self.user_identifier@, self.request_id)
    }
}

impl AllocateMiningJobToken {
    /// The user identifier respects its 255-byte bound.
    pub open spec fn wf(self) -> bool {
        self.user_identifier.wf()
    }

    /// Wire form: the length-prefixed user identifier, then the request id.
    pub open spec fn enc(self) -> Seq<u8> {
        self.user_identifier.enc() + spec_u32_to_le_bytes(self.request_id)
    }

    /// Where each field of a well-formed encoding lies.
    proof fn lemma_parts(m: Self, d: Seq<u8>)
        requires
            m.wf(),
            m.enc() == d,
        ensures
            d.len() == 4 + m.user_identifier.enc().len(),
            prefix_of(m.user_identifier.enc(), d),
            spec_u32_to_le_bytes(m.request_id) == d.subrange(
                m.user_identifier.enc().len() as int,
                m.user_identifier.enc().len() + 4 as int,
            ),
    {
        lemma_auto_spec_u32_to_from_le_bytes();
        Str0255::lemma_header_roundtrip(m.user_identifier.data@.len());
        let k = m.user_identifier.enc().len() as int;
        assert(m.user_identifier.enc() =~= d.subrange(0, k));
        assert(spec_u32_to_le_bytes(m.request_id) =~= d.subrange(k, k + 4));
    }

    /// Serialized length in bytes.
    pub fn get_size(&self) -> (r: usize)
        requires
            self.wf(),
        ensures
            r == self.enc().len(),
    {
        proof {
            lemma_auto_spec_u32_to_from_le_bytes();
        }
        self.user_identifier.get_size() + 4
    }

    /// Encodes the message.
    pub fn to_bytes(&self) -> (r: Vec<u8>)
        requires
            self.wf(),
        ensures
            r@ == self.enc(),
    {
        let mut out: Vec<u8> = Vec::new();
        self.user_identifier.encode_into(&mut out);
        encode_u32(self.request_id, &mut out);
        proof {
            assert(out@ =~= self.enc());
        }
        out
    }

    /// Decodes a message that occupies `data` exactly.
    pub fn decode(data: &[u8]) -> (r: Result<Self, CodecError>)
        ensures
            r matches Ok(m) ==> m.wf() && m.enc() == data@,
            forall|m: Self| m.wf() && m.enc() == data@ ==> (r matches Ok(p) && p@ == m@),
    {
        proof {
            lemma_auto_spec_u32_to_from_le_bytes();
        }
        let (user_identifier, k) = match Str0255::decode(data, 0) {
            Ok(p) => p,
            Err(e) => {
                proof {
                    assert forall|m: Self| !(m.wf() && m.enc() == data@) by {
                        if m.wf() && m.enc() == data@ {
                            Self::lemma_parts(m, data@);
                            assert(data@.skip(0) =~= data@);
                        }
                    }
                }
                return Err(e);
            },
        };
        let request_id = match decode_u32(data, k) {
            Ok(v) => v,
            Err(e) => {
                proof {
                    assert forall|m: Self| !(m.wf() && m.enc() == data@) by {
                        if m.wf() && m.enc() == data@ {
                            Self::lemma_parts(m, data@);
                            assert(data@.skip(0) =~= data@);
                        }
                    }
                }
                return Err(e);
            },
        };
        if k + 4 != data.len() {
            proof {
                assert forall|m: Self| !(m.wf() && m.enc() == data@) by {
                    if m.wf() && m.enc() == data@ {
                        Self::lemma_parts(m, data@);
                        assert(data@.skip(0) =~= data@);
                    }
                }
            }
            return Err(CodecError::ReadError(k + 4, data.len()));
        }
        let out = AllocateMiningJobToken { user_identifier, request_id };
        proof {
            assert(out.enc() =~= data@);
            assert forall|m: Self| m.wf() && m.enc() == data@ implies out@ == m@ by {
                Self::lemma_parts(m, data@);
                assert(data@.skip(0) =~= data@);
            }
        }
        Ok(out)
    }
}

/// The pool's answer to `AllocateMiningJobToken`: the token and the coinbase
/// space the pool reserves.
#[derive(Debug, Clone, PartialEq, Eq)]
pub struct AllocateMiningJobTokenSuccess {
    /// Unique identifier pairing this response to its request.
    pub request_id: u32,
    /// Token that names the declared job on the mining connection.
    pub mining_job_token: B0255,
    /// Largest number of bytes the pool will add in coinbase outputs.
    pub coinbase_output_max_additional_size: u32,
    /// Coinbase transaction outputs added by the pool.
    pub coinbase_output: B064K,
    /// The token may be used before the declaration completes.
    pub async_mining_allowed: bool,
}

impl View for AllocateMiningJobTokenSuccess {
    type V = (u32, Seq<u8>, u32, Seq<u8>, bool);

    open spec fn view(&self) -> Self::V {
        (
            self.request_id,
            self.mining_job_token@,
            self.coinbase_output_max_additional_size,
            self.coinbase_output@,
            self.async_mining_allowed,
        )
    }
}

impl AllocateMiningJobTokenSuccess {
    /// The token and coinbase output respect their bounds.
    pub open spec fn wf(self) -> bool {
        self.mining_job_token.wf() && self.coinbase_output.wf()
    }

    /// Wire form: the five fields in order, integers little-endian.
    pub open spec fn enc(self) -> Seq<u8> {
        spec_u32_to_le_bytes(self.request_id) + self.mining_job_token.enc()
            + spec_u32_to_le_bytes(self.coinbase_output_max_additional_size)
            + self.coinbase_output.enc() + seq![spec_bool_to_byte(self.async_mining_allowed)]
    }

    /// Where each field of a well-formed encoding lies.
    proof fn lemma_parts(m: Self, d: Seq<u8>)
        requires
            m.wf(),
            m.enc() == d,
        ensures
            ({
                let k1 = m.mining_job_token.enc().len() as int;
                let k2 = m.coinbase_output.enc().len() as int;
                &&& d.len() == 9 + k1 + k2
                &&& spec_u32_to_le_bytes(m.request_id) == d.subrange(0, 4)
                &&& prefix_of(m.mining_job_token.enc(), d.skip(4))
                &&& spec_u32_to_le_bytes(m.coinbase_output_max_additional_size) == d.subrange(
                    4 + k1,
                    8 + k1,
                )
                &&& prefix_of(m.coinbase_output.enc(), d.skip(8 + k1))
                &&& d[8 + k1 + k2] == spec_bool_to_byte(m.async_mining_allowed)
            }),
    {
        lemma_auto_spec_u32_to_from_le_bytes();
        B0255::lemma_header_roundtrip(m.mining_job_token.data@.len());
        B064K::lemma_header_roundtrip(m.coinbase_output.data@.len());
        let k1 = m.mining_job_token.enc().len() as int;
        let k2 = m.coinbase_output.enc().len() as int;
        assert(spec_u32_to_le_bytes(m.request_id) =~= d.subrange(0, 4));
        assert(m.mining_job_token.enc() =~= d.skip(4).subrange(0, k1));
        assert(spec_u32_to_le_bytes(m.coinbase_output_max_additional_size) =~= d.subrange(
            4 + k1,
            8 + k1,
        ));
        assert(m.coinbase_output.enc() =~= d.skip(8 + k1).subrange(0, k2));
    }

    /// Serialized length in bytes.
    pub fn get_size(&self) -> (r: usize)
        requires
            self.wf(),
        ensures
            r == self.enc().len(),
    {
        proof {
            lemma_auto_spec_u32_to_from_le_bytes();
            B0255::lemma_header_roundtrip(self.mining_job_token.data@.len());
            B064K::lemma_header_roundtrip(self.coinbase_output.data@.len());
        }
        let a = self.mining_job_token.get_size();
        let b = self.coinbase_output.get_size();
        9 + a + b
    }

    /// Encodes the message.
    pub fn to_bytes(&self) -> (r: Vec<u8>)
        requires
            self.wf(),
        ensures
            r@ == self.enc(),
    {
        let mut out: Vec<u8> = Vec::new();
        encode_u32(self.request_id, &mut out);
        self.mining_job_token.encode_into(&mut out);
        encode_u32(self.coinbase_output_max_additional_size, &mut out);
        self.coinbase_output.encode_into(&mut out);
        encode_bool(self.async_mining_allowed, &mut out);
        proof {
            assert(out@ =~= self.enc());
        }
        out
    }

    /// Decodes a message that occupies `data` exactly.
    #[verifier::rlimit(100)]
    pub fn decode(data: &[u8]) -> (r: Result<Self, CodecError>)
        ensures
            r matches Ok(m) ==> m.wf() && m.enc() == data@,
            forall|m: Self| m.wf() && m.enc() == data@ ==> (r matches Ok(p) && p@ == m@),
    {
        proof {
            lemma_auto_spec_u32_to_from_le_bytes();
        }
        let request_id = match decode_u32(data, 0) {
            Ok(v) => v,
            Err(e) => {
                proof {
                    assert forall|m: Self| !(m.wf() && m.enc() == data@) by {
                        if m.wf() && m.enc() == data@ {
                            Self::lemma_parts(m, data@);
                        }
                    }
                }
                return Err(e);
            },
        };
        let (mining_job_token, k1) = match B0255::decode(data, 4) {
            Ok(p) => p,
            Err(e) => {
                proof {
                    assert forall|m: Self| !(m.wf() && m.enc() == data@) by {
                        if m.wf() && m.enc() == data@ {
                            Self::lemma_parts(m, data@);
                        }
                    }
                }
                return Err(e);
            },
        };
        let coinbase_output_max_additional_size = match decode_u32(data, 4 + k1) {
            Ok(v) => v,
            Err(e) => {
                proof {
                    assert forall|m: Self| !(m.wf() && m.enc() == data@) by {
                        if m.wf() && m.enc() == data@ {
                            Self::lemma_parts(m, data@);
                        }
                    }
                }
                return Err(e);
            },
        };
        let (coinbase_output, k2) = match B064K::decode(data, 8 + k1) {
            Ok(p) => p,
            Err(e) => {
                proof {
                    assert forall|m: Self| !(m.wf() && m.enc() == data@) by {
                        if m.wf() && m.enc() == data@ {
                            Self::lemma_parts(m, data@);
                        }
                    }
                }
                return Err(e);
            },
        };
        let async_mining_allowed = match decode_bool(data, 8 + k1 + k2) {
            Ok(v) => v,
            Err(e) => {
                proof {
                    assert forall|m: Self| !(m.wf() && m.enc() == data@) by {
                        if m.wf() && m.enc() == data@ {
                            Self::lemma_parts(m, data@);
                        }
                    }
                }
                return Err(e);
            },
        };
        if 9 + k1 + k2 != data.len() {
            proof {
                assert forall|m: Self| !(m.wf() && m.enc() == data@) by {
                    if m.wf() && m.enc() == data@ {
                        Self::lemma_parts(m, data@);
                    }
                }
            }
            return Err(CodecError::ReadError(9 + k1 + k2, data.len()));
        }
        let out = AllocateMiningJobTokenSuccess {
            request_id,
            mining_job_token,
            coinbase_output_max_additional_size,
            coinbase_output,
            async_mining_allowed,
        };
        proof {
            assert(out.enc() =~= data@);
            assert forall|m: Self| m.wf() && m.enc() == data@ implies out@ == m@ by {
                Self::lemma_parts(m, data@);
            }
        }
        Ok(out)
    }
}

/// An incoming job-declaration message, keyed on its message type byte.
#[derive(Debug, Clone, PartialEq, Eq)]
pub enum JobDeclaration {
    AllocateMiningJobToken(AllocateMiningJobToken),
    AllocateMiningJobTokenSuccess(AllocateMiningJobTokenSuccess),
}

/// Parses a job-declaration message from its type byte and payload.
///
/// A payload holding a well-formed encoding of the type the byte names
/// parses to that message; any other type byte is unknown.
pub fn parse_job_declaration(message_type: u8, payload: &[u8]) -> (r: Result<
    JobDeclaration,
    CodecError,
>)
    ensures
        message_type == MESSAGE_TYPE_ALLOCATE_MINING_JOB_TOKEN ==> (match r {
            Ok(jd) => (jd matches JobDeclaration::AllocateMiningJobToken(m) && m.wf() && m.enc()
                == payload@),
            Err(_) => true,
        }),
        message_type == MESSAGE_TYPE_ALLOCATE_MINING_JOB_TOKEN_SUCCESS ==> (match r {
            Ok(jd) => (jd matches JobDeclaration::AllocateMiningJobTokenSuccess(m) && m.wf()
                && m.enc() == payload@),
            Err(_) => true,
        }),
        message_type == MESSAGE_TYPE_ALLOCATE_MINING_JOB_TOKEN ==> (forall|
            m: AllocateMiningJobToken,
        |
            m.wf() && m.enc() == payload@ ==> (r matches Ok(jd)
                && jd matches JobDeclaration::AllocateMiningJobToken(x) && x@ == m@)),
        message_type == MESSAGE_TYPE_ALLOCATE_MINING_JOB_TOKEN_SUCCESS ==> (forall|
            m: AllocateMiningJobTokenSuccess,
        |
            m.wf() && m.enc() == payload@ ==> (r matches Ok(jd)
                && jd matches JobDeclaration::AllocateMiningJobTokenSuccess(x) && x@ == m@)),
        message_type != MESSAGE_TYPE_ALLOCATE_MINING_JOB_TOKEN && message_type
            != MESSAGE_TYPE_ALLOCATE_MINING_JOB_TOKEN_SUCCESS ==> r == Err::<
            JobDeclaration,
            CodecError,
        >(CodecError::UnknownMessageType(message_type)),
{
    if message_type == MESSAGE_TYPE_ALLOCATE_MINING_JOB_TOKEN {
        match AllocateMiningJobToken::decode(payload) {
            Ok(m) => Ok(JobDeclaration::AllocateMiningJobToken(m)),
            Err(e) => Err(e),
        }
    } else if message_type == MESSAGE_TYPE_ALLOCATE_MINING_JOB_TOKEN_SUCCESS {
        match AllocateMiningJobTokenSuccess::decode(payload) {
            Ok(m) => Ok(JobDeclaration::AllocateMiningJobTokenSuccess(m)),
            Err(e) => Err(e),
        }
    } else {
        Err(CodecError::UnknownMessageType(message_type))
    }
}

/// What a handler asks the caller to do with its answer.
#[derive(Debug, Clone, PartialEq, Eq)]
pub enum SendTo {
    /// Relay the message to the paired connection.
    RelayNewMessage(JobDeclaration),
    /// Answer on the same connection.
    Respond(JobDeclaration),
    /// Nothing to send; optionally a message to remember.
    Nothing(Option<JobDeclaration>),
}

/// Implemented by a downstream role to handle messages a job-declaration
/// server sends.
pub trait ParseServerJobDeclarationMessages: Sized {
    /// Called with the token allocated by the upstream.
    fn handle_allocate_mining_job_token_sucess(
        &mut self,
        message: AllocateMiningJobTokenSuccess,
    ) -> Result<SendTo, CodecError>;

    /// Routes one incoming message to its handler: a payload holding a
    /// well-formed token answer reaches `handle_allocate_mining_job_token_sucess`
    /// and its result is returned as it is. The handler carries no contract
    /// of its own, so only the dispatcher's errors are stated: an unknown
    /// type, and a payload that decodes to no message.
    fn handle_message_job_declaration(
        &mut self,
        message_type: u8,
        payload: &[u8],
    ) -> (r: Result<SendTo, CodecError>)
        ensures
            message_type != MESSAGE_TYPE_ALLOCATE_MINING_JOB_TOKEN_SUCCESS ==> r == Err::<
                SendTo,
                CodecError,
            >(CodecError::UnknownMessageType(message_type)),
            (message_type == MESSAGE_TYPE_ALLOCATE_MINING_JOB_TOKEN_SUCCESS && (forall|
                m: AllocateMiningJobTokenSuccess,
            | m.wf() ==> m.enc() != payload@)) ==> r is Err,
    {
        if message_type == MESSAGE_TYPE_ALLOCATE_MINING_JOB_TOKEN_SUCCESS {
            match parse_job_declaration(message_type, payload) {
                Ok(JobDeclaration::AllocateMiningJobTokenSuccess(m)) => self
                    .handle_allocate_mining_job_token_sucess(m),
                Ok(_) => Err(CodecError::UnknownMessageType(message_type)),
                Err(e) => Err(e),
            }
        } else {
            Err(CodecError::UnknownMessageType(message_type))
        }
    }
}

/// Implemented by a server role to handle messages a job-declaration client
/// sends.
pub trait ParseClientJobDeclarationMessages: Sized {
    /// Called with a client's request for a job token.
    fn handle_allocate_mining_job(&mut self, message: AllocateMiningJobToken) -> Result<
        SendTo,
        CodecError,
    >;

    /// Routes one incoming message to its handler: a payload holding a
    /// well-formed token request reaches `handle_allocate_mining_job` and
    /// its result is returned as it is. The handler carries no contract of
    /// its own, so only the dispatcher's errors are stated: an unknown
    /// type, and a payload that decodes to no message.
    fn handle_message_job_declaration(
        &mut self,
        message_type: u8,
        payload: &[u8],
    ) -> (r: Result<SendTo, CodecError>)
        ensures
            message_type != MESSAGE_TYPE_ALLOCATE_MINING_JOB_TOKEN ==> r == Err::<
                SendTo,
                CodecError,
            >(CodecError::UnknownMessageType(message_type)),
            (message_type == MESSAGE_TYPE_ALLOCATE_MINING_JOB_TOKEN && (forall|
                m: AllocateMiningJobToken,
            | m.wf() ==> m.enc() != payload@)) ==> r is Err,
    {
        if message_type == MESSAGE_TYPE_ALLOCATE_MINING_JOB_TOKEN {
            match parse_job_declaration(message_type, payload) {
                Ok(JobDeclaration::AllocateMiningJobToken(m)) => self.handle_allocate_mining_job(
                    m,
                ),
                Ok(_) => Err(CodecError::UnknownMessageType(message_type)),
                Err(e) => Err(e),
            }
        } else {
            Err(CodecError::UnknownMessageType(message_type))
        }
    }
}

} // verus!
