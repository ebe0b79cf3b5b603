//! Common (setup) sub-protocol messages: every Sv2 connection opens with a
//! `SetupConnection` and is answered with success or error.

use vstd::prelude::*;
use vstd::bytes::*;
use crate::codec::CodecError;
use crate::codec::prefix_of;
use crate::codec::encode_u16;
use crate::codec::encode_u32;
use crate::codec::decode_u8;
use crate::codec::decode_u16;
use crate::codec::decode_u32;
use crate::datatypes::Str0255;

verus! {

/// The sub-protocol a connection is set up for.
#[derive(Debug, Clone, Copy, PartialEq, Eq, Structural)]
pub enum Protocol {
    MiningProtocol,
    JobDeclarationProtocol,
    TemplateDistributionProtocol,
    JobDistributionProtocol,
}

/// Wire byte of a protocol discriminant.
pub open spec fn spec_protocol_byte(p: Protocol) -> u8 {
    match p {
        Protocol::MiningProtocol => 0,
        Protocol::JobDeclarationProtocol => 1,
        Protocol::TemplateDistributionProtocol => 2,
        Protocol::JobDistributionProtocol => 3,
    }
}

/// The protocol a wire byte names, if any.
pub open spec fn spec_protocol_from_byte(b: u8) -> Option<Protocol> {
    if b == 0 {
        Some(Protocol::MiningProtocol)
    } else if b == 1 {
        Some(Protocol::JobDeclarationProtocol)
    } else if b == 2 {
        Some(Protocol::TemplateDistributionProtocol)
    } else if b == 3 {
        Some(Protocol::JobDistributionProtocol)
    } else {
        None
    }
}

/// Wire byte of a protocol discriminant.
pub fn protocol_byte(p: Protocol) -> (r: u8)
    ensures
        r == spec_protocol_byte(p),
{
    match p {
        Protocol::MiningProtocol => 0,
        Protocol::JobDeclarationProtocol => 1,
        Protocol::TemplateDistributionProtocol => 2,
        Protocol::JobDistributionProtocol => 3,
    }
}

/// The protocol a wire byte names; bytes above three name none.
pub fn protocol_from_byte(b: u8) -> (r: Option<Protocol>)
    ensures
        r == spec_protocol_from_byte(b),
{
    if b == 0 {
        Some(Protocol::MiningProtocol)
    } else if b == 1 {
        Some(Protocol::JobDeclarationProtocol)
    } else if b == 2 {
        Some(Protocol::TemplateDistributionProtocol)
    } else if b == 3 {
        Some(Protocol::JobDistributionProtocol)
    } else {
        None
    }
}

/// First message of every connection: names the sub-protocol, the supported
/// version range, feature flags and the device identity.
#[derive(Debug, Clone, PartialEq, Eq)]
pub struct SetupConnection {
    /// Sub-protocol this connection is set up for.
    pub protocol: Protocol,
    /// Lowest protocol version the sender supports.
    pub min_version: u16,
    /// Highest protocol version the sender supports.
    pub max_version: u16,
    /// Feature flags of the named sub-protocol.
    pub flags: u32,
    /// Host the connection was opened to.
    pub endpoint_host: Str0255,
    /// Port the connection was opened to.
    pub endpoint_port: u16,
    /// Device vendor.
    pub vendor: Str0255,
    /// Device hardware version.
    pub hardware_version: Str0255,
    /// Device firmware identification.
    pub firmware: Str0255,
    /// Unique device identifier.
    pub device_id: Str0255,
}

impl View for SetupConnection {
    type V = (Protocol, u16, u16, u32, Seq<u8>, u16, Seq<u8>, Seq<u8>, Seq<u8>, Seq<u8>);

    open spec fn view(&self) -> Self::V {
        (
            self.protocol,
            self.min_version,
            self.max_version,
            self.flags,
            self.endpoint_host@,
            self.endpoint_port,
            self.vendor@,
            self.hardware_version@,
            self.firmware@,
            self.device_id@,
        )
    }
}

impl SetupConnection {
    /// Every text field respects its 255-byte bound.
    pub open spec fn wf(self) -> bool {
        self.endpoint_host.wf() && self.vendor.wf() && self.hardware_version.wf()
            && self.firmware.wf() && self.device_id.wf()
    }

    /// Wire form: the ten fields in order, integers little-endian.
    pub open spec fn enc(self) -> Seq<u8> {
        seq![spec_protocol_byte(self.protocol)] + spec_u16_to_le_bytes(self.min_version)
            + spec_u16_to_le_bytes(self.max_version) + spec_u32_to_le_bytes(self.flags)
            + self.endpoint_host.enc() + spec_u16_to_le_bytes(self.endpoint_port)
            + self.vendor.enc() + self.hardware_version.enc() + self.firmware.enc()
            + self.device_id.enc()
    }

    /// Where each field of a well-formed encoding lies.
    proof fn lemma_parts(m: Self, d: Seq<u8>)
        requires
            m.wf(),
            m.enc() == d,
        ensures
            ({
                let k1 = m.endpoint_host.enc().len() as int;
                let k2 = m.vendor.enc().len() as int;
                let k3 = m.hardware_version.enc().len() as int;
                let k4 = m.firmware.enc().len() as int;
                let k5 = m.device_id.enc().len() as int;
                &&& d.len() == 11 + k1 + k2 + k3 + k4 + k5
                &&& d[0] == spec_protocol_byte(m.protocol)
                &&& spec_u16_to_le_bytes(m.min_version) == d.subrange(1, 3)
                &&& spec_u16_to_le_bytes(m.max_version) == d.subrange(3, 5)
                &&& spec_u32_to_le_bytes(m.flags) == d.subrange(5, 9)
                &&& prefix_of(m.endpoint_host.enc(), d.skip(9))
                &&& spec_u16_to_le_bytes(m.endpoint_port) == d.subrange(9 + k1, 11 + k1)
                &&& prefix_of(m.vendor.enc(), d.skip(11 + k1))
                &&& prefix_of(m.hardware_version.enc(), d.skip(11 + k1 + k2))
                &&& prefix_of(m.firmware.enc(), d.skip(11 + k1 + k2 + k3))
                &&& prefix_of(m.device_id.enc(), d.skip(11 + k1 + k2 + k3 + k4))
            }),
    {
        lemma_auto_spec_u16_to_from_le_bytes();
        lemma_auto_spec_u32_to_from_le_bytes();
        Str0255::lemma_header_roundtrip(m.endpoint_host.data@.len());
        Str0255::lemma_header_roundtrip(m.vendor.data@.len());
        Str0255::lemma_header_roundtrip(m.hardware_version.data@.len());
        Str0255::lemma_header_roundtrip(m.firmware.data@.len());
        Str0255::lemma_header_roundtrip(m.device_id.data@.len());
        let k1 = m.endpoint_host.enc().len() as int;
        let k2 = m.vendor.enc().len() as int;
        let k3 = m.hardware_version.enc().len() as int;
        let k4 = m.firmware.enc().len() as int;
        let k5 = m.device_id.enc().len() as int;
        assert(spec_u16_to_le_bytes(m.min_version) =~= d.subrange(1, 3));
        assert(spec_u16_to_le_bytes(m.max_version) =~= d.subrange(3, 5));
        assert(spec_u32_to_le_bytes(m.flags) =~= d.subrange(5, 9));
        assert(m.endpoint_host.enc() =~= d.skip(9).subrange(0, k1));
        assert(spec_u16_to_le_bytes(m.endpoint_port) =~= d.subrange(9 + k1, 11 + k1));
        assert(m.vendor.enc() =~= d.skip(11 + k1).subrange(0, k2));
        assert(m.hardware_version.enc() =~= d.skip(11 + k1 + k2).subrange(0, k3));
        assert(m.firmware.enc() =~= d.skip(11 + k1 + k2 + k3).subrange(0, k4));
        assert(m.device_id.enc() =~= d.skip(11 + k1 + k2 + k3 + k4).subrange(0, k5));
    }

    /// Serialized length in bytes.
    pub fn get_size(&self) -> (r: usize)
        requires
            self.wf(),
        ensures
            r == self.enc().len(),
    {
        proof {
            lemma_auto_spec_u16_to_from_le_bytes();
            lemma_auto_spec_u32_to_from_le_bytes();
        }
        let a = self.endpoint_host.get_size();
        let b = self.vendor.get_size();
        let c = self.hardware_version.get_size();
        let d = self.firmware.get_size();
        let e = self.device_id.get_size();
        11 + a + b + c + d + e
    }

    /// Encodes the message.
    pub fn to_bytes(&self) -> (r: Vec<u8>)
        requires
            self.wf(),
        ensures
            r@ == self.enc(),
    {
        let mut out: Vec<u8> = Vec::new();
        let pb = protocol_byte(self.protocol);
        out.push(pb);
        encode_u16(self.min_version, &mut out);
        encode_u16(self.max_version, &mut out);
        encode_u32(self.flags, &mut out);
        self.endpoint_host.encode_into(&mut out);
        encode_u16(self.endpoint_port, &mut out);
        self.vendor.encode_into(&mut out);
        self.hardware_version.encode_into(&mut out);
        self.firmware.encode_into(&mut out);
        self.device_id.encode_into(&mut out);
        proof {
            assert(out@ =~= self.enc());
        }
        out
    }

    /// Decodes a message that occupies `data` exactly; a protocol byte above
    /// three is rejected as not naming a protocol.
    #[verifier::rlimit(100)]
    pub fn decode(data: &[u8]) -> (r: Result<Self, CodecError>)
        ensures
            r matches Ok(m) ==> m.wf() && m.enc() == data@,
            forall|m: Self| m.wf() && m.enc() == data@ ==> (r matches Ok(p) && p@ == m@),
            data@.len() >= 1 && spec_protocol_from_byte(data@[0]) is None ==> r == Err::<
                Self,
                CodecError,
            >(CodecError::ValueIsNotAValidProtocol(data@[0])),
    {
        proof {
            lemma_auto_spec_u16_to_from_le_bytes();
            lemma_auto_spec_u32_to_from_le_bytes();
        }
        let pb = match decode_u8(data, 0) {
            Ok(v) => v,
            Err(e) => {
                proof {
                    assert forall|m: Self| !(m.wf() && m.enc() == data@) by {
                        if m.wf() && m.enc() == data@ {
                            Self::lemma_parts(m, data@);
                        }
                    }
                }
                return Err(e);
            },
        };
        let protocol = match protocol_from_byte(pb) {
            Some(p) => p,
            None => {
                proof {
                    assert forall|m: Self| !(m.wf() && m.enc() == data@) by {
                        if m.wf() && m.enc() == data@ {
                            Self::lemma_parts(m, data@);
                        }
                    }
                }
                return Err(CodecError::ValueIsNotAValidProtocol(pb));
            },
        };
        let min_version = match decode_u16(data, 1) {
            Ok(v) => v,
            Err(e) => {
                proof {
                    assert forall|m: Self| !(m.wf() && m.enc() == data@) by {
                        if m.wf() && m.enc() == data@ {
                            Self::lemma_parts(m, data@);
                        }
                    }
                }
                return Err(e);
            },
        };
        let max_version = match decode_u16(data, 3) {
            Ok(v) => v,
            Err(e) => {
                proof {
                    assert forall|m: Self| !(m.wf() && m.enc() == data@) by {
                        if m.wf() && m.enc() == data@ {
                            Self::lemma_parts(m, data@);
                        }
                    }
                }
                return Err(e);
            },
        };
        let flags = match decode_u32(data, 5) {
            Ok(v) => v,
            Err(e) => {
                proof {
                    assert forall|m: Self| !(m.wf() && m.enc() == data@) by {
                        if m.wf() && m.enc() == data@ {
                            Self::lemma_parts(m, data@);
                        }
                    }
                }
                return Err(e);
            },
        };
        let (endpoint_host, k1) = match Str0255::decode(data, 9) {
            Ok(p) => p,
            Err(e) => {
                proof {
                    assert forall|m: Self| !(m.wf() && m.enc() == data@) by {
                        if m.wf() && m.enc() == data@ {
                            Self::lemma_parts(m, data@);
                        }
                    }
                }
                return Err(e);
            },
        };
        let endpoint_port = match decode_u16(data, 9 + k1) {
            Ok(v) => v,
            Err(e) => {
                proof {
                    assert forall|m: Self| !(m.wf() && m.enc() == data@) by {
                        if m.wf() && m.enc() == data@ {
                            Self::lemma_parts(m, data@);
                        }
                    }
                }
                return Err(e);
            },
        };
        let (vendor, k2) = match Str0255::decode(data, 11 + k1) {
            Ok(p) => p,
            Err(e) => {
                proof {
                    assert forall|m: Self| !(m.wf() && m.enc() == data@) by {
                        if m.wf() && m.enc() == data@ {
                            Self::lemma_parts(m, data@);
                        }
                    }
                }
                return Err(e);
            },
        };
        let (hardware_version, k3) = match Str0255::decode(data, 11 + k1 + k2) {
            Ok(p) => p,
            Err(e) => {
                proof {
                    assert forall|m: Self| !(m.wf() && m.enc() == data@) by {
                        if m.wf() && m.enc() == data@ {
                            Self::lemma_parts(m, data@);
                        }
                    }
                }
                return Err(e);
            },
        };
        let (firmware, k4) = match Str0255::decode(data, 11 + k1 + k2 + k3) {
            Ok(p) => p,
            Err(e) => {
                proof {
                    assert forall|m: Self| !(m.wf() && m.enc() == data@) by {
                        if m.wf() && m.enc() == data@ {
                            Self::lemma_parts(m, data@);
                        }
                    }
                }
                return Err(e);
            },
        };
        let (device_id, k5) = match Str0255::decode(data, 11 + k1 + k2 + k3 + k4) {
            Ok(p) => p,
            Err(e) => {
                proof {
                    assert forall|m: Self| !(m.wf() && m.enc() == data@) by {
                        if m.wf() && m.enc() == data@ {
                            Self::lemma_parts(m, data@);
                        }
                    }
                }
                return Err(e);
            },
        };
        if 11 + k1 + k2 + k3 + k4 + k5 != data.len() {
            proof {
                assert forall|m: Self| !(m.wf() && m.enc() == data@) by {
                    if m.wf() && m.enc() == data@ {
                        Self::lemma_parts(m, data@);
                    }
                }
            }
            return Err(CodecError::ReadError(11 + k1 + k2 + k3 + k4 + k5, data.len()));
        }
        let out = SetupConnection {
            protocol,
            min_version,
            max_version,
            flags,
            endpoint_host,
            endpoint_port,
            vendor,
            hardware_version,
            firmware,
            device_id,
        };
        proof {
            assert(out.enc() =~= data@);
            assert forall|m: Self| m.wf() && m.enc() == data@ implies out@ == m@ by {
                Self::lemma_parts(m, data@);
            }
        }
        Ok(out)
    }

    /// The connection only understands header-only (standard) jobs.
    pub fn requires_standard_job(&self) -> (r: bool)
        ensures
            r == ((self.flags & 1) == 1),
    {
        self.flags & 1 == 1
    }
}

/// Positive answer to `SetupConnection`.
#[derive(Debug, Clone, Copy, PartialEq, Eq, Structural)]
pub struct SetupConnectionSuccess {
    /// Protocol version the connection will use.
    pub used_version: u16,
    /// Feature flags the upstream will honour.
    pub flags: u32,
}

impl SetupConnectionSuccess {
    /// Wire form: used version then flags, little-endian.
    pub open spec fn enc(self) -> Seq<u8> {
        spec_u16_to_le_bytes(self.used_version) + spec_u32_to_le_bytes(self.flags)
    }

    /// Serialized length in bytes.
    pub fn get_size(&self) -> (r: usize)
        ensures
            r == self.enc().len(),
    {
        proof {
            lemma_auto_spec_u16_to_from_le_bytes();
            lemma_auto_spec_u32_to_from_le_bytes();
        }
        6
    }

    /// Encodes the message.
    pub fn to_bytes(&self) -> (r: Vec<u8>)
        ensures
            r@ == self.enc(),
    {
        let mut out: Vec<u8> = Vec::new();
        encode_u16(self.used_version, &mut out);
        encode_u32(self.flags, &mut out);
        proof {
            assert(out@ =~= self.enc());
        }
        out
    }

    /// Decodes a message that occupies `data` exactly.
    pub fn decode(data: &[u8]) -> (r: Result<Self, CodecError>)
        ensures
            r matches Ok(m) ==> m.enc() == data@,
            forall|m: Self| m.enc() == data@ ==> r == Ok::<Self, CodecError>(m),
            data@.len() == 6 ==> r is Ok,
            data@.len() != 6 ==> r is Err,
    {
        proof {
            lemma_auto_spec_u16_to_from_le_bytes();
            lemma_auto_spec_u32_to_from_le_bytes();
        }
        if data.len() < 6 {
            return Err(CodecError::OutOfBound);
        }
        if data.len() > 6 {
            return Err(CodecError::ReadError(6, data.len()));
        }
        let used_version = match decode_u16(data, 0) {
            Ok(v) => v,
            Err(e) => {
                return Err(e);
            },
        };
        let flags = match decode_u32(data, 2) {
            Ok(v) => v,
            Err(e) => {
                return Err(e);
            },
        };
        let out = SetupConnectionSuccess { used_version, flags };
        proof {
            assert(out.enc() =~= data@);
            assert forall|m: Self| m.enc() == data@ implies m == out by {
                assert(spec_u16_to_le_bytes(m.used_version) =~= m.enc().subrange(0, 2));
                assert(m.enc().subrange(0, 2) =~= data@.subrange(0, 2));
                assert(spec_u32_to_le_bytes(m.flags) =~= m.enc().subrange(2, 6));
                assert(m.enc().subrange(2, 6) =~= data@.subrange(2, 6));
            }
        }
        Ok(out)
    }
}

/// Negative answer to `SetupConnection`.
#[derive(Debug, Clone, PartialEq, Eq)]
pub struct SetupConnectionError {
    /// Feature flags the upstream would have accepted.
    pub flags: u32,
    /// Reason the setup was refused.
    pub error_code: Str0255,
}

impl View for SetupConnectionError {
    type V = (u32, Seq<u8>);

    open spec fn view(&self) -> Self::V {
        (self.flags, self.error_code@)
    }
}

impl SetupConnectionError {
    /// The error code respects its 255-byte bound.
    pub open spec fn wf(self) -> bool {
        self.error_code.wf()
    }

    /// Wire form: flags, then the length-prefixed error code.
    pub open spec fn enc(self) -> Seq<u8> {
        spec_u32_to_le_bytes(self.flags) + self.error_code.enc()
    }

    /// Where each field of a well-formed encoding lies.
    proof fn lemma_parts(m: Self, d: Seq<u8>)
        requires
            m.wf(),
            m.enc() == d,
        ensures
            d.len() == 4 + m.error_code.enc().len(),
            spec_u32_to_le_bytes(m.flags) == d.subrange(0, 4),
            prefix_of(m.error_code.enc(), d.skip(4)),
    {
        lemma_auto_spec_u32_to_from_le_bytes();
        Str0255::lemma_header_roundtrip(m.error_code.data@.len());
        assert(spec_u32_to_le_bytes(m.flags) =~= d.subrange(0, 4));
        assert(m.error_code.enc() =~= d.skip(4).subrange(0, m.error_code.enc().len() as int));
    }

    /// Serialized length in bytes.
    pub fn get_size(&self) -> (r: usize)
        requires
            self.wf(),
        ensures
            r == self.enc().len(),
    {
        proof {
            lemma_auto_spec_u32_to_from_le_bytes();
        }
        4 + self.error_code.get_size()
    }

    /// Encodes the message.
    pub fn to_bytes(&self) -> (r: Vec<u8>)
        requires
            self.wf(),
        ensures
            r@ == self.enc(),
    {
        let mut out: Vec<u8> = Vec::new();
        encode_u32(self.flags, &mut out);
        self.error_code.encode_into(&mut out);
        proof {
            assert(out@ =~= self.enc());
        }
        out
    }

    /// Decodes a message that occupies `data` exactly.
    pub fn decode(data: &[u8]) -> (r: Result<Self, CodecError>)
        ensures
            r matches Ok(m) ==> m.wf() && m.enc() == data@,
            forall|m: Self| m.wf() && m.enc() == data@ ==> (r matches Ok(p) && p@ == m@),
    {
        proof {
            lemma_auto_spec_u32_to_from_le_bytes();
        }
        let flags = match decode_u32(data, 0) {
            Ok(v) => v,
            Err(e) => {
                proof {
                    assert forall|m: Self| !(m.wf() && m.enc() == data@) by {
                        if m.wf() && m.enc() == data@ {
                            Self::lemma_parts(m, data@);
                        }
                    }
                }
                return Err(e);
            },
        };
        let (error_code, n1) = match Str0255::decode(data, 4) {
            Ok(p) => p,
            Err(e) => {
                proof {
                    assert forall|m: Self| !(m.wf() && m.enc() == data@) by {
                        if m.wf() && m.enc() == data@ {
                            Self::lemma_parts(m, data@);
                        }
                    }
                }
                return Err(e);
            },
        };
        if 4 + n1 != data.len() {
            proof {
                assert forall|m: Self| !(m.wf() && m.enc() == data@) by {
                    if m.wf() && m.enc() == data@ {
                        Self::lemma_parts(m, data@);
                    }
                }
            }
            return Err(CodecError::ReadError(4 + n1, data.len()));
        }
        let out = SetupConnectionError { flags, error_code };
        proof {
            assert(out.enc() =~= data@);
            assert forall|m: Self| m.wf() && m.enc() == data@ implies out@ == m@ by {
                Self::lemma_parts(m, data@);
            }
        }
        Ok(out)
    }
}

/// Notice that the channel moved to another host.
#[derive(Debug, Clone, Copy, PartialEq, Eq, Structural)]
pub struct ChannelEndpointChanged {
    /// Channel whose endpoint changed.
    pub channel_id: u32,
}

impl ChannelEndpointChanged {
    /// Wire form: the channel id, little-endian.
    pub open spec fn enc(self) -> Seq<u8> {
        spec_u32_to_le_bytes(self.channel_id)
    }

    /// Serialized length in bytes.
    pub fn get_size(&self) -> (r: usize)
        ensures
            r == self.enc().len(),
    {
        proof {
            lemma_auto_spec_u32_to_from_le_bytes();
        }
        4
    }

    /// Encodes the message.
    pub fn to_bytes(&self) -> (r: Vec<u8>)
        ensures
            r@ == self.enc(),
    {
        let mut out: Vec<u8> = Vec::new();
        encode_u32(self.channel_id, &mut out);
        out
    }

    /// Decodes a message that occupies `data` exactly.
    pub fn decode(data: &[u8]) -> (r: Result<Self, CodecError>)
        ensures
            r matches Ok(m) ==> m.enc() == data@,
            forall|m: Self| m.enc() == data@ ==> r == Ok::<Self, CodecError>(m),
            data@.len() == 4 ==> r is Ok,
            data@.len() != 4 ==> r is Err,
    {
        proof {
            lemma_auto_spec_u32_to_from_le_bytes();
        }
        if data.len() < 4 {
            return Err(CodecError::OutOfBound);
        }
        if data.len() > 4 {
            return Err(CodecError::ReadError(4, data.len()));
        }
        let channel_id = match decode_u32(data, 0) {
            Ok(v) => v,
            Err(e) => {
                return Err(e);
            },
        };
        let out = ChannelEndpointChanged { channel_id };
        proof {
            assert(out.enc() =~= data@);
            assert forall|m: Self| m.enc() == data@ implies m == out by {
                assert(spec_u32_to_le_bytes(m.channel_id) == m.enc());
            }
        }
        Ok(out)
    }
}

} // verus!
