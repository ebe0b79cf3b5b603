//! Mining sub-protocol messages consumed by the translator bridge.

use vstd::prelude::*;
use vstd::bytes::*;
use crate::codec::CodecError;
use crate::codec::prefix_of;
use crate::codec::spec_bool_to_byte;
use crate::codec::encode_u32;
use crate::codec::encode_bool;
use crate::codec::decode_u32;
use crate::codec::decode_bool;
use crate::datatypes::U256;
use crate::datatypes::B032;
use crate::datatypes::B064K;
use crate::datatypes::Str0255;
use crate::datatypes::Seq0255;
use crate::datatypes::Sv2Option;

verus! {

/// Sent by an upstream when a new block is found: every downstream must move
/// to the job it names and mine on the new previous hash.
#[derive(Debug, Clone, PartialEq, Eq)]
pub struct SetNewPrevHash {
    /// Channel or channel group this previous hash is valid for.
    pub channel_id: u32,
    /// Job to be used for mining with this previous hash.
    pub job_id: u32,
    /// Previous block's hash, a block header field.
    pub prev_hash: U256,
    /// Smallest `nTime` value available for hashing.
    pub min_ntime: u32,
    /// Block header difficulty field.
    pub nbits: u32,
}

impl View for SetNewPrevHash {
    type V = (u32, u32, Seq<u8>, u32, u32);

    open spec fn view(&self) -> Self::V {
        (self.channel_id, self.job_id, self.prev_hash@, self.min_ntime, self.nbits)
    }
}

impl SetNewPrevHash {
    /// The hash holds exactly 32 bytes.
    pub open spec fn wf(self) -> bool {
        self.prev_hash.wf()
    }

    /// Wire form: the five fields in order, integers little-endian.
    pub open spec fn enc(self) -> Seq<u8> {
        spec_u32_to_le_bytes(self.channel_id) + spec_u32_to_le_bytes(self.job_id)
            + self.prev_hash.enc() + spec_u32_to_le_bytes(self.min_ntime) + spec_u32_to_le_bytes(
            self.nbits,
        )
    }

    /// Serialized length in bytes.
    pub fn get_size(&self) -> (r: usize)
        requires
            self.wf(),
        ensures
            r == self.enc().len(),
    {
        proof {
            lemma_auto_spec_u32_to_from_le_bytes();
        }
        48
    }

    /// Encodes the message.
    pub fn to_bytes(&self) -> (r: Vec<u8>)
        requires
            self.wf(),
        ensures
            r@ == self.enc(),
    {
        let mut out: Vec<u8> = Vec::new();
        encode_u32(self.channel_id, &mut out);
        encode_u32(self.job_id, &mut out);
        self.prev_hash.encode_into(&mut out);
        encode_u32(self.min_ntime, &mut out);
        encode_u32(self.nbits, &mut out);
        proof {
            assert(out@ =~= self.enc());
        }
        out
    }

    /// Decodes a message that occupies `data` exactly.
    ///
    /// Every 48-byte buffer is a well-formed encoding and decodes; any other
    /// length is rejected.
    pub fn decode(data: &[u8]) -> (r: Result<Self, CodecError>)
        ensures
            r matches Ok(m) ==> m.wf() && m.enc() == data@,
            forall|m: Self| m.wf() && m.enc() == data@ ==> (r matches Ok(p) && p@ == m@),
            data@.len() == 48 ==> r is Ok,
            data@.len() < 48 ==> r == Err::<Self, CodecError>(CodecError::OutOfBound),
            data@.len() > 48 ==> (r matches Err(e) && e == CodecError::ReadError(
                48,
                data@.len() as usize,
            )),
    {
        proof {
            lemma_auto_spec_u32_to_from_le_bytes();
        }
        if data.len() < 48 {
            proof {
                assert forall|m: Self| m.wf() implies m.enc() != data@ by {
                    assert(m.enc().len() == 48);
                }
            }
            return Err(CodecError::OutOfBound);
        }
        if data.len() > 48 {
            proof {
                assert forall|m: Self| m.wf() implies m.enc() != data@ by {
                    assert(m.enc().len() == 48);
                }
            }
            return Err(CodecError::ReadError(48, data.len()));
        }
        let channel_id = match decode_u32(data, 0) {
            Ok(v) => v,
            Err(e) => {
                return Err(e);
            },
        };
        let job_id = match decode_u32(data, 4) {
            Ok(v) => v,
            Err(e) => {
                return Err(e);
            },
        };
        let prev_hash = match U256::decode(data, 8) {
            Ok(p) => p.0,
            Err(e) => {
                return Err(e);
            },
        };
        let min_ntime = match decode_u32(data, 40) {
            Ok(v) => v,
            Err(e) => {
                return Err(e);
            },
        };
        let nbits = match decode_u32(data, 44) {
            Ok(v) => v,
            Err(e) => {
                return Err(e);
            },
        };
        let out = SetNewPrevHash { channel_id, job_id, prev_hash, min_ntime, nbits };
        proof {
            assert(out.enc() =~= data@);
            assert forall|m: Self| m.wf() && m.enc() == data@ implies out@ == m@ by {
                assert(spec_u32_to_le_bytes(m.channel_id) =~= m.enc().subrange(0, 4));
                assert(m.enc().subrange(0, 4) =~= data@.subrange(0, 4));
                assert(spec_u32_to_le_bytes(m.job_id) =~= m.enc().subrange(4, 8));
                assert(m.enc().subrange(4, 8) =~= data@.subrange(4, 8));
                assert(m.prev_hash@ =~= m.enc().subrange(8, 40));
                assert(m.enc().subrange(8, 40) =~= data@.subrange(8, 40));
                assert(spec_u32_to_le_bytes(m.min_ntime) =~= m.enc().subrange(40, 44));
                assert(m.enc().subrange(40, 44) =~= data@.subrange(40, 44));
                assert(spec_u32_to_le_bytes(m.nbits) =~= m.enc().subrange(44, 48));
                assert(m.enc().subrange(44, 48) =~= data@.subrange(44, 48));
            }
        }
        Ok(out)
    }
}

/// An updated mining job for a standard channel.
///
/// An empty `min_ntime` marks a future job, activated by a later
/// `SetNewPrevHash` with the same job id; a set `min_ntime` means the job is
/// active and mining starts at that time value.
#[derive(Debug, Clone, PartialEq, Eq)]
pub struct NewMiningJob {
    /// Standard channel this job is valid for.
    pub channel_id: u32,
    /// Upstream's identification of this job.
    pub job_id: u32,
    /// Smallest `nTime` value available for hashing; empty for a future job.
    pub min_ntime: Sv2Option,
    /// Block header version field.
    pub version: u32,
    /// Merkle root as used in the block header.
    pub merkle_root: B032,
}

impl View for NewMiningJob {
    type V = (u32, u32, Option<u32>, u32, Seq<u8>);

    open spec fn view(&self) -> Self::V {
        (self.channel_id, self.job_id, self.min_ntime.0, self.version, self.merkle_root@)
    }
}

impl NewMiningJob {
    /// The merkle root respects its 32-byte bound.
    pub open spec fn wf(self) -> bool {
        self.merkle_root.wf()
    }

    /// Wire form: the five fields in order, integers little-endian.
    pub open spec fn enc(self) -> Seq<u8> {
        spec_u32_to_le_bytes(self.channel_id) + spec_u32_to_le_bytes(self.job_id)
            + self.min_ntime.enc() + spec_u32_to_le_bytes(self.version) + self.merkle_root.enc()
    }

    /// This job waits for a `SetNewPrevHash` naming its job id.
    pub fn is_future(&self) -> (r: bool)
        ensures
            r == (self.min_ntime.0 is None),
    {
        match self.min_ntime.0 {
            Option::None => true,
            Option::Some(_) => false,
        }
    }

    /// Marks the job as future by clearing `min_ntime`.
    pub fn set_future(&mut self)
        ensures
            final(self).min_ntime.0 is None,
            final(self).channel_id == old(self).channel_id,
            final(self).job_id == old(self).job_id,
            final(self).version == old(self).version,
            final(self).merkle_root == old(self).merkle_root,
    {
        self.min_ntime = Sv2Option(None);
    }

    /// Marks the job as active from `min_ntime` on.
    pub fn set_no_future(&mut self, min_ntime: u32)
        ensures
            final(self).min_ntime.0 == Some(min_ntime),
            final(self).channel_id == old(self).channel_id,
            final(self).job_id == old(self).job_id,
            final(self).version == old(self).version,
            final(self).merkle_root == old(self).merkle_root,
    {
        self.min_ntime = Sv2Option(Some(min_ntime));
    }

    /// Where each field of a well-formed encoding lies.
    proof fn lemma_parts(m: Self, d: Seq<u8>)
        requires
            m.wf(),
            m.enc() == d,
        ensures
            d.len() == 12 + m.min_ntime.enc().len() + m.merkle_root.enc().len(),
            spec_u32_to_le_bytes(m.channel_id) == d.subrange(0, 4),
            spec_u32_to_le_bytes(m.job_id) == d.subrange(4, 8),
            prefix_of(m.min_ntime.enc(), d.skip(8)),
            spec_u32_to_le_bytes(m.version) == d.subrange(
                8 + m.min_ntime.enc().len() as int,
                12 + m.min_ntime.enc().len() as int,
            ),
            prefix_of(m.merkle_root.enc(), d.skip(12 + m.min_ntime.enc().len() as int)),
            m.merkle_root.enc().len() == d.len() - 12 - m.min_ntime.enc().len(),
    {
        lemma_auto_spec_u32_to_from_le_bytes();
        B032::lemma_header_roundtrip(m.merkle_root.data@.len());
        let k = m.min_ntime.enc().len() as int;
        assert(spec_u32_to_le_bytes(m.channel_id) =~= d.subrange(0, 4));
        assert(spec_u32_to_le_bytes(m.job_id) =~= d.subrange(4, 8));
        assert(m.min_ntime.enc() =~= d.subrange(8, 8 + k));
        assert(m.min_ntime.enc() =~= d.skip(8).subrange(0, k));
        assert(spec_u32_to_le_bytes(m.version) =~= d.subrange(8 + k, 12 + k));
        assert(m.merkle_root.enc() =~= d.subrange(12 + k, d.len() as int));
        assert(m.merkle_root.enc() =~= d.skip(12 + k).subrange(
            0,
            m.merkle_root.enc().len() as int,
        ));
    }

    /// Serialized length in bytes.
    pub fn get_size(&self) -> (r: usize)
        requires
            self.wf(),
        ensures
            r == self.enc().len(),
    {
        proof {
            lemma_auto_spec_u32_to_from_le_bytes();
        }
        let a = self.min_ntime.get_size();
        let b = self.merkle_root.get_size();
        12 + a + b
    }

    /// Encodes the message.
    pub fn to_bytes(&self) -> (r: Vec<u8>)
        requires
            self.wf(),
        ensures
            r@ == self.enc(),
    {
        let mut out: Vec<u8> = Vec::new();
        encode_u32(self.channel_id, &mut out);
        encode_u32(self.job_id, &mut out);
        self.min_ntime.encode_into(&mut out);
        encode_u32(self.version, &mut out);
        self.merkle_root.encode_into(&mut out);
        proof {
            assert(out@ =~= self.enc());
        }
        out
    }

    /// Decodes a message that occupies `data` exactly.
    pub fn decode(data: &[u8]) -> (r: Result<Self, CodecError>)
        ensures
            r matches Ok(m) ==> m.wf() && m.enc() == data@,
            forall|m: Self| m.wf() && m.enc() == data@ ==> (r matches Ok(p) && p@ == m@),
    {
        proof {
            lemma_auto_spec_u32_to_from_le_bytes();
        }
        let channel_id = match decode_u32(data, 0) {
            Ok(v) => v,
            Err(e) => {
                proof {
                    assert forall|m: Self| !(m.wf() && m.enc() == data@) by {
                        if m.wf() && m.enc() == data@ {
                            Self::lemma_parts(m, data@);
                        }
                    }
                }
                return Err(e);
            },
        };
        let job_id = match decode_u32(data, 4) {
            Ok(v) => v,
            Err(e) => {
                proof {
                    assert forall|m: Self| !(m.wf() && m.enc() == data@) by {
                        if m.wf() && m.enc() == data@ {
                            Self::lemma_parts(m, data@);
                        }
                    }
                }
                return Err(e);
            },
        };
        let (min_ntime, n1) = match Sv2Option::decode(data, 8) {
            Ok(p) => p,
            Err(e) => {
                proof {
                    assert forall|m: Self| !(m.wf() && m.enc() == data@) by {
                        if m.wf() && m.enc() == data@ {
                            Self::lemma_parts(m, data@);
                        }
                    }
                }
                return Err(e);
            },
        };
        let version = match decode_u32(data, 8 + n1) {
            Ok(v) => v,
            Err(e) => {
                proof {
                    assert forall|m: Self| !(m.wf() && m.enc() == data@) by {
                        if m.wf() && m.enc() == data@ {
                            Self::lemma_parts(m, data@);
                        }
                    }
                }
                return Err(e);
            },
        };
        let (merkle_root, n2) = match B032::decode(data, 12 + n1) {
            Ok(p) => p,
            Err(e) => {
                proof {
                    assert forall|m: Self| !(m.wf() && m.enc() == data@) by {
                        if m.wf() && m.enc() == data@ {
                            Self::lemma_parts(m, data@);
                        }
                    }
                }
                return Err(e);
            },
        };
        if 12 + n1 + n2 != data.len() {
            proof {
                assert forall|m: Self| !(m.wf() && m.enc() == data@) by {
                    if m.wf() && m.enc() == data@ {
                        Self::lemma_parts(m, data@);
                    }
                }
            }
            return Err(CodecError::ReadError(12 + n1 + n2, data.len()));
        }
        let out = NewMiningJob { channel_id, job_id, min_ntime, version, merkle_root };
        proof {
            assert(out.enc() =~= data@);
            assert forall|m: Self| m.wf() && m.enc() == data@ implies out@ == m@ by {
                Self::lemma_parts(m, data@);
            }
        }
        Ok(out)
    }
}

/// An updated mining job for an extended or group channel: the merkle root is
/// replaced by a merkle path and the two coinbase transaction parts.
#[derive(Debug, Clone, PartialEq, Eq)]
pub struct NewExtendedMiningJob {
    /// Extended channel this job is valid for, or the group it is broadcast to.
    pub channel_id: u32,
    /// Upstream's identification of this job.
    pub job_id: u32,
    /// Smallest `nTime` value available for hashing; empty for a future job.
    pub min_ntime: Sv2Option,
    /// Block header version field.
    pub version: u32,
    /// Whether the downstream may roll the general purpose version bits.
    pub version_rolling_allowed: bool,
    /// Merkle path hashes ordered from deepest.
    pub merkle_path: Seq0255,
    /// Prefix part of the coinbase transaction.
    pub coinbase_tx_prefix: B064K,
    /// Suffix part of the coinbase transaction.
    pub coinbase_tx_suffix: B064K,
}

impl View for NewExtendedMiningJob {
    type V = (u32, u32, Option<u32>, u32, bool, Seq<Seq<u8>>, Seq<u8>, Seq<u8>);

    open spec fn view(&self) -> Self::V {
        (
            self.channel_id,
            self.job_id,
            self.min_ntime.0,
            self.version,
            self.version_rolling_allowed,
            self.merkle_path@,
            self.coinbase_tx_prefix@,
            self.coinbase_tx_suffix@,
        )
    }
}

impl NewExtendedMiningJob {
    /// The merkle path and coinbase parts respect their bounds.
    pub open spec fn wf(self) -> bool {
        self.merkle_path.wf() && self.coinbase_tx_prefix.wf() && self.coinbase_tx_suffix.wf()
    }

    /// Wire form: the eight fields in order, integers little-endian.
    pub open spec fn enc(self) -> Seq<u8> {
        spec_u32_to_le_bytes(self.channel_id) + spec_u32_to_le_bytes(self.job_id)
            + self.min_ntime.enc() + spec_u32_to_le_bytes(self.version) + seq![
            spec_bool_to_byte(self.version_rolling_allowed),
        ] + self.merkle_path.enc() + self.coinbase_tx_prefix.enc() + self.coinbase_tx_suffix.enc()
    }

    /// This job waits for a `SetNewPrevHash` naming its job id.
    pub fn is_future(&self) -> (r: bool)
        ensures
            r == (self.min_ntime.0 is None),
    {
        match self.min_ntime.0 {
            Option::None => true,
            Option::Some(_) => false,
        }
    }

    /// Marks the job as future by clearing `min_ntime`.
    pub fn set_future(&mut self)
        ensures
            *final(self) == (NewExtendedMiningJob { min_ntime: Sv2Option(None), ..*old(self) }),
    {
        self.min_ntime = Sv2Option(None);
    }

    /// Marks the job as active from `min_ntime` on.
    pub fn set_no_future(&mut self, min_ntime: u32)
        ensures
            *final(self) == (NewExtendedMiningJob {
                min_ntime: Sv2Option(Some(min_ntime)),
                ..*old(self)
            }),
    {
        self.min_ntime = Sv2Option(Some(min_ntime));
    }

    /// Where each field of a well-formed encoding lies.
    proof fn lemma_parts(m: Self, d: Seq<u8>)
        requires
            m.wf(),
            m.enc() == d,
        ensures
            ({
                let k = m.min_ntime.enc().len() as int;
                let p = m.merkle_path.enc().len() as int;
                let q = m.coinbase_tx_prefix.enc().len() as int;
                let s = m.coinbase_tx_suffix.enc().len() as int;
                &&& d.len() == 13 + k + p + q + s
                &&& spec_u32_to_le_bytes(m.channel_id) == d.subrange(0, 4)
                &&& spec_u32_to_le_bytes(m.job_id) == d.subrange(4, 8)
                &&& prefix_of(m.min_ntime.enc(), d.skip(8))
                &&& spec_u32_to_le_bytes(m.version) == d.subrange(8 + k, 12 + k)
                &&& d[12 + k] == spec_bool_to_byte(m.version_rolling_allowed)
                &&& prefix_of(m.merkle_path.enc(), d.skip(13 + k))
                &&& prefix_of(m.coinbase_tx_prefix.enc(), d.skip(13 + k + p))
                &&& prefix_of(m.coinbase_tx_suffix.enc(), d.skip(13 + k + p + q))
            }),
    {
        lemma_auto_spec_u32_to_from_le_bytes();
        Seq0255::lemma_elems_enc_len(m.merkle_path@);
        B064K::lemma_header_roundtrip(m.coinbase_tx_prefix.data@.len());
        B064K::lemma_header_roundtrip(m.coinbase_tx_suffix.data@.len());
        let k = m.min_ntime.enc().len() as int;
        let p = m.merkle_path.enc().len() as int;
        let q = m.coinbase_tx_prefix.enc().len() as int;
        let s = m.coinbase_tx_suffix.enc().len() as int;
        assert(spec_u32_to_le_bytes(m.channel_id) =~= d.subrange(0, 4));
        assert(spec_u32_to_le_bytes(m.job_id) =~= d.subrange(4, 8));
        assert(m.min_ntime.enc() =~= d.skip(8).subrange(0, k));
        assert(spec_u32_to_le_bytes(m.version) =~= d.subrange(8 + k, 12 + k));
        assert(m.merkle_path.enc() =~= d.skip(13 + k).subrange(0, p));
        assert(m.coinbase_tx_prefix.enc() =~= d.skip(13 + k + p).subrange(0, q));
        assert(m.coinbase_tx_suffix.enc() =~= d.skip(13 + k + p + q).subrange(0, s));
    }

    /// Serialized length in bytes.
    pub fn get_size(&self) -> (r: usize)
        requires
            self.wf(),
        ensures
            r == self.enc().len(),
    {
        proof {
            lemma_auto_spec_u32_to_from_le_bytes();
            Seq0255::lemma_elems_enc_len(self.merkle_path@);
            B064K::lemma_header_roundtrip(self.coinbase_tx_prefix.data@.len());
            B064K::lemma_header_roundtrip(self.coinbase_tx_suffix.data@.len());
        }
        let a = self.min_ntime.get_size();
        let b = self.merkle_path.get_size();
        let c = self.coinbase_tx_prefix.get_size();
        let d = self.coinbase_tx_suffix.get_size();
        13 + a + b + c + d
    }

    /// Encodes the message.
    pub fn to_bytes(&self) -> (r: Vec<u8>)
        requires
            self.wf(),
        ensures
            r@ == self.enc(),
    {
        let mut out: Vec<u8> = Vec::new();
        encode_u32(self.channel_id, &mut out);
        encode_u32(self.job_id, &mut out);
        self.min_ntime.encode_into(&mut out);
        encode_u32(self.version, &mut out);
        encode_bool(self.version_rolling_allowed, &mut out);
        self.merkle_path.encode_into(&mut out);
        self.coinbase_tx_prefix.encode_into(&mut out);
        self.coinbase_tx_suffix.encode_into(&mut out);
        proof {
            assert(out@ =~= self.enc());
        }
        out
    }

    /// Decodes a message that occupies `data` exactly.
    #[verifier::rlimit(100)]
    pub fn decode(data: &[u8]) -> (r: Result<Self, CodecError>)
        ensures
            r matches Ok(m) ==> m.wf() && m.enc() == data@,
            forall|m: Self| m.wf() && m.enc() == data@ ==> (r matches Ok(p) && p@ == m@),
    {
        proof {
            lemma_auto_spec_u32_to_from_le_bytes();
        }
        let channel_id = match decode_u32(data, 0) {
            Ok(v) => v,
            Err(e) => {
                proof {
                    assert forall|m: Self| !(m.wf() && m.enc() == data@) by {
                        if m.wf() && m.enc() == data@ {
                            Self::lemma_parts(m, data@);
                        }
                    }
                }
                return Err(e);
            },
        };
        let job_id = match decode_u32(data, 4) {
            Ok(v) => v,
            Err(e) => {
                proof {
                    assert forall|m: Self| !(m.wf() && m.enc() == data@) by {
                        if m.wf() && m.enc() == data@ {
                            Self::lemma_parts(m, data@);
                        }
                    }
                }
                return Err(e);
            },
        };
        let (min_ntime, n1) = match Sv2Option::decode(data, 8) {
            Ok(p) => p,
            Err(e) => {
                proof {
                    assert forall|m: Self| !(m.wf() && m.enc() == data@) by {
                        if m.wf() && m.enc() == data@ {
                            Self::lemma_parts(m, data@);
                        }
                    }
                }
                return Err(e);
            },
        };
        let version = match decode_u32(data, 8 + n1) {
            Ok(v) => v,
            Err(e) => {
                proof {
                    assert forall|m: Self| !(m.wf() && m.enc() == data@) by {
                        if m.wf() && m.enc() == data@ {
                            Self::lemma_parts(m, data@);
                        }
                    }
                }
                return Err(e);
            },
        };
        let version_rolling_allowed = match decode_bool(data, 12 + n1) {
            Ok(v) => v,
            Err(e) => {
                proof {
                    assert forall|m: Self| !(m.wf() && m.enc() == data@) by {
                        if m.wf() && m.enc() == data@ {
                            Self::lemma_parts(m, data@);
                        }
                    }
                }
                return Err(e);
            },
        };
        let (merkle_path, n2) = match Seq0255::decode(data, 13 + n1) {
            Ok(p) => p,
            Err(e) => {
                proof {
                    assert forall|m: Self| !(m.wf() && m.enc() == data@) by {
                        if m.wf() && m.enc() == data@ {
                            Self::lemma_parts(m, data@);
                        }
                    }
                }
                return Err(e);
            },
        };
        let (coinbase_tx_prefix, n3) = match B064K::decode(data, 13 + n1 + n2) {
            Ok(p) => p,
            Err(e) => {
                proof {
                    assert forall|m: Self| !(m.wf() && m.enc() == data@) by {
                        if m.wf() && m.enc() == data@ {
                            Self::lemma_parts(m, data@);
                        }
                    }
                }
                return Err(e);
            },
        };
        let (coinbase_tx_suffix, n4) = match B064K::decode(data, 13 + n1 + n2 + n3) {
            Ok(p) => p,
            Err(e) => {
                proof {
                    assert forall|m: Self| !(m.wf() && m.enc() == data@) by {
                        if m.wf() && m.enc() == data@ {
                            Self::lemma_parts(m, data@);
                        }
                    }
                }
                return Err(e);
            },
        };
        if 13 + n1 + n2 + n3 + n4 != data.len() {
            proof {
                assert forall|m: Self| !(m.wf() && m.enc() == data@) by {
                    if m.wf() && m.enc() == data@ {
                        Self::lemma_parts(m, data@);
                    }
                }
            }
            return Err(CodecError::ReadError(13 + n1 + n2 + n3 + n4, data.len()));
        }
        let out = NewExtendedMiningJob {
            channel_id,
            job_id,
            min_ntime,
            version,
            version_rolling_allowed,
            merkle_path,
            coinbase_tx_prefix,
            coinbase_tx_suffix,
        };
        proof {
            assert(out.enc() =~= data@);
            assert forall|m: Self| m.wf() && m.enc() == data@ implies out@ == m@ by {
                Self::lemma_parts(m, data@);
            }
        }
        Ok(out)
    }
}

/// Announces a change of a channel's extranonce prefix, effective for all
/// later jobs on the channel.
#[derive(Debug, Clone, PartialEq, Eq)]
pub struct SetExtranoncePrefix {
    /// Extended or standard channel identifier.
    pub channel_id: u32,
    /// Bytes used as the implicit first part of the extranonce.
    pub extranonce_prefix: B032,
}

impl View for SetExtranoncePrefix {
    type V = (u32, Seq<u8>);

    open spec fn view(&self) -> Self::V {
        (self.channel_id, self.extranonce_prefix@)
    }
}

impl SetExtranoncePrefix {
    /// The prefix respects its 32-byte bound.
    pub open spec fn wf(self) -> bool {
        self.extranonce_prefix.wf()
    }

    /// Wire form: channel id, then the length-prefixed extranonce prefix.
    pub open spec fn enc(self) -> Seq<u8> {
        spec_u32_to_le_bytes(self.channel_id) + self.extranonce_prefix.enc()
    }

    /// Where each field of a well-formed encoding lies.
    proof fn lemma_parts(m: Self, d: Seq<u8>)
        requires
            m.wf(),
            m.enc() == d,
        ensures
            d.len() == 4 + m.extranonce_prefix.enc().len(),
            spec_u32_to_le_bytes(m.channel_id) == d.subrange(0, 4),
            prefix_of(m.extranonce_prefix.enc(), d.skip(4)),
    {
        lemma_auto_spec_u32_to_from_le_bytes();
        B032::lemma_header_roundtrip(m.extranonce_prefix.data@.len());
        assert(spec_u32_to_le_bytes(m.channel_id) =~= d.subrange(0, 4));
        assert(m.extranonce_prefix.enc() =~= d.skip(4).subrange(
            0,
            m.extranonce_prefix.enc().len() as int,
        ));
    }

    /// Serialized length in bytes.
    pub fn get_size(&self) -> (r: usize)
        requires
            self.wf(),
        ensures
            r == self.enc().len(),
    {
        proof {
            lemma_auto_spec_u32_to_from_le_bytes();
        }
        4 + self.extranonce_prefix.get_size()
    }

    /// Encodes the message.
    pub fn to_bytes(&self) -> (r: Vec<u8>)
        requires
            self.wf(),
        ensures
            r@ == self.enc(),
    {
        let mut out: Vec<u8> = Vec::new();
        encode_u32(self.channel_id, &mut out);
        self.extranonce_prefix.encode_into(&mut out);
        proof {
            assert(out@ =~= self.enc());
        }
        out
    }

    /// Decodes a message that occupies `data` exactly.
    pub fn decode(data: &[u8]) -> (r: Result<Self, CodecError>)
        ensures
            r matches Ok(m) ==> m.wf() && m.enc() == data@,
            forall|m: Self| m.wf() && m.enc() == data@ ==> (r matches Ok(p) && p@ == m@),
    {
        proof {
            lemma_auto_spec_u32_to_from_le_bytes();
        }
        let channel_id = match decode_u32(data, 0) {
            Ok(v) => v,
            Err(e) => {
                proof {
                    assert forall|m: Self| !(m.wf() && m.enc() == data@) by {
                        if m.wf() && m.enc() == data@ {
                            Self::lemma_parts(m, data@);
                        }
                    }
                }
                return Err(e);
            },
        };
        let (extranonce_prefix, n1) = match B032::decode(data, 4) {
            Ok(p) => p,
            Err(e) => {
                proof {
                    assert forall|m: Self| !(m.wf() && m.enc() == data@) by {
                        if m.wf() && m.enc() == data@ {
                            Self::lemma_parts(m, data@);
                        }
                    }
                }
                return Err(e);
            },
        };
        if 4 + n1 != data.len() {
            proof {
                assert forall|m: Self| !(m.wf() && m.enc() == data@) by {
                    if m.wf() && m.enc() == data@ {
                        Self::lemma_parts(m, data@);
                    }
                }
            }
            return Err(CodecError::ReadError(4 + n1, data.len()));
        }
        let out = SetExtranoncePrefix { channel_id, extranonce_prefix };
        proof {
            assert(out.enc() =~= data@);
            assert forall|m: Self| m.wf() && m.enc() == data@ implies out@ == m@ by {
                Self::lemma_parts(m, data@);
            }
        }
        Ok(out)
    }
}

/// Announced by a downstream to end operation on a channel.
#[derive(Debug, Clone, PartialEq, Eq)]
pub struct CloseChannel {
    /// Channel to be closed.
    pub channel_id: u32,
    /// Reason for closing the channel.
    pub reason_code: Str0255,
}

impl View for CloseChannel {
    type V = (u32, Seq<u8>);

    open spec fn view(&self) -> Self::V {
        (self.channel_id, self.reason_code@)
    }
}

impl CloseChannel {
    /// The reason code respects its 255-byte bound.
    pub open spec fn wf(self) -> bool {
        self.reason_code.wf()
    }

    /// Wire form: channel id, then the length-prefixed reason code.
    pub open spec fn enc(self) -> Seq<u8> {
        spec_u32_to_le_bytes(self.channel_id) + self.reason_code.enc()
    }

    /// Where each field of a well-formed encoding lies.
    proof fn lemma_parts(m: Self, d: Seq<u8>)
        requires
            m.wf(),
            m.enc() == d,
        ensures
            d.len() == 4 + m.reason_code.enc().len(),
            spec_u32_to_le_bytes(m.channel_id) == d.subrange(0, 4),
            prefix_of(m.reason_code.enc(), d.skip(4)),
    {
        lemma_auto_spec_u32_to_from_le_bytes();
        Str0255::lemma_header_roundtrip(m.reason_code.data@.len());
        assert(spec_u32_to_le_bytes(m.channel_id) =~= d.subrange(0, 4));
        assert(m.reason_code.enc() =~= d.skip(4).subrange(0, m.reason_code.enc().len() as int));
    }

    /// Serialized length in bytes.
    pub fn get_size(&self) -> (r: usize)
        requires
            self.wf(),
        ensures
            r == self.enc().len(),
    {
        proof {
            lemma_auto_spec_u32_to_from_le_bytes();
        }
        4 + self.reason_code.get_size()
    }

    /// Encodes the message.
    pub fn to_bytes(&self) -> (r: Vec<u8>)
        requires
            self.wf(),
        ensures
            r@ == self.enc(),
    {
        let mut out: Vec<u8> = Vec::new();
        encode_u32(self.channel_id, &mut out);
        self.reason_code.encode_into(&mut out);
        proof {
            assert(out@ =~= self.enc());
        }
        out
    }

    /// Decodes a message that occupies `data` exactly.
    pub fn decode(data: &[u8]) -> (r: Result<Self, CodecError>)
        ensures
            r matches Ok(m) ==> m.wf() && m.enc() == data@,
            forall|m: Self| m.wf() && m.enc() == data@ ==> (r matches Ok(p) && p@ == m@),
    {
        proof {
            lemma_auto_spec_u32_to_from_le_bytes();
        }
        let channel_id = match decode_u32(data, 0) {
            Ok(v) => v,
            Err(e) => {
                proof {
                    assert forall|m: Self| !(m.wf() && m.enc() == data@) by {
                        if m.wf() && m.enc() == data@ {
                            Self::lemma_parts(m, data@);
                        }
                    }
                }
                return Err(e);
            },
        };
        let (reason_code, n1) = match Str0255::decode(data, 4) {
            Ok(p) => p,
            Err(e) => {
                proof {
                    assert forall|m: Self| !(m.wf() && m.enc() == data@) by {
                        if m.wf() && m.enc() == data@ {
                            Self::lemma_parts(m, data@);
                        }
                    }
                }
                return Err(e);
            },
        };
        if 4 + n1 != data.len() {
            proof {
                assert forall|m: Self| !(m.wf() && m.enc() == data@) by {
                    if m.wf() && m.enc() == data@ {
                        Self::lemma_parts(m, data@);
                    }
                }
            }
            return Err(CodecError::ReadError(4 + n1, data.len()));
        }
        let out = CloseChannel { channel_id, reason_code };
        proof {
            assert(out.enc() =~= data@);
            assert forall|m: Self| m.wf() && m.enc() == data@ implies out@ == m@ by {
                Self::lemma_parts(m, data@);
            }
        }
        Ok(out)
    }
}

} // verus!
