//! Template-distribution sub-protocol messages.

use vstd::prelude::*;
use vstd::bytes::*;
use crate::codec::CodecError;
use crate::codec::encode_u32;
use crate::codec::encode_u64;
use crate::codec::decode_u32;
use crate::codec::decode_u64;
use crate::datatypes::U256;

verus! {

/// Latest block header hash to mine on, sent by the template provider as
/// soon as it validates a new best block.
#[derive(Debug, Clone, PartialEq, Eq)]
pub struct SetNewPrevHash {
    /// Template to mine on, as announced by an earlier template message.
    pub template_id: u64,
    /// Previous block's hash, as it must appear in the next block's header.
    pub prev_hash: U256,
    /// Block header time field the downstream should start at.
    pub header_timestamp: u32,
    /// Block header difficulty field.
    pub n_bits: u32,
    /// Largest hash value that would make a valid block.
    pub target: U256,
}

impl View for SetNewPrevHash {
    type V = (u64, Seq<u8>, u32, u32, Seq<u8>);

    open spec fn view(&self) -> Self::V {
        (self.template_id, self.prev_hash@, self.header_timestamp, self.n_bits, self.target@)
    }
}

impl SetNewPrevHash {
    /// The two hashes hold exactly 32 bytes each.
    pub open spec fn wf(self) -> bool {
        self.prev_hash.wf() && self.target.wf()
    }

    /// Wire form: the five fields in order, integers little-endian.
    pub open spec fn enc(self) -> Seq<u8> {
        spec_u64_to_le_bytes(self.template_id) + self.prev_hash.enc() + spec_u32_to_le_bytes(
            self.header_timestamp,
        ) + spec_u32_to_le_bytes(self.n_bits) + self.target.enc()
    }

    /// Serialized length in bytes.
    pub fn get_size(&self) -> (r: usize)
        requires
            self.wf(),
        ensures
            r == self.enc().len(),
    {
        proof {
            lemma_auto_spec_u32_to_from_le_bytes();
            lemma_auto_spec_u64_to_from_le_bytes();
        }
        80
    }

    /// Encodes the message.
    pub fn to_bytes(&self) -> (r: Vec<u8>)
        requires
            self.wf(),
        ensures
            r@ == self.enc(),
    {
        let mut out: Vec<u8> = Vec::new();
        encode_u64(self.template_id, &mut out);
        self.prev_hash.encode_into(&mut out);
        encode_u32(self.header_timestamp, &mut out);
        encode_u32(self.n_bits, &mut out);
        self.target.encode_into(&mut out);
        proof {
            assert(out@ =~= self.enc());
        }
        out
    }

    /// Decodes a message that occupies `data` exactly.
    ///
    /// Every 80-byte buffer is a well-formed encoding and decodes; any other
    /// length is rejected.
    pub fn decode(data: &[u8]) -> (r: Result<Self, CodecError>)
        ensures
            r matches Ok(m) ==> m.wf() && m.enc() == data@,
            forall|m: Self| m.wf() && m.enc() == data@ ==> (r matches Ok(p) && p@ == m@),
            data@.len() == 80 ==> r is Ok,
            data@.len() != 80 ==> r is Err,
    {
        proof {
            lemma_auto_spec_u32_to_from_le_bytes();
            lemma_auto_spec_u64_to_from_le_bytes();
        }
        if data.len() < 80 {
            proof {
                assert forall|m: Self| m.wf() implies m.enc() != data@ by {
                    assert(m.enc().len() == 80);
                }
            }
            return Err(CodecError::OutOfBound);
        }
        if data.len() > 80 {
            proof {
                assert forall|m: Self| m.wf() implies m.enc() != data@ by {
                    assert(m.enc().len() == 80);
                }
            }
            return Err(CodecError::ReadError(80, data.len()));
        }
        let template_id = match decode_u64(data, 0) {
            Ok(v) => v,
            Err(e) => {
                return Err(e);
            },
        };
        let prev_hash = match U256::decode(data, 8) {
            Ok(p) => p.0,
            Err(e) => {
                return Err(e);
            },
        };
        let header_timestamp = match decode_u32(data, 40) {
            Ok(v) => v,
            Err(e) => {
                return Err(e);
            },
        };
        let n_bits = match decode_u32(data, 44) {
            Ok(v) => v,
            Err(e) => {
                return Err(e);
            },
        };
        let target = match U256::decode(data, 48) {
            Ok(p) => p.0,
            Err(e) => {
                return Err(e);
            },
        };
        let out = SetNewPrevHash { template_id, prev_hash, header_timestamp, n_bits, target };
        proof {
            assert(out.enc() =~= data@);
            assert forall|m: Self| m.wf() && m.enc() == data@ implies out@ == m@ by {
                assert(spec_u64_to_le_bytes(m.template_id) =~= m.enc().subrange(0, 8));
                assert(m.enc().subrange(0, 8) =~= data@.subrange(0, 8));
                assert(m.prev_hash@ =~= m.enc().subrange(8, 40));
                assert(m.enc().subrange(8, 40) =~= data@.subrange(8, 40));
                assert(spec_u32_to_le_bytes(m.header_timestamp) =~= m.enc().subrange(40, 44));
                assert(m.enc().subrange(40, 44) =~= data@.subrange(40, 44));
                assert(spec_u32_to_le_bytes(m.n_bits) =~= m.enc().subrange(44, 48));
                assert(m.enc().subrange(44, 48) =~= data@.subrange(44, 48));
                assert(m.target@ =~= m.enc().subrange(48, 80));
                assert(m.enc().subrange(48, 80) =~= data@.subrange(48, 80));
            }
        }
        Ok(out)
    }
}

} // verus!
