//! The V1<->V2 translator bridge: pairs the latest mining `SetNewPrevHash`
//! with the latest `NewExtendedMiningJob` and mints the V1 `mining.notify`;
//! keeps the map from V2 job ids to upstream ids.

use vstd::prelude::*;
use vstd::string::StrSliceExecFns;
use vstd::string::StringSliceAdditionalSpecFns;
use std::collections::HashMap;
use crate::mining::SetNewPrevHash;
use crate::mining::NewExtendedMiningJob;
use crate::v1::Notify;
use crate::v1::PrevHash;
use crate::v1::MerkleNode;
use crate::v1::HexBytes;
use crate::v1::HexU32Be;
use crate::v1::Subscribe;
use crate::v1::Extranonce;
use crate::v1::hex_min;
use crate::json::JsonValue;
use crate::json_rpc::Message;
use crate::datatypes::Inner;

verus! {

/// The two upstream messages the next `mining.notify` is built from.
#[derive(Debug, Clone, PartialEq, Eq)]
pub struct NextMiningNotify {
    /// Latest mining `SetNewPrevHash` received from the upstream.
    pub set_new_prev_hash: Option<SetNewPrevHash>,
    /// Latest `NewExtendedMiningJob` received from the upstream.
    pub new_extended_mining_job: Option<NewExtendedMiningJob>,
}

impl NextMiningNotify {
    /// The held messages are well formed.
    pub open spec fn wf(self) -> bool {
        &&& (self.set_new_prev_hash matches Some(p) ==> p.wf())
        &&& (self.new_extended_mining_job matches Some(j) ==> j.wf())
    }

    /// An empty pair: no notify can be minted yet.
    pub fn new() -> (r: Self)
        ensures
            r.set_new_prev_hash is None,
            r.new_extended_mining_job is None,
            r.wf(),
    {
        NextMiningNotify { set_new_prev_hash: None, new_extended_mining_job: None }
    }

    /// Records the latest `SetNewPrevHash`; the slot is replaced.
    pub fn set_new_prev_hash_msg(&mut self, set_new_prev_hash: SetNewPrevHash)
        ensures
            final(self).set_new_prev_hash == Some(set_new_prev_hash),
            final(self).new_extended_mining_job == old(self).new_extended_mining_job,
    {
        self.set_new_prev_hash = Some(set_new_prev_hash);
    }

    /// Records the latest `NewExtendedMiningJob`; a second job replaces the
    /// first, whatever its job id.
    pub fn new_extended_mining_job_msg(&mut self, new_extended_mining_job: NewExtendedMiningJob)
        ensures
            final(self).new_extended_mining_job == Some(new_extended_mining_job),
            final(self).set_new_prev_hash == old(self).set_new_prev_hash,
    {
        self.new_extended_mining_job = Some(new_extended_mining_job);
    }

    /// Mints the V1 `mining.notify`, exactly when both slots are present:
    /// the job id as shortest hex, the previous hash and coinbase parts as
    /// they are, the merkle path entry for entry, the integers as V1 hex,
    /// and `clean_jobs` false.
    pub fn create_notify(&self) -> (r: Option<Notify>)
        requires
            self.wf(),
        ensures
            (self.set_new_prev_hash is Some && self.new_extended_mining_job is Some) <==> r
                is Some,
            r matches Some(n) ==> ({
                let nph = self.set_new_prev_hash->0;
                let job = self.new_extended_mining_job->0;
                &&& n.wf()
                &&& n.job_id@ == hex_min(nph.job_id as nat)
                &&& n.prev_hash.0@ == nph.prev_hash@
                &&& n.coin_base1.0@ == job.coinbase_tx_prefix@
                &&& n.coin_base2.0@ == job.coinbase_tx_suffix@
                &&& n.merkle_branch@.len() == job.merkle_path@.len()
                &&& (forall|i: int|
                    0 <= i < n.merkle_branch@.len() ==> (#[trigger] n.merkle_branch@[i]).0@
                        == job.merkle_path@[i])
                &&& n.version.0 == job.version
                &&& n.bits.0 == nph.nbits
                &&& n.time.0 == nph.min_ntime
                &&& n.clean_jobs == false
            }),
    {
        let nph = match &self.set_new_prev_hash {
            Some(p) => p,
            None => {
                return None;
            },
        };
        let job = match &self.new_extended_mining_job {
            Some(j) => j,
            None => {
                return None;
            },
        };
        let job_id = crate::v1::u32_to_hex_min(nph.job_id);
        let prev_hash = PrevHash(Inner { data: nph.prev_hash.to_vec() });
        let coin_base1 = HexBytes(job.coinbase_tx_prefix.to_vec());
        let coin_base2 = HexBytes(job.coinbase_tx_suffix.to_vec());
        let mut merkle_branch: Vec<MerkleNode> = Vec::new();
        let mut i: usize = 0;
        while i < job.merkle_path.0.len()
            invariant
                self.new_extended_mining_job matches Some(j) && j == job && job.wf(),
                i <= job.merkle_path.0@.len(),
                merkle_branch@.len() == i,
                forall|k: int|
                    0 <= k < i ==> (#[trigger] merkle_branch@[k]).0@ == job.merkle_path@[k]
                        && merkle_branch@[k].wf(),
            decreases job.merkle_path.0@.len() - i,
        {
            merkle_branch.push(MerkleNode(Inner { data: job.merkle_path.0[i].to_vec() }));
            i = i + 1;
        }
        let version = HexU32Be(job.version);
        let bits = HexU32Be(nph.nbits);
        let time = HexU32Be(nph.min_ntime);
        let out = Notify {
            job_id,
            prev_hash,
            coin_base1,
            coin_base2,
            merkle_branch,
            version,
            bits,
            time,
            clean_jobs: false,
        };
        Some(out)
    }

    /// Builds the answer to `mining.subscribe`: one subscription pair made
    /// of the set-difficulty and notify subscription texts, the given
    /// extranonce hex encoded, and the extranonce counter size.
    pub fn create_subscribe_response(
        &self,
        extra_nonce1: Extranonce,
        extra_nonce2_size: usize,
        subscription_id: Vec<u8>,
        difficulty_text: Vec<u8>,
    ) -> (r: Message)
        ensures
            ({
                &&& r matches Message::OkResponse(p)
                &&& p.id == 1
                &&& p.error is None
                &&& p.result is Array
                &&& ({
                    let ps = p.result->Array_0@;
                    &&& ps.len() == 3
                    &&& ps[0] is Array
                    &&& ps[0]->Array_0@.len() == 1
                    &&& ps[0]->Array_0@[0] is Array
                    &&& ps[0]->Array_0@[0]->Array_0@.len() == 2
                    &&& (ps[0]->Array_0@[0]->Array_0@[0] matches JsonValue::Str(a) && a@ == (
                    "[\"mining.set_difficulty\", \"").spec_bytes() + difficulty_text@ + (
                    "\"]").spec_bytes())
                    &&& (ps[0]->Array_0@[0]->Array_0@[1] matches JsonValue::Str(b) && b@ == (
                    "[\"mining.notify\", \"").spec_bytes() + subscription_id@ + (
                    "\"]").spec_bytes())
                    &&& (ps[1] matches JsonValue::Str(x) && x@ == crate::v1::hex_of_bytes(
                        extra_nonce1.0@,
                    ))
                    &&& ps[2] == JsonValue::Number(extra_nonce2_size as u64)
                })
            }),
    {
        let mut set_difficulty_str: Vec<u8> = "[\"mining.set_difficulty\", \"".as_bytes_vec();
        let mut dt = difficulty_text;
        set_difficulty_str.append(&mut dt);
        let mut tail1 = "\"]".as_bytes_vec();
        set_difficulty_str.append(&mut tail1);
        let mut notify_str: Vec<u8> = "[\"mining.notify\", \"".as_bytes_vec();
        let mut sid = subscription_id;
        notify_str.append(&mut sid);
        let mut tail2 = "\"]".as_bytes_vec();
        notify_str.append(&mut tail2);
        let mut subscriptions: Vec<(Vec<u8>, Vec<u8>)> = Vec::new();
        subscriptions.push((set_difficulty_str, notify_str));
        let subscribe_response = Subscribe {
            id: 1,
            extra_nonce1,
            extra_nonce2_size,
            subscriptions,
        };
        subscribe_response.into_message()
    }
}

/// The map from downstream-visible V2 job ids to the upstream that issued
/// them.
pub struct JobIdMap {
    map: HashMap<u32, u32>,
}

impl JobIdMap {
    /// The held associations.
    pub closed spec fn view(self) -> Map<u32, u32> {
        self.map@
    }

    /// An empty map.
    pub fn new() -> (r: Self)
        ensures
            r@ == Map::<u32, u32>::empty(),
    {
        proof {
            broadcast use vstd::std_specs::hash::group_hash_axioms;

        }
        JobIdMap { map: HashMap::new() }
    }

    /// Records a new job from an upstream. The mapping the replaced job held
    /// is removed before the new one is inserted.
    pub fn add_job_id(&mut self, job_id: u32, up_id: u32, prev_job_id: Option<u32>)
        ensures
            final(self)@ == (match prev_job_id {
                Some(p) => old(self)@.remove(p).insert(job_id, up_id),
                None => old(self)@.insert(job_id, up_id),
            }),
    {
        proof {
            broadcast use vstd::std_specs::hash::group_hash_axioms;

        }
        match prev_job_id {
            Some(p) => {
                self.map.remove(&p);
            },
            None => {},
        }
        self.map.insert(job_id, up_id);
    }

    /// The upstream a job id belongs to, if any.
    pub fn upstream_from_job_id(&self, job_id: u32) -> (r: Option<u32>)
        ensures
            self@.contains_key(job_id) ==> r == Some(self@[job_id]),
            !self@.contains_key(job_id) ==> r is None,
    {
        proof {
            broadcast use vstd::std_specs::hash::group_hash_axioms;

        }
        match self.map.get(&job_id) {
            Some(v) => Some(*v),
            None => None,
        }
    }
}

} // verus!
