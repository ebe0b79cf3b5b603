use stratum_core::bridge::{JobIdMap, NextMiningNotify};
use stratum_core::datatypes::{Seq0255, Sv2Option, B064K, U256};
use stratum_core::json::to_json_bytes;
use stratum_core::mining::{NewExtendedMiningJob, SetNewPrevHash};
use stratum_core::v1::Extranonce;

const SERVER_MESSAGE: &str = r#"{"job_id":"4f","prev_hash":"4d16b6f85af6e2198f44ae2a6de67f78","coin_base1":"01000000010000000000000000000000000000000000000000000000000000000000000000ffffffff20020862062f503253482f04b8864e5008","coin_base2":"072f736c7573682f000000000100f2052a010000001976a914d23fcdf86f7e756a64a7a9688ef9903327048ed988ac00000000","merkle_branch":["4d16b6f85af6e2198f44ae2a6de67f78"],"version":"00000002","bits":"1c2ac4af","time":"504e86b9","clean_jobs":false}"#;

fn sample_prev_hash() -> SetNewPrevHash {
    SetNewPrevHash {
        channel_id: 1,
        job_id: 0x4f,
        prev_hash: U256::from_vec(b"4d16b6f85af6e2198f44ae2a6de67f78".to_vec()).unwrap(),
        min_ntime: 1347323577,
        nbits: 472564911,
    }
}

fn sample_job(job_id: u32) -> NewExtendedMiningJob {
    NewExtendedMiningJob {
        channel_id: 1,
        job_id,
        min_ntime: Sv2Option::new(None),
        version: 2,
        version_rolling_allowed: false,
        merkle_path: Seq0255::new(vec![
            U256::from_vec(b"4d16b6f85af6e2198f44ae2a6de67f78".to_vec()).unwrap(),
        ])
        .unwrap(),
        coinbase_tx_prefix: B064K::from_vec(
            b"01000000010000000000000000000000000000000000000000000000000000000000000000ffffffff20020862062f503253482f04b8864e5008".to_vec(),
        )
        .unwrap(),
        coinbase_tx_suffix: B064K::from_vec(
            b"072f736c7573682f000000000100f2052a010000001976a914d23fcdf86f7e756a64a7a9688ef9903327048ed988ac00000000".to_vec(),
        )
        .unwrap(),
    }
}

#[test]
fn bridge_mints_the_expected_notify() {
    let mut bridge = NextMiningNotify::new();
    assert!(bridge.create_notify().is_none());
    bridge.set_new_prev_hash_msg(sample_prev_hash());
    assert!(bridge.create_notify().is_none());
    bridge.new_extended_mining_job_msg(sample_job(0x4f));
    let notify = bridge.create_notify().unwrap();
    let serialized = to_json_bytes(&notify.to_json());
    assert_eq!(String::from_utf8(serialized).unwrap(), SERVER_MESSAGE);
}

#[test]
fn bridge_second_job_replaces_the_first() {
    let mut bridge = NextMiningNotify::new();
    bridge.set_new_prev_hash_msg(sample_prev_hash());
    let mut second = sample_job(0x4f);
    second.version = 7;
    bridge.new_extended_mining_job_msg(sample_job(0x4f));
    bridge.new_extended_mining_job_msg(second.clone());
    assert_eq!(bridge.new_extended_mining_job, Some(second));
    // Only one notify comes out of the pair, built from the latest job.
    let notify = bridge.create_notify().unwrap();
    assert_eq!(notify.version.0, 7);
}

#[test]
fn job_id_map_replaces_previous_mapping() {
    let mut map = JobIdMap::new();
    map.add_job_id(10, 1, None);
    assert_eq!(map.upstream_from_job_id(10), Some(1));
    // A new job replaces job 10: its mapping is removed first.
    map.add_job_id(11, 2, Some(10));
    assert_eq!(map.upstream_from_job_id(10), None);
    assert_eq!(map.upstream_from_job_id(11), Some(2));
    assert_eq!(map.upstream_from_job_id(12), None);
}

#[test]
fn subscribe_response_shape() {
    let bridge = NextMiningNotify::new();
    let message = bridge.create_subscribe_response(
        Extranonce(vec![1, 2, 3, 4]),
        4,
        b"ae6812eb4cd7735a302a8a9dd95cf71f".to_vec(),
        b"10".to_vec(),
    );
    match message {
        stratum_core::json_rpc::Message::OkResponse(p) => {
            assert_eq!(p.id, 1);
            assert!(p.error.is_none());
            let out = to_json_bytes(&p.result);
            let text = String::from_utf8(out).unwrap();
            assert!(text.contains("mining.set_difficulty"));
            assert!(text.contains("mining.notify"));
            assert!(text.contains("01020304"));
        },
        other => panic!("not a response: {:?}", other),
    }
}
