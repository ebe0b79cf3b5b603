use stratum_core::common_messages::{Protocol, SetupConnection, SetupConnectionSuccess};
use stratum_core::codec::CodecError;
use stratum_core::datatypes::{Inner, Seq0255, Str0255, Sv2Option, B032, B064K, U256};
use stratum_core::job_declaration::{
    parse_job_declaration, AllocateMiningJobToken, JobDeclaration,
    MESSAGE_TYPE_ALLOCATE_MINING_JOB_TOKEN,
};
use stratum_core::mining::{CloseChannel, NewExtendedMiningJob, NewMiningJob, SetExtranoncePrefix};
use stratum_core::setup_connection::SetupConnectionHandler;
use stratum_core::template_distribution;

#[test]
fn new_mining_job_round_trip() {
    let msg = NewMiningJob {
        channel_id: 7,
        job_id: 1,
        min_ntime: Sv2Option::new(Some(42)),
        version: 0x20000000,
        merkle_root: B032::from_vec(vec![0xab; 32]).unwrap(),
    };
    let bytes = msg.to_bytes();
    assert_eq!(bytes.len(), msg.get_size());
    let back = NewMiningJob::decode(bytes.as_slice()).unwrap();
    assert_eq!(back, msg);
    assert!(!msg.is_future());
}

#[test]
fn new_extended_mining_job_round_trip() {
    let msg = NewExtendedMiningJob {
        channel_id: 2,
        job_id: 0x4f,
        min_ntime: Sv2Option::new(None),
        version: 2,
        version_rolling_allowed: true,
        merkle_path: Seq0255::new(vec![U256::from_vec(vec![0x11; 32]).unwrap()]).unwrap(),
        coinbase_tx_prefix: B064K::from_vec(vec![1, 2, 3]).unwrap(),
        coinbase_tx_suffix: B064K::from_vec(vec![4, 5]).unwrap(),
    };
    let bytes = msg.to_bytes();
    assert_eq!(bytes.len(), msg.get_size());
    let back = NewExtendedMiningJob::decode(bytes.as_slice()).unwrap();
    assert_eq!(back, msg);
    assert!(msg.is_future());
}

#[test]
fn close_channel_round_trip() {
    let msg = CloseChannel {
        channel_id: 9,
        reason_code: Str0255::from_vec(b"done".to_vec()).unwrap(),
    };
    let bytes = msg.to_bytes();
    assert_eq!(bytes.len(), msg.get_size());
    assert_eq!(CloseChannel::decode(bytes.as_slice()).unwrap(), msg);
}

#[test]
fn set_extranonce_prefix_round_trip() {
    let msg = SetExtranoncePrefix {
        channel_id: 3,
        extranonce_prefix: B032::from_vec(vec![1, 2, 3, 4]).unwrap(),
    };
    let bytes = msg.to_bytes();
    assert_eq!(CloseChannel::decode(&[]).is_err(), true);
    assert_eq!(SetExtranoncePrefix::decode(bytes.as_slice()).unwrap(), msg);
}

#[test]
fn template_set_new_prev_hash_round_trip() {
    let msg = template_distribution::SetNewPrevHash {
        template_id: 99,
        prev_hash: U256::from_vec(vec![7; 32]).unwrap(),
        header_timestamp: 1_347_323_577,
        n_bits: 0x1c2ac4af,
        target: U256::from_vec(vec![0xff; 32]).unwrap(),
    };
    let bytes = msg.to_bytes();
    assert_eq!(bytes.len(), 80);
    assert_eq!(
        template_distribution::SetNewPrevHash::decode(bytes.as_slice()).unwrap(),
        msg
    );
}

#[test]
fn setup_connection_round_trip() {
    let msg = SetupConnectionHandler::get_setup_connection_message(b"127.0.0.1".to_vec(), 8442)
        .unwrap();
    assert_eq!(msg.protocol, Protocol::TemplateDistributionProtocol);
    assert_eq!(msg.min_version, 2);
    assert_eq!(msg.max_version, 2);
    let bytes = msg.to_bytes();
    assert_eq!(bytes.len(), msg.get_size());
    let back = SetupConnection::decode(bytes.as_slice()).unwrap();
    assert_eq!(back, msg);
}

#[test]
fn setup_connection_rejects_unknown_protocol() {
    let msg = SetupConnectionHandler::get_setup_connection_message(b"h".to_vec(), 1).unwrap();
    let mut bytes = msg.to_bytes();
    bytes[0] = 9;
    assert_eq!(
        SetupConnection::decode(bytes.as_slice()),
        Err(CodecError::ValueIsNotAValidProtocol(9))
    );
}

#[test]
fn setup_connection_success_round_trip() {
    let msg = SetupConnectionSuccess { used_version: 2, flags: 0 };
    let bytes = msg.to_bytes();
    assert_eq!(bytes, vec![2, 0, 0, 0, 0, 0]);
    assert_eq!(SetupConnectionSuccess::decode(bytes.as_slice()).unwrap(), msg);
    // Trailing bytes are rejected: the payload must be the message exactly.
    let mut longer = bytes.clone();
    longer.push(0);
    assert!(SetupConnectionSuccess::decode(longer.as_slice()).is_err());
}

#[test]
fn job_declaration_parse_dispatch() {
    let msg = AllocateMiningJobToken {
        user_identifier: Str0255::from_vec(b"miner01".to_vec()).unwrap(),
        request_id: 4,
    };
    let bytes = msg.to_bytes();
    match parse_job_declaration(MESSAGE_TYPE_ALLOCATE_MINING_JOB_TOKEN, bytes.as_slice()) {
        Ok(JobDeclaration::AllocateMiningJobToken(back)) => assert_eq!(back, msg),
        other => panic!("unexpected parse result: {:?}", other),
    }
    assert_eq!(
        parse_job_declaration(0x7f, bytes.as_slice()),
        Err(CodecError::UnknownMessageType(0x7f))
    );
}

#[test]
fn fixed_size_messages_reject_wrong_length() {
    let short = vec![0u8; 47];
    assert_eq!(
        stratum_core::mining::SetNewPrevHash::decode(short.as_slice()),
        Err(CodecError::OutOfBound)
    );
    let long = vec![0u8; 49];
    assert_eq!(
        stratum_core::mining::SetNewPrevHash::decode(long.as_slice()),
        Err(CodecError::ReadError(48, 49))
    );
    let ok = vec![0u8; 48];
    assert!(stratum_core::mining::SetNewPrevHash::decode(ok.as_slice()).is_ok());
    let _ = Inner::<true, 6, 0, 0>::from_vec(vec![0; 6]).unwrap();
}

#[test]
fn setup_connection_host_must_be_utf8() {
    assert!(SetupConnectionHandler::get_setup_connection_message(vec![0xff, 0xfe], 1).is_err());
}
