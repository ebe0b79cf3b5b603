use stratum_core::datatypes::U256;
use stratum_core::json::{parse_json, to_json_bytes, JsonValue};
use stratum_core::json_rpc::{Notification, Response};
use stratum_core::v1::{
    hex_decode, hex_encode, Configure, HexBytes, HexU32Be, MerkleNode, Notify, PrevHash,
    SetVersionMask, VersionRollingParams,
};

const SERVER_MESSAGE: &str = r#"{"job_id":"4f","prev_hash":"4d16b6f85af6e2198f44ae2a6de67f78","coin_base1":"01000000010000000000000000000000000000000000000000000000000000000000000000ffffffff20020862062f503253482f04b8864e5008","coin_base2":"072f736c7573682f000000000100f2052a010000001976a914d23fcdf86f7e756a64a7a9688ef9903327048ed988ac00000000","merkle_branch":["4d16b6f85af6e2198f44ae2a6de67f78"],"version":"00000002","bits":"1c2ac4af","time":"504e86b9","clean_jobs":false}"#;

fn sample_notify() -> Notify {
    Notify {
        job_id: b"4f".to_vec(),
        prev_hash: PrevHash(
            U256::from_vec(b"4d16b6f85af6e2198f44ae2a6de67f78".to_vec()).unwrap(),
        ),
        coin_base1: HexBytes(
            b"01000000010000000000000000000000000000000000000000000000000000000000000000ffffffff20020862062f503253482f04b8864e5008".to_vec(),
        ),
        coin_base2: HexBytes(
            b"072f736c7573682f000000000100f2052a010000001976a914d23fcdf86f7e756a64a7a9688ef9903327048ed988ac00000000".to_vec(),
        ),
        merkle_branch: vec![MerkleNode(
            U256::from_vec(b"4d16b6f85af6e2198f44ae2a6de67f78".to_vec()).unwrap(),
        )],
        version: HexU32Be(2),
        bits: HexU32Be(472564911),
        time: HexU32Be(1347323577),
        clean_jobs: false,
    }
}

#[test]
fn test_notify_serialization() {
    let notify = sample_notify();
    let serialized = to_json_bytes(&notify.to_json());
    assert_eq!(String::from_utf8(serialized).unwrap(), SERVER_MESSAGE);
}

#[test]
fn test_notify_serde() {
    let parsed = parse_json(SERVER_MESSAGE.as_bytes()).unwrap();
    let serialized = to_json_bytes(&parsed);
    assert_eq!(String::from_utf8(serialized).unwrap(), SERVER_MESSAGE);
}

/// Splits a parsed `{"id":...,"result":...}` object into a response.
fn response_from_json(v: JsonValue) -> Response {
    let fields = match v {
        JsonValue::Object(fields) => fields,
        other => panic!("not an object: {:?}", other),
    };
    let mut id: Option<u64> = None;
    let mut result: Option<JsonValue> = None;
    for (name, value) in fields {
        if name == b"id" {
            match value {
                JsonValue::Number(n) => id = Some(n),
                other => panic!("id is not a number: {:?}", other),
            }
        } else if name == b"result" {
            result = Some(value);
        }
    }
    Response { id: id.unwrap(), error: None, result: result.unwrap() }
}

#[test]
fn configure_response_parsing_all_fields() {
    let client_response_str = r#"{"id":0,
            "result":{
                "version-rolling":true,
                "version-rolling.mask":"1fffe000",
                "version-rolling.min-bit-count":"00000005",
                "minimum-difficulty":false
            }
        }"#;
    let client_response = response_from_json(parse_json(client_response_str.as_bytes()).unwrap());
    let server_configure = Configure::from_response(&client_response).unwrap();

    let version_rolling = server_configure.version_rolling.unwrap();
    assert_eq!(version_rolling.version_rolling, true);
    assert_eq!(version_rolling.version_rolling_mask, HexU32Be(0x1fffe000));
    assert_eq!(version_rolling.version_rolling_min_bit_count, HexU32Be(5));

    assert_eq!(server_configure.minimum_difficulty, Some(false));
}

#[test]
fn configure_response_parsing_no_vr_min_bit_count() {
    let client_response_str = r#"{"id":0,
            "result":{
                "version-rolling":true,
                "version-rolling.mask":"1fffe000",
                "minimum-difficulty":false
            }
        }"#;
    let client_response = response_from_json(parse_json(client_response_str.as_bytes()).unwrap());
    let server_configure = Configure::from_response(&client_response).unwrap();

    let version_rolling = server_configure.version_rolling.unwrap();
    assert_eq!(version_rolling.version_rolling, true);
    assert_eq!(version_rolling.version_rolling_mask, HexU32Be(0x1fffe000));
    assert_eq!(version_rolling.version_rolling_min_bit_count, HexU32Be(0));

    assert_eq!(server_configure.minimum_difficulty, Some(false));
}

#[test]
fn notify_round_trips_through_notification() {
    let notify = sample_notify();
    let message = notify.clone().into_message();
    let params = match message {
        stratum_core::json_rpc::Message::Notification(n) => {
            assert_eq!(n.method, b"mining.notify".to_vec());
            n.params
        },
        other => panic!("not a notification: {:?}", other),
    };
    let back = Notify::from_notification(&Notification {
        method: b"mining.notify".to_vec(),
        params,
    })
    .unwrap();
    assert_eq!(back, notify);
}

#[test]
fn version_rolling_params_negotiate_mask() {
    let p = VersionRollingParams::new(HexU32Be(0xffffffff), HexU32Be(2)).unwrap();
    assert_eq!(p.version_rolling, true);
    assert_eq!(p.version_rolling_mask, HexU32Be(0x1fffe000));
    assert_eq!(p.version_rolling_min_bit_count, HexU32Be(2));
}

#[test]
fn set_version_mask_round_trip() {
    let msg = SetVersionMask { version_mask: HexU32Be(0x1fffe000) };
    let message = msg.clone().into_message();
    let notification = match message {
        stratum_core::json_rpc::Message::Notification(n) => n,
        other => panic!("not a notification: {:?}", other),
    };
    assert_eq!(SetVersionMask::from_notification(&notification).unwrap(), msg);
}

#[test]
fn hex_codec_round_trip() {
    let bytes = vec![0x00u8, 0x1f, 0xab, 0xff];
    let text = hex_encode(bytes.as_slice());
    assert_eq!(text, b"001fabff".to_vec());
    assert_eq!(hex_decode(text.as_slice()).unwrap(), bytes);
    assert_eq!(hex_decode(b"1FFe"), Some(vec![0x1f, 0xfe]));
    assert_eq!(hex_decode(b"abc"), None);
    assert_eq!(hex_decode(b"zz"), None);
    assert_eq!(HexU32Be::from_bytes(b"1fffe000"), Some(HexU32Be(0x1fffe000)));
    assert_eq!(HexU32Be::from_bytes(b"00000005"), Some(HexU32Be(5)));
    assert_eq!(HexU32Be::from_bytes(b"123456789"), None);
}

#[test]
fn json_parser_handles_whitespace_and_escapes() {
    let text = " { \"a\" : [ 1 , \"x\\ny\" , true , null ] } ";
    let v = parse_json(text.as_bytes()).unwrap();
    let out = to_json_bytes(&v);
    assert_eq!(String::from_utf8(out).unwrap(), "{\"a\":[1,\"x\\ny\",true,null]}");
    assert!(parse_json(b"{").is_err());
    assert!(parse_json(b"1 2").is_err());
}
