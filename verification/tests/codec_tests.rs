use stratum_core::codec::{decode_bool, decode_u24, encode_u24, CodecError};
use stratum_core::datatypes::{
    str0255_from_utf8, utf8_ok, Inner, Seq0255, Sv2Option, B0255, B032, U24, U256,
};

#[test]
fn u24_round_trip() {
    for x in [0u32, 1, 46, 0xabcd, 0xffffff] {
        let mut buf: Vec<u8> = Vec::new();
        encode_u24(x, &mut buf);
        assert_eq!(buf.len(), 3);
        let back = decode_u24(buf.as_slice(), 0).unwrap();
        assert_eq!(back, x);
    }
    assert_eq!(U24::new(0x1000000), Err(CodecError::U24TooBig(0x1000000)));
    assert_eq!(U24::new(0xffffff), Ok(U24(0xffffff)));
}

#[test]
fn bool_strictness() {
    assert_eq!(decode_bool(&[0u8], 0), Ok(false));
    assert_eq!(decode_bool(&[1u8], 0), Ok(true));
    assert_eq!(decode_bool(&[2u8], 0), Err(CodecError::NotABool(2)));
}

#[test]
fn bounded_string_rejection() {
    let too_long = vec![0u8; 256];
    match B0255::from_vec(too_long) {
        Err(CodecError::ValueExceedsMaxSize(false, 1, 1, 255, v, n)) => {
            assert_eq!(v.len(), 256);
            assert_eq!(n, 256);
        },
        other => panic!("unexpected result: {:?}", other),
    }
    // A B032 header that declares more than 32 bytes is rejected the same way.
    let mut wire = vec![33u8];
    wire.extend_from_slice(&[0u8; 33]);
    match B032::decode(wire.as_slice(), 0) {
        Err(CodecError::ValueExceedsMaxSize(false, 1, 1, 32, _, n)) => assert_eq!(n, 33),
        other => panic!("unexpected result: {:?}", other),
    }
}

#[test]
fn bounded_string_round_trip() {
    let value = B0255::from_vec(vec![9u8, 8, 7]).unwrap();
    let mut wire: Vec<u8> = Vec::new();
    value.encode_into(&mut wire);
    assert_eq!(wire, vec![3u8, 9, 8, 7]);
    let (back, used) = B0255::decode(wire.as_slice(), 0).unwrap();
    assert_eq!(used, 4);
    assert_eq!(back, value);
    assert_eq!(value.get_size(), 4);
}

#[test]
fn fixed_bytes_round_trip() {
    let bytes: Vec<u8> = (0..32).collect();
    let value = U256::from_vec(bytes.clone()).unwrap();
    let mut wire: Vec<u8> = Vec::new();
    value.encode_into(&mut wire);
    assert_eq!(wire, bytes);
    let (back, used) = U256::decode(wire.as_slice(), 0).unwrap();
    assert_eq!(used, 32);
    assert_eq!(back, value);
    assert!(U256::from_vec(vec![0u8; 31]).is_err());
}

#[test]
fn sv2_option_round_trip() {
    let none = Sv2Option::new(None);
    let mut wire: Vec<u8> = Vec::new();
    none.encode_into(&mut wire);
    assert_eq!(wire, vec![0u8]);
    let (back, used) = Sv2Option::decode(wire.as_slice(), 0).unwrap();
    assert_eq!(used, 1);
    assert_eq!(back.into_inner(), None);

    let some = Sv2Option::new(Some(42));
    let mut wire: Vec<u8> = Vec::new();
    some.encode_into(&mut wire);
    assert_eq!(wire, vec![1u8, 42, 0, 0, 0]);
    let (back, used) = Sv2Option::decode(wire.as_slice(), 0).unwrap();
    assert_eq!(used, 5);
    assert_eq!(back.into_inner(), Some(42));

    assert_eq!(
        Sv2Option::decode(&[2u8, 0, 0, 0, 0, 0, 0, 0, 0], 0),
        Err(CodecError::Sv2OptionHaveMoreThenOneElement(2))
    );
}

#[test]
fn seq0255_round_trip() {
    let a = U256::from_vec(vec![1u8; 32]).unwrap();
    let b = U256::from_vec(vec![2u8; 32]).unwrap();
    let seq = Seq0255::new(vec![a, b]).unwrap();
    let mut wire: Vec<u8> = Vec::new();
    seq.encode_into(&mut wire);
    assert_eq!(wire.len(), 1 + 64);
    assert_eq!(wire[0], 2);
    let (back, used) = Seq0255::decode(wire.as_slice(), 0).unwrap();
    assert_eq!(used, 65);
    assert_eq!(back, seq);
    assert_eq!(seq.get_size(), 65);
}

#[test]
fn size_hint_reports_totals() {
    // A complete B0255 value: total equals its encoded length.
    assert_eq!(B0255::size_hint(&[3u8, 9, 8, 7], 0), Ok(4));
    // A strict prefix with the header present: the same total, so the
    // caller can compute how many bytes are missing.
    assert_eq!(B0255::size_hint(&[3u8, 9], 0), Ok(4));
    // Too short to read even the prefix.
    assert_eq!(B0255::size_hint(&[], 0), Err(CodecError::OutOfBound));
    let _ = Inner::<true, 32, 0, 0>::size_hint(&[], 0).unwrap();
}

#[test]
fn str0255_utf8_constructor() {
    // "héllo" spelled out in UTF-8.
    let ok = str0255_from_utf8(vec![0x68, 0xc3, 0xa9, 0x6c, 0x6c, 0x6f]).unwrap();
    assert_eq!(ok.data, vec![0x68, 0xc3, 0xa9, 0x6c, 0x6c, 0x6f]);
    // A lone continuation byte, a bare 0xff, and an overlong form are refused.
    assert!(str0255_from_utf8(vec![0x80]).is_err());
    assert!(str0255_from_utf8(vec![0xff]).is_err());
    assert!(!utf8_ok(&[0xc0, 0xaf]));
    // Too long even when valid text.
    assert!(str0255_from_utf8(vec![0x61; 256]).is_err());
}
