use stratum_core::datatypes::U256;
use stratum_core::frame_stream::{FrameStream, StreamError};
use stratum_core::framing::Sv2Frame;
use stratum_core::mining::SetNewPrevHash;

#[test]
fn test_size_hint() {
    // A header declaring 46 payload bytes with none supplied: 46 bytes are
    // still missing, signalled negatively.
    let h = Sv2Frame::size_hint(&[0, 128, 30, 46, 0, 0][..]);
    assert!(h == -46);
}

#[test]
fn size_hint_signals_by_sign() {
    // Short header: positive count of missing header bytes.
    assert_eq!(Sv2Frame::size_hint(&[0, 128][..]), 4);
    // One payload byte missing: -1. One byte of excess: 1. Complete: 0.
    let mut whole = vec![0u8, 0, 30, 2, 0, 0, 0xaa, 0xbb];
    assert_eq!(Sv2Frame::size_hint(&whole[..7]), -1);
    assert_eq!(Sv2Frame::size_hint(&whole[..]), 0);
    whole.push(0xcc);
    assert_eq!(Sv2Frame::size_hint(&whole[..]), 1);
}

fn sample_prev_hash(job_id: u32) -> SetNewPrevHash {
    SetNewPrevHash {
        channel_id: 5,
        job_id,
        prev_hash: U256::from_vec(vec![0xaa; 32]).unwrap(),
        min_ntime: 1_000_000,
        nbits: 0x1c2ac4af,
    }
}

fn frame_bytes(msg: &SetNewPrevHash) -> Vec<u8> {
    let payload = msg.to_bytes();
    let frame = Sv2Frame::from_message(payload, 0x20, 0, false).unwrap();
    frame.serialize()
}

#[test]
fn frame_header_round_trip() {
    let msg = sample_prev_hash(1);
    let bytes = frame_bytes(&msg);
    let frame = Sv2Frame::from_bytes(bytes.clone()).unwrap();
    let header = frame.header();
    assert_eq!(header.len(), 48);
    assert_eq!(frame.encoded_length(), bytes.len());
    assert_eq!(frame.payload().unwrap(), &bytes[6..]);
    assert_eq!(frame.serialize(), bytes);
}

#[test]
fn frame_stream_emits_two_concatenated_frames() {
    let f1 = frame_bytes(&sample_prev_hash(1));
    let f2 = frame_bytes(&sample_prev_hash(2));
    let mut both = f1.clone();
    both.extend_from_slice(&f2);

    let mut stream = FrameStream::new();
    stream.feed(both.as_slice());

    let got1 = stream.next_frame().unwrap();
    assert_eq!(got1.serialize(), f1);
    let got2 = stream.next_frame().unwrap();
    assert_eq!(got2.serialize(), f2);
    // No residual: the next read reports an empty buffer.
    assert_eq!(stream.next_frame(), Err(StreamError::MissingBytes(6)));
}

#[test]
fn frame_stream_reports_missing_byte_and_does_not_advance() {
    let f1 = frame_bytes(&sample_prev_hash(7));
    let mut stream = FrameStream::new();
    stream.feed(&f1[..f1.len() - 1]);

    assert_eq!(stream.next_frame(), Err(StreamError::MissingBytes(1)));
    // The stream did not advance: the missing byte completes the frame.
    assert_eq!(stream.next_frame(), Err(StreamError::MissingBytes(1)));
    stream.feed(&f1[f1.len() - 1..]);
    let got = stream.next_frame().unwrap();
    assert_eq!(got.serialize(), f1);
}

#[test]
fn frame_decodes_back_to_message() {
    let msg = sample_prev_hash(0x4f);
    let bytes = frame_bytes(&msg);
    let mut stream = FrameStream::new();
    stream.feed(bytes.as_slice());
    let frame = stream.next_frame().unwrap();
    let payload = frame.payload().unwrap();
    let back = SetNewPrevHash::decode(payload).unwrap();
    assert_eq!(back, msg);
}

#[test]
fn frame_stream_handshake_mode_counts_bytes() {
    let mut stream = FrameStream::new();
    let bytes: Vec<u8> = (0..40u8).collect();
    stream.feed(bytes.as_slice());
    let first = stream.next_handshake_frame(32).unwrap();
    assert_eq!(first.get_payload_when_handshaking(), (0..32u8).collect::<Vec<u8>>());
    assert_eq!(
        stream.next_handshake_frame(32),
        Err(StreamError::MissingBytes(24))
    );
}
