use stratum_core::codec_state::{HandshakeRole, State, StateError};
use stratum_core::common_messages::SetupConnection;
use stratum_core::frame_stream::FrameStream;
use stratum_core::framing::Sv2Frame;
use stratum_core::noise::{Initiator, Responder};
use stratum_core::setup_connection::SetupConnectionHandler;

fn unix_now() -> u32 {
    std::time::SystemTime::now()
        .duration_since(std::time::UNIX_EPOCH)
        .unwrap()
        .as_secs() as u32
}

#[test]
fn test_1() {
    let key_pair = Responder::generate_key();
    let public = Responder::public_key(&key_pair);

    let mut initiator = Initiator::new(Some(public)).unwrap();
    let mut responder = Responder::new(key_pair, 31449600).unwrap();
    let first_message = initiator.step_0().unwrap().get_payload_when_handshaking();
    let now = unix_now();
    let second_message = responder.step_1(first_message, now).unwrap().get_payload_when_handshaking();
    let now = unix_now();
    let cipher_list = initiator.step_2(second_message, now).unwrap().get_payload_when_handshaking();
    let (chosen, mut codec_responder) = responder.step_3(cipher_list).unwrap();
    let mut codec_initiator = initiator
        .step_4(chosen.get_payload_when_handshaking())
        .unwrap();

    let mut message = "ciao".as_bytes().to_vec();
    codec_initiator.encrypt(&mut message).unwrap();
    assert!(message != "ciao".as_bytes().to_vec());
    codec_responder.decrypt(&mut message).unwrap();

    assert!(message == "ciao".as_bytes().to_vec());
}

#[test]
fn handshake_step_fails_if_state_is_not_initialized() {
    let mut state = State::new();
    let actual = state.step_0().unwrap_err();
    let expect = StateError::NotInHandShakeState;
    assert_eq!(actual, expect);
}

#[test]
fn handshake_step_fails_if_state_is_in_transport_mode() {
    let mut state = State::new();
    let actual = state.step_0().unwrap_err();
    let expect = StateError::NotInHandShakeState;
    assert_eq!(actual, expect);
}

#[test]
fn into_transport_mode_errs_if_state_is_not_initialized() {
    let state = State::new();
    let actual = match state.step_4(Vec::new()) {
        Err(e) => e,
        Ok(_) => panic!("step succeeded outside the handshake"),
    };
    let expect = StateError::NotInHandShakeState;
    assert_eq!(actual, expect);
}

#[test]
fn handshake_steps_refuse_the_wrong_side() {
    let key_pair = Responder::generate_key();
    let public = Responder::public_key(&key_pair);
    let initiator = Initiator::new(Some(public)).unwrap();
    let responder = Responder::new(key_pair, 31449600).unwrap();

    let mut as_initiator = State::initialize(HandshakeRole::Initiator(initiator));
    assert_eq!(
        as_initiator.step_1(vec![0; 32], 0).unwrap_err(),
        StateError::InvalidStepForInitiator
    );
    let mut as_responder = State::initialize(HandshakeRole::Responder(responder));
    assert_eq!(
        as_responder.step_0().unwrap_err(),
        StateError::InvalidStepForResponder
    );
    assert_eq!(
        as_responder.step_2(vec![0; 170], 0).unwrap_err(),
        StateError::InvalidStepForResponder
    );
}

#[test]
fn handshake_then_encrypted_setup_connection_frame() {
    let key_pair = Responder::generate_key();
    let public = Responder::public_key(&key_pair);
    let initiator = Initiator::new(Some(public)).unwrap();
    let responder = Responder::new(key_pair, 31449600).unwrap();

    let mut a = State::initialize(HandshakeRole::Initiator(initiator));
    let mut b = State::initialize(HandshakeRole::Responder(responder));

    let e = a.step_0().unwrap();
    assert_eq!(e.get_payload_when_handshaking().len(), 32);
    let now = unix_now();
    let cert = b.step_1(e.get_payload_when_handshaking(), now).unwrap();
    assert_eq!(cert.get_payload_when_handshaking().len(), 170);
    let list = a.step_2(cert.get_payload_when_handshaking(), unix_now()).unwrap();
    let (chosen, b_after) = b.step_3(list.get_payload_when_handshaking()).unwrap();
    let a_after = a.step_4(chosen.get_payload_when_handshaking()).unwrap();

    let mut encryptor = match a_after {
        State::Transport(codec) => codec,
        _ => panic!("initiator did not reach transport mode"),
    };
    let decryptor = match b_after {
        State::Transport(codec) => codec,
        _ => panic!("responder did not reach transport mode"),
    };

    // The initiator frames and encrypts a SetupConnection.
    let msg = SetupConnectionHandler::get_setup_connection_message(b"pool.example".to_vec(), 34254)
        .unwrap();
    let mut payload = msg.to_bytes();
    encryptor.encrypt(&mut payload).unwrap();
    let frame = Sv2Frame::from_message(payload, 0x00, 0, false).unwrap();
    let wire = frame.serialize();

    // The responder's stream decrypts the payload and decodes the message.
    let mut stream = FrameStream::with_transport_mode(decryptor);
    stream.feed(wire.as_slice());
    let got = stream.next_frame().unwrap();
    let back = SetupConnection::decode(got.payload().unwrap()).unwrap();
    assert_eq!(back, msg);
}

#[test]
fn certificate_outside_window_is_refused() {
    let key_pair = Responder::generate_key();
    let public = Responder::public_key(&key_pair);
    let mut initiator = Initiator::new(Some(public)).unwrap();
    let mut responder = Responder::new(key_pair, 10).unwrap();

    let e = initiator.step_0().unwrap().get_payload_when_handshaking();
    let now = unix_now();
    let cert = responder.step_1(e, now).unwrap().get_payload_when_handshaking();
    // Far past the ten-second validity window.
    let err = initiator.step_2(cert, now + 1000).unwrap_err();
    assert_eq!(err, stratum_core::noise::NoiseError::InvalidCertificate);
}

#[test]
fn step_2_before_step_0_is_refused() {
    let mut state = State::new();
    assert_eq!(
        state.step_2(vec![0; 170], 0).unwrap_err(),
        StateError::NotInHandShakeState
    );
}
