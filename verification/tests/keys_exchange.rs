use smkb::crypto::{hex_nibble, parse_psk, CryptoError, Handshake};
use smkb::event::InputEvent;
use smkb::frame::Frame;
use smkb::handshake::{
    answer_handshake, finish_attempt, start_attempt, tries_again, HANDSHAKE_ATTEMPTS,
};
use smkb::noise::{NoiseError, StateProblem, MESSAGE_LEN};
use smkb::transport::Session;

#[test]
fn raw_secrets_are_taken_as_they_are() {
    let raw: Vec<u8> = (0..32).collect();
    assert_eq!(parse_psk(&raw).unwrap().to_vec(), raw);
    let spaces = [b' '; 32];
    assert_eq!(parse_psk(&spaces), Ok([b' '; 32]));
}

#[test]
fn hexadecimal_secrets_may_hold_white_space() {
    let mut expected = [0u8; 32];
    for (i, b) in expected.iter_mut().enumerate() {
        *b = (i * 8 + 3) as u8;
    }
    let mut text = String::from("\n");
    for (i, b) in expected.iter().enumerate() {
        text.push_str(&if i % 2 == 0 { format!("{:02x}", b) } else { format!("{:02X}", b) });
        text.push_str(["", " ", "\t", "\r\n", "\x0c"][i % 5]);
    }
    assert_eq!(parse_psk(text.as_bytes()), Ok(expected));
}

#[test]
fn other_secrets_are_refused_with_their_length() {
    assert_eq!(parse_psk(&[]), Err(CryptoError::BadPsk(0)));
    assert_eq!(parse_psk(&[b'0'; 63]), Err(CryptoError::BadPsk(63)));
    assert_eq!(parse_psk(&[b'0'; 65]), Err(CryptoError::BadPsk(65)));
    let mut text = [b'0'; 64];
    text[63] = b'g';
    assert_eq!(parse_psk(&text), Err(CryptoError::BadPsk(64)));
    text[63] = b'0';
    text[0] = b'-';
    assert_eq!(parse_psk(&text), Err(CryptoError::BadPsk(64)));
    assert_eq!(parse_psk(&[b'0'; 64]), Ok([0; 32]));
    let mut with_vertical_tab = vec![b'0'; 64];
    with_vertical_tab.push(11);
    assert_eq!(parse_psk(&with_vertical_tab), Err(CryptoError::BadPsk(65)));
}

#[test]
fn digits_have_values() {
    assert_eq!(hex_nibble(b'0'), Some(0));
    assert_eq!(hex_nibble(b'9'), Some(9));
    assert_eq!(hex_nibble(b'a'), Some(10));
    assert_eq!(hex_nibble(b'F'), Some(15));
    assert_eq!(hex_nibble(b'g'), None);
    assert_eq!(hex_nibble(b'/'), None);
}

#[test]
fn two_sides_with_one_secret_get_mirrored_keys() {
    let psk = [7u8; 32];
    let (hs, msg) = start_attempt(&psk).unwrap();
    assert_eq!(msg.len(), MESSAGE_LEN);
    let (reply, master) = answer_handshake(&psk, &msg).ok().unwrap();
    assert_eq!(reply.len(), MESSAGE_LEN);
    assert_ne!(reply, msg);
    let slave = finish_attempt(hs, &reply).unwrap();
    assert_eq!(slave.send, master.recv);
    assert_eq!(slave.recv, master.send);
    assert_ne!(slave.send, slave.recv);
    let mut a = Session::new(slave);
    let mut b = Session::new(master);
    let frame = Frame::Event(InputEvent::Leave);
    let packet = a.send_reliable(&frame, 0);
    assert_eq!(b.on_datagram(&packet).unwrap().ready, vec![frame]);
}

#[test]
fn a_wrong_secret_gets_no_answer() {
    let (_, msg) = start_attempt(&[1u8; 32]).unwrap();
    let decrypt = Some(CryptoError::Noise(NoiseError::Decrypt));
    assert_eq!(answer_handshake(&[2u8; 32], &msg).err(), decrypt);
    assert_eq!(answer_handshake(&[1u8; 32], &msg[..47]).err(), decrypt);
    assert_eq!(
        answer_handshake(&[1u8; 32], &[]).err(),
        Some(CryptoError::Noise(NoiseError::Input))
    );
    assert!(answer_handshake(&[1u8; 32], &msg).is_ok());
}

#[test]
fn an_answer_to_another_attempt_is_not_accepted() {
    let psk = [5u8; 32];
    let (first, _) = start_attempt(&psk).unwrap();
    let (second, msg) = start_attempt(&psk).unwrap();
    let (reply, _) = answer_handshake(&psk, &msg).ok().unwrap();
    assert!(finish_attempt(first, &reply).is_none());
    assert!(finish_attempt(second, &reply).is_some());
}

#[test]
fn every_fault_of_the_exchange_is_told_apart() {
    let psk = [9u8; 32];
    let mut buf = [0u8; 256];
    let mut initiator = Handshake::new_initiator(&psk).unwrap();
    let mut responder = Handshake::new_responder(&psk).unwrap();
    let state = |problem| CryptoError::Noise(NoiseError::State(problem));
    assert_eq!(responder.write_message(&mut buf), Err(state(StateProblem::NotTurnToWrite)));
    assert_eq!(initiator.read_message(&[0; 48]), Err(state(StateProblem::NotTurnToRead)));
    assert_eq!(initiator.write_message(&mut [0u8; 10]), Err(CryptoError::Noise(NoiseError::Input)));
    assert_eq!(responder.read_message(&[0; 31]), Err(CryptoError::Noise(NoiseError::Input)));
    assert_eq!(
        responder.read_message(&[0; 70_000]),
        Err(CryptoError::Noise(NoiseError::Input))
    );
    assert_eq!(responder.read_message(&[0; 48]), Err(CryptoError::Noise(NoiseError::Decrypt)));
    assert_eq!(initiator.write_message(&mut buf), Ok(48));
    assert!(!initiator.is_finished());
    assert_eq!(responder.read_message(&buf[..48]), Ok(()));
    assert_eq!(responder.write_message(&mut buf), Ok(48));
    assert!(responder.is_finished());
    assert_eq!(initiator.read_message(&buf[..48]), Ok(()));
    assert!(initiator.is_finished());
    let ended = Err(state(StateProblem::HandshakeAlreadyFinished));
    assert_eq!(initiator.write_message(&mut buf), ended);
    assert_eq!(responder.read_message(&buf[..48]), ended.map(|_| ()));
    assert_eq!(responder.write_message(&mut buf), Err(state(StateProblem::NotTurnToWrite)));
    assert_eq!(initiator.read_message(&buf[..48]), Err(state(StateProblem::NotTurnToRead)));
    let a = initiator.finish().ok().unwrap();
    let b = responder.finish().ok().unwrap();
    assert_eq!(a.send, b.recv);
    assert_eq!(a.recv, b.send);
}

#[test]
fn keys_come_only_from_a_finished_exchange() {
    let hs = Handshake::new_initiator(&[0u8; 32]).unwrap();
    assert_eq!(hs.finish().err(), Some(CryptoError::NotFinished));
}

#[test]
fn attempts_are_limited() {
    assert!(tries_again(1));
    assert!(tries_again(HANDSHAKE_ATTEMPTS - 1));
    assert!(!tries_again(HANDSHAKE_ATTEMPTS));
}

#[test]
fn crypto_errors_have_words() {
    assert_eq!(
        CryptoError::BadPsk(3).describe(),
        "psk file must contain exactly 32 raw bytes or 64 hex characters, got 3 bytes"
    );
    assert_eq!(CryptoError::NotFinished.describe(), "handshake not finished yet");
    assert_eq!(
        CryptoError::Noise(NoiseError::Decrypt).describe(),
        "noise handshake error: decrypt error"
    );
    assert_eq!(
        CryptoError::Noise(NoiseError::State(StateProblem::NotTurnToRead)).describe(),
        "noise handshake error: state error: NotTurnToRead"
    );
}
