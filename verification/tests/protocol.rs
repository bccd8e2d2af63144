use chacha20poly1305::aead::{Aead, KeyInit, Payload};
use serde::ser::{SerializeStruct, SerializeStructVariant};
use serde::{Serialize, Serializer};
use smkb::aead::{KEY_LEN, TAG_LEN};
use smkb::codec::{decode_frame, encode_frame, CodecError};
use smkb::event::{
    DisplayGeometry, HelloInfo, InputEvent, Point, WelcomeInfo, PROTO_VERSION,
};
use smkb::frame::Frame;
use smkb::wire::{
    build_nonce, decode, encode, fits_cipher, header, Channel, WireError, HEADER_LEN,
    MAX_PACKET_LEN, WIRE_VERSION,
};

fn screen() -> DisplayGeometry {
    DisplayGeometry { width: 1920, height: 1080, refresh_mhz: 59_940, scale_pct: 125 }
}

fn all_frames() -> Vec<Frame> {
    let at = Point::new(-3, 70_000);
    vec![
        Frame::Hello(HelloInfo {
            proto_version: PROTO_VERSION,
            hostname: "désk-1".to_string(),
            screen: screen(),
        }),
        Frame::Welcome(WelcomeInfo { proto_version: u32::MAX }),
        Frame::Event(InputEvent::Motion { x: i32::MIN, y: i32::MAX }),
        Frame::Event(InputEvent::Button { code: 0x110, pressed: true, at }),
        Frame::Event(InputEvent::Key { code: u16::MAX, pressed: false }),
        Frame::Event(InputEvent::Scroll { dx: 0, dy: -120, hi_res: true }),
        Frame::Event(InputEvent::Enter { at }),
        Frame::Event(InputEvent::Leave),
        Frame::Event(InputEvent::ReleaseAll),
        Frame::Ack { acked_seq: 300 },
        Frame::Ping { nonce: u64::MAX },
        Frame::Pong { nonce: 0 },
        Frame::Bye,
    ]
}

struct PointSer(Point);

impl Serialize for PointSer {
    fn serialize<S: Serializer>(&self, s: S) -> Result<S::Ok, S::Error> {
        let mut st = s.serialize_struct("Point", 2)?;
        st.serialize_field("x", &self.0.x)?;
        st.serialize_field("y", &self.0.y)?;
        st.end()
    }
}

struct ScreenSer(DisplayGeometry);

impl Serialize for ScreenSer {
    fn serialize<S: Serializer>(&self, s: S) -> Result<S::Ok, S::Error> {
        let mut st = s.serialize_struct("DisplayGeometry", 4)?;
        st.serialize_field("width", &self.0.width)?;
        st.serialize_field("height", &self.0.height)?;
        st.serialize_field("refresh_mhz", &self.0.refresh_mhz)?;
        st.serialize_field("scale_pct", &self.0.scale_pct)?;
        st.end()
    }
}

struct HelloSer<'a>(&'a HelloInfo);

impl Serialize for HelloSer<'_> {
    fn serialize<S: Serializer>(&self, s: S) -> Result<S::Ok, S::Error> {
        let mut st = s.serialize_struct("HelloInfo", 3)?;
        st.serialize_field("proto_version", &self.0.proto_version)?;
        st.serialize_field("hostname", &self.0.hostname)?;
        st.serialize_field("screen", &ScreenSer(self.0.screen))?;
        st.end()
    }
}

struct WelcomeSer(WelcomeInfo);

impl Serialize for WelcomeSer {
    fn serialize<S: Serializer>(&self, s: S) -> Result<S::Ok, S::Error> {
        let mut st = s.serialize_struct("WelcomeInfo", 1)?;
        st.serialize_field("proto_version", &self.0.proto_version)?;
        st.end()
    }
}

struct EventSer(InputEvent);

impl Serialize for EventSer {
    fn serialize<S: Serializer>(&self, s: S) -> Result<S::Ok, S::Error> {
        match self.0 {
            InputEvent::Motion { x, y } => {
                let mut st = s.serialize_struct_variant("InputEvent", 0, "Motion", 2)?;
                st.serialize_field("x", &x)?;
                st.serialize_field("y", &y)?;
                st.end()
            }
            InputEvent::Button { code, pressed, at } => {
                let mut st = s.serialize_struct_variant("InputEvent", 1, "Button", 3)?;
                st.serialize_field("code", &code)?;
                st.serialize_field("pressed", &pressed)?;
                st.serialize_field("at", &PointSer(at))?;
                st.end()
            }
            InputEvent::Key { code, pressed } => {
                let mut st = s.serialize_struct_variant("InputEvent", 2, "Key", 2)?;
                st.serialize_field("code", &code)?;
                st.serialize_field("pressed", &pressed)?;
                st.end()
            }
            InputEvent::Scroll { dx, dy, hi_res } => {
                let mut st = s.serialize_struct_variant("InputEvent", 3, "Scroll", 3)?;
                st.serialize_field("dx", &dx)?;
                st.serialize_field("dy", &dy)?;
                st.serialize_field("hi_res", &hi_res)?;
                st.end()
            }
            InputEvent::Enter { at } => {
                let mut st = s.serialize_struct_variant("InputEvent", 4, "Enter", 1)?;
                st.serialize_field("at", &PointSer(at))?;
                st.end()
            }
            InputEvent::Leave => s.serialize_unit_variant("InputEvent", 5, "Leave"),
            InputEvent::ReleaseAll => s.serialize_unit_variant("InputEvent", 6, "ReleaseAll"),
        }
    }
}

struct FrameSer<'a>(&'a Frame);

impl Serialize for FrameSer<'_> {
    fn serialize<S: Serializer>(&self, s: S) -> Result<S::Ok, S::Error> {
        match self.0 {
            Frame::Hello(h) => s.serialize_newtype_variant("Frame", 0, "Hello", &HelloSer(h)),
            Frame::Welcome(w) => {
                s.serialize_newtype_variant("Frame", 1, "Welcome", &WelcomeSer(*w))
            }
            Frame::Event(e) => s.serialize_newtype_variant("Frame", 2, "Event", &EventSer(*e)),
            Frame::Ack { acked_seq } => {
                let mut st = s.serialize_struct_variant("Frame", 3, "Ack", 1)?;
                st.serialize_field("acked_seq", acked_seq)?;
                st.end()
            }
            Frame::Ping { nonce } => {
                let mut st = s.serialize_struct_variant("Frame", 4, "Ping", 1)?;
                st.serialize_field("nonce", nonce)?;
                st.end()
            }
            Frame::Pong { nonce } => {
                let mut st = s.serialize_struct_variant("Frame", 5, "Pong", 1)?;
                st.serialize_field("nonce", nonce)?;
                st.end()
            }
            Frame::Bye => s.serialize_unit_variant("Frame", 6, "Bye"),
        }
    }
}

#[test]
fn frames_encode_as_postcard_structures() {
    for frame in all_frames() {
        let ours = encode_frame(&frame).unwrap();
        let theirs = postcard::to_allocvec(&FrameSer(&frame)).unwrap();
        assert_eq!(ours, theirs, "{:?}", frame);
    }
}

#[test]
fn frames_have_exact_bytes() {
    let bytes = |f: Frame| encode_frame(&f).unwrap();
    assert_eq!(bytes(Frame::Bye), vec![6]);
    assert_eq!(bytes(Frame::Ping { nonce: 300 }), vec![4, 0xac, 2]);
    assert_eq!(bytes(Frame::Event(InputEvent::Motion { x: -1, y: 64 })), vec![2, 0, 1, 0x80, 1]);
    assert_eq!(bytes(Frame::Event(InputEvent::Key { code: 30, pressed: true })), vec![2, 2, 30, 1]);
}

#[test]
fn decoding_gives_every_frame_back() {
    for frame in all_frames() {
        let mut bytes = encode_frame(&frame).unwrap();
        assert_eq!(decode_frame(&bytes), Ok(frame.clone()));
        bytes.push(0x55);
        assert_eq!(decode_frame(&bytes), Ok(frame));
    }
}

#[test]
fn no_frame_is_a_beginning_of_another() {
    let frames = all_frames();
    for a in &frames {
        for b in &frames {
            let x = encode_frame(a).unwrap();
            let y = encode_frame(b).unwrap();
            assert_eq!(y.starts_with(&x), a == b);
        }
    }
}

#[test]
fn every_decoding_fault_is_told_apart() {
    assert_eq!(decode_frame(&[]), Err(CodecError::UnexpectedEnd));
    assert_eq!(decode_frame(&[4, 0x80]), Err(CodecError::UnexpectedEnd));
    assert_eq!(decode_frame(&[3, 0xff, 0xff, 0xff, 0xff, 0x7f]), Err(CodecError::BadVarint));
    assert_eq!(decode_frame(&[2, 2, 30, 2]), Err(CodecError::BadBool));
    assert_eq!(decode_frame(&[0, 1, 1, 0xff, 0, 0, 0, 0]), Err(CodecError::BadUtf8));
    assert_eq!(decode_frame(&[7]), Err(CodecError::BadVariant));
    assert_eq!(decode_frame(&[2, 7]), Err(CodecError::BadVariant));
    assert_eq!(CodecError::BadBool.text(), "Found a bool that wasn't 0 or 1");
    assert_eq!(CodecError::BadVariant.text(), "Serde Deserialization Error");
}

#[test]
fn short_frames_stay_short() {
    for frame in all_frames() {
        let n = encode_frame(&frame).unwrap().len();
        assert!(matches!(frame, Frame::Hello(_)) || n <= smkb::codec::SHORT_FRAME_LEN);
        assert!(fits_cipher(&frame));
    }
}

#[test]
fn header_and_nonce_have_exact_bytes() {
    assert_eq!(header(Channel::Control, 0x0102_0304), [1, 2, 1, 2, 3, 4]);
    assert_eq!(
        build_nonce(Channel::Unreliable, 0xfffe_fdfc),
        [0, 0, 0, 0, 0, 0, 0, 1, 0xff, 0xfe, 0xfd, 0xfc]
    );
    assert_ne!(build_nonce(Channel::Reliable, 7), build_nonce(Channel::Control, 7));
    assert_ne!(build_nonce(Channel::Reliable, 7), build_nonce(Channel::Reliable, 8));
}

#[test]
fn packets_are_sealed_with_chacha20poly1305() {
    let key = [9u8; KEY_LEN];
    let frame = Frame::Ping { nonce: 77 };
    let packet = encode(&key, Channel::Control, 5, &frame).unwrap();
    let cipher = chacha20poly1305::ChaCha20Poly1305::new_from_slice(&key).unwrap();
    let nonce = build_nonce(Channel::Control, 5);
    let hdr = header(Channel::Control, 5);
    let msg = encode_frame(&frame).unwrap();
    let sealed = cipher.encrypt((&nonce).into(), Payload { msg: &msg, aad: &hdr }).unwrap();
    assert_eq!(packet.len(), HEADER_LEN + msg.len() + TAG_LEN);
    assert_eq!(packet[..HEADER_LEN], hdr);
    assert_eq!(packet[HEADER_LEN..], sealed[..]);
}

#[test]
fn packets_decode_to_what_was_encoded() {
    let key = [3u8; KEY_LEN];
    for frame in all_frames() {
        for chan in [Channel::Reliable, Channel::Unreliable, Channel::Control] {
            let packet = encode(&key, chan, u32::MAX, &frame).unwrap();
            assert!(packet.len() <= MAX_PACKET_LEN);
            assert_eq!(decode(&key, &packet), Ok((chan, u32::MAX, frame.clone())));
        }
    }
}

#[test]
fn every_wire_fault_is_told_apart() {
    let key = [3u8; KEY_LEN];
    let packet = encode(&key, Channel::Reliable, 1, &Frame::Bye).unwrap();
    assert_eq!(packet[0], WIRE_VERSION);
    assert_eq!(decode(&key, &packet[..21]), Err(WireError::TooShort(21)));
    assert_eq!(decode(&key, &packet[..22]), Err(WireError::Crypto));
    let mut bad = packet.clone();
    bad[0] = 2;
    assert_eq!(decode(&key, &bad), Err(WireError::BadVersion(2)));
    bad[0] = 1;
    bad[1] = 3;
    assert_eq!(decode(&key, &bad), Err(WireError::BadChannel(3)));
    for i in 1..packet.len() {
        let mut flipped = packet.clone();
        flipped[i] ^= 1;
        assert!(decode(&key, &flipped).is_err(), "byte {}", i);
    }
    assert_eq!(decode(&[4u8; KEY_LEN], &packet), Err(WireError::Crypto));
}

#[test]
fn a_sealed_packet_may_still_hold_no_frame() {
    let key = [1u8; KEY_LEN];
    let cipher = chacha20poly1305::ChaCha20Poly1305::new_from_slice(&key).unwrap();
    let hdr = header(Channel::Control, 0);
    let nonce = build_nonce(Channel::Control, 0);
    let mut packet = hdr.to_vec();
    packet.extend(cipher.encrypt((&nonce).into(), Payload { msg: &[9], aad: &hdr }).unwrap());
    assert_eq!(decode(&key, &packet), Err(WireError::Codec(CodecError::BadVariant)));
}

#[test]
fn wire_errors_have_words() {
    assert_eq!(WireError::TooShort(21).describe(), "packet too short: 21 bytes");
    assert_eq!(WireError::BadVersion(0).describe(), "unsupported wire version: 0");
    assert_eq!(WireError::BadChannel(200).describe(), "unknown channel id: 200");
    assert_eq!(
        WireError::Crypto.describe(),
        "AEAD authentication failed (wrong key, corrupted, or replayed packet)"
    );
    assert_eq!(
        WireError::Codec(CodecError::BadUtf8).describe(),
        "frame (de)serialization failed: Tried to parse invalid utf-8"
    );
}

#[test]
fn channel_numbers_go_both_ways() {
    for (chan, n) in [(Channel::Reliable, 0), (Channel::Unreliable, 1), (Channel::Control, 2)] {
        assert_eq!(chan.to_u8(), n);
        assert_eq!(Channel::from_u8(n), Ok(chan));
    }
    assert_eq!(Channel::from_u8(9), Err(WireError::BadChannel(9)));
}
