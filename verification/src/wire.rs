//! Packets: a header in the clear, then a frame sealed under a nonce that the header determines.
pub use crate::aead::TAG_LEN;
use crate::aead::{self, aead_opened, aead_sealed, KEY_LEN, MAX_PLAINTEXT_LEN, NONCE_LEN};
use crate::codec::{self, codec_error_text, frame_bytes, parse_frame, CodecError};
use crate::frame::{Frame, FrameModel};
use crate::text::{append_decimal, decimal};
use vstd::prelude::*;
use vstd::string::*;

verus! {

pub const WIRE_VERSION: u8 = 1;

pub const HEADER_LEN: usize = 6;

pub const MAX_PACKET_LEN: usize = 1200;

/// The three independent streams of packets, each with its own sequence numbers.
#[derive(Debug, Clone, Copy, PartialEq, Eq, Structural)]
pub enum Channel {
    Reliable,
    Unreliable,
    Control,
}

/// The number of a channel in a packet.
pub open spec fn channel_id(chan: Channel) -> u8 {
    match chan {
        Channel::Reliable => 0,
        Channel::Unreliable => 1,
        Channel::Control => 2,
    }
}

/// Why a packet is not accepted.
#[derive(Debug, Clone, Copy, PartialEq, Eq, Structural)]
pub enum WireError {
    TooShort(usize),
    BadVersion(u8),
    BadChannel(u8),
    /// Authentication failed: wrong key, or a corrupted or replayed packet.
    Crypto,
    Codec(CodecError),
}

/// The words for a packet that is not accepted.
pub open spec fn wire_error_text(e: WireError) -> Seq<char> {
    match e {
        WireError::TooShort(n) => "packet too short: "@ + decimal(n as nat) + " bytes"@,
        WireError::BadVersion(v) => "unsupported wire version: "@ + decimal(v as nat),
        WireError::BadChannel(c) => "unknown channel id: "@ + decimal(c as nat),
        WireError::Crypto =>
            "AEAD authentication failed (wrong key, corrupted, or replayed packet)"@,
        WireError::Codec(why) => "frame (de)serialization failed: "@ + codec_error_text(why),
    }
}

impl WireError {
    /// The words for this error.
    pub fn describe(&self) -> (text: String)
        ensures
            text@ == wire_error_text(*self),
    {
        match self {
            WireError::TooShort(n) => {
                let mut text = "packet too short: ".to_owned();
                append_decimal(&mut text, *n as u64);
                text.append(" bytes");
                text
            },
            WireError::BadVersion(v) => {
                let mut text = "unsupported wire version: ".to_owned();
                append_decimal(&mut text, *v as u64);
                text
            },
            WireError::BadChannel(c) => {
                let mut text = "unknown channel id: ".to_owned();
                append_decimal(&mut text, *c as u64);
                text
            },
            WireError::Crypto => {
                "AEAD authentication failed (wrong key, corrupted, or replayed packet)".to_owned()
            },
            WireError::Codec(why) => {
                let mut text = "frame (de)serialization failed: ".to_owned();
                text.append(why.text());
                text
            },
        }
    }
}

impl Channel {
    pub fn to_u8(self) -> (b: u8)
        ensures
            b == channel_id(self),
    {
        match self {
            Channel::Reliable => 0,
            Channel::Unreliable => 1,
            Channel::Control => 2,
        }
    }

    pub fn from_u8(b: u8) -> (res: Result<Self, WireError>)
        ensures
            match res {
                Ok(chan) => channel_id(chan) == b,
                Err(e) => b > 2 && e == WireError::BadChannel(b),
            },
    {
        match b {
            0 => Ok(Channel::Reliable),
            1 => Ok(Channel::Unreliable),
            2 => Ok(Channel::Control),
            other => Err(WireError::BadChannel(other)),
        }
    }
}

/// The four bytes of `n`, most significant first.
pub open spec fn be_bytes(n: u32) -> Seq<u8> {
    seq![
        (n / 0x100_0000) as u8,
        (n / 0x1_0000 % 0x100) as u8,
        (n / 0x100 % 0x100) as u8,
        (n % 0x100) as u8,
    ]
}

/// The number whose four bytes, most significant first, are `s`.
pub open spec fn be_value(s: Seq<u8>) -> u32 {
    (s[0] * 0x100_0000 + s[1] * 0x1_0000 + s[2] * 0x100 + s[3]) as u32
}

/// The header of a packet: version, channel, sequence number.
pub open spec fn header_bytes(chan: Channel, seq: u32) -> Seq<u8> {
    seq![WIRE_VERSION, channel_id(chan)] + be_bytes(seq)
}

/// The nonce of a packet: seven zeros, channel, sequence number.
pub open spec fn nonce_bytes(chan: Channel, seq: u32) -> Seq<u8> {
    seq![0u8, 0u8, 0u8, 0u8, 0u8, 0u8, 0u8, channel_id(chan)] + be_bytes(seq)
}

/// The packet that carries `frame`.
pub open spec fn packet_bytes(key: Seq<u8>, chan: Channel, seq: u32, frame: FrameModel) -> Seq<u8> {
    header_bytes(chan, seq) + aead_sealed(
        key,
        nonce_bytes(chan, seq),
        header_bytes(chan, seq),
        frame_bytes(frame),
    )
}

/// What a packet carries, or why it is not accepted.
pub open spec fn read_packet(key: Seq<u8>, packet: Seq<u8>) -> Result<
    (Channel, u32, FrameModel),
    WireError,
> {
    if packet.len() < HEADER_LEN + TAG_LEN {
        Err(WireError::TooShort(packet.len() as usize))
    } else if packet[0] != WIRE_VERSION {
        Err(WireError::BadVersion(packet[0]))
    } else if packet[1] == 0 {
        read_sealed(key, Channel::Reliable, packet)
    } else if packet[1] == 1 {
        read_sealed(key, Channel::Unreliable, packet)
    } else if packet[1] == 2 {
        read_sealed(key, Channel::Control, packet)
    } else {
        Err(WireError::BadChannel(packet[1]))
    }
}

/// The sealed part of a packet on a known channel.
pub open spec fn read_sealed(key: Seq<u8>, chan: Channel, packet: Seq<u8>) -> Result<
    (Channel, u32, FrameModel),
    WireError,
> {
    let seq = be_value(packet.subrange(2, 6));
    if packet.len() > HEADER_LEN + MAX_PLAINTEXT_LEN + TAG_LEN {
        Err(WireError::Crypto)
    } else {
        match aead_opened(key, nonce_bytes(chan, seq), packet.take(6), packet.skip(6)) {
            Some(plaintext) => match parse_frame(plaintext) {
                Ok(frame) => Ok((chan, seq, frame)),
                Err(e) => Err(WireError::Codec(e)),
            },
            None => Err(WireError::Crypto),
        }
    }
}

fn byte_of(n: u32) -> (b: u8)
    ensures
        b == n % 0x100,
{
    (n % 0x100) as u8
}

/// The nonce under which a packet's frame is sealed.
pub fn build_nonce(chan: Channel, seq: u32) -> (nonce: [u8; NONCE_LEN])
    ensures
        nonce@ == nonce_bytes(chan, seq),
{
    let nonce: [u8; NONCE_LEN] = [
        0,
        0,
        0,
        0,
        0,
        0,
        0,
        chan.to_u8(),
        byte_of(seq / 0x100_0000),
        byte_of(seq / 0x1_0000),
        byte_of(seq / 0x100),
        byte_of(seq),
    ];
    assert(nonce@ =~= nonce_bytes(chan, seq));
    nonce
}

/// The header of a packet.
pub fn header(chan: Channel, seq: u32) -> (hdr: [u8; HEADER_LEN])
    ensures
        hdr@ == header_bytes(chan, seq),
{
    let hdr: [u8; HEADER_LEN] = [
        WIRE_VERSION,
        chan.to_u8(),
        byte_of(seq / 0x100_0000),
        byte_of(seq / 0x1_0000),
        byte_of(seq / 0x100),
        byte_of(seq),
    ];
    assert(hdr@ =~= header_bytes(chan, seq));
    hdr
}

proof fn lemma_be_round_trip(n: u32)
    ensures
        be_value(be_bytes(n)) == n,
{
}

/// The packet that carries `frame`. It fails only where the frame is too long for the cipher.
/// Decoding the packet with the same key gives back the channel, the number and the frame.
pub fn encode(cipher: &[u8; KEY_LEN], chan: Channel, seq: u32, frame: &Frame) -> (res: Result<
    Vec<u8>,
    WireError,
>)
    ensures
        res is Ok <==> frame_bytes(frame@).len() <= MAX_PLAINTEXT_LEN,
        res matches Err(e) ==> e == WireError::Crypto,
        res matches Ok(packet) ==> packet@ == packet_bytes(cipher@, chan, seq, frame@),
        res matches Ok(packet) ==> packet@.len() == HEADER_LEN + frame_bytes(frame@).len()
            + TAG_LEN,
        res matches Ok(packet) ==> read_packet(cipher@, packet@) == Ok::<
            (Channel, u32, FrameModel),
            WireError,
        >((chan, seq, frame@)),
{
    let plaintext = match codec::encode_frame(frame) {
        Ok(plaintext) => plaintext,
        Err(e) => return Err(WireError::Codec(e)),
    };
    let hdr = header(chan, seq);
    let nonce = build_nonce(chan, seq);
    if plaintext.len() as u64 > MAX_PLAINTEXT_LEN {
        return Err(WireError::Crypto);
    }
    let mut ciphertext = match aead::seal(cipher, &nonce, hdr.as_slice(), plaintext.as_slice()) {
        Ok(ciphertext) => ciphertext,
        Err(_) => return Err(WireError::Crypto),
    };
    let mut out: Vec<u8> = vstd::slice::slice_to_vec(hdr.as_slice());
    let ghost sealed = ciphertext@;
    out.append(&mut ciphertext);
    proof {
        assert(out@ =~= packet_bytes(cipher@, chan, seq, frame@));
        assert(out@.take(6) =~= header_bytes(chan, seq));
        assert(out@.skip(6) =~= sealed);
        assert(out@.subrange(2, 6) =~= be_bytes(seq));
        lemma_be_round_trip(seq);
        codec::law_frame_round_trip(frame@, Seq::empty());
        assert(frame_bytes(frame@) + Seq::<u8>::empty() =~= frame_bytes(frame@));
    }
    Ok(out)
}

/// What a packet carries, or why it is not accepted.
pub fn decode(cipher: &[u8; KEY_LEN], packet: &[u8]) -> (res: Result<
    (Channel, u32, Frame),
    WireError,
>)
    ensures
        match res {
            Ok((chan, seq, frame)) => read_packet(cipher@, packet@) == Ok::<
                (Channel, u32, FrameModel),
                WireError,
            >((chan, seq, frame@)),
            Err(e) => read_packet(cipher@, packet@) == Err::<(Channel, u32, FrameModel), WireError>(
                e,
            ),
        },
{
    if packet.len() < HEADER_LEN + TAG_LEN {
        return Err(WireError::TooShort(packet.len()));
    }
    let hdr = &packet[0..HEADER_LEN];
    if hdr[0] != WIRE_VERSION {
        return Err(WireError::BadVersion(hdr[0]));
    }
    let chan = match Channel::from_u8(hdr[1]) {
        Ok(chan) => chan,
        Err(e) => return Err(e),
    };
    let seq: u32 = hdr[2] as u32 * 0x100_0000 + hdr[3] as u32 * 0x1_0000 + hdr[4] as u32 * 0x100
        + hdr[5] as u32;
    let nonce = build_nonce(chan, seq);
    let ciphertext = &packet[HEADER_LEN..packet.len()];
    proof {
        assert(hdr@ =~= packet@.take(6));
        assert(ciphertext@ =~= packet@.skip(6));
        assert(seq == be_value(packet@.subrange(2, 6)));
    }
    if ciphertext.len() as u64 > MAX_PLAINTEXT_LEN + TAG_LEN as u64 {
        return Err(WireError::Crypto);
    }
    let plaintext = match aead::open(cipher, &nonce, hdr, ciphertext) {
        Ok(plaintext) => plaintext,
        Err(_) => return Err(WireError::Crypto),
    };
    match codec::decode_frame(plaintext.as_slice()) {
        Ok(frame) => Ok((chan, seq, frame)),
        Err(e) => Err(WireError::Codec(e)),
    }
}

/// Two packets with the same nonce have the same channel and sequence number.
pub proof fn law_nonce_determines_packet(c1: Channel, s1: u32, c2: Channel, s2: u32)
    requires
        nonce_bytes(c1, s1) == nonce_bytes(c2, s2),
    ensures
        c1 == c2,
        s1 == s2,
{
    let n1 = nonce_bytes(c1, s1);
    let n2 = nonce_bytes(c2, s2);
    assert(n1[7] == channel_id(c1) && n2[7] == channel_id(c2));
    assert(n1.subrange(8, 12) =~= be_bytes(s1));
    assert(n2.subrange(8, 12) =~= be_bytes(s2));
    lemma_be_round_trip(s1);
    lemma_be_round_trip(s2);
}

/// Whether a frame is short enough for the cipher.
pub fn fits_cipher(frame: &Frame) -> (fits: bool)
    ensures
        fits == (frame_bytes(frame@).len() <= MAX_PLAINTEXT_LEN),
{
    match codec::encode_frame(frame) {
        Ok(bytes) => bytes.len() as u64 <= MAX_PLAINTEXT_LEN,
        Err(_) => false,
    }
}

/// Every packet fits in [`MAX_PACKET_LEN`] bytes, but for one that carries a long host name.
pub proof fn law_packets_fit(frame: FrameModel)
    requires
        !(frame is Hello),
    ensures
        HEADER_LEN + frame_bytes(frame).len() + TAG_LEN <= MAX_PACKET_LEN,
        frame_bytes(frame).len() <= MAX_PLAINTEXT_LEN,
{
    codec::law_short_frames(frame);
}

/// A packet begins with version 1, the channel and the sequence number, most significant byte first;
/// behind them stands the frame, sealed under a nonce of seven zeros, the channel and the number, and
/// bound to the six bytes before it.
pub proof fn law_layout_of_packets(key: Seq<u8>, chan: Channel, seq: u32, frame: FrameModel)
    ensures
        ({
            let p = packet_bytes(key, chan, seq, frame);
            let nonce = nonce_bytes(chan, seq);
            &&& p.len() >= 6
            &&& p[0] == 1
            &&& p[1] == match chan {
                Channel::Reliable => 0int,
                Channel::Unreliable => 1int,
                Channel::Control => 2int,
            }
            &&& p[2] * 0x100_0000 + p[3] * 0x1_0000 + p[4] * 0x100 + p[5] == seq
            &&& p.skip(6) == aead_sealed(key, nonce, p.take(6), frame_bytes(frame))
            &&& nonce.len() == 12
            &&& forall|i: int| 0 <= i < 7 ==> nonce[i] == 0
            &&& nonce[7] == p[1]
            &&& forall|i: int| 8 <= i < 12 ==> nonce[i] == p[i - 6]
        }),
{
    let p = packet_bytes(key, chan, seq, frame);
    lemma_be_round_trip(seq);
    assert(p.take(6) =~= header_bytes(chan, seq));
    assert(p.skip(6) =~= aead_sealed(
        key,
        nonce_bytes(chan, seq),
        header_bytes(chan, seq),
        frame_bytes(frame),
    ));
}

/// A packet that is too short, or of another version, or on a channel that does not exist, is refused
/// with that reason, before its seal is looked at.
pub proof fn law_bad_headers_are_refused(key: Seq<u8>, packet: Seq<u8>)
    ensures
        packet.len() < 22 ==> read_packet(key, packet) == Err::<
            (Channel, u32, FrameModel),
            WireError,
        >(WireError::TooShort(packet.len() as usize)),
        packet.len() >= 22 && packet[0] != 1 ==> read_packet(key, packet) == Err::<
            (Channel, u32, FrameModel),
            WireError,
        >(WireError::BadVersion(packet[0])),
        packet.len() >= 22 && packet[0] == 1 && packet[1] > 2 ==> read_packet(key, packet) == Err::<
            (Channel, u32, FrameModel),
            WireError,
        >(WireError::BadChannel(packet[1])),
{
}

/// A packet is accepted only as what its header says and its seal holds: the channel and the number
/// are those of the header, and the frame is the one in the sealed bytes. What does not open is
/// refused.
pub proof fn law_only_sealed_packets_are_accepted(key: Seq<u8>, packet: Seq<u8>)
    requires
        22 <= packet.len() <= 0x3f_ffff_ff80,
        packet[0] == 1,
        packet[1] <= 2,
    ensures
        ({
            let chan = if packet[1] == 0 {
                Channel::Reliable
            } else if packet[1] == 1 {
                Channel::Unreliable
            } else {
                Channel::Control
            };
            let seq = packet[2] * 0x100_0000 + packet[3] * 0x1_0000 + packet[4] * 0x100 + packet[5];
            let opened = aead_opened(
                key,
                nonce_bytes(chan, seq as u32),
                packet.take(6),
                packet.skip(6),
            );
            let read = read_packet(key, packet);
            &&& opened is None ==> read == Err::<(Channel, u32, FrameModel), WireError>(
                WireError::Crypto,
            )
            &&& opened is Some ==> match parse_frame(opened->0) {
                Ok(frame) => read is Ok && (read->Ok_0).0 == chan && (read->Ok_0).1 == seq && (
                read->Ok_0).2 == frame,
                Err(e) => read == Err::<(Channel, u32, FrameModel), WireError>(WireError::Codec(e)),
            }
        }),
{
}

/// The channels have different numbers.
pub proof fn law_channels_are_told_apart(a: Channel, b: Channel)
    ensures
        channel_id(a) == channel_id(b) ==> a == b,
        channel_id(Channel::Reliable) == 0,
        channel_id(Channel::Unreliable) == 1,
        channel_id(Channel::Control) == 2,
{
}

} // verus!
