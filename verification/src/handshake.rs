//! The two messages that begin a session.
use crate::crypto::{recv_key, send_key, CryptoError, Handshake, Psk, SessionKeys};
use crate::noise::{
    fresh_side, noise_opens, NoiseError, NoiseModel, MAX_MESSAGE_LEN, MAX_PAYLOAD_LEN, MESSAGE_LEN,
    PUBLIC_KEY_LEN,
};
use vstd::prelude::*;
use vstd::slice::slice_to_vec;

verus! {

/// How often the slave tries to reach the master before it gives up.
pub const HANDSHAKE_ATTEMPTS: u32 = 5;

/// Nanoseconds that the slave waits for the master's answer.
pub const HANDSHAKE_REPLY_TIMEOUT: u64 = 500_000_000;

/// Length of the buffer that a message is written to.
pub const MESSAGE_BUFFER_LEN: usize = 256;

/// The first message alone.
pub open spec fn first_message(msg: Seq<u8>) -> Seq<Seq<u8>> {
    seq![msg]
}

/// Both messages.
pub open spec fn both_messages(msg: Seq<u8>, reply: Seq<u8>) -> Seq<Seq<u8>> {
    seq![msg, reply]
}

/// Whether `side` has the given role and secret, and has seen just these messages.
pub open spec fn has_seen(
    side: NoiseModel,
    initiator: bool,
    psk: Seq<u8>,
    transcript: Seq<Seq<u8>>,
) -> bool {
    &&& side.initiator == initiator
    &&& side.psk == psk
    &&& side.transcript == transcript
    &&& side.owns_message()
}

/// Whether the keys are those of a side, and mirror those of everyone it can have talked to.
pub open spec fn keys_of(keys: SessionKeys, side: NoiseModel) -> bool {
    &&& keys.send@ == send_key(side)
    &&& keys.recv@ == recv_key(side)
    &&& forall|peer: NoiseModel| #[trigger]
        side.talks_to(peer) && peer.owns_message() ==> keys.send@ == recv_key(peer) && keys.recv@
            == send_key(peer)
}

/// Whether the length of a message is acceptable.
pub open spec fn acceptable_len(n: nat) -> bool {
    MESSAGE_LEN <= n <= MESSAGE_LEN + MAX_PAYLOAD_LEN
}

/// Whether a side can read a message.
pub open spec fn can_read(side: NoiseModel, msg: Seq<u8>) -> bool {
    acceptable_len(msg.len()) && noise_opens(side, msg)
}

/// The beginning of a message buffer.
fn message_of(buf: &[u8; MESSAGE_BUFFER_LEN], n: usize) -> (msg: Vec<u8>)
    requires
        n <= MESSAGE_BUFFER_LEN,
    ensures
        msg@ == buf@.take(n as int),
{
    let msg = slice_to_vec(vstd::slice::slice_subrange(buf.as_slice(), 0, n));
    assert(msg@ =~= buf@.take(n as int));
    msg
}

/// Begin an attempt to reach the master: a new exchange, and its first message. A master with the
/// same secret can read the message. It fails only where the machine gives no random number.
pub fn start_attempt(psk: &Psk) -> (res: Result<(Handshake, Vec<u8>), CryptoError>)
    ensures
        match res {
            Ok((hs, msg)) => {
                &&& hs.wf()
                &&& has_seen(hs@, true, psk@, first_message(msg@))
                &&& msg@.len() == MESSAGE_LEN
                &&& can_read(fresh_side(false, psk@), msg@)
            },
            Err(e) => e == CryptoError::Noise(NoiseError::Rng),
        },
{
    let mut hs = match Handshake::new_initiator(psk) {
        Ok(hs) => hs,
        Err(e) => return Err(e),
    };
    let ghost begun = hs@;
    let mut buf: [u8; MESSAGE_BUFFER_LEN] = [0u8; MESSAGE_BUFFER_LEN];
    match hs.write_message(&mut buf) {
        Ok(n) => {
            let msg = message_of(&buf, n);
            proof {
                hs.lemma_owns_message();
                assert(hs@.transcript =~= first_message(msg@));
                let peer = fresh_side(false, psk@);
                assert(begun.talks_to(peer) && peer.owns_message());
            }
            Ok((hs, msg))
        },
        Err(e) => Err(e),
    }
}

/// End an attempt with an answer: the keys of the session, if the answer is one to this attempt.
pub fn finish_attempt(hs: Handshake, reply: &[u8]) -> (res: Option<SessionKeys>)
    requires
        hs.wf(),
        hs@.initiator,
        hs@.transcript.len() == 1,
    ensures
        res is Some <==> can_read(hs@, reply@),
        res matches Some(keys) ==> keys_of(keys, hs@.then_message(reply@)),
{
    let mut hs = hs;
    match hs.read_message(reply) {
        Ok(()) => match hs.finish() {
            Ok(keys) => Some(keys),
            Err(_) => None,
        },
        Err(_) => None,
    }
}

/// Whether another attempt is made after the `attempt`-th one, counted from one, failed.
pub fn tries_again(attempt: u32) -> (again: bool)
    ensures
        again == (attempt < HANDSHAKE_ATTEMPTS),
        again == (attempt < 5),
{
    attempt < HANDSHAKE_ATTEMPTS
}

/// Why a message of the given length that is awaited cannot be read.
pub open spec fn unreadable(n: nat) -> CryptoError {
    if n > MAX_MESSAGE_LEN || n < PUBLIC_KEY_LEN {
        CryptoError::Noise(NoiseError::Input)
    } else {
        CryptoError::Noise(NoiseError::Decrypt)
    }
}

/// Answer a datagram that may be the first message of a slave: the answer, and the keys of the
/// session. It fails where the message is not made with the same secret, or where the machine gives
/// no random number. The slave that wrote the message can read the answer.
pub fn answer_handshake(psk: &Psk, msg: &[u8]) -> (res: Result<
    (Vec<u8>, SessionKeys),
    CryptoError,
>)
    ensures
        match res {
            Ok((reply, keys)) => {
                &&& can_read(fresh_side(false, psk@), msg@)
                &&& reply@.len() == MESSAGE_LEN
                &&& exists|side: NoiseModel| #[trigger]
                    has_seen(side, false, psk@, both_messages(msg@, reply@)) && keys_of(keys, side)
                &&& forall|peer: NoiseModel| #[trigger]
                    has_seen(peer, true, psk@, first_message(msg@)) ==> noise_opens(peer, reply@)
            },
            Err(e) => e == (if can_read(fresh_side(false, psk@), msg@) {
                CryptoError::Noise(NoiseError::Rng)
            } else {
                unreadable(msg@.len())
            }),
        },
{
    let mut hs = match Handshake::new_responder(psk) {
        Ok(hs) => hs,
        Err(e) => return Err(e),
    };
    match hs.read_message(msg) {
        Ok(()) => {},
        Err(e) => return Err(e),
    }
    let ghost read = hs@;
    assert(read.transcript =~= first_message(msg@));
    let mut buf: [u8; MESSAGE_BUFFER_LEN] = [0u8; MESSAGE_BUFFER_LEN];
    let n: usize = match hs.write_message(&mut buf) {
        Ok(n) => n,
        Err(e) => return Err(e),
    };
    let reply = message_of(&buf, n);
    let ghost side = hs@;
    proof {
        hs.lemma_owns_message();
        assert(side.transcript =~= both_messages(msg@, reply@));
        assert(has_seen(side, false, psk@, both_messages(msg@, reply@)));
        assert forall|peer: NoiseModel| #[trigger] has_seen(
            peer,
            true,
            psk@,
            first_message(msg@),
        ) implies noise_opens(peer, reply@) by {
            assert(read.talks_to(peer) && peer.owns_message());
        }
    }
    match hs.finish() {
        Ok(keys) => {
            assert(keys_of(keys, side));
            Ok((reply, keys))
        },
        Err(e) => Err(e),
    }
}

/// Two sides that share the secret and have seen the same two messages have mirrored keys: what the
/// one sends, the other can open.
pub proof fn law_both_sides_agree(
    slave: NoiseModel,
    master: NoiseModel,
    psk: Seq<u8>,
    transcript: Seq<Seq<u8>>,
    slave_keys: SessionKeys,
    master_keys: SessionKeys,
)
    requires
        has_seen(slave, true, psk, transcript),
        has_seen(master, false, psk, transcript),
        keys_of(slave_keys, slave),
        keys_of(master_keys, master),
    ensures
        slave_keys.send@ == master_keys.recv@,
        slave_keys.recv@ == master_keys.send@,
{
    assert(slave.talks_to(master) && master.owns_message());
}

/// A message has at least 48 bytes and at most 256 more. One that is too short for a key, or longer
/// than any message, is no input at all; any other that is not read cannot be opened.
pub proof fn law_lengths_of_messages(n: nat)
    ensures
        acceptable_len(n) <==> 48 <= n <= 304,
        n < 32 || n > 65535 ==> unreadable(n) == CryptoError::Noise(NoiseError::Input),
        32 <= n <= 65535 ==> unreadable(n) == CryptoError::Noise(NoiseError::Decrypt),
{
}

} // verus!
