//! Authenticated encryption: ChaCha20-Poly1305 with keys, nonces and messages as plain bytes.
use chacha20poly1305::aead::{Aead, KeyInit, Payload};
use chacha20poly1305::ChaCha20Poly1305;
use vstd::prelude::*;

verus! {

/// Length of a key.
pub const KEY_LEN: usize = 32;

/// Length of a nonce.
pub const NONCE_LEN: usize = 12;

/// Length of the authentication tag that ends a sealed message.
pub const TAG_LEN: usize = 16;

/// The longest message that the cipher's key stream covers.
pub const MAX_PLAINTEXT_LEN: u64 = 0x3f_ffff_ff80;

/// The sealed form of `msg`: its ciphertext followed by the tag that authenticates the ciphertext
/// and `aad`.
pub uninterp spec fn aead_sealed(key: Seq<u8>, nonce: Seq<u8>, aad: Seq<u8>, msg: Seq<u8>) -> Seq<u8>;

/// The message inside `sealed`, if its tag is the right one.
pub uninterp spec fn aead_opened(key: Seq<u8>, nonce: Seq<u8>, aad: Seq<u8>, sealed: Seq<u8>) -> Option<Seq<u8>>;

/// `ChaCha20Poly1305::encrypt`: a message within the key stream is always sealed, its sealed form
/// is longer by the tag, and opening that form with the same key, nonce and associated data gives
/// the message back.
#[verifier::external_body]
pub(crate) fn seal(
    key: &[u8; KEY_LEN],
    nonce: &[u8; NONCE_LEN],
    aad: &[u8],
    msg: &[u8],
) -> (res: Result<Vec<u8>, ()>)
    requires
        msg@.len() <= MAX_PLAINTEXT_LEN,
    ensures
        res is Ok,
        res->Ok_0@ == aead_sealed(key@, nonce@, aad@, msg@),
        res->Ok_0@.len() == msg@.len() + TAG_LEN,
        aead_opened(key@, nonce@, aad@, res->Ok_0@) == Some(msg@),
{
    ChaCha20Poly1305::new(&(*key).into()).encrypt(&(*nonce).into(), Payload { msg, aad }).map_err(
        |_| (),
    )
}

/// `ChaCha20Poly1305::decrypt`: it fails where the tag is not the right one, and what it opens is
/// exactly what sealing the result again gives.
#[verifier::external_body]
pub(crate) fn open(
    key: &[u8; KEY_LEN],
    nonce: &[u8; NONCE_LEN],
    aad: &[u8],
    sealed: &[u8],
) -> (res: Result<Vec<u8>, ()>)
    requires
        sealed@.len() <= MAX_PLAINTEXT_LEN + TAG_LEN,
    ensures
        res is Ok <==> aead_opened(key@, nonce@, aad@, sealed@) is Some,
        res matches Ok(msg) ==> aead_opened(key@, nonce@, aad@, sealed@) == Some(msg@),
        res matches Ok(msg) ==> sealed@ == aead_sealed(key@, nonce@, aad@, msg@),
        res matches Ok(msg) ==> sealed@.len() == msg@.len() + TAG_LEN,
{
    ChaCha20Poly1305::new(&(*key).into()).decrypt(
        &(*nonce).into(),
        Payload { msg: sealed, aad },
    ).map_err(|_| ())
}

} // verus!
