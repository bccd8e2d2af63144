//! The shared secret and the key exchange from which a session gets its keys.
use crate::aead::KEY_LEN;
use crate::noise::{
    self, noise_error_text, noise_keys, noise_opens, noise_view, read_problem, unread,
    write_problem, NoiseError, NoiseModel, MAX_PAYLOAD_LEN, MESSAGE_LEN, PUBLIC_KEY_LEN,
};
use crate::text::{append_decimal, decimal};
use vstd::prelude::*;
use vstd::string::*;

verus! {

/// Why a key or a key exchange is not usable.
#[derive(Debug, Clone, Copy, PartialEq, Eq, Structural)]
pub enum CryptoError {
    Noise(NoiseError),
    NotFinished,
    /// The file with the shared secret has a wrong form; the number is its length.
    BadPsk(usize),
}

/// The words for an error.
pub open spec fn crypto_error_text(e: CryptoError) -> Seq<char> {
    match e {
        CryptoError::Noise(kind) => "noise handshake error: "@ + noise_error_text(kind),
        CryptoError::NotFinished => "handshake not finished yet"@,
        CryptoError::BadPsk(n) =>
            "psk file must contain exactly 32 raw bytes or 64 hex characters, got "@ + decimal(
            n as nat,
        ) + " bytes"@,
    }
}

impl CryptoError {
    /// The words for this error.
    pub fn describe(&self) -> (text: String)
        ensures
            text@ == crypto_error_text(*self),
    {
        match self {
            CryptoError::Noise(kind) => {
                let mut text = "noise handshake error: ".to_owned();
                text.append(kind.text().as_str());
                text
            },
            CryptoError::NotFinished => "handshake not finished yet".to_owned(),
            CryptoError::BadPsk(n) => {
                let mut text =
                    "psk file must contain exactly 32 raw bytes or 64 hex characters, got ".to_owned();
                append_decimal(&mut text, *n as u64);
                text.append(" bytes");
                text
            },
        }
    }
}

/// A secret that both machines share in advance.
pub type Psk = [u8; 32];

/// The value of a hexadecimal digit.
pub open spec fn nibble_of(b: u8) -> Option<u8> {
    if 48 <= b <= 57 {
        Some((b - 48) as u8)
    } else if 97 <= b <= 102 {
        Some((b - 87) as u8)
    } else if 65 <= b <= 70 {
        Some((b - 55) as u8)
    } else {
        None
    }
}

/// Whether a byte is ASCII white space.
pub open spec fn is_space(b: u8) -> bool {
    b == 9 || b == 10 || b == 12 || b == 13 || b == 32
}

/// The digits of a hexadecimal text: what is left of it without white space.
pub open spec fn without_spaces(raw: Seq<u8>) -> Seq<u8> {
    raw.filter(|b: u8| !is_space(b))
}

/// The byte that a pair of hexadecimal digits stands for.
pub open spec fn hex_byte(digits: Seq<u8>, i: int) -> u8 {
    (nibble_of(digits[2 * i])->0 * 16 + nibble_of(digits[2 * i + 1])->0) as u8
}

/// The shared secret that a file holds: 32 bytes as they are, or else 64 hexadecimal digits with
/// white space anywhere between them.
pub open spec fn psk_of(raw: Seq<u8>) -> Option<Seq<u8>> {
    let digits = without_spaces(raw);
    if raw.len() == 32 {
        Some(raw)
    } else if digits.len() == 64 && forall|i: int|
        0 <= i < 64 ==> nibble_of(#[trigger] digits[i]) is Some {
        Some(Seq::new(32, |i: int| hex_byte(digits, i)))
    } else {
        None
    }
}

pub fn hex_nibble(b: u8) -> (res: Option<u8>)
    ensures
        res == nibble_of(b),
{
    if 48 <= b && b <= 57 {
        Some(b - 48)
    } else if 97 <= b && b <= 102 {
        Some(b - 87)
    } else if 65 <= b && b <= 70 {
        Some(b - 55)
    } else {
        None
    }
}

/// Read the shared secret from the contents of its file.
pub fn parse_psk(raw: &[u8]) -> (res: Result<Psk, CryptoError>)
    ensures
        match res {
            Ok(psk) => psk_of(raw@) == Some(psk@),
            Err(e) => psk_of(raw@) is None && e == CryptoError::BadPsk(raw@.len() as usize),
        },
{
    let mut psk: Psk = [0u8; 32];
    if raw.len() == 32 {
        let mut i: usize = 0;
        while i < 32
            invariant
                i <= 32,
                raw@.len() == 32,
                psk@.len() == 32,
                forall|j: int| 0 <= j < i ==> psk@[j] == raw@[j],
            decreases 32 - i,
        {
            psk[i] = raw[i];
            i += 1;
        }
        assert(psk@ =~= raw@);
        return Ok(psk);
    }
    let mut trimmed: Vec<u8> = Vec::new();
    let mut k: usize = 0;
    assert(raw@.take(0).filter(|b: u8| !is_space(b)) =~= Seq::empty()) by {
        reveal(Seq::filter);
    }
    while k < raw.len()
        invariant
            k <= raw@.len(),
            trimmed@ == without_spaces(raw@.take(k as int)),
        decreases raw@.len() - k,
    {
        let b: u8 = raw[k];
        proof {
            assert(raw@.take(k + 1) =~= raw@.take(k as int).push(b));
            assert(raw@.take(k + 1).drop_last() =~= raw@.take(k as int));
            reveal(Seq::filter);
        }
        if !(b == 9 || b == 10 || b == 12 || b == 13 || b == 32) {
            trimmed.push(b);
        }
        k += 1;
    }
    assert(raw@.take(k as int) =~= raw@);
    if trimmed.len() == 64 {
        let mut i: usize = 0;
        while i < 32
            invariant
                i <= 32,
                raw@.len() != 32,
                trimmed@.len() == 64,
                trimmed@ == without_spaces(raw@),
                psk@.len() == 32,
                forall|j: int| 0 <= j < 2 * i ==> nibble_of(#[trigger] trimmed@[j]) is Some,
                forall|j: int| 0 <= j < i ==> psk@[j] == hex_byte(trimmed@, j),
            decreases 32 - i,
        {
            let hi: u8 = match hex_nibble(trimmed[2 * i]) {
                Some(hi) => hi,
                None => {
                    assert(nibble_of(trimmed@[2 * i]) is None);
                    return Err(CryptoError::BadPsk(raw.len()));
                },
            };
            let lo: u8 = match hex_nibble(trimmed[2 * i + 1]) {
                Some(lo) => lo,
                None => {
                    assert(nibble_of(trimmed@[2 * i + 1]) is None);
                    return Err(CryptoError::BadPsk(raw.len()));
                },
            };
            assert((hi << 4) | lo == hi * 16 + lo) by (bit_vector)
                requires
                    hi < 16,
                    lo < 16,
            ;
            psk[i] = (hi << 4) | lo;
            i += 1;
        }
        assert(psk@ =~= Seq::new(32, |j: int| hex_byte(trimmed@, j)));
        return Ok(psk);
    }
    Err(CryptoError::BadPsk(raw.len()))
}

/// The keys under which one side of a session sends and receives.
#[derive(Clone, Copy)]
pub struct SessionKeys {
    pub send: [u8; KEY_LEN],
    pub recv: [u8; KEY_LEN],
}

/// The key under which a side of a finished exchange sends.
pub open spec fn send_key(side: NoiseModel) -> Seq<u8> {
    if side.initiator {
        noise_keys(side).0
    } else {
        noise_keys(side).1
    }
}

/// The key under which a side of a finished exchange receives.
pub open spec fn recv_key(side: NoiseModel) -> Seq<u8> {
    if side.initiator {
        noise_keys(side).1
    } else {
        noise_keys(side).0
    }
}

/// One side of a key exchange.
pub struct Handshake {
    state: snow::HandshakeState,
    initiator: bool,
}

impl View for Handshake {
    type V = NoiseModel;

    closed spec fn view(&self) -> NoiseModel {
        noise_view(self.state)
    }
}

impl Handshake {
    /// The role is the one that the exchange was begun in, and the own message is known.
    pub closed spec fn wf(&self) -> bool {
        &&& self.initiator == self@.initiator
        &&& self@.owns_message()
    }

    /// A side of a key exchange knows its own message.
    pub proof fn lemma_owns_message(&self)
        requires
            self.wf(),
        ensures
            self@.owns_message(),
    {
    }

    /// The side that writes the first message.
    pub fn new_initiator(psk: &Psk) -> (res: Result<Self, CryptoError>)
        ensures
            res is Ok,
            res->Ok_0.wf(),
            res->Ok_0@ == noise::fresh_side(true, psk@),
    {
        match noise::build_initiator(psk) {
            Ok(state) => Ok(Self { state, initiator: true }),
            Err(e) => Err(CryptoError::Noise(noise::error_kind(e))),
        }
    }

    /// The side that reads the first message.
    pub fn new_responder(psk: &Psk) -> (res: Result<Self, CryptoError>)
        ensures
            res is Ok,
            res->Ok_0.wf(),
            res->Ok_0@ == noise::fresh_side(false, psk@),
    {
        match noise::build_responder(psk) {
            Ok(state) => Ok(Self { state, initiator: false }),
            Err(e) => Err(CryptoError::Noise(noise::error_kind(e))),
        }
    }

    /// Whether both messages have been exchanged.
    pub fn is_finished(&self) -> (finished: bool)
        ensures
            finished == self@.finished(),
    {
        noise::is_handshake_finished(&self.state)
    }

    /// Write this side's message to the front of `buf`, and return its length. A side that this
    /// one talks to can read the message.
    pub fn write_message(&mut self, buf: &mut [u8]) -> (res: Result<usize, CryptoError>)
        requires
            old(self).wf(),
        ensures
            final(self).wf(),
            final(buf)@.len() == old(buf)@.len(),
            match res {
                Ok(n) => {
                    let message = final(buf)@.take(MESSAGE_LEN as int);
                    &&& n == MESSAGE_LEN
                    &&& write_problem(old(self)@) is None
                    &&& old(buf)@.len() >= MESSAGE_LEN
                    &&& final(self)@ == (NoiseModel {
                        secret: final(self)@.secret,
                        ..old(self)@.then_message(message)
                    })
                    &&& forall|peer: NoiseModel|
                        old(self)@.talks_to(peer) && peer.owns_message() ==> #[trigger] noise_opens(
                            peer,
                            message,
                        )
                },
                Err(e) => {
                    &&& final(self)@ == old(self)@
                    &&& match write_problem(old(self)@) {
                        Some(problem) => e == CryptoError::Noise(NoiseError::State(problem)),
                        None => if old(buf)@.len() < PUBLIC_KEY_LEN {
                            e == CryptoError::Noise(NoiseError::Input)
                        } else if old(buf)@.len() < MESSAGE_LEN {
                            ||| e == CryptoError::Noise(NoiseError::Input)
                            ||| e == CryptoError::Noise(NoiseError::Rng)
                        } else {
                            e == CryptoError::Noise(NoiseError::Rng)
                        },
                    }
                },
            },
    {
        match noise::write_message(&mut self.state, buf) {
            Ok(n) => Ok(n),
            Err(e) => Err(CryptoError::Noise(noise::error_kind(e))),
        }
    }

    /// Read the other side's message.
    pub fn read_message(&mut self, msg: &[u8]) -> (res: Result<(), CryptoError>)
        requires
            old(self).wf(),
        ensures
            final(self).wf(),
            res is Ok <==> {
                &&& read_problem(old(self)@) is None
                &&& MESSAGE_LEN <= msg@.len() <= MESSAGE_LEN + MAX_PAYLOAD_LEN
                &&& noise_opens(old(self)@, msg@)
            },
            match res {
                Ok(_) => final(self)@ == old(self)@.then_message(msg@),
                Err(e) => {
                    &&& final(self)@ == old(self)@
                    &&& e == CryptoError::Noise(unread(old(self)@, msg@.len()))
                },
            },
    {
        match noise::read_message(&mut self.state, msg) {
            Ok(_) => Ok(()),
            Err(e) => Err(CryptoError::Noise(noise::error_kind(e))),
        }
    }

    /// The keys of a finished exchange. Two sides that talked to each other get mirrored keys: what
    /// the one sends under, the other receives under.
    pub fn finish(self) -> (res: Result<SessionKeys, CryptoError>)
        requires
            self.wf(),
        ensures
            match res {
                Ok(keys) => {
                    &&& self@.finished()
                    &&& keys.send@ == send_key(self@)
                    &&& keys.recv@ == recv_key(self@)
                    &&& forall|peer: NoiseModel| #[trigger]
                        self@.talks_to(peer) && peer.owns_message() ==> keys.send@ == recv_key(peer)
                            && keys.recv@ == send_key(peer)
                },
                Err(e) => !self@.finished() && e == CryptoError::NotFinished,
            },
    {
        if !noise::is_handshake_finished(&self.state) {
            return Err(CryptoError::NotFinished);
        }
        let mut state = self.state;
        let (k_initiator, k_responder) = noise::raw_split(&mut state);
        if self.initiator {
            Ok(SessionKeys { send: k_initiator, recv: k_responder })
        } else {
            Ok(SessionKeys { send: k_responder, recv: k_initiator })
        }
    }
}

/// Whether a byte is the hexadecimal digit of a value, in either case.
pub open spec fn is_digit_of(b: u8, value: u8) -> bool {
    ||| 0 <= value < 10 && b == 48 + value
    ||| 10 <= value < 16 && (b == 97 + value - 10 || b == 65 + value - 10)
}

proof fn lemma_nothing_to_drop(s: Seq<u8>)
    requires
        forall|i: int| 0 <= i < s.len() ==> !is_space(#[trigger] s[i]),
    ensures
        without_spaces(s) == s,
    decreases s.len(),
{
    reveal(Seq::filter);
    if s.len() > 0 {
        lemma_nothing_to_drop(s.drop_last());
        assert(s =~= s.drop_last().push(s.last()));
    }
}

/// A file of 32 bytes is the secret as it stands.
pub proof fn law_raw_secret_stands_for_itself(raw: Seq<u8>)
    requires
        raw.len() == 32,
    ensures
        psk_of(raw) == Some(raw),
{
}

/// A file of 64 hexadecimal digits is the secret whose bytes have these digits, the high one first.
pub proof fn law_hexadecimal_secret_is_read(digits: Seq<u8>, secret: Seq<u8>)
    requires
        secret.len() == 32,
        digits.len() == 64,
        forall|i: int|
            0 <= i < 32 ==> is_digit_of(digits[2 * i], (#[trigger] secret[i]) / 16) && is_digit_of(
                digits[2 * i + 1],
                secret[i] % 16,
            ),
    ensures
        psk_of(digits) == Some(secret),
{
    assert forall|j: int| 0 <= j < 64 implies nibble_of(#[trigger] digits[j]) is Some && !is_space(
        digits[j],
    ) by {
        let i = j / 2;
        let byte = secret[i];
        assert(j == 2 * i || j == 2 * i + 1);
    }
    lemma_nothing_to_drop(digits);
    let read = Seq::new(32, |i: int| hex_byte(digits, i));
    assert forall|i: int| 0 <= i < 32 implies read[i] == secret[i] by {
        let byte = secret[i];
        assert(nibble_of(digits[2 * i]) == Some((byte / 16) as u8));
        assert(nibble_of(digits[2 * i + 1]) == Some((byte % 16) as u8));
    }
    assert(read =~= secret);
}

/// White space between the digits, before them and behind them does not count.
pub proof fn law_white_space_does_not_count(before: Seq<u8>, space: u8, after: Seq<u8>)
    requires
        space == 9 || space == 10 || space == 12 || space == 13 || space == 32,
        before.len() + after.len() != 32,
        before.len() + after.len() != 31,
    ensures
        psk_of(before + seq![space] + after) == psk_of(before + after),
{
    let keep = |b: u8| !is_space(b);
    Seq::filter_distributes_over_add(before + seq![space], after, keep);
    Seq::filter_distributes_over_add(before, seq![space], keep);
    Seq::filter_distributes_over_add(before, after, keep);
    assert(seq![space].filter(keep) =~= Seq::<u8>::empty()) by {
        reveal(Seq::filter);
        assert(seq![space].drop_last() =~= Seq::<u8>::empty());
        assert(Seq::<u8>::empty().filter(keep) =~= Seq::<u8>::empty());
    }
    assert(before.filter(keep) + Seq::<u8>::empty() =~= before.filter(keep));
}

/// A file that is not of 32 bytes and holds a byte that is neither a hexadecimal digit nor white
/// space is no secret.
pub proof fn law_other_bytes_are_no_secret(before: Seq<u8>, b: u8, after: Seq<u8>)
    requires
        before.len() + 1 + after.len() != 32,
        !(48 <= b <= 57) && !(65 <= b <= 70) && !(97 <= b <= 102),
        b != 9 && b != 10 && b != 12 && b != 13 && b != 32,
    ensures
        psk_of(before + seq![b] + after) is None,
{
    let keep = |b: u8| !is_space(b);
    Seq::filter_distributes_over_add(before + seq![b], after, keep);
    Seq::filter_distributes_over_add(before, seq![b], keep);
    assert(seq![b].filter(keep) =~= seq![b]) by {
        reveal(Seq::filter);
        assert(seq![b].drop_last() =~= Seq::<u8>::empty());
        assert(Seq::<u8>::empty().filter(keep) =~= Seq::<u8>::empty());
    }
    let digits = without_spaces(before + seq![b] + after);
    let at = before.filter(keep).len() as int;
    assert(digits =~= before.filter(keep) + seq![b] + after.filter(keep));
    assert(digits[at] == b);
    assert(nibble_of(digits[at]) is None);
}

/// The side that writes first sends under the first key of the exchange and receives under the
/// second; the other side does it the other way round.
pub proof fn law_keys_go_by_role(side: NoiseModel)
    ensures
        side.initiator ==> send_key(side) == noise_keys(side).0 && recv_key(side) == noise_keys(
            side,
        ).1,
        !side.initiator ==> send_key(side) == noise_keys(side).1 && recv_key(side) == noise_keys(
            side,
        ).0,
{
}

} // verus!
