//! The key exchange of the `snow` crate, and what the library relies on of it.
use snow::error::StateProblem as Problem;
use vstd::prelude::*;
use vstd::string::*;

verus! {

/// The Noise protocol that both machines speak.
pub const NOISE_PATTERN: &'static str = "Noise_NNpsk0_25519_ChaChaPoly_BLAKE2s";

/// How many messages the key exchange has.
pub const MESSAGE_COUNT: usize = 2;

/// Length of each message that is written: a public key and the tag of an empty payload.
pub const MESSAGE_LEN: usize = 48;

/// Length of the public key that begins each message.
pub const PUBLIC_KEY_LEN: usize = 32;

/// The longest message that is read at all.
pub const MAX_MESSAGE_LEN: usize = 65535;

/// How long the payload of a message that is read may be.
pub const MAX_PAYLOAD_LEN: usize = 256;

/// The state of a key exchange in progress.
#[verifier::external_type_specification]
#[verifier::external_body]
pub struct ExHandshakeState(snow::HandshakeState);

/// Why a step of the key exchange failed.
#[verifier::external_type_specification]
#[verifier::external_body]
pub struct ExError(snow::Error);

/// One side of a key exchange: its role, the secret shared in advance, the messages of both sides
/// so far, and the secret of its own message, empty until that is written.
pub struct NoiseModel {
    pub initiator: bool,
    pub psk: Seq<u8>,
    pub transcript: Seq<Seq<u8>>,
    pub secret: Seq<u8>,
}

/// What was wrong with the moment of a step.
#[derive(Debug, Clone, Copy, PartialEq, Eq, Structural)]
pub enum StateProblem {
    MissingKeyMaterial,
    MissingPsk,
    NotTurnToWrite,
    NotTurnToRead,
    HandshakeNotFinished,
    HandshakeAlreadyFinished,
    OneWay,
    Exhausted,
}

/// The name of a problem.
pub open spec fn state_problem_name(p: StateProblem) -> Seq<char> {
    match p {
        StateProblem::MissingKeyMaterial => "MissingKeyMaterial"@,
        StateProblem::MissingPsk => "MissingPsk"@,
        StateProblem::NotTurnToWrite => "NotTurnToWrite"@,
        StateProblem::NotTurnToRead => "NotTurnToRead"@,
        StateProblem::HandshakeNotFinished => "HandshakeNotFinished"@,
        StateProblem::HandshakeAlreadyFinished => "HandshakeAlreadyFinished"@,
        StateProblem::OneWay => "OneWay"@,
        StateProblem::Exhausted => "Exhausted"@,
    }
}

impl StateProblem {
    /// The name of this problem.
    pub fn name(&self) -> (name: &'static str)
        ensures
            name@ == state_problem_name(*self),
    {
        match self {
            StateProblem::MissingKeyMaterial => "MissingKeyMaterial",
            StateProblem::MissingPsk => "MissingPsk",
            StateProblem::NotTurnToWrite => "NotTurnToWrite",
            StateProblem::NotTurnToRead => "NotTurnToRead",
            StateProblem::HandshakeNotFinished => "HandshakeNotFinished",
            StateProblem::HandshakeAlreadyFinished => "HandshakeAlreadyFinished",
            StateProblem::OneWay => "OneWay",
            StateProblem::Exhausted => "Exhausted",
        }
    }
}

/// What kind of failure a `snow::Error` tells of.
#[derive(Debug, Clone, Copy, PartialEq, Eq, Structural)]
pub enum NoiseError {
    State(StateProblem),
    Input,
    Dh,
    Decrypt,
    Rng,
    /// A failure to set the exchange up; [`NOISE_PATTERN`] with one shared secret has none.
    Other,
}

/// The words for a kind of failure.
pub open spec fn noise_error_text(e: NoiseError) -> Seq<char> {
    match e {
        NoiseError::State(problem) => "state error: "@ + state_problem_name(problem),
        NoiseError::Input => "input error"@,
        NoiseError::Dh => "diffie-hellman error"@,
        NoiseError::Decrypt => "decrypt error"@,
        NoiseError::Rng => "RNG error"@,
        NoiseError::Other => "unknown error"@,
    }
}

impl NoiseError {
    /// The words for this kind of failure.
    pub fn text(&self) -> (text: String)
        ensures
            text@ == noise_error_text(*self),
    {
        match self {
            NoiseError::State(problem) => {
                let mut text = "state error: ".to_owned();
                text.append(problem.name());
                text
            },
            NoiseError::Input => "input error".to_owned(),
            NoiseError::Dh => "diffie-hellman error".to_owned(),
            NoiseError::Decrypt => "decrypt error".to_owned(),
            NoiseError::Rng => "RNG error".to_owned(),
            NoiseError::Other => "unknown error".to_owned(),
        }
    }
}

/// What is wrong with writing at this moment, if anything.
pub open spec fn write_problem(side: NoiseModel) -> Option<StateProblem> {
    if !side.my_turn() {
        Some(StateProblem::NotTurnToWrite)
    } else if side.finished() {
        Some(StateProblem::HandshakeAlreadyFinished)
    } else {
        None
    }
}

/// What is wrong with reading at this moment, if anything.
pub open spec fn read_problem(side: NoiseModel) -> Option<StateProblem> {
    if side.my_turn() {
        Some(StateProblem::NotTurnToRead)
    } else if side.finished() {
        Some(StateProblem::HandshakeAlreadyFinished)
    } else {
        None
    }
}

impl NoiseModel {
    /// Whether this side writes the next message.
    pub open spec fn my_turn(self) -> bool {
        self.initiator == (self.transcript.len() % 2 == 0)
    }

    /// Whether all messages have been exchanged.
    pub open spec fn finished(self) -> bool {
        self.transcript.len() == MESSAGE_COUNT
    }

    /// This side after one more message, written or read.
    pub open spec fn then_message(self, message: Seq<u8>) -> NoiseModel {
        NoiseModel { transcript: self.transcript.push(message), ..self }
    }

    /// The index of this side's own message.
    pub open spec fn own_index(self) -> int {
        if self.initiator {
            0
        } else {
            1
        }
    }

    /// Whether this side's own message, where it is written, was made with its secret.
    pub open spec fn owns_message(self) -> bool {
        &&& self.transcript.len() <= MESSAGE_COUNT
        &&& self.own_index() < self.transcript.len() ==> noise_wrote(
            self.secret,
            self.transcript[self.own_index()],
        )
    }

    /// Whether two sides talk to each other: they have different roles, share the secret, and have
    /// seen the same messages.
    pub open spec fn talks_to(self, peer: NoiseModel) -> bool {
        &&& self.initiator != peer.initiator
        &&& self.psk == peer.psk
        &&& self.transcript == peer.transcript
    }
}

/// A side of a key exchange in which nothing was said yet.
pub open spec fn fresh_side(initiator: bool, psk: Seq<u8>) -> NoiseModel {
    NoiseModel { initiator, psk, transcript: Seq::empty(), secret: Seq::empty() }
}

/// The side of the key exchange that a `snow::HandshakeState` holds.
pub uninterp spec fn noise_view(state: snow::HandshakeState) -> NoiseModel;

/// Whether `message` begins with the public key of `secret`.
pub uninterp spec fn noise_wrote(secret: Seq<u8>, message: Seq<u8>) -> bool;

/// Whether the tag of `message` is right, for the side that reads it.
pub uninterp spec fn noise_opens(side: NoiseModel, message: Seq<u8>) -> bool;

/// The two keys of a finished exchange: the one the initiator sends under, then the responder's.
pub uninterp spec fn noise_keys(side: NoiseModel) -> (Seq<u8>, Seq<u8>);

/// The kind of failure that a `snow::Error` stands for.
pub uninterp spec fn noise_error(error: snow::Error) -> NoiseError;

/// `snow::Builder::build_initiator` for [`NOISE_PATTERN`] with one shared secret: it gives the
/// side that writes first.
#[verifier::external_body]
pub(crate) fn build_initiator(psk: &[u8; 32]) -> (res: Result<snow::HandshakeState, snow::Error>)
    ensures
        res is Ok,
        noise_view(res->Ok_0) == fresh_side(true, psk@),
{
    snow::Builder::new(NOISE_PATTERN.parse()?).psk(0, psk)?.build_initiator()
}

/// `snow::Builder::build_responder` for [`NOISE_PATTERN`] with one shared secret: it gives the
/// side that reads first.
#[verifier::external_body]
pub(crate) fn build_responder(psk: &[u8; 32]) -> (res: Result<snow::HandshakeState, snow::Error>)
    ensures
        res is Ok,
        noise_view(res->Ok_0) == fresh_side(false, psk@),
{
    snow::Builder::new(NOISE_PATTERN.parse()?).psk(0, psk)?.build_responder()
}

/// `snow::HandshakeState::is_handshake_finished`: whether both messages have been exchanged.
#[verifier::external_body]
pub(crate) fn is_handshake_finished(state: &snow::HandshakeState) -> (finished: bool)
    ensures
        finished == noise_view(*state).finished(),
{
    state.is_handshake_finished()
}

/// `snow::HandshakeState::write_message` with an empty payload. It fails out of turn, after the
/// last message, on a buffer too short, or where the machine gives no random number; then nothing
/// changes. Else it puts a message made with a new secret at the front of `buf`, and a peer with
/// whom this side talks can open that message.
#[verifier::external_body]
pub(crate) fn write_message(state: &mut snow::HandshakeState, buf: &mut [u8]) -> (res: Result<
    usize,
    snow::Error,
>)
    ensures
        final(buf)@.len() == old(buf)@.len(),
        match res {
            Ok(n) => {
                let before = noise_view(*old(state));
                let after = noise_view(*final(state));
                let message = final(buf)@.take(MESSAGE_LEN as int);
                &&& n == MESSAGE_LEN
                &&& write_problem(before) is None && old(buf)@.len() >= MESSAGE_LEN
                &&& after == (NoiseModel {
                    secret: after.secret,
                    ..before.then_message(message)
                })
                &&& noise_wrote(after.secret, message)
                &&& forall|peer: NoiseModel|
                    before.talks_to(peer) && peer.owns_message() ==> #[trigger] noise_opens(
                        peer,
                        message,
                    )
            },
            Err(e) => {
                let before = noise_view(*old(state));
                &&& noise_view(*final(state)) == before
                &&& match write_problem(before) {
                    Some(problem) => noise_error(e) == NoiseError::State(problem),
                    None => if old(buf)@.len() < PUBLIC_KEY_LEN {
                        noise_error(e) == NoiseError::Input
                    } else if old(buf)@.len() < MESSAGE_LEN {
                        noise_error(e) == NoiseError::Input || noise_error(e) == NoiseError::Rng
                    } else {
                        noise_error(e) == NoiseError::Rng
                    },
                }
            },
        },
{
    state.write_message(&[], buf)
}

/// Why a message of the given length is not read.
pub open spec fn unread(side: NoiseModel, n: nat) -> NoiseError {
    if n > MAX_MESSAGE_LEN {
        NoiseError::Input
    } else {
        match read_problem(side) {
            Some(problem) => NoiseError::State(problem),
            None => if n < PUBLIC_KEY_LEN {
                NoiseError::Input
            } else {
                NoiseError::Decrypt
            },
        }
    }
}

/// `snow::HandshakeState::read_message` into a payload buffer of [`MAX_PAYLOAD_LEN`] bytes. It
/// succeeds just where it is the other side's turn, the message has an acceptable length and its
/// tag is right; else nothing changes.
#[verifier::external_body]
pub(crate) fn read_message(state: &mut snow::HandshakeState, msg: &[u8]) -> (res: Result<
    usize,
    snow::Error,
>)
    ensures
        res is Ok <==> {
            let before = noise_view(*old(state));
            &&& read_problem(before) is None
            &&& MESSAGE_LEN <= msg@.len() <= MESSAGE_LEN + MAX_PAYLOAD_LEN
            &&& noise_opens(before, msg@)
        },
        match res {
            Ok(_) => noise_view(*final(state)) == noise_view(*old(state)).then_message(msg@),
            Err(e) => {
                let before = noise_view(*old(state));
                &&& noise_view(*final(state)) == before
                &&& noise_error(e) == unread(before, msg@.len())
            },
        },
{
    state.read_message(msg, &mut [0u8; MAX_PAYLOAD_LEN])
}

/// `snow::HandshakeState::dangerously_get_raw_split`: the keys of a finished exchange. Two sides
/// that talked to each other have the same keys, since each combined its own secret with the
/// other's public key.
#[verifier::external_body]
pub(crate) fn raw_split(state: &mut snow::HandshakeState) -> (keys: ([u8; 32], [u8; 32]))
    requires
        noise_view(*old(state)).finished(),
    ensures
        (keys.0@, keys.1@) == noise_keys(noise_view(*old(state))),
        noise_view(*final(state)) == noise_view(*old(state)),
        forall|peer: NoiseModel|
            noise_view(*old(state)).talks_to(peer) && noise_view(*old(state)).owns_message()
                && peer.owns_message() ==> (keys.0@, keys.1@) == #[trigger] noise_keys(peer),
{
    state.dangerously_get_raw_split()
}

/// `snow::Error`: the problem that a state error holds.
#[verifier::external_body]
fn state_problem(error: &snow::Error) -> (problem: Option<StateProblem>)
    ensures
        match problem {
            Some(problem) => noise_error(*error) == NoiseError::State(problem),
            None => !(noise_error(*error) is State),
        },
{
    match error {
        snow::Error::State(Problem::MissingKeyMaterial) => Some(StateProblem::MissingKeyMaterial),
        snow::Error::State(Problem::MissingPsk) => Some(StateProblem::MissingPsk),
        snow::Error::State(Problem::NotTurnToWrite) => Some(StateProblem::NotTurnToWrite),
        snow::Error::State(Problem::NotTurnToRead) => Some(StateProblem::NotTurnToRead),
        snow::Error::State(Problem::HandshakeNotFinished) => Some(StateProblem::HandshakeNotFinished),
        snow::Error::State(Problem::HandshakeAlreadyFinished) => Some(StateProblem::HandshakeAlreadyFinished),
        snow::Error::State(Problem::OneWay) => Some(StateProblem::OneWay),
        snow::Error::State(Problem::Exhausted) => Some(StateProblem::Exhausted),
        _ => None,
    }
}

/// `snow::Error`: the variant of an error that is no state error, without what it holds.
#[verifier::external_body]
fn other_kind(error: snow::Error) -> (kind: NoiseError)
    requires
        !(noise_error(error) is State),
    ensures
        kind == noise_error(error),
{
    match error {
        snow::Error::Input => NoiseError::Input,
        snow::Error::Dh => NoiseError::Dh,
        snow::Error::Decrypt => NoiseError::Decrypt,
        snow::Error::Rng => NoiseError::Rng,
        _ => NoiseError::Other,
    }
}

/// The kind of failure that an error tells of.
pub(crate) fn error_kind(error: snow::Error) -> (kind: NoiseError)
    ensures
        kind == noise_error(error),
{
    match state_problem(&error) {
        Some(problem) => NoiseError::State(problem),
        None => other_kind(error),
    }
}

/// The two sides take turns: the slave writes first, the master answers, and after that nothing is
/// written or read.
pub proof fn law_sides_take_turns(psk: Seq<u8>, msg: Seq<u8>, reply: Seq<u8>)
    ensures
        ({
            let slave = fresh_side(true, psk);
            let master = fresh_side(false, psk);
            &&& !slave.finished() && !master.finished()
            &&& write_problem(slave) is None
            &&& read_problem(slave) == Some(StateProblem::NotTurnToRead)
            &&& write_problem(master) == Some(StateProblem::NotTurnToWrite)
            &&& read_problem(master) is None
        }),
        ({
            let slave = fresh_side(true, psk).then_message(msg);
            let master = fresh_side(false, psk).then_message(msg);
            &&& !slave.finished() && !master.finished()
            &&& write_problem(slave) == Some(StateProblem::NotTurnToWrite)
            &&& read_problem(slave) is None
            &&& write_problem(master) is None
            &&& read_problem(master) == Some(StateProblem::NotTurnToRead)
        }),
        ({
            let slave = fresh_side(true, psk).then_message(msg).then_message(reply);
            let master = fresh_side(false, psk).then_message(msg).then_message(reply);
            &&& slave.finished() && master.finished()
            &&& write_problem(slave) is Some && read_problem(slave) is Some
            &&& write_problem(master) is Some && read_problem(master) is Some
            &&& slave.talks_to(master)
        }),
{
}

} // verus!
