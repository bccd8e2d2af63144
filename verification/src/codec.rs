//! The byte encoding of frames.
//!
//! A frame is a tag followed by its fields in order, and so is an input event; the tags and the
//! fields themselves are in postcard's encoding.
use crate::event::{DisplayGeometry, HelloInfo, HelloModel, InputEvent, Point, WelcomeInfo};
use crate::frame::{Frame, FrameModel};
use vstd::prelude::*;
use vstd::utf8::{decode_utf8, encode_utf8, valid_utf8};

verus! {

/// Why a sequence of bytes is not a frame.
#[derive(Debug, Clone, Copy, PartialEq, Eq, Structural)]
pub enum CodecError {
    /// The bytes end inside a value.
    UnexpectedEnd,
    /// A variable-length integer is too large for its type.
    BadVarint,
    /// A flag is neither 0 nor 1.
    BadBool,
    /// A text is not UTF-8.
    BadUtf8,
    /// A tag is not the tag of any variant.
    BadVariant,
    /// Any other fault that postcard can report.
    Other,
}

/// The words for a fault.
pub open spec fn codec_error_text(e: CodecError) -> Seq<char> {
    match e {
        CodecError::UnexpectedEnd => "Hit the end of buffer, expected more data"@,
        CodecError::BadVarint =>
            "Found a varint that didn't terminate. Is the usize too big for this platform?"@,
        CodecError::BadBool => "Found a bool that wasn't 0 or 1"@,
        CodecError::BadUtf8 => "Tried to parse invalid utf-8"@,
        CodecError::BadVariant => "Serde Deserialization Error"@,
        CodecError::Other => "unexpected postcard error"@,
    }
}

impl CodecError {
    /// The words for this fault.
    pub fn text(&self) -> (text: &'static str)
        ensures
            text@ == codec_error_text(*self),
    {
        match self {
            CodecError::UnexpectedEnd => "Hit the end of buffer, expected more data",
            CodecError::BadVarint => {
                "Found a varint that didn't terminate. Is the usize too big for this platform?"
            },
            CodecError::BadBool => "Found a bool that wasn't 0 or 1",
            CodecError::BadUtf8 => "Tried to parse invalid utf-8",
            CodecError::BadVariant => "Serde Deserialization Error",
            CodecError::Other => "unexpected postcard error",
        }
    }
}

// ---------------------------------------------------------------------------------------------
// Primitive values

/// `n` in groups of seven bits, least significant first; every byte but the last has its top bit
/// set.
pub open spec fn varint(n: nat) -> Seq<u8>
    decreases n,
{
    if n < 128 {
        seq![n as u8]
    } else {
        seq![(n % 128 + 128) as u8] + varint(n / 128)
    }
}

/// The result of reading a value off the front of some bytes: the value and the bytes after it.
pub type Read<T> = Result<(T, Seq<u8>), CodecError>;

/// Reads a variable-length integer of at most `groups` groups of seven bits, the last of which
/// may be at most `last` when all of them are used.
pub open spec fn read_varint(s: Seq<u8>, groups: nat, last: nat) -> Read<nat>
    decreases groups,
{
    if groups == 0 {
        Err(CodecError::BadVarint)
    } else if s.len() == 0 {
        Err(CodecError::UnexpectedEnd)
    } else if s[0] < 128 {
        if groups == 1 && s[0] > last {
            Err(CodecError::BadVarint)
        } else {
            Ok((s[0] as nat, s.skip(1)))
        }
    } else {
        match read_varint(s.skip(1), (groups - 1) as nat, last) {
            Ok((high, rest)) => Ok(((s[0] - 128 + 128 * high) as nat, rest)),
            Err(e) => Err(e),
        }
    }
}

/// Reads a 16-bit integer.
pub open spec fn read_u16(s: Seq<u8>) -> Read<u16> {
    match read_varint(s, 3, 3) {
        Ok((n, rest)) => Ok((n as u16, rest)),
        Err(e) => Err(e),
    }
}

/// Reads a 32-bit integer.
pub open spec fn read_u32(s: Seq<u8>) -> Read<u32> {
    match read_varint(s, 5, 15) {
        Ok((n, rest)) => Ok((n as u32, rest)),
        Err(e) => Err(e),
    }
}

/// Reads a 64-bit integer.
pub open spec fn read_u64(s: Seq<u8>) -> Read<u64> {
    match read_varint(s, 10, 1) {
        Ok((n, rest)) => Ok((n as u64, rest)),
        Err(e) => Err(e),
    }
}

/// Signed integers alternate around zero: 0, -1, 1, -2, 2, ...
pub open spec fn zigzag(v: int) -> nat {
    if v >= 0 {
        (2 * v) as nat
    } else {
        (-2 * v - 1) as nat
    }
}

pub open spec fn unzigzag(n: nat) -> int {
    if n % 2 == 0 {
        (n / 2) as int
    } else {
        -((n / 2) as int) - 1
    }
}

/// Reads a signed 32-bit integer.
pub open spec fn read_i32(s: Seq<u8>) -> Read<i32> {
    match read_varint(s, 5, 15) {
        Ok((n, rest)) => Ok((unzigzag(n) as i32, rest)),
        Err(e) => Err(e),
    }
}

pub open spec fn bool_bytes(v: bool) -> Seq<u8> {
    seq![if v { 1u8 } else { 0u8 }]
}

/// Reads a flag.
pub open spec fn read_bool(s: Seq<u8>) -> Read<bool> {
    if s.len() == 0 {
        Err(CodecError::UnexpectedEnd)
    } else if s[0] == 0 {
        Ok((false, s.skip(1)))
    } else if s[0] == 1 {
        Ok((true, s.skip(1)))
    } else {
        Err(CodecError::BadBool)
    }
}

/// A text is the number of its bytes in UTF-8, then those bytes.
pub open spec fn text_bytes(v: Seq<char>) -> Seq<u8> {
    varint(encode_utf8(v).len()) + encode_utf8(v)
}

/// Reads a length, which is an integer of the machine's width.
pub open spec fn read_len(s: Seq<u8>) -> Read<nat> {
    if usize::BITS == 64 {
        read_varint(s, 10, 1)
    } else {
        read_varint(s, 5, 15)
    }
}

/// Reads a text.
pub open spec fn read_text(s: Seq<u8>) -> Read<Seq<char>> {
    match read_len(s) {
        Ok((n, rest)) => {
            if n > rest.len() {
                Err(CodecError::UnexpectedEnd)
            } else if !valid_utf8(rest.take(n as int)) {
                Err(CodecError::BadUtf8)
            } else {
                Ok((decode_utf8(rest.take(n as int)), rest.skip(n as int)))
            }
        },
        Err(e) => Err(e),
    }
}

// ---------------------------------------------------------------------------------------------
// Frames

pub open spec fn point_bytes(p: Point) -> Seq<u8> {
    varint(zigzag(p.x as int)) + varint(zigzag(p.y as int))
}

pub open spec fn geometry_bytes(g: DisplayGeometry) -> Seq<u8> {
    varint(g.width as nat) + varint(g.height as nat) + varint(g.refresh_mhz as nat) + varint(
        g.scale_pct as nat,
    )
}

pub open spec fn hello_bytes(h: HelloModel) -> Seq<u8> {
    varint(h.proto_version as nat) + text_bytes(h.hostname) + geometry_bytes(h.screen)
}

pub open spec fn event_bytes(event: InputEvent) -> Seq<u8> {
    match event {
        InputEvent::Motion { x, y } => varint(0) + point_bytes(Point { x, y }),
        InputEvent::Button { code, pressed, at } => varint(1) + varint(code as nat) + bool_bytes(
            pressed,
        ) + point_bytes(at),
        InputEvent::Key { code, pressed } => varint(2) + varint(code as nat) + bool_bytes(pressed),
        InputEvent::Scroll { dx, dy, hi_res } => varint(3) + point_bytes(Point { x: dx, y: dy })
            + bool_bytes(hi_res),
        InputEvent::Enter { at } => varint(4) + point_bytes(at),
        InputEvent::Leave => varint(5),
        InputEvent::ReleaseAll => varint(6),
    }
}

/// The bytes of a frame.
pub open spec fn frame_bytes(frame: FrameModel) -> Seq<u8> {
    match frame {
        FrameModel::Hello(hello) => varint(0) + hello_bytes(hello),
        FrameModel::Welcome(welcome) => varint(1) + varint(welcome.proto_version as nat),
        FrameModel::Event(event) => varint(2) + event_bytes(event),
        FrameModel::Ack { acked_seq } => varint(3) + varint(acked_seq as nat),
        FrameModel::Ping { nonce } => varint(4) + varint(nonce as nat),
        FrameModel::Pong { nonce } => varint(5) + varint(nonce as nat),
        FrameModel::Bye => varint(6),
    }
}

pub open spec fn read_point(s: Seq<u8>) -> Read<Point> {
    match read_i32(s) {
        Ok((x, s1)) => {
            match read_i32(s1) {
                Ok((y, s2)) => {
                    Ok((Point { x, y }, s2))
                },
                Err(e) => Err(e),
            }
        },
        Err(e) => Err(e),
    }
}

pub open spec fn read_geometry(s: Seq<u8>) -> Read<DisplayGeometry> {
    match read_u32(s) {
        Ok((width, s1)) => {
            match read_u32(s1) {
                Ok((height, s2)) => {
                    match read_u32(s2) {
                        Ok((refresh_mhz, s3)) => {
                            match read_u32(s3) {
                                Ok((scale_pct, s4)) => {
                                    Ok((DisplayGeometry { width, height, refresh_mhz, scale_pct }, s4))
                                },
                                Err(e) => Err(e),
                            }
                        },
                        Err(e) => Err(e),
                    }
                },
                Err(e) => Err(e),
            }
        },
        Err(e) => Err(e),
    }
}

pub open spec fn read_hello(s: Seq<u8>) -> Read<HelloModel> {
    match read_u32(s) {
        Ok((proto_version, s1)) => {
            match read_text(s1) {
                Ok((hostname, s2)) => {
                    match read_geometry(s2) {
                        Ok((screen, s3)) => {
                            Ok((HelloModel { proto_version, hostname, screen }, s3))
                        },
                        Err(e) => Err(e),
                    }
                },
                Err(e) => Err(e),
            }
        },
        Err(e) => Err(e),
    }
}

pub open spec fn read_key(s: Seq<u8>) -> Read<(u16, bool)> {
    match read_u16(s) {
        Ok((code, s1)) => {
            match read_bool(s1) {
                Ok((pressed, s2)) => {
                    Ok(((code, pressed), s2))
                },
                Err(e) => Err(e),
            }
        },
        Err(e) => Err(e),
    }
}

pub open spec fn read_event(s: Seq<u8>) -> Read<InputEvent> {
    match read_u32(s) {
        Ok((tag, rest)) => read_event_fields(tag, rest),
        Err(e) => Err(e),
    }
}

pub open spec fn read_event_fields(tag: u32, s: Seq<u8>) -> Read<InputEvent> {
    if tag == 0 {
        match read_point(s) {
            Ok((p, rest)) => Ok((InputEvent::Motion { x: p.x, y: p.y }, rest)),
            Err(e) => Err(e),
        }
    } else if tag == 1 {
        match read_key(s) {
            Ok((key, s1)) => match read_point(s1) {
                Ok((at, rest)) => Ok(
                    (InputEvent::Button { code: key.0, pressed: key.1, at }, rest),
                ),
                Err(e) => Err(e),
            },
            Err(e) => Err(e),
        }
    } else if tag == 2 {
        match read_key(s) {
            Ok((key, rest)) => Ok((InputEvent::Key { code: key.0, pressed: key.1 }, rest)),
            Err(e) => Err(e),
        }
    } else if tag == 3 {
        match read_point(s) {
            Ok((p, s1)) => match read_bool(s1) {
                Ok((hi_res, rest)) => Ok(
                    (InputEvent::Scroll { dx: p.x, dy: p.y, hi_res }, rest),
                ),
                Err(e) => Err(e),
            },
            Err(e) => Err(e),
        }
    } else if tag == 4 {
        match read_point(s) {
            Ok((at, rest)) => Ok((InputEvent::Enter { at }, rest)),
            Err(e) => Err(e),
        }
    } else if tag == 5 {
        Ok((InputEvent::Leave, s))
    } else if tag == 6 {
        Ok((InputEvent::ReleaseAll, s))
    } else {
        Err(CodecError::BadVariant)
    }
}

/// Reads a frame off the front of some bytes.
pub open spec fn read_frame(s: Seq<u8>) -> Read<FrameModel> {
    match read_u32(s) {
        Ok((tag, rest)) => read_frame_fields(tag, rest),
        Err(e) => Err(e),
    }
}

pub open spec fn read_frame_fields(tag: u32, s: Seq<u8>) -> Read<FrameModel> {
    if tag == 0 {
        match read_hello(s) {
            Ok((hello, rest)) => Ok((FrameModel::Hello(hello), rest)),
            Err(e) => Err(e),
        }
    } else if tag == 1 {
        match read_u32(s) {
            Ok((proto_version, rest)) => Ok(
                (FrameModel::Welcome(WelcomeInfo { proto_version }), rest),
            ),
            Err(e) => Err(e),
        }
    } else if tag == 2 {
        match read_event(s) {
            Ok((event, rest)) => Ok((FrameModel::Event(event), rest)),
            Err(e) => Err(e),
        }
    } else if tag == 3 {
        match read_u32(s) {
            Ok((acked_seq, rest)) => Ok((FrameModel::Ack { acked_seq }, rest)),
            Err(e) => Err(e),
        }
    } else if tag == 4 {
        match read_u64(s) {
            Ok((nonce, rest)) => Ok((FrameModel::Ping { nonce }, rest)),
            Err(e) => Err(e),
        }
    } else if tag == 5 {
        match read_u64(s) {
            Ok((nonce, rest)) => Ok((FrameModel::Pong { nonce }, rest)),
            Err(e) => Err(e),
        }
    } else if tag == 6 {
        Ok((FrameModel::Bye, s))
    } else {
        Err(CodecError::BadVariant)
    }
}

/// The frame that some bytes encode. Bytes after the end of the frame are ignored.
pub open spec fn parse_frame(s: Seq<u8>) -> Result<FrameModel, CodecError> {
    match read_frame(s) {
        Ok((frame, _)) => Ok(frame),
        Err(e) => Err(e),
    }
}

// ---------------------------------------------------------------------------------------------
// postcard

/// [`postcard::to_allocvec`] of an unsigned integer: it always succeeds, and the bytes are the
/// integer's variable-length encoding, whatever the width of its type.
#[verifier::external_body]
fn put_uint(v: u64) -> (res: Result<Vec<u8>, CodecError>)
    ensures
        res is Ok,
        res->Ok_0@ == varint(v as nat),
{
    postcard::to_allocvec(&v).map_err(|_| CodecError::Other)
}

/// [`postcard::to_allocvec`] of a signed integer: it always succeeds, and the bytes are the
/// variable-length encoding of the integer's place in the order 0, -1, 1, -2, 2, ...
#[verifier::external_body]
fn put_int(v: i32) -> (res: Result<Vec<u8>, CodecError>)
    ensures
        res is Ok,
        res->Ok_0@ == varint(zigzag(v as int)),
{
    postcard::to_allocvec(&v).map_err(|_| CodecError::Other)
}

/// [`postcard::to_allocvec`] of a flag: it always succeeds, with one byte that is 0 or 1.
#[verifier::external_body]
fn put_bool(v: bool) -> (res: Result<Vec<u8>, CodecError>)
    ensures
        res is Ok,
        res->Ok_0@ == bool_bytes(v),
{
    postcard::to_allocvec(&v).map_err(|_| CodecError::Other)
}

/// [`postcard::to_allocvec`] of a text: it always succeeds, with the length and the UTF-8 bytes.
#[verifier::external_body]
fn put_text(v: &str) -> (res: Result<Vec<u8>, CodecError>)
    ensures
        res is Ok,
        res->Ok_0@ == text_bytes(v@),
{
    postcard::to_allocvec(v).map_err(|_| CodecError::Other)
}

/// [`postcard::take_from_bytes`] of a 16-bit integer: the integer and the bytes after it, or the fault
/// that stops the reading of the variable-length encoding.
#[verifier::external_body]
fn take_u16<'a>(bytes: &'a [u8]) -> (res: Result<(u16, &'a [u8]), CodecError>)
    ensures
        match res {
            Ok((v, rest)) => read_u16(bytes@) == Ok::<(u16, Seq<u8>), CodecError>((v, rest@)),
            Err(e) => read_u16(bytes@) == Err::<(u16, Seq<u8>), CodecError>(e),
        },
{
    match postcard::take_from_bytes::<u16>(bytes) {
        Ok(taken) => Ok(taken),
        Err(postcard::Error::DeserializeUnexpectedEnd) => Err(CodecError::UnexpectedEnd),
        Err(postcard::Error::DeserializeBadVarint) => Err(CodecError::BadVarint),
        Err(_) => Err(CodecError::Other),
    }
}

/// [`postcard::take_from_bytes`] of a 32-bit integer: the integer and the bytes after it, or the fault
/// that stops the reading of the variable-length encoding.
#[verifier::external_body]
fn take_u32<'a>(bytes: &'a [u8]) -> (res: Result<(u32, &'a [u8]), CodecError>)
    ensures
        match res {
            Ok((v, rest)) => read_u32(bytes@) == Ok::<(u32, Seq<u8>), CodecError>((v, rest@)),
            Err(e) => read_u32(bytes@) == Err::<(u32, Seq<u8>), CodecError>(e),
        },
{
    match postcard::take_from_bytes::<u32>(bytes) {
        Ok(taken) => Ok(taken),
        Err(postcard::Error::DeserializeUnexpectedEnd) => Err(CodecError::UnexpectedEnd),
        Err(postcard::Error::DeserializeBadVarint) => Err(CodecError::BadVarint),
        Err(_) => Err(CodecError::Other),
    }
}

/// [`postcard::take_from_bytes`] of a 64-bit integer: the integer and the bytes after it, or the fault
/// that stops the reading of the variable-length encoding.
#[verifier::external_body]
fn take_u64<'a>(bytes: &'a [u8]) -> (res: Result<(u64, &'a [u8]), CodecError>)
    ensures
        match res {
            Ok((v, rest)) => read_u64(bytes@) == Ok::<(u64, Seq<u8>), CodecError>((v, rest@)),
            Err(e) => read_u64(bytes@) == Err::<(u64, Seq<u8>), CodecError>(e),
        },
{
    match postcard::take_from_bytes::<u64>(bytes) {
        Ok(taken) => Ok(taken),
        Err(postcard::Error::DeserializeUnexpectedEnd) => Err(CodecError::UnexpectedEnd),
        Err(postcard::Error::DeserializeBadVarint) => Err(CodecError::BadVarint),
        Err(_) => Err(CodecError::Other),
    }
}

/// [`postcard::take_from_bytes`] of a signed 32-bit integer: the integer and the bytes after it, or
/// the fault that stops the reading of the variable-length encoding.
#[verifier::external_body]
fn take_i32<'a>(bytes: &'a [u8]) -> (res: Result<(i32, &'a [u8]), CodecError>)
    ensures
        match res {
            Ok((v, rest)) => read_i32(bytes@) == Ok::<(i32, Seq<u8>), CodecError>((v, rest@)),
            Err(e) => read_i32(bytes@) == Err::<(i32, Seq<u8>), CodecError>(e),
        },
{
    match postcard::take_from_bytes::<i32>(bytes) {
        Ok(taken) => Ok(taken),
        Err(postcard::Error::DeserializeUnexpectedEnd) => Err(CodecError::UnexpectedEnd),
        Err(postcard::Error::DeserializeBadVarint) => Err(CodecError::BadVarint),
        Err(_) => Err(CodecError::Other),
    }
}

/// [`postcard::take_from_bytes`] of a flag: one byte that must be 0 or 1.
#[verifier::external_body]
fn take_bool<'a>(bytes: &'a [u8]) -> (res: Result<(bool, &'a [u8]), CodecError>)
    ensures
        match res {
            Ok((v, rest)) => read_bool(bytes@) == Ok::<(bool, Seq<u8>), CodecError>((v, rest@)),
            Err(e) => read_bool(bytes@) == Err::<(bool, Seq<u8>), CodecError>(e),
        },
{
    match postcard::take_from_bytes::<bool>(bytes) {
        Ok(taken) => Ok(taken),
        Err(postcard::Error::DeserializeUnexpectedEnd) => Err(CodecError::UnexpectedEnd),
        Err(postcard::Error::DeserializeBadBool) => Err(CodecError::BadBool),
        Err(_) => Err(CodecError::Other),
    }
}

/// [`postcard::take_from_bytes`] of a text: a length, then as many bytes, which must be there and be
/// UTF-8.
#[verifier::external_body]
fn take_text<'a>(bytes: &'a [u8]) -> (res: Result<(String, &'a [u8]), CodecError>)
    ensures
        match res {
            Ok((v, rest)) => read_text(bytes@) == Ok::<(Seq<char>, Seq<u8>), CodecError>((v@, rest@)),
            Err(e) => read_text(bytes@) == Err::<(Seq<char>, Seq<u8>), CodecError>(e),
        },
{
    match postcard::take_from_bytes::<String>(bytes) {
        Ok(taken) => Ok(taken),
        Err(postcard::Error::DeserializeUnexpectedEnd) => Err(CodecError::UnexpectedEnd),
        Err(postcard::Error::DeserializeBadVarint) => Err(CodecError::BadVarint),
        Err(postcard::Error::DeserializeBadUtf8) => Err(CodecError::BadUtf8),
        Err(_) => Err(CodecError::Other),
    }
}

// ---------------------------------------------------------------------------------------------
// Encoding and decoding

/// Appends `piece` to `out`.
fn push_piece(out: &mut Vec<u8>, piece: Vec<u8>)
    ensures
        final(out)@ == old(out)@ + piece@,
{
    let mut piece = piece;
    out.append(&mut piece);
}

fn push_point(out: &mut Vec<u8>, p: Point) -> (res: Result<(), CodecError>)
    ensures
        res is Ok,
        final(out)@ == old(out)@ + point_bytes(p),
{
    push_piece(out, put_int(p.x)?);
    push_piece(out, put_int(p.y)?);
    assert(out@ =~= old(out)@ + point_bytes(p));
    Ok(())
}

fn push_geometry(out: &mut Vec<u8>, g: DisplayGeometry) -> (res: Result<(), CodecError>)
    ensures
        res is Ok,
        final(out)@ == old(out)@ + geometry_bytes(g),
{
    push_piece(out, put_uint(g.width as u64)?);
    push_piece(out, put_uint(g.height as u64)?);
    push_piece(out, put_uint(g.refresh_mhz as u64)?);
    push_piece(out, put_uint(g.scale_pct as u64)?);
    assert(out@ =~= old(out)@ + geometry_bytes(g));
    Ok(())
}

fn push_event(out: &mut Vec<u8>, event: InputEvent) -> (res: Result<(), CodecError>)
    ensures
        res is Ok,
        final(out)@ == old(out)@ + event_bytes(event),
{
    match event {
        InputEvent::Motion { x, y } => {
            push_piece(out, put_uint(0)?);
            push_point(out, Point { x, y })?;
        },
        InputEvent::Button { code, pressed, at } => {
            push_piece(out, put_uint(1)?);
            push_piece(out, put_uint(code as u64)?);
            push_piece(out, put_bool(pressed)?);
            push_point(out, at)?;
        },
        InputEvent::Key { code, pressed } => {
            push_piece(out, put_uint(2)?);
            push_piece(out, put_uint(code as u64)?);
            push_piece(out, put_bool(pressed)?);
        },
        InputEvent::Scroll { dx, dy, hi_res } => {
            push_piece(out, put_uint(3)?);
            push_point(out, Point { x: dx, y: dy })?;
            push_piece(out, put_bool(hi_res)?);
        },
        InputEvent::Enter { at } => {
            push_piece(out, put_uint(4)?);
            push_point(out, at)?;
        },
        InputEvent::Leave => {
            push_piece(out, put_uint(5)?);
        },
        InputEvent::ReleaseAll => {
            push_piece(out, put_uint(6)?);
        },
    }
    assert(out@ =~= old(out)@ + event_bytes(event));
    Ok(())
}

/// The bytes of a frame.
pub fn encode_frame(frame: &Frame) -> (res: Result<Vec<u8>, CodecError>)
    ensures
        res is Ok,
        res->Ok_0@ == frame_bytes(frame@),
{
    let mut out: Vec<u8> = Vec::new();
    match frame {
        Frame::Hello(hello) => {
            push_piece(&mut out, put_uint(0)?);
            push_piece(&mut out, put_uint(hello.proto_version as u64)?);
            push_piece(&mut out, put_text(hello.hostname.as_str())?);
            push_geometry(&mut out, hello.screen)?;
        },
        Frame::Welcome(welcome) => {
            push_piece(&mut out, put_uint(1)?);
            push_piece(&mut out, put_uint(welcome.proto_version as u64)?);
        },
        Frame::Event(event) => {
            push_piece(&mut out, put_uint(2)?);
            push_event(&mut out, *event)?;
        },
        Frame::Ack { acked_seq } => {
            push_piece(&mut out, put_uint(3)?);
            push_piece(&mut out, put_uint(*acked_seq as u64)?);
        },
        Frame::Ping { nonce } => {
            push_piece(&mut out, put_uint(4)?);
            push_piece(&mut out, put_uint(*nonce)?);
        },
        Frame::Pong { nonce } => {
            push_piece(&mut out, put_uint(5)?);
            push_piece(&mut out, put_uint(*nonce)?);
        },
        Frame::Bye => {
            push_piece(&mut out, put_uint(6)?);
        },
    }
    assert(out@ =~= frame_bytes(frame@));
    Ok(out)
}

/// Whether a reader's result is the one that the encoding prescribes.
pub open spec fn read_as<T>(res: Result<(T, &[u8]), CodecError>, expected: Read<T>) -> bool {
    match res {
        Ok((v, rest)) => expected == Ok::<(T, Seq<u8>), CodecError>((v, rest@)),
        Err(e) => expected == Err::<(T, Seq<u8>), CodecError>(e),
    }
}

fn take_point<'a>(bytes: &'a [u8]) -> (res: Result<(Point, &'a [u8]), CodecError>)
    ensures
        read_as(res, read_point(bytes@)),
{
    let (x, bytes) = take_i32(bytes)?;
    let (y, bytes) = take_i32(bytes)?;
    Ok((Point { x, y }, bytes))
}

fn take_geometry<'a>(bytes: &'a [u8]) -> (res: Result<(DisplayGeometry, &'a [u8]), CodecError>)
    ensures
        read_as(res, read_geometry(bytes@)),
{
    let (width, bytes) = take_u32(bytes)?;
    let (height, bytes) = take_u32(bytes)?;
    let (refresh_mhz, bytes) = take_u32(bytes)?;
    let (scale_pct, bytes) = take_u32(bytes)?;
    Ok((DisplayGeometry { width, height, refresh_mhz, scale_pct }, bytes))
}

fn take_hello<'a>(bytes: &'a [u8]) -> (res: Result<(HelloInfo, &'a [u8]), CodecError>)
    ensures
        match res {
            Ok((v, rest)) => read_hello(bytes@) == Ok::<(HelloModel, Seq<u8>), CodecError>(
                (v@, rest@),
            ),
            Err(e) => read_hello(bytes@) == Err::<(HelloModel, Seq<u8>), CodecError>(e),
        },
{
    let (proto_version, bytes) = take_u32(bytes)?;
    let (hostname, bytes) = take_text(bytes)?;
    let (screen, bytes) = take_geometry(bytes)?;
    Ok((HelloInfo { proto_version, hostname, screen }, bytes))
}

fn take_key<'a>(bytes: &'a [u8]) -> (res: Result<((u16, bool), &'a [u8]), CodecError>)
    ensures
        read_as(res, read_key(bytes@)),
{
    let (code, bytes) = take_u16(bytes)?;
    let (pressed, bytes) = take_bool(bytes)?;
    Ok(((code, pressed), bytes))
}

fn take_event<'a>(bytes: &'a [u8]) -> (res: Result<(InputEvent, &'a [u8]), CodecError>)
    ensures
        read_as(res, read_event(bytes@)),
{
    let (tag, bytes) = take_u32(bytes)?;
    match tag {
        0 => {
            let (p, bytes) = take_point(bytes)?;
            Ok((InputEvent::Motion { x: p.x, y: p.y }, bytes))
        },
        1 => {
            let ((code, pressed), bytes) = take_key(bytes)?;
            let (at, bytes) = take_point(bytes)?;
            Ok((InputEvent::Button { code, pressed, at }, bytes))
        },
        2 => {
            let ((code, pressed), bytes) = take_key(bytes)?;
            Ok((InputEvent::Key { code, pressed }, bytes))
        },
        3 => {
            let (p, bytes) = take_point(bytes)?;
            let (hi_res, bytes) = take_bool(bytes)?;
            Ok((InputEvent::Scroll { dx: p.x, dy: p.y, hi_res }, bytes))
        },
        4 => {
            let (at, bytes) = take_point(bytes)?;
            Ok((InputEvent::Enter { at }, bytes))
        },
        5 => Ok((InputEvent::Leave, bytes)),
        6 => Ok((InputEvent::ReleaseAll, bytes)),
        _ => Err(CodecError::BadVariant),
    }
}

/// The frame that `bytes` encode, or why they encode none.
pub fn decode_frame(bytes: &[u8]) -> (res: Result<Frame, CodecError>)
    ensures
        match res {
            Ok(frame) => parse_frame(bytes@) == Ok::<FrameModel, CodecError>(frame@),
            Err(e) => parse_frame(bytes@) == Err::<FrameModel, CodecError>(e),
        },
{
    let (tag, bytes) = take_u32(bytes)?;
    match tag {
        0 => {
            let (hello, _) = take_hello(bytes)?;
            Ok(Frame::Hello(hello))
        },
        1 => {
            let (proto_version, _) = take_u32(bytes)?;
            Ok(Frame::Welcome(WelcomeInfo { proto_version }))
        },
        2 => {
            let (event, _) = take_event(bytes)?;
            Ok(Frame::Event(event))
        },
        3 => {
            let (acked_seq, _) = take_u32(bytes)?;
            Ok(Frame::Ack { acked_seq })
        },
        4 => {
            let (nonce, _) = take_u64(bytes)?;
            Ok(Frame::Ping { nonce })
        },
        5 => {
            let (nonce, _) = take_u64(bytes)?;
            Ok(Frame::Pong { nonce })
        },
        6 => Ok(Frame::Bye),
        _ => Err(CodecError::BadVariant),
    }
}

// ---------------------------------------------------------------------------------------------
// Laws

/// One past the largest integer of `groups` seven-bit groups of which the last is at most `last`.
pub open spec fn varint_room(groups: nat, last: nat) -> nat
    decreases groups,
{
    if groups <= 1 {
        last + 1
    } else {
        128 * varint_room((groups - 1) as nat, last)
    }
}

/// Reading gives back an integer that was written, and leaves the bytes after it.
proof fn lemma_varint_round_trip(n: nat, groups: nat, last: nat, rest: Seq<u8>)
    requires
        groups >= 1,
        last < 128,
        n < varint_room(groups, last),
    ensures
        read_varint(varint(n) + rest, groups, last) == Ok::<(nat, Seq<u8>), CodecError>((n, rest)),
    decreases n,
{
    let s = varint(n) + rest;
    if n < 128 {
        assert(s.skip(1) =~= rest);
    } else {
        lemma_varint_round_trip(n / 128, (groups - 1) as nat, last, rest);
        assert(s.skip(1) =~= varint(n / 128) + rest);
        assert(s[0] == (n % 128 + 128) as u8);
    }
}

proof fn lemma_u16_round_trip(n: u16, rest: Seq<u8>)
    ensures
        read_u16(varint(n as nat) + rest) == Ok::<(u16, Seq<u8>), CodecError>((n, rest)),
{
    assert(varint_room(3, 3) == 65536) by {
        reveal_with_fuel(varint_room, 4);
    }
    lemma_varint_round_trip(n as nat, 3, 3, rest);
}

proof fn lemma_u32_room()
    ensures
        varint_room(5, 15) == 0x1_0000_0000,
{
    reveal_with_fuel(varint_room, 6);
}

proof fn lemma_u64_room()
    ensures
        varint_room(10, 1) == 0x1_0000_0000_0000_0000,
{
    reveal_with_fuel(varint_room, 11);
}

proof fn lemma_u32_round_trip(n: u32, rest: Seq<u8>)
    ensures
        read_u32(varint(n as nat) + rest) == Ok::<(u32, Seq<u8>), CodecError>((n, rest)),
{
    lemma_u32_room();
    lemma_varint_round_trip(n as nat, 5, 15, rest);
}

proof fn lemma_u64_round_trip(n: u64, rest: Seq<u8>)
    ensures
        read_u64(varint(n as nat) + rest) == Ok::<(u64, Seq<u8>), CodecError>((n, rest)),
{
    lemma_u64_room();
    lemma_varint_round_trip(n as nat, 10, 1, rest);
}

proof fn lemma_i32_round_trip(v: i32, rest: Seq<u8>)
    ensures
        read_i32(varint(zigzag(v as int)) + rest) == Ok::<(i32, Seq<u8>), CodecError>((v, rest)),
{
    lemma_u32_room();
    lemma_varint_round_trip(zigzag(v as int), 5, 15, rest);
    assert(unzigzag(zigzag(v as int)) == v);
}

proof fn lemma_bool_round_trip(v: bool, rest: Seq<u8>)
    ensures
        read_bool(bool_bytes(v) + rest) == Ok::<(bool, Seq<u8>), CodecError>((v, rest)),
{
    assert((bool_bytes(v) + rest).skip(1) =~= rest);
}

proof fn lemma_text_round_trip(v: Seq<char>, rest: Seq<u8>)
    requires
        encode_utf8(v).len() <= usize::MAX,
    ensures
        read_text(text_bytes(v) + rest) == Ok::<(Seq<char>, Seq<u8>), CodecError>((v, rest)),
{
    let bytes = encode_utf8(v);
    let n = bytes.len();
    lemma_u32_room();
    lemma_u64_room();
    assert(text_bytes(v) + rest =~= varint(n) + (bytes + rest));
    if usize::BITS == 64 {
        lemma_varint_round_trip(n, 10, 1, bytes + rest);
    } else {
        lemma_varint_round_trip(n, 5, 15, bytes + rest);
    }
    assert((bytes + rest).take(n as int) =~= bytes);
    assert((bytes + rest).skip(n as int) =~= rest);
    vstd::utf8::encode_utf8_valid_utf8(v);
    vstd::utf8::encode_utf8_decode_utf8(v);
}

proof fn lemma_point_round_trip(p: Point, rest: Seq<u8>)
    ensures
        read_point(point_bytes(p) + rest) == Ok::<(Point, Seq<u8>), CodecError>((p, rest)),
{
    let y = varint(zigzag(p.y as int));
    assert(point_bytes(p) + rest =~= varint(zigzag(p.x as int)) + (y + rest));
    lemma_i32_round_trip(p.x, y + rest);
    lemma_i32_round_trip(p.y, rest);
}

proof fn lemma_geometry_round_trip(g: DisplayGeometry, rest: Seq<u8>)
    ensures
        read_geometry(geometry_bytes(g) + rest) == Ok::<(DisplayGeometry, Seq<u8>), CodecError>(
            (g, rest),
        ),
{
    let s3 = varint(g.scale_pct as nat) + rest;
    let s2 = varint(g.refresh_mhz as nat) + s3;
    let s1 = varint(g.height as nat) + s2;
    assert(geometry_bytes(g) + rest =~= varint(g.width as nat) + s1);
    lemma_u32_round_trip(g.width, s1);
    lemma_u32_round_trip(g.height, s2);
    lemma_u32_round_trip(g.refresh_mhz, s3);
    lemma_u32_round_trip(g.scale_pct, rest);
}

proof fn lemma_hello_round_trip(h: HelloModel, rest: Seq<u8>)
    requires
        encode_utf8(h.hostname).len() <= usize::MAX,
    ensures
        read_hello(hello_bytes(h) + rest) == Ok::<(HelloModel, Seq<u8>), CodecError>((h, rest)),
{
    let s2 = geometry_bytes(h.screen) + rest;
    let s1 = text_bytes(h.hostname) + s2;
    assert(hello_bytes(h) + rest =~= varint(h.proto_version as nat) + s1);
    lemma_u32_round_trip(h.proto_version, s1);
    lemma_text_round_trip(h.hostname, s2);
    lemma_geometry_round_trip(h.screen, rest);
}

proof fn lemma_key_round_trip(code: u16, pressed: bool, rest: Seq<u8>)
    ensures
        read_key(varint(code as nat) + (bool_bytes(pressed) + rest)) == Ok::<
            ((u16, bool), Seq<u8>),
            CodecError,
        >(((code, pressed), rest)),
{
    lemma_u16_round_trip(code, bool_bytes(pressed) + rest);
    lemma_bool_round_trip(pressed, rest);
}

proof fn lemma_event_round_trip(event: InputEvent, rest: Seq<u8>)
    ensures
        read_event(event_bytes(event) + rest) == Ok::<(InputEvent, Seq<u8>), CodecError>(
            (event, rest),
        ),
{
    match event {
        InputEvent::Motion { x, y } => {
            let p = Point { x, y };
            assert(event_bytes(event) + rest =~= varint(0) + (point_bytes(p) + rest));
            lemma_u32_round_trip(0, point_bytes(p) + rest);
            lemma_point_round_trip(p, rest);
        },
        InputEvent::Button { code, pressed, at } => {
            let s1 = point_bytes(at) + rest;
            let s0 = varint(code as nat) + (bool_bytes(pressed) + s1);
            assert(event_bytes(event) + rest =~= varint(1) + s0);
            lemma_u32_round_trip(1, s0);
            lemma_key_round_trip(code, pressed, s1);
            lemma_point_round_trip(at, rest);
        },
        InputEvent::Key { code, pressed } => {
            let s0 = varint(code as nat) + (bool_bytes(pressed) + rest);
            assert(event_bytes(event) + rest =~= varint(2) + s0);
            lemma_u32_round_trip(2, s0);
            lemma_key_round_trip(code, pressed, rest);
        },
        InputEvent::Scroll { dx, dy, hi_res } => {
            let p = Point { x: dx, y: dy };
            let s1 = bool_bytes(hi_res) + rest;
            assert(event_bytes(event) + rest =~= varint(3) + (point_bytes(p) + s1));
            lemma_u32_round_trip(3, point_bytes(p) + s1);
            lemma_point_round_trip(p, s1);
            lemma_bool_round_trip(hi_res, rest);
        },
        InputEvent::Enter { at } => {
            assert(event_bytes(event) + rest =~= varint(4) + (point_bytes(at) + rest));
            lemma_u32_round_trip(4, point_bytes(at) + rest);
            lemma_point_round_trip(at, rest);
        },
        InputEvent::Leave => {
            lemma_u32_round_trip(5, rest);
        },
        InputEvent::ReleaseAll => {
            lemma_u32_round_trip(6, rest);
        },
    }
}

/// Whether the lengths inside a frame fit in a machine word, as those of every frame that exists
/// in memory do.
pub open spec fn frame_fits_memory(frame: FrameModel) -> bool {
    frame matches FrameModel::Hello(hello) ==> encode_utf8(hello.hostname).len() <= usize::MAX
}

/// Decoding the bytes of a frame gives the frame back, whatever bytes follow them.
pub proof fn law_frame_round_trip(frame: FrameModel, rest: Seq<u8>)
    requires
        frame_fits_memory(frame),
    ensures
        read_frame(frame_bytes(frame) + rest) == Ok::<(FrameModel, Seq<u8>), CodecError>(
            (frame, rest),
        ),
        parse_frame(frame_bytes(frame) + rest) == Ok::<FrameModel, CodecError>(frame),
{
    match frame {
        FrameModel::Hello(hello) => {
            let s0 = hello_bytes(hello) + rest;
            assert(frame_bytes(frame) + rest =~= varint(0) + s0);
            lemma_u32_round_trip(0, s0);
            lemma_hello_round_trip(hello, rest);
        },
        FrameModel::Welcome(welcome) => {
            let s0 = varint(welcome.proto_version as nat) + rest;
            assert(frame_bytes(frame) + rest =~= varint(1) + s0);
            lemma_u32_round_trip(1, s0);
            lemma_u32_round_trip(welcome.proto_version, rest);
        },
        FrameModel::Event(event) => {
            let s0 = event_bytes(event) + rest;
            assert(frame_bytes(frame) + rest =~= varint(2) + s0);
            lemma_u32_round_trip(2, s0);
            lemma_event_round_trip(event, rest);
        },
        FrameModel::Ack { acked_seq } => {
            let s0 = varint(acked_seq as nat) + rest;
            assert(frame_bytes(frame) + rest =~= varint(3) + s0);
            lemma_u32_round_trip(3, s0);
            lemma_u32_round_trip(acked_seq, rest);
        },
        FrameModel::Ping { nonce } => {
            let s0 = varint(nonce as nat) + rest;
            assert(frame_bytes(frame) + rest =~= varint(4) + s0);
            lemma_u32_round_trip(4, s0);
            lemma_u64_round_trip(nonce, rest);
        },
        FrameModel::Pong { nonce } => {
            let s0 = varint(nonce as nat) + rest;
            assert(frame_bytes(frame) + rest =~= varint(5) + s0);
            lemma_u32_round_trip(5, s0);
            lemma_u64_round_trip(nonce, rest);
        },
        FrameModel::Bye => {
            lemma_u32_round_trip(6, rest);
        },
    }
}

/// Different frames have different bytes, and the bytes of one are never the beginning of the
/// bytes of another.
pub proof fn law_frame_bytes_prefix_free(a: FrameModel, b: FrameModel, rest: Seq<u8>)
    requires
        frame_fits_memory(a),
        frame_fits_memory(b),
        frame_bytes(a) + rest == frame_bytes(b),
    ensures
        a == b,
        rest.len() == 0,
{
    law_frame_round_trip(a, rest);
    law_frame_round_trip(b, Seq::empty());
    assert(frame_bytes(b) + Seq::empty() =~= frame_bytes(b));
}

proof fn lemma_varint_len(n: nat, groups: nat)
    requires
        groups >= 1,
        n < varint_room(groups, 127),
    ensures
        1 <= varint(n).len() <= groups,
    decreases n,
{
    if n >= 128 {
        lemma_varint_len(n / 128, (groups - 1) as nat);
    }
}

/// The most bytes that a frame other than a hello takes.
pub const SHORT_FRAME_LEN: usize = 16;

/// Every frame other than a hello is short.
pub proof fn law_short_frames(frame: FrameModel)
    requires
        !(frame is Hello),
    ensures
        1 <= frame_bytes(frame).len() <= SHORT_FRAME_LEN,
{
    assert forall|n: u16| 1 <= #[trigger] varint(n as nat).len() <= 3 by {
        assert(varint_room(3, 127) == 2097152) by {
            reveal_with_fuel(varint_room, 4);
        }
        lemma_varint_len(n as nat, 3);
    }
    assert(varint_room(5, 127) == 34359738368) by {
        reveal_with_fuel(varint_room, 6);
    }
    assert forall|n: u32| 1 <= #[trigger] varint(n as nat).len() <= 5 by {
        lemma_varint_len(n as nat, 5);
    }
    assert forall|v: i32| 1 <= #[trigger] varint(zigzag(v as int)).len() <= 5 by {
        lemma_varint_len(zigzag(v as int), 5);
    }
    assert forall|n: u64| 1 <= #[trigger] varint(n as nat).len() <= 10 by {
        assert(varint_room(10, 127) > 0xffff_ffff_ffff_ffff) by {
            reveal_with_fuel(varint_room, 11);
        }
        lemma_varint_len(n as nat, 10);
    }
}

proof fn lemma_take_of_two(a: Seq<u8>, b: Seq<u8>, k: int)
    requires
        0 <= k <= a.len() + b.len(),
    ensures
        k <= a.len() ==> (a + b).take(k) == a.take(k),
        k >= a.len() ==> (a + b).take(k) == a + b.take(k - a.len()),
{
    if k <= a.len() {
        assert((a + b).take(k) =~= a.take(k));
    }
    if k >= a.len() {
        assert((a + b).take(k) =~= a + b.take(k - a.len()));
    }
}

proof fn lemma_varint_cut(n: nat, groups: nat, last: nat, k: int)
    requires
        groups >= 1,
        last < 128,
        n < varint_room(groups, last),
        0 <= k < varint(n).len(),
    ensures
        read_varint(varint(n).take(k), groups, last) == Err::<(nat, Seq<u8>), CodecError>(
            CodecError::UnexpectedEnd,
        ),
    decreases n,
{
    let s = varint(n).take(k);
    if k > 0 {
        assert(n >= 128);
        assert(s[0] == (n % 128 + 128) as u8);
        assert(s.skip(1) =~= varint(n / 128).take(k - 1));
        lemma_varint_cut(n / 128, (groups - 1) as nat, last, k - 1);
    }
}

proof fn lemma_u16_cut(n: u16, k: int)
    requires
        0 <= k < varint(n as nat).len(),
    ensures
        read_u16(varint(n as nat).take(k)) == Err::<(u16, Seq<u8>), CodecError>(
            CodecError::UnexpectedEnd,
        ),
{
    assert(varint_room(3, 3) == 65536) by {
        reveal_with_fuel(varint_room, 4);
    }
    lemma_varint_cut(n as nat, 3, 3, k);
}

proof fn lemma_u32_cut(n: u32, k: int)
    requires
        0 <= k < varint(n as nat).len(),
    ensures
        read_u32(varint(n as nat).take(k)) == Err::<(u32, Seq<u8>), CodecError>(
            CodecError::UnexpectedEnd,
        ),
{
    lemma_u32_room();
    lemma_varint_cut(n as nat, 5, 15, k);
}

proof fn lemma_u64_cut(n: u64, k: int)
    requires
        0 <= k < varint(n as nat).len(),
    ensures
        read_u64(varint(n as nat).take(k)) == Err::<(u64, Seq<u8>), CodecError>(
            CodecError::UnexpectedEnd,
        ),
{
    lemma_u64_room();
    lemma_varint_cut(n as nat, 10, 1, k);
}

proof fn lemma_i32_cut(v: i32, k: int)
    requires
        0 <= k < varint(zigzag(v as int)).len(),
    ensures
        read_i32(varint(zigzag(v as int)).take(k)) == Err::<(i32, Seq<u8>), CodecError>(
            CodecError::UnexpectedEnd,
        ),
{
    lemma_u32_room();
    lemma_varint_cut(zigzag(v as int), 5, 15, k);
}

proof fn lemma_text_cut(v: Seq<char>, k: int)
    requires
        encode_utf8(v).len() <= usize::MAX,
        0 <= k < text_bytes(v).len(),
    ensures
        read_text(text_bytes(v).take(k)) == Err::<(Seq<char>, Seq<u8>), CodecError>(
            CodecError::UnexpectedEnd,
        ),
{
    let bytes = encode_utf8(v);
    let n = bytes.len();
    let head = varint(n);
    lemma_u32_room();
    lemma_u64_room();
    lemma_take_of_two(head, bytes, k);
    if k < head.len() {
        if usize::BITS == 64 {
            lemma_varint_cut(n, 10, 1, k);
        } else {
            lemma_varint_cut(n, 5, 15, k);
        }
    } else {
        let rest = bytes.take(k - head.len());
        if usize::BITS == 64 {
            lemma_varint_round_trip(n, 10, 1, rest);
        } else {
            lemma_varint_round_trip(n, 5, 15, rest);
        }
    }
}

proof fn lemma_point_cut(p: Point, k: int)
    requires
        0 <= k < point_bytes(p).len(),
    ensures
        read_point(point_bytes(p).take(k)) == Err::<(Point, Seq<u8>), CodecError>(
            CodecError::UnexpectedEnd,
        ),
{
    let xs = varint(zigzag(p.x as int));
    let ys = varint(zigzag(p.y as int));
    lemma_take_of_two(xs, ys, k);
    if k < xs.len() {
        lemma_i32_cut(p.x, k);
    } else {
        lemma_i32_round_trip(p.x, ys.take(k - xs.len()));
        lemma_i32_cut(p.y, k - xs.len());
    }
}

proof fn lemma_key_cut(code: u16, pressed: bool, k: int)
    requires
        0 <= k < varint(code as nat).len() + 1,
    ensures
        read_key((varint(code as nat) + bool_bytes(pressed)).take(k)) == Err::<
            ((u16, bool), Seq<u8>),
            CodecError,
        >(CodecError::UnexpectedEnd),
{
    let codes = varint(code as nat);
    let flag = bool_bytes(pressed);
    lemma_take_of_two(codes, flag, k);
    if k < codes.len() {
        lemma_u16_cut(code, k);
    } else {
        lemma_u16_round_trip(code, flag.take(0));
    }
}

proof fn lemma_geometry_cut(g: DisplayGeometry, k: int)
    requires
        0 <= k < geometry_bytes(g).len(),
    ensures
        read_geometry(geometry_bytes(g).take(k)) == Err::<(DisplayGeometry, Seq<u8>), CodecError>(
            CodecError::UnexpectedEnd,
        ),
{
    let w = varint(g.width as nat);
    let h = varint(g.height as nat);
    let r = varint(g.refresh_mhz as nat);
    let c = varint(g.scale_pct as nat);
    assert(geometry_bytes(g) =~= w + (h + (r + c)));
    lemma_take_of_two(w, h + (r + c), k);
    if k < w.len() {
        lemma_u32_cut(g.width, k);
    } else {
        let k1 = k - w.len();
        lemma_u32_round_trip(g.width, (h + (r + c)).take(k1));
        lemma_take_of_two(h, r + c, k1);
        if k1 < h.len() {
            lemma_u32_cut(g.height, k1);
        } else {
            let k2 = k1 - h.len();
            lemma_u32_round_trip(g.height, (r + c).take(k2));
            lemma_take_of_two(r, c, k2);
            if k2 < r.len() {
                lemma_u32_cut(g.refresh_mhz, k2);
            } else {
                lemma_u32_round_trip(g.refresh_mhz, c.take(k2 - r.len()));
                lemma_u32_cut(g.scale_pct, k2 - r.len());
            }
        }
    }
}

proof fn lemma_hello_cut(h: HelloModel, k: int)
    requires
        encode_utf8(h.hostname).len() <= usize::MAX,
        0 <= k < hello_bytes(h).len(),
    ensures
        read_hello(hello_bytes(h).take(k)) == Err::<(HelloModel, Seq<u8>), CodecError>(
            CodecError::UnexpectedEnd,
        ),
{
    let v = varint(h.proto_version as nat);
    let t = text_bytes(h.hostname);
    let g = geometry_bytes(h.screen);
    assert(hello_bytes(h) =~= v + (t + g));
    lemma_take_of_two(v, t + g, k);
    if k < v.len() {
        lemma_u32_cut(h.proto_version, k);
    } else {
        let k1 = k - v.len();
        lemma_u32_round_trip(h.proto_version, (t + g).take(k1));
        lemma_take_of_two(t, g, k1);
        if k1 < t.len() {
            lemma_text_cut(h.hostname, k1);
        } else {
            lemma_text_round_trip(h.hostname, g.take(k1 - t.len()));
            lemma_geometry_cut(h.screen, k1 - t.len());
        }
    }
}

proof fn lemma_event_cut(event: InputEvent, k: int)
    requires
        0 <= k < event_bytes(event).len(),
    ensures
        read_event(event_bytes(event).take(k)) == Err::<(InputEvent, Seq<u8>), CodecError>(
            CodecError::UnexpectedEnd,
        ),
{
    let s = event_bytes(event).take(k);
    if k > 0 {
        match event {
            InputEvent::Motion { x, y } => {
                let p = Point { x, y };
                lemma_take_of_two(varint(0), point_bytes(p), k);
                lemma_u32_round_trip(0, point_bytes(p).take(k - 1));
                lemma_point_cut(p, k - 1);
            },
            InputEvent::Button { code, pressed, at } => {
                let key = varint(code as nat) + bool_bytes(pressed);
                let place = point_bytes(at);
                assert(event_bytes(event) =~= varint(1) + (key + place));
                lemma_take_of_two(varint(1), key + place, k);
                lemma_u32_round_trip(1, (key + place).take(k - 1));
                lemma_take_of_two(key, place, k - 1);
                if k - 1 < key.len() {
                    lemma_key_cut(code, pressed, k - 1);
                } else {
                    let rest = place.take(k - 1 - key.len());
                    assert(key + rest =~= varint(code as nat) + (bool_bytes(pressed) + rest));
                    lemma_key_round_trip(code, pressed, rest);
                    lemma_point_cut(at, k - 1 - key.len());
                }
            },
            InputEvent::Key { code, pressed } => {
                let key = varint(code as nat) + bool_bytes(pressed);
                assert(event_bytes(event) =~= varint(2) + key);
                lemma_take_of_two(varint(2), key, k);
                lemma_u32_round_trip(2, key.take(k - 1));
                lemma_key_cut(code, pressed, k - 1);
            },
            InputEvent::Scroll { dx, dy, hi_res } => {
                let p = Point { x: dx, y: dy };
                let place = point_bytes(p);
                let flag = bool_bytes(hi_res);
                assert(event_bytes(event) =~= varint(3) + (place + flag));
                lemma_take_of_two(varint(3), place + flag, k);
                lemma_u32_round_trip(3, (place + flag).take(k - 1));
                lemma_take_of_two(place, flag, k - 1);
                if k - 1 < place.len() {
                    lemma_point_cut(p, k - 1);
                } else {
                    lemma_point_round_trip(p, flag.take(0));
                }
            },
            InputEvent::Enter { at } => {
                lemma_take_of_two(varint(4), point_bytes(at), k);
                lemma_u32_round_trip(4, point_bytes(at).take(k - 1));
                lemma_point_cut(at, k - 1);
            },
            _ => {},
        }
    }
}

/// A frame that was cut off, wherever that was, is not taken for another one: its bytes end too
/// early.
pub proof fn law_cut_off_frame_is_refused(frame: FrameModel, k: int)
    requires
        frame_fits_memory(frame),
        0 <= k < frame_bytes(frame).len(),
    ensures
        parse_frame(frame_bytes(frame).take(k)) == Err::<FrameModel, CodecError>(
            CodecError::UnexpectedEnd,
        ),
{
    if k > 0 {
        match frame {
            FrameModel::Hello(hello) => {
                lemma_take_of_two(varint(0), hello_bytes(hello), k);
                lemma_u32_round_trip(0, hello_bytes(hello).take(k - 1));
                lemma_hello_cut(hello, k - 1);
            },
            FrameModel::Welcome(welcome) => {
                let v = varint(welcome.proto_version as nat);
                lemma_take_of_two(varint(1), v, k);
                lemma_u32_round_trip(1, v.take(k - 1));
                lemma_u32_cut(welcome.proto_version, k - 1);
            },
            FrameModel::Event(event) => {
                lemma_take_of_two(varint(2), event_bytes(event), k);
                lemma_u32_round_trip(2, event_bytes(event).take(k - 1));
                lemma_event_cut(event, k - 1);
            },
            FrameModel::Ack { acked_seq } => {
                let v = varint(acked_seq as nat);
                lemma_take_of_two(varint(3), v, k);
                lemma_u32_round_trip(3, v.take(k - 1));
                lemma_u32_cut(acked_seq, k - 1);
            },
            FrameModel::Ping { nonce } => {
                let v = varint(nonce as nat);
                lemma_take_of_two(varint(4), v, k);
                lemma_u32_round_trip(4, v.take(k - 1));
                lemma_u64_cut(nonce, k - 1);
            },
            FrameModel::Pong { nonce } => {
                let v = varint(nonce as nat);
                lemma_take_of_two(varint(5), v, k);
                lemma_u32_round_trip(5, v.take(k - 1));
                lemma_u64_cut(nonce, k - 1);
            },
            FrameModel::Bye => {},
        }
    }
}

/// The first byte of a frame tells which frame it is, and the second byte of an event which event;
/// the frames and events without fields have no other byte.
pub proof fn law_tags_of_frames(frame: FrameModel)
    ensures
        ({
            let s = frame_bytes(frame);
            &&& s.len() >= 1
            &&& s[0] == match frame {
                FrameModel::Hello(_) => 0int,
                FrameModel::Welcome(_) => 1int,
                FrameModel::Event(_) => 2int,
                FrameModel::Ack { .. } => 3int,
                FrameModel::Ping { .. } => 4int,
                FrameModel::Pong { .. } => 5int,
                FrameModel::Bye => 6int,
            }
            &&& frame is Bye ==> s.len() == 1
            &&& frame matches FrameModel::Event(event) ==> s.len() >= 2 && s[1] == match event {
                InputEvent::Motion { .. } => 0int,
                InputEvent::Button { .. } => 1int,
                InputEvent::Key { .. } => 2int,
                InputEvent::Scroll { .. } => 3int,
                InputEvent::Enter { .. } => 4int,
                InputEvent::Leave => 5int,
                InputEvent::ReleaseAll => 6int,
            }
            &&& frame == FrameModel::Event(InputEvent::Leave) ==> s.len() == 2
            &&& frame == FrameModel::Event(InputEvent::ReleaseAll) ==> s.len() == 2
        }),
{
}

/// Bytes that begin with the tag of no frame, or of an event that does not exist, are refused.
pub proof fn law_unknown_tags_are_refused(tag: u8, rest: Seq<u8>)
    requires
        7 <= tag < 128,
    ensures
        parse_frame(seq![tag] + rest) == Err::<FrameModel, CodecError>(CodecError::BadVariant),
        parse_frame(seq![2u8, tag] + rest) == Err::<FrameModel, CodecError>(
            CodecError::BadVariant,
        ),
        parse_frame(Seq::empty()) == Err::<FrameModel, CodecError>(CodecError::UnexpectedEnd),
{
    assert(varint(tag as nat) =~= seq![tag]);
    lemma_u32_round_trip(tag as u32, rest);
    assert(seq![2u8, tag] + rest =~= varint(2) + (seq![tag] + rest));
    lemma_u32_round_trip(2, seq![tag] + rest);
}

/// A flag that is neither 0 nor 1 is refused.
pub proof fn law_bad_flags_are_refused(code: u16, flag: u8, rest: Seq<u8>)
    requires
        flag > 1,
    ensures
        parse_frame(seq![2u8, 2u8] + varint(code as nat) + seq![flag] + rest) == Err::<
            FrameModel,
            CodecError,
        >(CodecError::BadBool),
{
    let tail = seq![flag] + rest;
    let s = seq![2u8, 2u8] + varint(code as nat) + seq![flag] + rest;
    assert(s =~= varint(2) + (varint(2) + (varint(code as nat) + tail)));
    lemma_u32_round_trip(2, varint(2) + (varint(code as nat) + tail));
    lemma_u32_round_trip(2, varint(code as nat) + tail);
    lemma_u16_round_trip(code, tail);
}

/// Integers are written in groups of seven bits, the least significant first, as few as they need;
/// all bytes but the last have their top bit set.
pub proof fn law_integers_are_short(n: nat)
    ensures
        varint(n).len() >= 1,
        n < 128 ==> varint(n) == seq![n as u8],
        n >= 128 ==> varint(n).len() >= 2 && varint(n)[0] == n % 128 + 128 && varint(n).skip(1)
            == varint(n / 128),
{
    if n >= 128 {
        assert(varint(n).skip(1) =~= varint(n / 128));
        assert(varint(n / 128).len() >= 1);
    }
}

/// The fields of a frame follow each other behind the tags: a code or the first coordinate comes
/// first, and a flag is one byte. Behind a frame nothing else is written.
pub proof fn law_fields_stand_in_order(x: i32, y: i32, code: u16, flag: bool, n: u64, seq: u32)
    ensures
        ({
            let a = varint(zigzag(x as int));
            let b = varint(zigzag(y as int));
            let c = varint(code as nat);
            let f = if flag {
                1u8
            } else {
                0u8
            };
            let at = Point { x, y };
            &&& frame_bytes(FrameModel::Event(InputEvent::Motion { x, y })) == seq![2u8, 0u8] + a + b
            &&& frame_bytes(FrameModel::Event(InputEvent::Enter { at })) == seq![2u8, 4u8] + a + b
            &&& frame_bytes(FrameModel::Event(InputEvent::Key { code, pressed: flag })) == seq![
                2u8,
                2u8,
            ] + c + seq![f]
            &&& frame_bytes(FrameModel::Event(InputEvent::Button { code, pressed: flag, at }))
                == seq![2u8, 1u8] + c + seq![f] + a + b
            &&& frame_bytes(FrameModel::Event(InputEvent::Scroll { dx: x, dy: y, hi_res: flag }))
                == seq![2u8, 3u8] + a + b + seq![f]
            &&& frame_bytes(FrameModel::Ack { acked_seq: seq }) == seq![3u8] + varint(seq as nat)
            &&& frame_bytes(FrameModel::Ping { nonce: n }) == seq![4u8] + varint(n as nat)
            &&& frame_bytes(FrameModel::Pong { nonce: n }) == seq![5u8] + varint(n as nat)
        }),
        x >= 0 ==> zigzag(x as int) == 2 * x && zigzag(-x - 1) == 2 * x + 1,
{
    let a = varint(zigzag(x as int));
    let b = varint(zigzag(y as int));
    let c = varint(code as nat);
    let f = bool_bytes(flag);
    let at = Point { x, y };
    assert(frame_bytes(FrameModel::Event(InputEvent::Motion { x, y })) =~= seq![2u8, 0u8] + a + b);
    assert(frame_bytes(FrameModel::Event(InputEvent::Enter { at })) =~= seq![2u8, 4u8] + a + b);
    assert(frame_bytes(FrameModel::Event(InputEvent::Key { code, pressed: flag })) =~= seq![
        2u8,
        2u8,
    ] + c + f);
    assert(frame_bytes(FrameModel::Event(InputEvent::Button { code, pressed: flag, at }))
        =~= seq![2u8, 1u8] + c + f + a + b);
    assert(frame_bytes(FrameModel::Event(InputEvent::Scroll { dx: x, dy: y, hi_res: flag }))
        =~= seq![2u8, 3u8] + a + b + f);
}

/// A hello tells the version, the name of the machine with its length before it, and the screen:
/// width, height, rate and scale.
pub proof fn law_hello_tells_in_order(h: HelloModel)
    ensures
        ({
            let name = encode_utf8(h.hostname);
            frame_bytes(FrameModel::Hello(h)) == seq![0u8] + varint(h.proto_version as nat) + varint(
                name.len(),
            ) + name + varint(h.screen.width as nat) + varint(h.screen.height as nat) + varint(
                h.screen.refresh_mhz as nat,
            ) + varint(h.screen.scale_pct as nat)
        }),
{
    let name = encode_utf8(h.hostname);
    assert(frame_bytes(FrameModel::Hello(h)) =~= seq![0u8] + varint(h.proto_version as nat)
        + varint(name.len()) + name + varint(h.screen.width as nat) + varint(
        h.screen.height as nat,
    ) + varint(h.screen.refresh_mhz as nat) + varint(h.screen.scale_pct as nat));
}

proof fn lemma_varint_too_large(n: nat, groups: nat, last: nat, rest: Seq<u8>)
    requires
        last < 128,
        groups == 0 || n >= varint_room(groups, last),
    ensures
        read_varint(varint(n) + rest, groups, last) == Err::<(nat, Seq<u8>), CodecError>(
            CodecError::BadVarint,
        ),
    decreases groups,
{
    if groups > 0 {
        let s = varint(n) + rest;
        if n >= 128 {
            assert(s[0] == n % 128 + 128);
            assert(s.skip(1) =~= varint(n / 128) + rest);
            lemma_varint_too_large(n / 128, (groups - 1) as nat, last, rest);
        } else if groups > 1 {
            lemma_room_is_positive((groups - 1) as nat, last);
        }
    }
}

proof fn lemma_room_is_positive(groups: nat, last: nat)
    ensures
        varint_room(groups, last) >= 1,
    decreases groups,
{
    if groups > 1 {
        lemma_room_is_positive((groups - 1) as nat, last);
    }
}

/// A number that is too large for its field is refused: the code of a key has 16 bits, the number of
/// a packet 32, and the number of a ping 64.
pub proof fn law_large_integers_are_refused(n: nat, rest: Seq<u8>)
    ensures
        n > 0xffff ==> parse_frame(seq![2u8, 2u8] + varint(n) + rest) == Err::<
            FrameModel,
            CodecError,
        >(CodecError::BadVarint),
        n > 0xffff_ffff ==> parse_frame(seq![3u8] + varint(n) + rest) == Err::<
            FrameModel,
            CodecError,
        >(CodecError::BadVarint),
        n > 0xffff_ffff_ffff_ffff ==> parse_frame(seq![4u8] + varint(n) + rest) == Err::<
            FrameModel,
            CodecError,
        >(CodecError::BadVarint),
{
    let s = varint(n) + rest;
    if n > 0xffff {
        assert(varint_room(3, 3) == 65536) by {
            reveal_with_fuel(varint_room, 4);
        }
        lemma_varint_too_large(n, 3, 3, rest);
        assert(seq![2u8, 2u8] + varint(n) + rest =~= varint(2) + (varint(2) + s));
        lemma_u32_round_trip(2, varint(2) + s);
        lemma_u32_round_trip(2, s);
    }
    if n > 0xffff_ffff {
        lemma_u32_room();
        lemma_varint_too_large(n, 5, 15, rest);
        assert(seq![3u8] + varint(n) + rest =~= varint(3) + s);
        lemma_u32_round_trip(3, s);
    }
    if n > 0xffff_ffff_ffff_ffff {
        lemma_u64_room();
        lemma_varint_too_large(n, 10, 1, rest);
        assert(seq![4u8] + varint(n) + rest =~= varint(4) + s);
        lemma_u32_round_trip(4, s);
    }
}

/// A name that is no text is refused.
pub proof fn law_bad_names_are_refused(proto_version: u32, name: Seq<u8>, rest: Seq<u8>)
    requires
        !valid_utf8(name),
        name.len() <= 0xffff_ffff,
    ensures
        parse_frame(
            seq![0u8] + varint(proto_version as nat) + varint(name.len()) + name + rest,
        ) == Err::<FrameModel, CodecError>(CodecError::BadUtf8),
{
    let n = name.len();
    let text = varint(n) + (name + rest);
    let s = seq![0u8] + varint(proto_version as nat) + varint(n) + name + rest;
    lemma_u32_room();
    lemma_u64_room();
    assert(s =~= varint(0) + (varint(proto_version as nat) + text));
    lemma_u32_round_trip(0, varint(proto_version as nat) + text);
    lemma_u32_round_trip(proto_version, text);
    if usize::BITS == 64 {
        lemma_varint_round_trip(n, 10, 1, name + rest);
    } else {
        lemma_varint_round_trip(n, 5, 15, name + rest);
    }
    assert((name + rest).take(n as int) =~= name);
}

} // verus!
