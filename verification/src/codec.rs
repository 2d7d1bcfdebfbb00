//! Frames as bytes.
//!
//! A frame begins with a header of twelve bytes: the version, the type, the flags in two
//! bytes, and the stream id and the length in four bytes each, the most significant byte
//! first. The body of a data frame follows.
use vstd::prelude::*;

use crate::frame::{Flags, Frame, StreamId, Type};

verus! {

/// The version of the protocol.
pub const PROTOCOL_VERSION: u8 = 0;

/// The number of bytes in a header.
pub const HEADER_SIZE: usize = 12;

/// The model of a frame.
#[verifier::ext_equal]
pub struct FrameState {
    /// What the frame carries.
    pub ty: Type,
    /// The flags of the frame.
    pub flags: Flags,
    /// The stream that the frame belongs to.
    pub stream_id: StreamId,
    /// The length field of the frame.
    pub length: u32,
    /// The bytes of a data frame.
    pub body: Option<Seq<u8>>,
}

impl View for Frame {
    type V = FrameState;

    open spec fn view(&self) -> FrameState {
        FrameState {
            ty: self.ty,
            flags: self.flags,
            stream_id: self.stream_id,
            length: self.length,
            body: match self.body {
                Some(body) => Some(body@),
                None => None,
            },
        }
    }
}

/// Why bytes are no frame.
#[derive(Clone, Copy, Debug, PartialEq, Eq, Structural)]
pub enum DecodeError {
    /// The version is not that of the protocol.
    Version,
    /// There is no such type.
    Type,
    /// The body is longer than allowed.
    TooLong,
}

/// What bytes hold.
pub enum Decoded {
    /// A frame, and the number of bytes that it takes up.
    Frame(Frame, usize),
    /// The beginning of a frame at most.
    Incomplete,
    /// No frame.
    Invalid(DecodeError),
}

/// The model of what bytes hold.
pub enum DecodedState {
    /// See [`Decoded::Frame`].
    Frame(FrameState, nat),
    /// See [`Decoded::Incomplete`].
    Incomplete,
    /// See [`Decoded::Invalid`].
    Invalid(DecodeError),
}

impl View for Decoded {
    type V = DecodedState;

    open spec fn view(&self) -> DecodedState {
        match *self {
            Decoded::Frame(frame, size) => DecodedState::Frame(frame@, size as nat),
            Decoded::Incomplete => DecodedState::Incomplete,
            Decoded::Invalid(error) => DecodedState::Invalid(error),
        }
    }
}

/// The byte that stands for a type.
pub open spec fn type_byte(ty: Type) -> u8 {
    match ty {
        Type::Data => 0,
        Type::WindowUpdate => 1,
        Type::Ping => 2,
        Type::GoAway => 3,
    }
}

/// Two bytes, the most significant one first.
pub open spec fn two_bytes(value: u16) -> Seq<u8> {
    seq![(value / 256) as u8, (value % 256) as u8]
}

/// Four bytes, the most significant one first.
pub open spec fn four_bytes(value: u32) -> Seq<u8> {
    two_bytes((value / 65536) as u16) + two_bytes((value % 65536) as u16)
}

/// The number that two bytes stand for.
pub open spec fn two_byte_number(bytes: Seq<u8>, at: int) -> int {
    bytes[at] * 256 + bytes[at + 1]
}

/// The number that four bytes stand for.
pub open spec fn four_byte_number(bytes: Seq<u8>, at: int) -> int {
    two_byte_number(bytes, at) * 65536 + two_byte_number(bytes, at + 2)
}

impl FrameState {
    /// A data frame has a body of the length that it gives, and no other frame has one.
    pub open spec fn well_formed(self) -> bool {
        match self.body {
            Some(body) => self.ty == Type::Data && body.len() == self.length,
            None => self.ty != Type::Data,
        }
    }

    /// The header of the frame.
    pub open spec fn header(self) -> Seq<u8> {
        seq![PROTOCOL_VERSION, type_byte(self.ty)] + two_bytes(self.flags.bits) + four_bytes(
            self.stream_id,
        ) + four_bytes(self.length)
    }

    /// The bytes of the frame.
    pub open spec fn encoded(self) -> Seq<u8> {
        match self.body {
            Some(body) => self.header() + body,
            None => self.header(),
        }
    }
}

/// The type that a byte stands for.
pub open spec fn type_of(byte: u8) -> Option<Type> {
    if byte == 0 {
        Some(Type::Data)
    } else if byte == 1 {
        Some(Type::WindowUpdate)
    } else if byte == 2 {
        Some(Type::Ping)
    } else if byte == 3 {
        Some(Type::GoAway)
    } else {
        None
    }
}

/// The frame that some bytes begin with.
pub open spec fn decoded(bytes: Seq<u8>, max_frame_size: u32) -> DecodedState {
    if bytes.len() < HEADER_SIZE {
        DecodedState::Incomplete
    } else if bytes[0] != PROTOCOL_VERSION {
        DecodedState::Invalid(DecodeError::Version)
    } else {
        match type_of(bytes[1]) {
            None => DecodedState::Invalid(DecodeError::Type),
            Some(ty) => {
                let length = four_byte_number(bytes, 8);
                let frame = FrameState {
                    ty,
                    flags: Flags { bits: two_byte_number(bytes, 2) as u16 },
                    stream_id: four_byte_number(bytes, 4) as u32,
                    length: length as u32,
                    body: None,
                };
                if ty != Type::Data {
                    DecodedState::Frame(frame, HEADER_SIZE as nat)
                } else if length > max_frame_size {
                    DecodedState::Invalid(DecodeError::TooLong)
                } else if bytes.len() < HEADER_SIZE + length {
                    DecodedState::Incomplete
                } else {
                    DecodedState::Frame(
                        FrameState {
                            body: Some(
                                bytes.subrange(HEADER_SIZE as int, HEADER_SIZE + length),
                            ),
                            ..frame
                        },
                        (HEADER_SIZE + length) as nat,
                    )
                }
            },
        }
    }
}

fn push_two(bytes: &mut Vec<u8>, value: u16)
    ensures
        final(bytes)@ == old(bytes)@ + two_bytes(value),
{
    bytes.push((value / 256) as u8);
    bytes.push((value % 256) as u8);
    assert(bytes@ =~= old(bytes)@ + two_bytes(value));
}

fn push_four(bytes: &mut Vec<u8>, value: u32)
    ensures
        final(bytes)@ == old(bytes)@ + four_bytes(value),
{
    push_two(bytes, (value / 65536) as u16);
    push_two(bytes, (value % 65536) as u16);
    assert(bytes@ =~= old(bytes)@ + four_bytes(value));
}

/// Writes a frame as bytes.
pub fn encode(frame: &Frame) -> (bytes: Vec<u8>)
    ensures
        bytes@ == frame@.encoded(),
{
    let mut bytes: Vec<u8> = Vec::new();
    bytes.push(PROTOCOL_VERSION);
    bytes.push(
        match frame.ty {
            Type::Data => 0,
            Type::WindowUpdate => 1,
            Type::Ping => 2,
            Type::GoAway => 3,
        },
    );
    assert(bytes@ =~= seq![PROTOCOL_VERSION, type_byte(frame.ty)]);
    push_two(&mut bytes, frame.flags.bits);
    push_four(&mut bytes, frame.stream_id);
    push_four(&mut bytes, frame.length);
    if let Some(body) = &frame.body {
        bytes.extend_from_slice(body.as_slice());
    }
    bytes
}

fn read_two(bytes: &[u8], at: usize) -> (value: u16)
    requires
        at < HEADER_SIZE,
        at + 2 <= bytes@.len(),
    ensures
        value == two_byte_number(bytes@, at as int),
{
    bytes[at] as u16 * 256 + bytes[at + 1] as u16
}

fn read_four(bytes: &[u8], at: usize) -> (value: u32)
    requires
        at + 2 < HEADER_SIZE,
        at + 4 <= bytes@.len(),
    ensures
        value == four_byte_number(bytes@, at as int),
{
    read_two(bytes, at) as u32 * 65536 + read_two(bytes, at + 2) as u32
}

/// Reads a frame from the beginning of some bytes. A data frame with a body of more than
/// `max_frame_size` bytes is none.
pub fn decode(bytes: &[u8], max_frame_size: u32) -> (result: Decoded)
    ensures
        result@ == decoded(bytes@, max_frame_size),
{
    if bytes.len() < HEADER_SIZE {
        return Decoded::Incomplete;
    }
    if bytes[0] != PROTOCOL_VERSION {
        return Decoded::Invalid(DecodeError::Version);
    }
    let ty = match bytes[1] {
        0 => Type::Data,
        1 => Type::WindowUpdate,
        2 => Type::Ping,
        3 => Type::GoAway,
        _ => {
            return Decoded::Invalid(DecodeError::Type);
        },
    };
    let flags = Flags { bits: read_two(bytes, 2) };
    let stream_id: StreamId = read_four(bytes, 4);
    let length: u32 = read_four(bytes, 8);
    if ty != Type::Data {
        return Decoded::Frame(Frame { ty, flags, stream_id, length, body: None }, HEADER_SIZE);
    }
    if length > max_frame_size {
        return Decoded::Invalid(DecodeError::TooLong);
    }
    if bytes.len() - HEADER_SIZE < length as usize {
        return Decoded::Incomplete;
    }
    let size: usize = HEADER_SIZE + length as usize;
    let mut body: Vec<u8> = Vec::new();
    let mut i: usize = HEADER_SIZE;
    while i < size
        invariant
            HEADER_SIZE <= i <= size <= bytes@.len(),
            body@ == bytes@.subrange(HEADER_SIZE as int, i as int),
        decreases size - i,
    {
        body.push(bytes[i]);
        i += 1;
        assert(body@ =~= bytes@.subrange(HEADER_SIZE as int, i as int));
    }
    Decoded::Frame(Frame { ty, flags, stream_id, length, body: Some(body) }, size)
}

/// A frame is written as a version of 0, the number of its type, and then the flags in two bytes
/// and the stream and the length in four bytes each, the most significant byte first. The body
/// follows, if there is one, and nothing else.
pub proof fn a_frame_is_laid_out_in_bytes(frame: FrameState)
    ensures
        ({
            let bytes = frame.encoded();
            &&& bytes[0] == 0
            &&& bytes[1] == match frame.ty {
                Type::Data => 0int,
                Type::WindowUpdate => 1,
                Type::Ping => 2,
                Type::GoAway => 3,
            }
            &&& bytes[2] * 256 + bytes[3] == frame.flags.bits
            &&& bytes[4] * 16777216 + bytes[5] * 65536 + bytes[6] * 256 + bytes[7]
                == frame.stream_id
            &&& bytes[8] * 16777216 + bytes[9] * 65536 + bytes[10] * 256 + bytes[11]
                == frame.length
            &&& match frame.body {
                Some(body) => bytes.len() == 12 + body.len() && bytes.skip(12) == body,
                None => bytes.len() == 12,
            }
        }),
{
    let bytes = frame.encoded();
    assert(frame.header().len() == 12);
    if let Some(body) = frame.body {
        assert(bytes.skip(12) =~= body);
    }
}

/// Bytes are read as a frame wherever they begin with one: a header of twelve bytes with the
/// version 0 and one of the four types, and behind that of a data frame as many bytes as it says,
/// if they are no more than allowed. The length of other frames is not limited. Otherwise the
/// bytes are incomplete, or it is said what is wrong with them.
pub proof fn bytes_are_read_as_a_frame(bytes: Seq<u8>, max_frame_size: u32)
    ensures
        ({
            let length = bytes[8] * 16777216 + bytes[9] * 65536 + bytes[10] * 256 + bytes[11];
            let result = decoded(bytes, max_frame_size);
            if bytes.len() < 12 {
                result == DecodedState::Incomplete
            } else if bytes[0] != 0 {
                result == DecodedState::Invalid(DecodeError::Version)
            } else if bytes[1] > 3 {
                result == DecodedState::Invalid(DecodeError::Type)
            } else if bytes[1] == 0 && length > max_frame_size {
                result == DecodedState::Invalid(DecodeError::TooLong)
            } else if bytes[1] == 0 && bytes.len() < 12 + length {
                result == DecodedState::Incomplete
            } else {
                let frame = result->Frame_0;
                &&& result is Frame
                &&& frame.encoded().is_prefix_of(bytes)
                &&& frame.body is Some <==> frame.ty == Type::Data
                &&& frame.body is Some ==> frame.body->0.len() == frame.length
                &&& result->Frame_1 == frame.encoded().len()
            }
        }),
{
    let result = decoded(bytes, max_frame_size);
    if let DecodedState::Frame(frame, size) = result {
        lemma_header(frame, bytes);
        let encoded = frame.encoded();
        if let Some(body) = frame.body {
            assert(body =~= bytes.subrange(12, 12 + frame.length));
            assert(bytes.take(12) + body =~= bytes.take(12 + frame.length));
        }
        assert(encoded == bytes.take(encoded.len() as int));
    }
}

proof fn lemma_header(frame: FrameState, bytes: Seq<u8>)
    requires
        bytes.len() >= 12,
        bytes[0] == 0,
        type_of(bytes[1]) == Some(frame.ty),
        frame.flags.bits == two_byte_number(bytes, 2),
        frame.stream_id == four_byte_number(bytes, 4),
        frame.length == four_byte_number(bytes, 8),
    ensures
        frame.header() == bytes.take(12),
{
    lemma_four_bytes(frame.stream_id, bytes, 4);
    lemma_four_bytes(frame.length, bytes, 8);
    assert(two_bytes(frame.flags.bits) =~= bytes.subrange(2, 4));
    assert(frame.header() =~= bytes.take(12));
}

proof fn lemma_four_bytes(value: u32, bytes: Seq<u8>, at: int)
    requires
        0 <= at,
        at + 4 <= bytes.len(),
        value == four_byte_number(bytes, at),
    ensures
        four_bytes(value) == bytes.subrange(at, at + 4),
{
    assert(value / 65536 == two_byte_number(bytes, at));
    assert(value % 65536 == two_byte_number(bytes, at + 2));
    assert(four_bytes(value) =~= bytes.subrange(at, at + 4));
}

/// A frame is well-formed if it is a data frame with a body of the length that it gives, or any
/// other frame without a body.
pub proof fn only_data_frames_have_a_body(frame: FrameState)
    ensures
        frame.ty == Type::Data ==> (frame.well_formed() <==> frame.body is Some
            && frame.body->0.len() == frame.length),
        frame.ty != Type::Data ==> (frame.well_formed() <==> frame.body is None),
{
}

/// The model of a frame and of what bytes hold leaves nothing out.
pub proof fn a_frame_is_seen_whole(frame: Frame, decoded: Decoded)
    ensures
        frame@.ty == frame.ty && frame@.flags == frame.flags && frame@.stream_id == frame.stream_id
            && frame@.length == frame.length,
        frame@.body is Some <==> frame.body is Some,
        frame.body is Some ==> frame@.body->0 == frame.body->0@,
        decoded is Frame <==> decoded@ is Frame,
        decoded is Incomplete <==> decoded@ is Incomplete,
        decoded is Frame ==> decoded@->Frame_0 == decoded->Frame_0@ && decoded@->Frame_1
            == decoded->Frame_1,
        decoded is Invalid ==> decoded@->Invalid_0 == decoded->Invalid_0,
{
}

/// What was written is read back, and the bytes behind it are left alone.
pub proof fn what_is_written_is_read_back(frame: FrameState, rest: Seq<u8>, max_frame_size: u32)
    requires
        frame.well_formed(),
        frame.ty == Type::Data ==> frame.length <= max_frame_size,
    ensures
        decoded(frame.encoded() + rest, max_frame_size) == DecodedState::Frame(
            frame,
            frame.encoded().len(),
        ),
{
    let bytes = frame.encoded() + rest;
    assert(frame.header().len() == HEADER_SIZE);
    assert(two_byte_number(bytes, 2) == frame.flags.bits);
    assert(four_byte_number(bytes, 4) == frame.stream_id);
    assert(four_byte_number(bytes, 8) == frame.length);
    if let Some(body) = frame.body {
        assert(bytes.subrange(HEADER_SIZE as int, HEADER_SIZE + frame.length) =~= body);
    }
}

} // verus!
