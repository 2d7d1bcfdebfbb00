//! The frames that a session exchanges with its peer.
use vstd::prelude::*;
use vstd::std_specs::convert::FromSpecImpl;

verus! {

/// The number by which both ends of a session know a stream.
pub type StreamId = u32;

/// What a frame carries.
#[derive(Clone, Copy, Debug, PartialEq, Eq, Structural)]
pub enum Type {
    /// Bytes of one stream.
    Data,
    /// More credit for the sender of one stream.
    WindowUpdate,
    /// A request for a sign of life, or the answer to one.
    Ping,
    /// The end of the session.
    GoAway,
}

/// One flag of a frame.
#[derive(Clone, Copy, Debug, PartialEq, Eq, Structural)]
pub enum Flag {
    /// Opens a stream, or asks for a pong.
    Syn,
    /// Accepts a stream, or is the pong.
    Ack,
    /// Closes one direction of a stream.
    Fin,
    /// Tears a stream down.
    Rst,
}

impl Flag {
    /// The bit that stands for the flag.
    pub open spec fn spec_value(self) -> u16 {
        match self {
            Flag::Syn => 1,
            Flag::Ack => 2,
            Flag::Fin => 4,
            Flag::Rst => 8,
        }
    }

    /// The bit that stands for the flag.
    pub fn value(self) -> (bit: u16)
        ensures
            bit == self.spec_value(),
    {
        match self {
            Flag::Syn => 1,
            Flag::Ack => 2,
            Flag::Fin => 4,
            Flag::Rst => 8,
        }
    }
}

/// The flags of a frame, one bit each.
#[derive(Clone, Copy, Debug, PartialEq, Eq, Structural)]
pub struct Flags {
    /// The bits.
    pub bits: u16,
}

impl Flags {
    /// Whether `flag` is set.
    pub open spec fn has(self, flag: Flag) -> bool {
        self.bits & flag.spec_value() == flag.spec_value()
    }

    /// The flags with `flag` alone set.
    pub open spec fn only(flag: Flag) -> Flags {
        Flags { bits: flag.spec_value() }
    }

    /// Whether `flag` is set.
    pub fn contains(self, flag: Flag) -> (set: bool)
        ensures
            set == self.has(flag),
    {
        self.bits & flag.value() == flag.value()
    }
}

impl From<Flag> for Flags {
    fn from(flag: Flag) -> (flags: Flags) {
        Flags { bits: flag.value() }
    }
}

impl FromSpecImpl<Flag> for Flags {
    open spec fn obeys_from_spec() -> bool {
        true
    }

    open spec fn from_spec(flag: Flag) -> Flags {
        Flags::only(flag)
    }
}

/// A set of one flag holds that flag and no other.
pub proof fn single_flag(flag: Flag, other: Flag)
    ensures
        Flags::only(flag).has(other) == (flag == other),
{
    assert(1u16 & 1 == 1 && 1u16 & 2 == 0 && 1u16 & 4 == 0 && 1u16 & 8 == 0) by (bit_vector);
    assert(2u16 & 1 == 0 && 2u16 & 2 == 2 && 2u16 & 4 == 0 && 2u16 & 8 == 0) by (bit_vector);
    assert(4u16 & 1 == 0 && 4u16 & 2 == 0 && 4u16 & 4 == 4 && 4u16 & 8 == 0) by (bit_vector);
    assert(8u16 & 1 == 0 && 8u16 & 2 == 0 && 8u16 & 4 == 0 && 8u16 & 8 == 8) by (bit_vector);
}

/// The flags are the four lowest bits, whatever the others are: the first opens a stream or asks
/// for an answer, the second accepts or is the answer, the third closes one direction, and the
/// fourth tears down.
pub proof fn flags_are_bits(flags: Flags)
    ensures
        flags.has(Flag::Syn) == (flags.bits % 2 == 1),
        flags.has(Flag::Ack) == ((flags.bits / 2) % 2 == 1),
        flags.has(Flag::Fin) == ((flags.bits / 4) % 2 == 1),
        flags.has(Flag::Rst) == ((flags.bits / 8) % 2 == 1),
        Flags::only(Flag::Syn).bits == 1,
        Flags::only(Flag::Ack).bits == 2,
        Flags::only(Flag::Fin).bits == 4,
        Flags::only(Flag::Rst).bits == 8,
{
    let bits = flags.bits;
    assert((bits & 1 == 1) == (bits % 2 == 1)) by (bit_vector);
    assert((bits & 2 == 2) == ((bits / 2) % 2 == 1)) by (bit_vector);
    assert((bits & 4 == 4) == ((bits / 4) % 2 == 1)) by (bit_vector);
    assert((bits & 8 == 8) == ((bits / 8) % 2 == 1)) by (bit_vector);
}

/// Why a session ends.
#[derive(Clone, Copy, Debug, PartialEq, Eq, Structural)]
pub enum GoAwayCode {
    /// Nothing went wrong.
    Normal,
    /// The other end broke the protocol.
    ProtocolError,
    /// Something broke on this end.
    InternalError,
}

impl GoAwayCode {
    /// The code as it stands in a frame.
    pub open spec fn spec_value(self) -> u32 {
        match self {
            GoAwayCode::Normal => 0,
            GoAwayCode::ProtocolError => 1,
            GoAwayCode::InternalError => 2,
        }
    }

    /// The code as it stands in a frame.
    pub fn value(self) -> (code: u32)
        ensures
            code == self.spec_value(),
    {
        match self {
            GoAwayCode::Normal => 0,
            GoAwayCode::ProtocolError => 1,
            GoAwayCode::InternalError => 2,
        }
    }
}

impl From<u32> for GoAwayCode {
    /// A code that is none of the three counts as an internal error.
    fn from(code: u32) -> (reason: GoAwayCode) {
        match code {
            0 => GoAwayCode::Normal,
            1 => GoAwayCode::ProtocolError,
            _ => GoAwayCode::InternalError,
        }
    }
}

impl FromSpecImpl<u32> for GoAwayCode {
    open spec fn obeys_from_spec() -> bool {
        true
    }

    open spec fn from_spec(code: u32) -> GoAwayCode {
        if code == 0 {
            GoAwayCode::Normal
        } else if code == 1 {
            GoAwayCode::ProtocolError
        } else {
            GoAwayCode::InternalError
        }
    }
}

/// A frame carries what it is made with, and nothing else.
pub proof fn frames_carry_what_they_are_made_with(flags: Flags, id: StreamId, number: u32)
    ensures
        ({
            let update = Frame::window_update(flags, id, number);
            &&& update.ty == Type::WindowUpdate && update.flags == flags && update.stream_id == id
            &&& update.length == number && update.body is None
        }),
        ({
            let ping = Frame::ping(flags, number);
            &&& ping.ty == Type::Ping && ping.flags == flags && ping.stream_id == 0
            &&& ping.length == number && ping.body is None
        }),
        forall|code: GoAwayCode|
            {
                let go_away = #[trigger] Frame::go_away(code);
                &&& go_away.ty == Type::GoAway && go_away.flags.bits == 0 && go_away.stream_id == 0
                &&& go_away.length == code.spec_value() && go_away.body is None
            },
{
}

/// One frame.
///
/// `length` counts the bytes of the body of a data frame, is the credit of a
/// window update, the number of a ping, or the code of a go away.
#[derive(Debug, PartialEq, Eq)]
pub struct Frame {
    /// What the frame carries.
    pub ty: Type,
    /// The flags of the frame.
    pub flags: Flags,
    /// The stream that the frame belongs to, 0 for the session itself.
    pub stream_id: StreamId,
    /// See the type.
    pub length: u32,
    /// The bytes of a data frame.
    pub body: Option<Vec<u8>>,
}

impl Frame {
    /// The window update that gives `delta` bytes of credit to a stream.
    pub open spec fn window_update(flags: Flags, stream_id: StreamId, delta: u32) -> Frame {
        Frame { ty: Type::WindowUpdate, flags, stream_id, length: delta, body: None }
    }

    /// The ping with the number `ping_id`.
    pub open spec fn ping(flags: Flags, ping_id: u32) -> Frame {
        Frame { ty: Type::Ping, flags, stream_id: 0, length: ping_id, body: None }
    }

    /// The go away that gives `code` as the reason.
    pub open spec fn go_away(code: GoAwayCode) -> Frame {
        Frame {
            ty: Type::GoAway,
            flags: Flags { bits: 0 },
            stream_id: 0,
            length: code.spec_value(),
            body: None,
        }
    }

    /// Makes a window update.
    pub fn new_window_update(flags: Flags, stream_id: StreamId, delta: u32) -> (frame: Frame)
        ensures
            frame == Frame::window_update(flags, stream_id, delta),
    {
        Frame { ty: Type::WindowUpdate, flags, stream_id, length: delta, body: None }
    }

    /// Makes a ping.
    pub fn new_ping(flags: Flags, ping_id: u32) -> (frame: Frame)
        ensures
            frame == Frame::ping(flags, ping_id),
    {
        Frame { ty: Type::Ping, flags, stream_id: 0, length: ping_id, body: None }
    }

    /// Makes a go away.
    pub fn new_go_away(code: GoAwayCode) -> (frame: Frame)
        ensures
            frame == Frame::go_away(code),
    {
        Frame {
            ty: Type::GoAway,
            flags: Flags { bits: 0 },
            stream_id: 0,
            length: code.value(),
            body: None,
        }
    }

    /// What the frame carries.
    pub fn ty(&self) -> (ty: Type)
        ensures
            ty == self.ty,
    {
        self.ty
    }

    /// The flags of the frame.
    pub fn flags(&self) -> (flags: Flags)
        ensures
            flags == self.flags,
    {
        self.flags
    }

    /// The stream that the frame belongs to.
    pub fn stream_id(&self) -> (stream_id: StreamId)
        ensures
            stream_id == self.stream_id,
    {
        self.stream_id
    }

    /// The length field of the frame.
    pub fn length(&self) -> (length: u32)
        ensures
            length == self.length,
    {
        self.length
    }
}

} // verus!
