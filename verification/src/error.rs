//! What can go wrong.
use vstd::prelude::*;

verus! {

/// An error of the transport below the session. Nothing is known of it here: it is
/// carried from the transport to the caller.
#[verifier::external_type_specification]
#[verifier::external_body]
pub struct ExIoError(std::io::Error);

/// Why a stream cannot be opened.
#[derive(Clone, Copy, Debug, PartialEq, Eq, Structural)]
pub enum Error {
    /// The session is over.
    SessionShutdown,
    /// The peer wants no more streams.
    RemoteGoAway,
    /// Every stream id of this end has been given out.
    StreamsExhausted,
    /// There is a stream with that id already.
    DuplicateStream,
}

/// Why a session breaks off.
#[derive(Debug)]
pub enum Failure {
    /// The transport failed.
    Io(std::io::Error),
    /// The peer left a ping unanswered for too long.
    TimedOut,
}

} // verus!
