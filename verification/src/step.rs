//! How a session and its transport take turns.
//!
//! A session decides, and the code around it polls the transport and the clock. Each
//! [`Step`] asks for one poll, or ends the call. The answer goes back into the session
//! together with what the step carries, and gives the next step.
use futures::channel::oneshot;

use vstd::prelude::*;

use crate::channel::close_fate;
use crate::error::Failure;
use crate::frame::Frame;
use crate::stream::{HandleState, StreamHandle};
use crate::time::Instant;

verus! {

/// What is to be done once the queue has gone out.
pub enum After {
    /// Nothing.
    Nothing,
    /// A go away went out: this end is closing from now on. If somebody asked for that,
    /// they get an answer.
    GoAway(Option<oneshot::Sender<()>>),
    /// A ping went out, and its answer is awaited from now on.
    Ping {
        /// The number of the ping.
        ping_id: u32,
        /// When the ping was made.
        ping_at: Instant,
    },
}

impl After {
    /// Whether a request to close that hangs on this was dropped without an answer.
    pub open spec fn is_unanswered(self) -> bool {
        self matches After::GoAway(Some(tx)) ==> close_fate(tx) is Dropped
    }
}

/// Where a poll of the session stands.
#[derive(Clone, Copy, Debug, PartialEq, Eq, Structural)]
pub enum Point {
    /// The frames that were left over go out.
    Flush,
    /// The frames that were left over go to their streams.
    Distribution,
    /// The session shows that it is alive.
    KeepAlive,
    /// The session obeys a control.
    Commands,
    /// The session takes a frame from the transport.
    Frames,
    /// The session takes an event that must not get lost.
    Unbound,
    /// The session takes another event.
    Events,
    /// There is no poll, but a call.
    Call,
}

/// How it goes on once the queue has gone out.
pub struct Then {
    /// Where the poll stands.
    pub point: Point,
    /// What is to be done first.
    pub after: After,
}

/// What a flush of the transport is for.
pub enum Flushing {
    /// The transport takes no frame. If the flush is done, the queue is tried again.
    Retry(Then),
    /// The queue has gone out.
    Last(Then),
    /// The poll flushes once in any case.
    Complete,
}

impl Flushing {
    /// Whether a request to close that hangs on this was dropped without an answer.
    pub open spec fn is_unanswered(self) -> bool {
        match self {
            Flushing::Retry(then) => then.after.is_unanswered(),
            Flushing::Last(then) => then.after.is_unanswered(),
            Flushing::Complete => true,
        }
    }
}

/// How a poll of the session ends.
pub enum Outcome {
    /// The session is over.
    Finished,
    /// The peer has opened a stream.
    Stream(StreamHandle),
    /// There is nothing to do at the moment.
    Pending,
    /// The session broke off.
    Failed(Failure),
    /// The call is done.
    Called,
}

/// What the session asks for.
pub enum Step {
    /// Whether the transport takes a frame. The answer is for `ready`.
    PollReady(Frame, Then),
    /// To give the frame to the transport. The answer is for `sent`.
    StartSend(Frame, Then),
    /// To flush the transport. The answer is for `flushed`.
    PollFlush(Flushing),
    /// A frame from the transport. The answer is for `received`.
    PollFrame {
        /// Whether the round has found nothing to do so far.
        idle: bool,
    },
    /// Whether a ping is due, and what time it is. The answer is for `ticked`.
    PollTimer,
    /// Nothing more.
    Done(Outcome),
}

/// What a poll of the sending half of the transport gives.
#[derive(Debug)]
pub enum Readiness {
    /// It is done.
    Ready,
    /// It is not done, and the task is woken when polling again may help.
    Pending,
    /// The transport failed.
    Failed(std::io::Error),
}

/// What a poll of the receiving half of the transport gives.
#[derive(Debug)]
pub enum Incoming {
    /// The next frame.
    Frame(Frame),
    /// There will be no more frames.
    Eof,
    /// There is no frame at the moment.
    Pending,
    /// The transport failed.
    Failed(std::io::Error),
}

/// What a poll of the interval between two pings gives.
#[derive(Clone, Copy, Debug, PartialEq, Eq, Structural)]
pub enum Tick {
    /// A ping is due.
    Due {
        /// The time that the ping is given.
        ping_at: Instant,
        /// The time at which earlier pings are looked at.
        now: Instant,
    },
    /// No ping is due at the moment.
    Waiting,
    /// No ping will be due any more.
    Ended,
}

/// The model of an outcome.
pub enum OutcomeState {
    /// See [`Outcome::Finished`].
    Finished,
    /// See [`Outcome::Stream`].
    Stream(HandleState),
    /// See [`Outcome::Pending`].
    Pending,
    /// See [`Outcome::Failed`].
    Failed(Failure),
    /// See [`Outcome::Called`].
    Called,
}

/// The model of a step.
pub enum StepState {
    /// See [`Step::PollReady`].
    PollReady(Frame, Then),
    /// See [`Step::StartSend`].
    StartSend(Frame, Then),
    /// See [`Step::PollFlush`].
    PollFlush(Flushing),
    /// See [`Step::PollFrame`].
    PollFrame {
        /// Whether the round has found nothing to do so far.
        idle: bool,
    },
    /// See [`Step::PollTimer`].
    PollTimer,
    /// See [`Step::Done`].
    Done(OutcomeState),
}

impl View for Outcome {
    type V = OutcomeState;

    open spec fn view(&self) -> OutcomeState {
        match *self {
            Outcome::Finished => OutcomeState::Finished,
            Outcome::Stream(handle) => OutcomeState::Stream(handle@),
            Outcome::Pending => OutcomeState::Pending,
            Outcome::Failed(failure) => OutcomeState::Failed(failure),
            Outcome::Called => OutcomeState::Called,
        }
    }
}

impl View for Step {
    type V = StepState;

    open spec fn view(&self) -> StepState {
        match *self {
            Step::PollReady(frame, then) => StepState::PollReady(frame, then),
            Step::StartSend(frame, then) => StepState::StartSend(frame, then),
            Step::PollFlush(flushing) => StepState::PollFlush(flushing),
            Step::PollFrame { idle } => StepState::PollFrame { idle },
            Step::PollTimer => StepState::PollTimer,
            Step::Done(outcome) => StepState::Done(outcome@),
        }
    }
}

/// The model of a step leaves out nothing but the channels of a stream that it hands out.
pub proof fn a_step_is_seen_whole(step: Step)
    ensures
        match step {
            Step::PollReady(frame, then) => step@ == StepState::PollReady(frame, then),
            Step::StartSend(frame, then) => step@ == StepState::StartSend(frame, then),
            Step::PollFlush(flushing) => step@ == StepState::PollFlush(flushing),
            Step::PollFrame { idle } => step@ == StepState::PollFrame { idle },
            Step::PollTimer => step@ is PollTimer,
            Step::Done(Outcome::Stream(handle)) => step@ == StepState::Done(
                OutcomeState::Stream(handle@),
            ),
            Step::Done(Outcome::Failed(failure)) => step@ == StepState::Done(
                OutcomeState::Failed(failure),
            ),
            Step::Done(Outcome::Finished) => step@ == StepState::Done(OutcomeState::Finished),
            Step::Done(Outcome::Pending) => step@ == StepState::Done(OutcomeState::Pending),
            Step::Done(Outcome::Called) => step@ == StepState::Done(OutcomeState::Called),
        },
{
}

} // verus!
