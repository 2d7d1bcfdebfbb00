//! What holds of every session, whatever its peer, its streams and its transport do.
use futures::channel::oneshot;

use vstd::prelude::*;

use crate::control::Command;
use crate::error::{Error, Failure};
use crate::frame::{Frame, GoAwayCode};
use crate::model::{Delivery, Distribution, Inputs, SessionState};
use crate::step::{
    After, Flushing, Incoming, OutcomeState, Point, Readiness, StepState, Then, Tick,
};
use crate::stream::{HandleState, StreamHandle};

verus! {

/// What can happen to a session.
pub enum Move {
    /// It is polled.
    PollNext,
    /// The transport was asked whether it takes a frame.
    Ready(Frame, Then, Readiness),
    /// The transport was given a frame.
    Sent(Then, Result<(), std::io::Error>),
    /// The transport was flushed.
    Flushed(Flushing, Readiness),
    /// The interval between two pings was polled.
    Ticked(Tick),
    /// The transport was asked for a frame.
    Received(bool, Incoming),
    /// It is asked to close.
    Shutdown,
    /// It is asked to send a go away.
    GoAway,
    /// It is asked for a stream.
    OpenStream,
}

impl SessionState {
    /// One thing happens.
    #[verifier::opaque]
    pub open spec fn moved(self, step: Move, inputs: Inputs) -> Self {
        match step {
            Move::PollNext => self.poll_next().0,
            Move::Ready(frame, then, readiness) => self.ready(frame, then, readiness).0,
            Move::Sent(then, result) => self.sent(then, result).0,
            Move::Flushed(flushing, readiness) => self.flushed(flushing, readiness, inputs).0,
            Move::Ticked(tick) => self.ticked(tick, inputs).0,
            Move::Received(idle, incoming) => self.received(idle, incoming, inputs).0,
            Move::Shutdown => self.call_shutdown().0,
            Move::GoAway => self.call_go_away().0,
            Move::OpenStream => self.open_stream().0,
        }
    }

    /// Many things happen, one after the other.
    pub open spec fn run(self, moves: Seq<(Move, Inputs)>) -> Self
        decreases moves.len(),
    {
        if moves.len() == 0 {
            self
        } else {
            let (step, inputs) = moves.last();
            self.run(moves.drop_last()).moved(step, inputs)
        }
    }

    /// What a session never takes back: it stays what it is, what has ended stays ended, an
    /// id that was given out stays given out, what was found and answered is not forgotten, and an
    /// end that wants no more streams takes in none.
    pub open spec fn grows_into(self, later: Self) -> bool {
        &&& later.ty == self.ty
        &&& later.config == self.config
        &&& later.keepalive == self.keepalive
        &&& self.eof ==> later.eof
        &&& self.remote_go_away ==> later.remote_go_away
        &&& self.local_go_away ==> later.local_go_away
        &&& self.next_stream_id <= later.next_stream_id
        &&& self.valid() ==> later.valid()
        &&& self.commands.is_prefix_of(later.commands)
        &&& self.open_answers.is_prefix_of(later.open_answers)
        &&& self.close_answers.is_prefix_of(later.close_answers)
        &&& self.close_failures.is_prefix_of(later.close_failures)
        &&& self.unread_streams.is_prefix_of(later.unread_streams)
        &&& self.closed_streams.is_prefix_of(later.closed_streams)
        &&& self.unbound.is_prefix_of(later.unbound)
        &&& self.events.is_prefix_of(later.events)
        &&& self.local_go_away ==> later.pending_streams.is_suffix_of(self.pending_streams)
    }
}

pub(crate) proof fn lemma_grows_on(state: SessionState, between: SessionState, later: SessionState)
    requires
        state.grows_into(between),
        between.grows_into(later),
    ensures
        state.grows_into(later),
{
}

pub(crate) proof fn lemma_deliver_grows(
    distribution: Distribution,
    frame: Frame,
    delivery: Delivery,
)
    ensures
        distribution.state.grows_into(distribution.deliver(frame, delivery).state),
{
}

pub(crate) proof fn lemma_deliver_all_grows(
    distribution: Distribution,
    frames: Seq<Frame>,
    deliveries: Seq<Delivery>,
)
    ensures
        distribution.state.grows_into(distribution.deliver_all(frames, deliveries).state),
    decreases frames.len(),
{
    if frames.len() > 0 {
        lemma_deliver_all_grows(distribution, frames.drop_last(), deliveries);
        lemma_deliver_grows(
            distribution.deliver_all(frames.drop_last(), deliveries),
            frames.last(),
            deliveries[frames.len() - 1],
        );
    }
}

pub(crate) proof fn lemma_distribute_grows(state: SessionState, deliveries: Seq<Delivery>)
    ensures
        state.grows_into(state.distribute(deliveries).0),
{
    lemma_deliver_all_grows(
        Distribution {
            state: SessionState { read_pending: Seq::empty(), ..state },
            blocked: Set::empty(),
            stopped: None,
        },
        state.read_pending,
        deliveries,
    );
}

pub(crate) proof fn lemma_begin_round_grows(state: SessionState, inputs: Inputs)
    ensures
        state.grows_into(state.begin_round(inputs).0),
{
}

pub(crate) proof fn lemma_take_event_grows(state: SessionState, idle: bool, inputs: Inputs)
    ensures
        state.grows_into(state.take_event(idle, inputs).0),
{
    lemma_begin_round_grows(state.look_for_event(inputs.events), inputs);
    if inputs.events.len() > 0 {
        lemma_begin_round_grows(state.hear(inputs.events).0, inputs);
    }
}

pub(crate) proof fn lemma_take_unbound_grows(state: SessionState, idle: bool, inputs: Inputs)
    ensures
        state.grows_into(state.take_unbound(idle, inputs).0),
{
    lemma_take_event_grows(state.look_for_unbound(inputs.unbound), idle, inputs);
    if inputs.unbound.len() > 0 {
        lemma_take_event_grows(state.hear_unbound(inputs.unbound).0, false, inputs);
    }
}

pub(crate) proof fn lemma_resume_grows(state: SessionState, point: Point, inputs: Inputs)
    ensures
        state.grows_into(state.resume(point, inputs).0),
{
    match point {
        Point::Flush => lemma_distribute_grows(state, inputs.deliveries),
        Point::Frames => lemma_take_unbound_grows(state, false, inputs),
        Point::Unbound => lemma_take_event_grows(state, false, inputs),
        Point::Events => lemma_begin_round_grows(state, inputs),
        _ => {},
    }
}

proof fn lemma_sent_all_grows(state: SessionState, then: Then, inputs: Inputs)
    ensures
        state.grows_into(state.sent_all(then, inputs).0),
{
    let finished = state.finish(then.after);
    let later = state.sent_all(then, inputs).0;
    lemma_resume_grows(finished, then.point, inputs);
    assert(state.grows_into(finished));
    lemma_grows_on(state, finished, later);
}

proof fn lemma_flushed_grows(
    state: SessionState,
    flushing: Flushing,
    readiness: Readiness,
    inputs: Inputs,
)
    ensures
        state.grows_into(state.flushed(flushing, readiness, inputs).0),
{
    match flushing {
        Flushing::Retry(then) => lemma_sent_all_grows(state, then, inputs),
        Flushing::Last(then) => lemma_sent_all_grows(state, then, inputs),
        Flushing::Complete => lemma_begin_round_grows(state, inputs),
    }
}

proof fn lemma_ticked_grows(state: SessionState, tick: Tick, inputs: Inputs)
    ensures
        state.grows_into(state.ticked(tick, inputs).0),
{
    lemma_begin_round_grows(state, inputs);
}

pub(crate) proof fn lemma_handle_frame_grows(
    state: SessionState,
    frame: Frame,
    deliveries: Seq<Delivery>,
)
    ensures
        state.grows_into(state.handle_frame(frame, deliveries).0),
{
    lemma_distribute_grows(
        SessionState { read_pending: state.read_pending.push(frame), ..state },
        deliveries,
    );
}

proof fn lemma_go_on_grows(state: SessionState, after: Option<After>, inputs: Inputs)
    ensures
        state.grows_into(state.go_on(after, inputs).0),
{
    lemma_take_unbound_grows(state, false, inputs);
}

proof fn lemma_received_grows(
    state: SessionState,
    idle: bool,
    incoming: Incoming,
    inputs: Inputs,
)
    ensures
        state.grows_into(state.received(idle, incoming, inputs).0),
{
    match incoming {
        Incoming::Frame(frame) => {
            let (handled, after) = state.handle_frame(frame, inputs.deliveries);
            lemma_handle_frame_grows(state, frame, inputs.deliveries);
            lemma_go_on_grows(handled, after, inputs);
            lemma_grows_on(state, handled, state.received(idle, incoming, inputs).0);
        },
        Incoming::Eof => {
            let ended = SessionState { eof: true, ..state };
            lemma_go_on_grows(ended, None, inputs);
            lemma_grows_on(state, ended, state.received(idle, incoming, inputs).0);
        },
        Incoming::Pending => lemma_take_unbound_grows(state, idle, inputs),
        Incoming::Failed(_) => {},
    }
}

proof fn lemma_call_grows(state: SessionState, step: Move, inputs: Inputs)
    requires
        !(step is Flushed) && !(step is Ticked) && !(step is Received),
    ensures
        state.grows_into(state.moved(step, inputs)),
{
    reveal(SessionState::moved);
}

/// A session takes nothing back in one step: see [`SessionState::grows_into`].
pub proof fn nothing_is_taken_back(state: SessionState, step: Move, inputs: Inputs)
    ensures
        state.grows_into(state.moved(step, inputs)),
{
    match step {
        Move::Flushed(flushing, readiness) => {
            lemma_flushed_grows(state, flushing, readiness, inputs);
            assert(state.moved(step, inputs) == state.flushed(flushing, readiness, inputs).0) by {
                reveal(SessionState::moved);
            }
        },
        Move::Ticked(tick) => {
            lemma_ticked_grows(state, tick, inputs);
            assert(state.moved(step, inputs) == state.ticked(tick, inputs).0) by {
                reveal(SessionState::moved);
            }
        },
        Move::Received(idle, incoming) => {
            lemma_received_grows(state, idle, incoming, inputs);
            assert(state.moved(step, inputs) == state.received(idle, incoming, inputs).0) by {
                reveal(SessionState::moved);
            }
        },
        _ => lemma_call_grows(state, step, inputs),
    }
}

/// A session takes nothing back, whatever happens to it.
pub proof fn nothing_is_ever_taken_back(state: SessionState, moves: Seq<(Move, Inputs)>)
    ensures
        state.grows_into(state.run(moves)),
    decreases moves.len(),
{
    if moves.len() > 0 {
        nothing_is_ever_taken_back(state, moves.drop_last());
        let (step, inputs) = moves.last();
        nothing_is_taken_back(state.run(moves.drop_last()), step, inputs);
    }
}

/// A session that is over stays over, and every poll of it says so and changes nothing.
pub proof fn over_is_over(state: SessionState, moves: Seq<(Move, Inputs)>)
    requires
        state.is_dead(),
    ensures
        state.run(moves).is_dead(),
        state.run(moves).poll_next() == (
            state.run(moves),
            StepState::Done(OutcomeState::Finished),
        ),
        state.run(moves).call_shutdown() == (
            state.run(moves),
            StepState::Done(OutcomeState::Called),
        ),
        state.run(moves).open_stream() == (
            state.run(moves),
            Err::<HandleState, Error>(Error::SessionShutdown),
        ),
{
    nothing_is_ever_taken_back(state, moves);
}

/// Once the peer has said that it wants no more streams, this end opens none, whatever
/// happens.
pub proof fn no_stream_after_go_away(state: SessionState, moves: Seq<(Move, Inputs)>)
    requires
        state.remote_go_away,
    ensures
        ({
            let later = state.run(moves);
            later.open_stream() == (
                later,
                Err::<HandleState, Error>(
                    if later.is_dead() {
                        Error::SessionShutdown
                    } else {
                        Error::RemoteGoAway
                    },
                ),
            )
        }),
{
    nothing_is_ever_taken_back(state, moves);
}

/// A request for a stream is answered at once, with the stream that a call of `open_stream`
/// would have given, or with the reason why there is none.
pub proof fn a_request_for_a_stream_is_answered(
    state: SessionState,
    queue: Seq<Command>,
    tx: oneshot::Sender<Result<StreamHandle, Error>>,
)
    requires
        queue.len() > 0,
        queue[0] == Command::OpenStream(tx),
    ensures
        ({
            let (later, after) = state.obey(queue);
            let (opened, answer) = state.open_stream();
            &&& after is None
            &&& later.open_answers == state.open_answers.push((tx, answer))
            &&& later.streams == opened.streams
            &&& later.next_stream_id == opened.next_stream_id
            &&& state.is_dead() ==> answer == Err::<HandleState, Error>(Error::SessionShutdown)
            &&& !state.is_dead() && state.remote_go_away ==> answer == Err::<HandleState, Error>(
                Error::RemoteGoAway,
            )
        }),
{
}

/// A request to close is answered when the go away is out and this end takes in no more
/// streams, and at once where the session is over.
pub proof fn a_request_to_close_is_answered(
    state: SessionState,
    queue: Seq<Command>,
    tx: oneshot::Sender<()>,
)
    requires
        queue.len() > 0,
        queue[0] == Command::Shutdown(tx),
    ensures
        ({
            let (later, after) = state.obey(queue);
            if state.is_dead() {
                &&& after is None
                &&& later.close_answers == state.close_answers.push(tx)
            } else {
                let closed = later.finish(after->0);
                &&& after == Some(After::GoAway(Some(tx)))
                &&& later.write_pending == seq![Frame::go_away(GoAwayCode::Normal)]
                &&& later.close_answers == state.close_answers
                &&& closed.close_answers == state.close_answers.push(tx)
                &&& closed.local_go_away
            }
        }),
{
}

/// A request to close gets no answer where the go away could not be sent, at whichever step
/// the transport failed, and the caller gets the error. This end is not closing then.
pub proof fn a_request_to_close_fails_with_the_go_away(
    state: SessionState,
    frame: Frame,
    point: Point,
    tx: oneshot::Sender<()>,
    error: std::io::Error,
    inputs: Inputs,
)
    ensures
        ({
            let after = After::GoAway(Some(tx));
            let then = Then { point, after };
            let failed = (
                SessionState { close_failures: state.close_failures.push(tx), ..state },
                StepState::Done(OutcomeState::Failed(Failure::Io(error))),
            );
            &&& state.ready(frame, then, Readiness::Failed(error)) == failed
            &&& state.sent(then, Err(error)) == failed
            &&& state.flushed(Flushing::Retry(then), Readiness::Failed(error), inputs) == failed
            &&& state.flushed(Flushing::Last(then), Readiness::Failed(error), inputs) == failed
        }),
{
}

/// The ids of the streams that one end opens only go up, whatever happens in between, and
/// are odd for a client and even for a server.
pub proof fn stream_ids_go_up(state: SessionState, moves: Seq<(Move, Inputs)>)
    requires
        state.valid(),
        state.open_stream().1 is Ok,
        state.open_stream().0.run(moves).open_stream().1 is Ok,
    ensures
        ({
            let first = state.open_stream().1->Ok_0.id;
            let second = state.open_stream().0.run(moves).open_stream().1->Ok_0.id;
            &&& first < second
            &&& first % 2 == state.ty.first_stream_id() % 2
            &&& second % 2 == first % 2
        }),
{
    nothing_is_ever_taken_back(state.open_stream().0, moves);
}

} // verus!
