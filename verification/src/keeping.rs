//! What holds of the streams that a session has.
use vstd::prelude::*;

use crate::frame::{Frame, StreamId};
use crate::laws::{
    lemma_begin_round_grows, lemma_deliver_all_grows, lemma_deliver_grows, lemma_distribute_grows,
    lemma_grows_on, lemma_handle_frame_grows, lemma_take_event_grows, lemma_take_unbound_grows,
    nothing_is_ever_taken_back, nothing_is_taken_back, Move,
};
use crate::model::{Delivery, Distribution, Inputs, SessionState};
use crate::step::{Flushing, Incoming, Point, Then};
use crate::stream::{StreamEvent, StreamState};

verus! {

/// Whether the oldest of some events says that a stream is closed.
pub open spec fn closes(queue: Seq<StreamEvent>, id: StreamId) -> bool {
    queue.len() > 0 && queue[0] == StreamEvent::StateChanged((id, StreamState::Closed))
}

/// Whether the events that `later` has beyond `earlier` say that a stream is closed.
pub open spec fn says_closed(
    earlier: Seq<Seq<StreamEvent>>,
    later: Seq<Seq<StreamEvent>>,
    id: StreamId,
) -> bool {
    exists|i: int|
        earlier.len() <= i < later.len() && closes(#[trigger] later[i], id)
}

impl SessionState {
    /// Whether a stream came to its end between two states: it told that it is closed, or
    /// nobody read it any more.
    pub open spec fn ended(self, later: Self, id: StreamId) -> bool {
        ||| says_closed(self.unbound, later.unbound, id)
        ||| says_closed(self.events, later.events, id)
        ||| exists|i: int|
            self.unread_streams.len() <= i < later.unread_streams.len() && (
            #[trigger] later.unread_streams[i]).0 == id
    }

    /// Whether every stream is still there unless it came to its end.
    #[verifier::opaque]
    pub open spec fn keeps_streams(self, later: Self) -> bool {
        forall|id: StreamId| #[trigger]
            self.streams.contains_key(id) ==> later.streams.contains_key(id) || self.ended(
                later,
                id,
            )
    }
}

proof fn lemma_keeps_on(state: SessionState, between: SessionState, later: SessionState)
    requires
        state.grows_into(between),
        between.grows_into(later),
        state.keeps_streams(between),
        between.keeps_streams(later),
    ensures
        state.keeps_streams(later),
{
    reveal(SessionState::keeps_streams);
    assert forall|id: StreamId| #[trigger]
        state.streams.contains_key(id) && !later.streams.contains_key(id) implies state.ended(
        later,
        id,
    ) by {
        if between.streams.contains_key(id) {
            assert(between.ended(later, id));
        } else {
            assert(state.ended(between, id));
            if says_closed(state.unbound, between.unbound, id) {
                let i = choose|i: int|
                    state.unbound.len() <= i < between.unbound.len()
                        && closes(
                        #[trigger] between.unbound[i],
                        id,
                    );
                assert(later.unbound[i] == between.unbound[i]);
            } else if says_closed(state.events, between.events, id) {
                let i = choose|i: int|
                    state.events.len() <= i < between.events.len() && closes(
                        #[trigger] between.events[i],
                        id,
                    );
                assert(later.events[i] == between.events[i]);
            } else {
                let i = choose|i: int|
                    state.unread_streams.len() <= i < between.unread_streams.len() && (
                    #[trigger] between.unread_streams[i]).0 == id;
                assert(later.unread_streams[i] == between.unread_streams[i]);
            }
        }
    }
}

proof fn lemma_keeps_all(state: SessionState, later: SessionState)
    requires
        state.streams.dom().subset_of(later.streams.dom()),
    ensures
        state.keeps_streams(later),
{
    reveal(SessionState::keeps_streams);
}

proof fn lemma_deliver_keeps(distribution: Distribution, frame: Frame, delivery: Delivery)
    ensures
        distribution.state.keeps_streams(distribution.deliver(frame, delivery).state),
{
    reveal(SessionState::keeps_streams);
    let state = distribution.state;
    let later = distribution.deliver(frame, delivery).state;
    assert forall|id: StreamId| #[trigger]
        state.streams.contains_key(id) && !later.streams.contains_key(id) implies state.ended(
        later,
        id,
    ) by {
        assert(later.unread_streams[state.unread_streams.len() as int].0 == id);
    }
}

proof fn lemma_deliver_all_keeps(
    distribution: Distribution,
    frames: Seq<Frame>,
    deliveries: Seq<Delivery>,
)
    ensures
        distribution.state.keeps_streams(distribution.deliver_all(frames, deliveries).state),
    decreases frames.len(),
{
    if frames.len() == 0 {
        lemma_keeps_all(distribution.state, distribution.state);
    } else {
        let between = distribution.deliver_all(frames.drop_last(), deliveries);
        let frame = frames.last();
        let delivery = deliveries[frames.len() - 1];
        lemma_deliver_all_keeps(distribution, frames.drop_last(), deliveries);
        lemma_deliver_all_grows(distribution, frames.drop_last(), deliveries);
        lemma_deliver_keeps(between, frame, delivery);
        lemma_deliver_grows(between, frame, delivery);
        lemma_keeps_on(
            distribution.state,
            between.state,
            distribution.deliver_all(frames, deliveries).state,
        );
    }
}

pub(crate) proof fn lemma_distribute_keeps(state: SessionState, deliveries: Seq<Delivery>)
    ensures
        state.keeps_streams(state.distribute(deliveries).0),
{
    let start = Distribution {
        state: SessionState { read_pending: Seq::empty(), ..state },
        blocked: Set::empty(),
        stopped: None,
    };
    let later = start.deliver_all(state.read_pending, deliveries).state;
    lemma_deliver_all_keeps(start, state.read_pending, deliveries);
    lemma_deliver_all_grows(start, state.read_pending, deliveries);
    lemma_keeps_all(state, start.state);
    assert(state.grows_into(start.state));
    lemma_keeps_on(state, start.state, later);
}

proof fn lemma_hear_keeps(state: SessionState, queue: Seq<StreamEvent>)
    requires
        queue.len() > 0,
    ensures
        state.keeps_streams(state.hear(queue).0),
        state.grows_into(state.hear(queue).0),
        state.keeps_streams(state.hear_unbound(queue).0),
        state.grows_into(state.hear_unbound(queue).0),
{
    reveal(SessionState::keeps_streams);
    let heard = state.hear(queue).0;
    assert(heard.events[state.events.len() as int] == queue);
    let unbound = state.hear_unbound(queue).0;
    assert(unbound.unbound[state.unbound.len() as int] == queue);
}

proof fn lemma_begin_round_keeps(state: SessionState, inputs: Inputs)
    ensures
        state.keeps_streams(state.begin_round(inputs).0),
{
    lemma_keeps_all(state, state.begin_round(inputs).0);
}

proof fn lemma_take_event_keeps(state: SessionState, idle: bool, inputs: Inputs)
    ensures
        state.keeps_streams(state.take_event(idle, inputs).0),
{
    let later = state.take_event(idle, inputs).0;
    if inputs.events.len() > 0 {
            let (heard, after) = state.hear(inputs.events);
            lemma_hear_keeps(state, inputs.events);
            lemma_begin_round_keeps(heard, inputs);
            lemma_begin_round_grows(heard, inputs);
            if after is Some {
                lemma_keeps_all(heard, later);
                assert(heard.grows_into(later));
            }
            lemma_keeps_on(state, heard, later);
    } else {
            let looked = state.look_for_event(inputs.events);
            lemma_keeps_all(state, looked);
            lemma_keeps_all(looked, later);
            lemma_keeps_all(state, later);
    }
}

proof fn lemma_take_unbound_keeps(state: SessionState, idle: bool, inputs: Inputs)
    ensures
        state.keeps_streams(state.take_unbound(idle, inputs).0),
{
    let later = state.take_unbound(idle, inputs).0;
    if inputs.unbound.len() > 0 {
            let (heard, after) = state.hear_unbound(inputs.unbound);
            lemma_hear_keeps(state, inputs.unbound);
            if after is Some {
                lemma_keeps_all(heard, later);
                assert(heard.grows_into(later));
            } else {
                lemma_take_event_keeps(heard, false, inputs);
                lemma_take_event_grows(heard, false, inputs);
            }
            lemma_keeps_on(state, heard, later);
    } else {
            let looked = state.look_for_unbound(inputs.unbound);
            lemma_keeps_all(state, looked);
            assert(state.grows_into(looked));
            lemma_take_event_keeps(looked, idle, inputs);
            lemma_take_event_grows(looked, idle, inputs);
            lemma_keeps_on(state, looked, later);
    }
}

proof fn lemma_sent_all_keeps(state: SessionState, then: Then, inputs: Inputs)
    ensures
        state.keeps_streams(state.sent_all(then, inputs).0),
{
    let finished = state.finish(then.after);
    let later = state.sent_all(then, inputs).0;
    assert(finished.keeps_streams(later) && finished.grows_into(later)) by {
        match then.point {
            Point::Flush => {
                let (distributed, after) = finished.distribute(inputs.deliveries);
                lemma_distribute_keeps(finished, inputs.deliveries);
                lemma_distribute_grows(finished, inputs.deliveries);
                lemma_keeps_all(distributed, later);
                assert(distributed.grows_into(later));
                lemma_keeps_on(finished, distributed, later);
                lemma_grows_on(finished, distributed, later);
            },
            Point::Frames => {
                lemma_take_unbound_keeps(finished, false, inputs);
                lemma_take_unbound_grows(finished, false, inputs);
            },
            Point::Unbound => {
                lemma_take_event_keeps(finished, false, inputs);
                lemma_take_event_grows(finished, false, inputs);
            },
            Point::Events => {
                lemma_begin_round_keeps(finished, inputs);
                lemma_begin_round_grows(finished, inputs);
            },
            _ => {
                lemma_keeps_all(finished, later);
            },
        }
    }
    lemma_keeps_all(state, finished);
    assert(state.grows_into(finished));
    lemma_keeps_on(state, finished, later);
}

proof fn lemma_received_keeps(
    state: SessionState,
    idle: bool,
    incoming: Incoming,
    inputs: Inputs,
)
    ensures
        state.keeps_streams(state.received(idle, incoming, inputs).0),
{
    let later = state.received(idle, incoming, inputs).0;
    match incoming {
        Incoming::Frame(frame) => {
            let (handled, after) = state.handle_frame(frame, inputs.deliveries);
            lemma_handle_frame_grows(state, frame, inputs.deliveries);
            lemma_handle_frame_keeps(state, frame, inputs.deliveries);
            if after is Some {
                lemma_keeps_all(handled, later);
                assert(handled.grows_into(later));
            } else {
                lemma_take_unbound_keeps(handled, false, inputs);
                lemma_take_unbound_grows(handled, false, inputs);
            }
            lemma_keeps_on(state, handled, later);
        },
        Incoming::Eof => {
            let ended = SessionState { eof: true, ..state };
            lemma_keeps_all(state, ended);
            assert(state.grows_into(ended));
            lemma_take_unbound_keeps(ended, false, inputs);
            lemma_take_unbound_grows(ended, false, inputs);
            lemma_keeps_on(state, ended, later);
        },
        Incoming::Pending => lemma_take_unbound_keeps(state, idle, inputs),
        Incoming::Failed(_) => lemma_keeps_all(state, later),
    }
}

proof fn lemma_handle_frame_keeps(state: SessionState, frame: Frame, deliveries: Seq<Delivery>)
    ensures
        state.keeps_streams(state.handle_frame(frame, deliveries).0),
{
    reveal(SessionState::keeps_streams);
    lemma_distribute_keeps(
        SessionState { read_pending: state.read_pending.push(frame), ..state },
        deliveries,
    );
}

proof fn lemma_move_keeps(state: SessionState, step: Move, inputs: Inputs)
    ensures
        state.keeps_streams(state.moved(step, inputs)),
{
    let later = state.moved(step, inputs);
    reveal(SessionState::moved);
    match step {
        Move::Flushed(flushing, _) => {
            match flushing {
                Flushing::Retry(then) => lemma_sent_all_keeps(state, then, inputs),
                Flushing::Last(then) => lemma_sent_all_keeps(state, then, inputs),
                Flushing::Complete => lemma_begin_round_keeps(state, inputs),
            }
            if state.streams == later.streams {
                lemma_keeps_all(state, later);
            }
        },
        Move::Received(idle, incoming) => lemma_received_keeps(state, idle, incoming, inputs),
        _ => lemma_keeps_all(state, later),
    }
}

/// A stream stays with its session, whatever happens, until it tells that it is closed or
/// nobody reads it any more.
pub proof fn a_stream_stays_until_it_ends(
    state: SessionState,
    moves: Seq<(Move, Inputs)>,
    id: StreamId,
)
    requires
        state.streams.contains_key(id),
    ensures
        state.run(moves).streams.contains_key(id) || state.ended(state.run(moves), id),
{
    lemma_run_keeps(state, moves);
    reveal(SessionState::keeps_streams);
}

proof fn lemma_run_keeps(state: SessionState, moves: Seq<(Move, Inputs)>)
    ensures
        state.keeps_streams(state.run(moves)),
    decreases moves.len(),
{
    if moves.len() == 0 {
        lemma_keeps_all(state, state);
    } else {
        let between = state.run(moves.drop_last());
        let (step, inputs) = moves.last();
        lemma_run_keeps(state, moves.drop_last());
        nothing_is_ever_taken_back(state, moves.drop_last());
        lemma_move_keeps(between, step, inputs);
        nothing_is_taken_back(between, step, inputs);
        lemma_keeps_on(state, between, state.run(moves));
    }
}

} // verus!
