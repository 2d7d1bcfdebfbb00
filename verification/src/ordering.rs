//! What holds of the frames of a stream over its whole life.
use vstd::prelude::*;

use crate::delivery::{frames_arrive_in_order, given, in_transit, lemma_frames_of_push, one_life};
use crate::frame::{Flag, Frame, StreamId, Type};
use crate::keeping::{closes, lemma_distribute_keeps, says_closed};
use crate::laws::{
    lemma_begin_round_grows, lemma_distribute_grows, lemma_handle_frame_grows,
    lemma_take_event_grows, lemma_take_unbound_grows, Move,
};
use crate::model::{Delivery, Distribution, Inputs, SessionState};
use crate::step::{Flushing, Incoming, Point, Readiness, Then};
use crate::stream::StreamEvent;

verus! {

/// Whether none of the frames opens the stream.
pub open spec fn opens_not(frames: Seq<Frame>, id: StreamId) -> bool {
    forall|i: int|
        0 <= i < frames.len() && (#[trigger] frames[i]).stream_id == id ==> !frames[i].flags.has(
            Flag::Syn,
        )
}

/// The frame for the stream that came with a move, if one did.
pub open spec fn arrived(step: Move, id: StreamId) -> Seq<Frame> {
    match step {
        Move::Received(_, Incoming::Frame(frame)) => if frame.stream_id == id && (frame.ty
            == Type::Data || frame.ty == Type::WindowUpdate) {
            seq![frame]
        } else {
            Seq::empty()
        },
        _ => Seq::empty(),
    }
}

/// The frames for the stream that came with many moves, in order.
pub open spec fn all_arrived(moves: Seq<(Move, Inputs)>, id: StreamId) -> Seq<Frame>
    decreases moves.len(),
{
    if moves.len() == 0 {
        Seq::empty()
    } else {
        all_arrived(moves.drop_last(), id) + arrived(moves.last().0, id)
    }
}

impl SessionState {
    /// Whether a distribution of frames breaks off in a move.
    pub open spec fn breaks_off(self, step: Move, inputs: Inputs) -> bool {
        match step {
            Move::Received(_, Incoming::Frame(frame)) => (frame.ty == Type::Data || frame.ty
                == Type::WindowUpdate) && self.handle_stream_message(
                frame,
                inputs.deliveries,
            ).1 is Some,
            Move::Flushed(Flushing::Retry(then), Readiness::Pending) => self.breaks_off_behind(
                then,
                inputs,
            ),
            Move::Flushed(Flushing::Last(then), _) => self.breaks_off_behind(then, inputs),
            _ => false,
        }
    }

    /// Whether the distribution breaks off that comes when the queue has gone out.
    pub open spec fn breaks_off_behind(self, then: Then, inputs: Inputs) -> bool {
        &&& then.point == Point::Flush
        &&& self.finish(then.after).distribute(inputs.deliveries).1 is Some
    }

    /// Whether nothing disturbs a stream in a move: it does not end, nobody opens it again,
    /// and no distribution breaks off.
    pub open spec fn undisturbed(self, step: Move, inputs: Inputs, id: StreamId) -> bool {
        &&& !self.ended(self.moved(step, inputs), id)
        &&& opens_not(arrived(step, id), id)
        &&& !self.breaks_off(step, inputs)
    }

    /// Whether nothing disturbs a stream in many moves.
    pub open spec fn always_undisturbed(self, moves: Seq<(Move, Inputs)>, id: StreamId) -> bool
        decreases moves.len(),
    {
        moves.len() > 0 ==> {
            let (step, inputs) = moves.last();
            &&& self.always_undisturbed(moves.drop_last(), id)
            &&& self.run(moves.drop_last()).undisturbed(step, inputs, id)
        }
    }

    /// Whether nothing has happened to a stream between two states, nor to the frames that
    /// are left over.
    pub open spec fn leaves_alone(self, later: Self, id: StreamId) -> bool {
        &&& later.streams.contains_key(id)
        &&& later.streams[id] == self.streams[id]
        &&& later.read_pending == self.read_pending
    }
}

proof fn lemma_ended_between(
    state: SessionState,
    between: SessionState,
    later: SessionState,
    id: StreamId,
)
    requires
        state.grows_into(between),
        between.grows_into(later),
        !state.ended(later, id),
    ensures
        !state.ended(between, id),
        !between.ended(later, id),
{
    if says_closed(state.unbound, between.unbound, id) {
        let i = choose|i: int|
            state.unbound.len() <= i < between.unbound.len() && closes(
                        #[trigger] between.unbound[i],
                        id,
                    );
        assert(later.unbound[i] == between.unbound[i]);
    }
    if says_closed(state.events, between.events, id) {
        let i = choose|i: int|
            state.events.len() <= i < between.events.len() && closes(
                        #[trigger] between.events[i],
                        id,
                    );
        assert(later.events[i] == between.events[i]);
    }
    if exists|i: int|
        state.unread_streams.len() <= i < between.unread_streams.len() && (
        #[trigger] between.unread_streams[i]).0 == id {
        let i = choose|i: int|
            state.unread_streams.len() <= i < between.unread_streams.len() && (
            #[trigger] between.unread_streams[i]).0 == id;
        assert(later.unread_streams[i] == between.unread_streams[i]);
    }
}

proof fn lemma_hear_leaves(state: SessionState, queue: Seq<StreamEvent>, id: StreamId)
    requires
        queue.len() > 0,
        state.streams.contains_key(id),
    ensures
        state.grows_into(state.hear(queue).0),
        state.grows_into(state.hear_unbound(queue).0),
        state.ended(state.hear(queue).0, id) || state.leaves_alone(state.hear(queue).0, id),
        state.ended(state.hear_unbound(queue).0, id) || state.leaves_alone(
            state.hear_unbound(queue).0,
            id,
        ),
{
    assert(state.hear(queue).0.events[state.events.len() as int] == queue);
    assert(state.hear_unbound(queue).0.unbound[state.unbound.len() as int] == queue);
}

proof fn lemma_begin_round_leaves(state: SessionState, inputs: Inputs, id: StreamId)
    requires
        state.streams.contains_key(id),
    ensures
        state.leaves_alone(state.begin_round(inputs).0, id),
{
}

proof fn lemma_take_event_leaves(state: SessionState, idle: bool, inputs: Inputs, id: StreamId)
    requires
        state.streams.contains_key(id),
        !state.ended(state.take_event(idle, inputs).0, id),
    ensures
        state.leaves_alone(state.take_event(idle, inputs).0, id),
{
    let later = state.take_event(idle, inputs).0;
    if inputs.events.len() > 0 {
            let (heard, after) = state.hear(inputs.events);
            lemma_hear_leaves(state, inputs.events, id);
            lemma_begin_round_grows(heard, inputs);
            if after is Some {
                assert(heard.grows_into(later));
            }
            lemma_ended_between(state, heard, later, id);
            if after is None {
                lemma_begin_round_leaves(heard, inputs, id);
            }
    } else {
            lemma_begin_round_leaves(state.look_for_event(inputs.events), inputs, id);
    }
}

proof fn lemma_take_unbound_leaves(state: SessionState, idle: bool, inputs: Inputs, id: StreamId)
    requires
        state.streams.contains_key(id),
        !state.ended(state.take_unbound(idle, inputs).0, id),
    ensures
        state.leaves_alone(state.take_unbound(idle, inputs).0, id),
{
    let later = state.take_unbound(idle, inputs).0;
    if inputs.unbound.len() > 0 {
            let (heard, after) = state.hear_unbound(inputs.unbound);
            lemma_hear_leaves(state, inputs.unbound, id);
            lemma_take_event_grows(heard, false, inputs);
            if after is Some {
                assert(heard.grows_into(later));
            }
            lemma_ended_between(state, heard, later, id);
            if after is None {
                lemma_take_event_leaves(heard, false, inputs, id);
            }
    } else {
            let looked = state.look_for_unbound(inputs.unbound);
            lemma_take_event_grows(looked, idle, inputs);
            assert(state.grows_into(looked));
            lemma_ended_between(state, looked, later, id);
            lemma_take_event_leaves(looked, idle, inputs, id);
    }
}

proof fn lemma_opens_not(state: SessionState, frames: Seq<Frame>, id: StreamId)
    requires
        state.streams.contains_key(id),
        opens_not(frames, id),
    ensures
        one_life(state, frames, id),
    decreases frames.len(),
{
    reveal(Seq::filter);
    if frames.len() > 0 {
        let shorter = frames.drop_last();
        let frame = frames.last();
        lemma_opens_not(state, shorter, id);
        assert(frames =~= shorter.push(frame));
        lemma_frames_of_push(shorter, frame, id);
    }
}

proof fn lemma_deliver_all_opens_not(
    start: Distribution,
    frames: Seq<Frame>,
    deliveries: Seq<Delivery>,
    id: StreamId,
)
    requires
        opens_not(frames, id),
        opens_not(start.state.read_pending, id),
    ensures
        opens_not(start.deliver_all(frames, deliveries).state.read_pending, id),
    decreases frames.len(),
{
    if frames.len() > 0 {
        lemma_deliver_all_opens_not(start, frames.drop_last(), deliveries, id);
    }
}

proof fn lemma_distribute_order(state: SessionState, deliveries: Seq<Delivery>, id: StreamId)
    requires
        state.streams.contains_key(id),
        opens_not(state.read_pending, id),
        state.distribute(deliveries).1 is None,
        !state.ended(state.distribute(deliveries).0, id),
    ensures
        ({
            let later = state.distribute(deliveries).0;
            &&& later.streams.contains_key(id)
            &&& in_transit(later, id) == in_transit(state, id)
            &&& given(state, id).is_prefix_of(given(later, id))
            &&& opens_not(later.read_pending, id)
        }),
{
    reveal(SessionState::keeps_streams);
    lemma_distribute_keeps(state, deliveries);
    lemma_opens_not(state, state.read_pending, id);
    frames_arrive_in_order(state, deliveries, id);
    lemma_deliver_all_opens_not(
        Distribution {
            state: SessionState { read_pending: Seq::empty(), ..state },
            blocked: Set::empty(),
            stopped: None,
        },
        state.read_pending,
        deliveries,
        id,
    );
}

/// What a stream has been given goes on where it was, and what is in transit to it is what was
/// in transit and the frames that came.
pub open spec fn in_order(
    state: SessionState,
    later: SessionState,
    frames: Seq<Frame>,
    id: StreamId,
) -> bool {
    &&& later.streams.contains_key(id)
    &&& in_transit(later, id) == in_transit(state, id) + frames
    &&& given(state, id).is_prefix_of(given(later, id))
    &&& opens_not(later.read_pending, id)
}

proof fn lemma_left_alone(state: SessionState, later: SessionState, id: StreamId)
    requires
        state.streams.contains_key(id),
        opens_not(state.read_pending, id),
        state.leaves_alone(later, id),
    ensures
        in_order(state, later, Seq::empty(), id),
{
    assert(in_transit(state, id) + Seq::<Frame>::empty() =~= in_transit(state, id));
}

proof fn lemma_handle_frame_order(
    state: SessionState,
    frame: Frame,
    deliveries: Seq<Delivery>,
    id: StreamId,
)
    requires
        state.streams.contains_key(id),
        opens_not(state.read_pending, id),
        opens_not(arrived(Move::Received(true, Incoming::Frame(frame)), id), id),
        (frame.ty == Type::Data || frame.ty == Type::WindowUpdate)
            ==> state.handle_stream_message(frame, deliveries).1 is None,
        !state.ended(state.handle_frame(frame, deliveries).0, id),
    ensures
        in_order(
            state,
            state.handle_frame(frame, deliveries).0,
            arrived(Move::Received(true, Incoming::Frame(frame)), id),
            id,
        ),
{
    let arrival = arrived(Move::Received(true, Incoming::Frame(frame)), id);
    if frame.ty == Type::Data || frame.ty == Type::WindowUpdate {
        let pushed = SessionState { read_pending: state.read_pending.push(frame), ..state };
        if frame.stream_id == id {
            assert(arrival[0] == frame);
        }
        assert(opens_not(pushed.read_pending, id));
        lemma_distribute_order(pushed, deliveries, id);
        lemma_frames_of_push(state.read_pending, frame, id);
        assert(in_transit(pushed, id) =~= in_transit(state, id) + arrival);
    } else {
        lemma_left_alone(state, state.handle_frame(frame, deliveries).0, id);
    }
}

proof fn lemma_received_order(
    state: SessionState,
    idle: bool,
    incoming: Incoming,
    inputs: Inputs,
    id: StreamId,
)
    requires
        state.streams.contains_key(id),
        opens_not(state.read_pending, id),
        opens_not(arrived(Move::Received(idle, incoming), id), id),
        !state.breaks_off(Move::Received(idle, incoming), inputs),
        !state.ended(state.received(idle, incoming, inputs).0, id),
    ensures
        in_order(
            state,
            state.received(idle, incoming, inputs).0,
            arrived(Move::Received(idle, incoming), id),
            id,
        ),
{
    let later = state.received(idle, incoming, inputs).0;
    match incoming {
        Incoming::Frame(frame) => {
            let (handled, after) = state.handle_frame(frame, inputs.deliveries);
            lemma_handle_frame_grows(state, frame, inputs.deliveries);
            if after is Some {
                assert(handled.grows_into(later));
            } else {
                lemma_take_unbound_grows(handled, false, inputs);
            }
            lemma_ended_between(state, handled, later, id);
            lemma_handle_frame_order(state, frame, inputs.deliveries, id);
            if after is None {
                lemma_take_unbound_leaves(handled, false, inputs, id);
            }
            assert(handled.leaves_alone(later, id));
        },
        Incoming::Eof => {
            let ended = SessionState { eof: true, ..state };
            lemma_take_unbound_grows(ended, false, inputs);
            assert(state.grows_into(ended));
            lemma_ended_between(state, ended, later, id);
            lemma_take_unbound_leaves(ended, false, inputs, id);
            lemma_left_alone(state, later, id);
        },
        Incoming::Pending => {
            lemma_take_unbound_leaves(state, idle, inputs, id);
            lemma_left_alone(state, later, id);
        },
        Incoming::Failed(_) => {
            lemma_left_alone(state, later, id);
        },
    }
}

proof fn lemma_sent_all_order(state: SessionState, then: Then, inputs: Inputs, id: StreamId)
    requires
        state.streams.contains_key(id),
        opens_not(state.read_pending, id),
        !state.breaks_off_behind(then, inputs),
        !state.ended(state.sent_all(then, inputs).0, id),
    ensures
        in_order(state, state.sent_all(then, inputs).0, Seq::empty(), id),
{
    let finished = state.finish(then.after);
    let later = state.sent_all(then, inputs).0;
    assert(state.grows_into(finished));
    match then.point {
        Point::Flush => {
            lemma_distribute_grows(finished, inputs.deliveries);
            lemma_ended_between(state, finished, later, id);
            lemma_distribute_order(finished, inputs.deliveries, id);
            assert(in_transit(state, id) + Seq::<Frame>::empty() =~= in_transit(finished, id));
        },
        Point::Frames => {
            lemma_take_unbound_grows(finished, false, inputs);
            lemma_ended_between(state, finished, later, id);
            lemma_take_unbound_leaves(finished, false, inputs, id);
            lemma_left_alone(state, later, id);
        },
        Point::Unbound => {
            lemma_take_event_grows(finished, false, inputs);
            lemma_ended_between(state, finished, later, id);
            lemma_take_event_leaves(finished, false, inputs, id);
            lemma_left_alone(state, later, id);
        },
        Point::Events => {
            lemma_begin_round_leaves(finished, inputs, id);
            lemma_left_alone(state, later, id);
        },
        _ => {
            lemma_left_alone(state, later, id);
        },
    }
}

/// In one move, the frame for a stream that comes joins those in transit to it, and nothing
/// else changes them, unless something disturbs the stream.
pub proof fn a_move_keeps_the_order(state: SessionState, step: Move, inputs: Inputs, id: StreamId)
    requires
        state.streams.contains_key(id),
        opens_not(state.read_pending, id),
        state.undisturbed(step, inputs, id),
    ensures
        in_order(state, state.moved(step, inputs), arrived(step, id), id),
{
    reveal(SessionState::moved);
    let later = state.moved(step, inputs);
    match step {
        Move::Received(idle, incoming) => {
            lemma_received_order(state, idle, incoming, inputs, id);
        },
        Move::Flushed(Flushing::Retry(then), Readiness::Pending) => {
            lemma_sent_all_order(state, then, inputs, id);
        },
        Move::Flushed(Flushing::Last(then), readiness) => {
            if readiness is Failed {
                lemma_left_alone(state, later, id);
            } else {
                lemma_sent_all_order(state, then, inputs, id);
            }
        },
        Move::Flushed(Flushing::Complete, _) => {
            lemma_begin_round_leaves(state, inputs, id);
            lemma_left_alone(state, later, id);
        },
        Move::Ticked(_) => {
            lemma_begin_round_leaves(state, inputs, id);
            lemma_left_alone(state, later, id);
        },
        _ => {
            lemma_left_alone(state, later, id);
        },
    }
}

/// A stream gets the frames that come for it in the order in which they come, each of them
/// once, whatever else happens: what it has been given and what the session still holds for it
/// are together all the frames that have come. This holds as long as the stream is open, nobody
/// opens it again, and no distribution breaks off.
pub proof fn frames_arrive_in_order_for_good(
    state: SessionState,
    moves: Seq<(Move, Inputs)>,
    id: StreamId,
)
    requires
        state.streams.contains_key(id),
        opens_not(state.read_pending, id),
        state.always_undisturbed(moves, id),
    ensures
        in_order(state, state.run(moves), all_arrived(moves, id), id),
    decreases moves.len(),
{
    if moves.len() == 0 {
        lemma_left_alone(state, state, id);
    } else {
        let between = state.run(moves.drop_last());
        let (step, inputs) = moves.last();
        frames_arrive_in_order_for_good(state, moves.drop_last(), id);
        a_move_keeps_the_order(between, step, inputs, id);
        assert(in_transit(state, id) + all_arrived(moves, id) =~= (in_transit(state, id)
            + all_arrived(moves.drop_last(), id)) + arrived(step, id));
    }
}

} // verus!
