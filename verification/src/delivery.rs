//! What holds of the way of a frame from the session to its stream.
use vstd::prelude::*;

use crate::frame::{Flag, Flags, Frame, GoAwayCode, StreamId};
use crate::model::{frames_of, Delivery, Distribution, SessionState};
use crate::step::After;
use crate::stream::{StreamEvent, StreamState};

verus! {

impl Distribution {
    /// What a stream has been given, and behind it what is left over for it.
    pub open spec fn pipeline(self, id: StreamId) -> Seq<Frame> {
        self.state.streams[id] + frames_of(self.state.read_pending, id)
    }

    /// Frames are left over for a stream only if it is open and took no more.
    pub open spec fn consistent(self) -> bool {
        &&& forall|i: int|
            0 <= i < self.state.read_pending.len() ==> self.blocked.contains(
                (#[trigger] self.state.read_pending[i]).stream_id,
            )
        &&& forall|id: StreamId| #[trigger]
            self.blocked.contains(id) ==> self.state.streams.contains_key(id)
    }
}

pub(crate) proof fn lemma_frames_of_push(frames: Seq<Frame>, frame: Frame, id: StreamId)
    ensures
        frames_of(frames.push(frame), id) == if frame.stream_id == id {
            frames_of(frames, id).push(frame)
        } else {
            frames_of(frames, id)
        },
{
    reveal(Seq::filter);
    assert(frames.push(frame).drop_last() =~= frames);
}

proof fn lemma_frames_of_none(frames: Seq<Frame>, id: StreamId)
    requires
        forall|i: int| 0 <= i < frames.len() ==> (#[trigger] frames[i]).stream_id != id,
    ensures
        frames_of(frames, id) == Seq::<Frame>::empty(),
    decreases frames.len(),
{
    reveal(Seq::filter);
    if frames.len() > 0 {
        lemma_frames_of_none(frames.drop_last(), id);
    }
}

/// One frame joins the end of the pipeline of its stream, or begins it by opening the stream.
proof fn lemma_deliver(distribution: Distribution, frame: Frame, delivery: Delivery, id: StreamId)
    requires
        distribution.consistent(),
        distribution.stopped is None,
    ensures
        ({
            let after = distribution.deliver(frame, delivery);
            &&& after.consistent()
            &&& after.stopped is Some ==> after.state.streams == distribution.state.streams
                && after.state.read_pending == distribution.state.read_pending
            &&& after.state.streams.contains_key(id) && after.stopped is None ==> {
                if frame.stream_id != id {
                    &&& distribution.state.streams.contains_key(id)
                    &&& after.pipeline(id) == distribution.pipeline(id)
                } else if distribution.state.streams.contains_key(id) {
                    after.pipeline(id) == distribution.pipeline(id).push(frame)
                } else {
                    &&& frame.flags.has(Flag::Syn)
                    &&& after.pipeline(id) == seq![frame]
                }
            }
        }),
{
    let after = distribution.deliver(frame, delivery);
    lemma_frames_of_push(distribution.state.read_pending, frame, id);
    if !distribution.state.streams.contains_key(id) {
        lemma_frames_of_none(distribution.state.read_pending, id);
    }
    if after.state.streams.contains_key(id) && after.stopped is None {
        if frame.stream_id != id {
            assert(after.pipeline(id) =~= distribution.pipeline(id));
        } else if distribution.state.streams.contains_key(id) {
            if !distribution.blocked.contains(id) {
                lemma_frames_of_none(distribution.state.read_pending, id);
            }
            assert(after.pipeline(id) =~= distribution.pipeline(id).push(frame));
        } else {
            assert(after.pipeline(id) =~= seq![frame]);
        }
    }
}

/// Whether the frames belong to one life of the stream that they are for: it is open
/// already, or the first of them opens it, and no other of them does.
pub open spec fn one_life(state: SessionState, frames: Seq<Frame>, id: StreamId) -> bool {
    let mine = frames_of(frames, id);
    if state.streams.contains_key(id) {
        forall|i: int| 0 <= i < mine.len() ==> !(#[trigger] mine[i]).flags.has(Flag::Syn)
    } else {
        forall|i: int|
            0 <= i < mine.len() ==> ((#[trigger] mine[i]).flags.has(Flag::Syn) <==> i == 0)
    }
}

/// What a stream has been given before a distribution, if it is open.
pub open spec fn given(state: SessionState, id: StreamId) -> Seq<Frame> {
    if state.streams.contains_key(id) {
        state.streams[id]
    } else {
        Seq::empty()
    }
}

proof fn lemma_deliver_all(
    state: SessionState,
    frames: Seq<Frame>,
    deliveries: Seq<Delivery>,
    id: StreamId,
)
    requires
        one_life(state, frames, id),
    ensures
        ({
            let start = Distribution {
                state: SessionState { read_pending: Seq::empty(), ..state },
                blocked: Set::empty(),
                stopped: None,
            };
            let after = start.deliver_all(frames, deliveries);
            &&& after.consistent()
            &&& after.stopped is None && after.state.streams.contains_key(id) ==> after.pipeline(id)
                == given(state, id) + frames_of(frames, id)
            &&& after.state.streams.contains_key(id) ==> state.streams.contains_key(id)
                || frames_of(frames, id).len() > 0
        }),
    decreases frames.len(),
{
    let start = Distribution {
        state: SessionState { read_pending: Seq::empty(), ..state },
        blocked: Set::empty(),
        stopped: None,
    };
    let after = start.deliver_all(frames, deliveries);
    let mine = frames_of(frames, id);
    if frames.len() == 0 {
        lemma_frames_of_none(frames, id);
        lemma_frames_of_none(start.state.read_pending, id);
        assert(start.pipeline(id) =~= start.state.streams[id]);
        assert(given(state, id) + mine =~= given(state, id));
    } else {
        let shorter = frames.drop_last();
        let frame = frames.last();
        let before = start.deliver_all(shorter, deliveries);
        assert(frames =~= shorter.push(frame));
        lemma_frames_of_push(shorter, frame, id);
        let less = frames_of(shorter, id);
        assert forall|i: int| 0 <= i < less.len() implies less[i] == mine[i] by {}
        lemma_deliver_all(state, shorter, deliveries, id);
        if before.stopped is None {
            lemma_deliver(before, frame, deliveries[frames.len() - 1], id);
            if after.stopped is None && after.state.streams.contains_key(id) {
                if frame.stream_id == id {
                    assert(mine[mine.len() - 1] == frame);
                    assert(given(state, id) + mine =~= (given(state, id) + less).push(frame));
                    if !before.state.streams.contains_key(id) {
                        assert(less.len() == 0);
                        assert(mine =~= seq![frame]);
                        assert(given(state, id) + mine =~= seq![frame]);
                    }
                }
            }
        }
    }
}

/// What a stream has been given, and behind it what the session still holds for it.
pub open spec fn in_transit(state: SessionState, id: StreamId) -> Seq<Frame> {
    given(state, id) + frames_of(state.read_pending, id)
}

/// A stream gets its frames in the order in which they came, each of them once. What a
/// distribution does not give to a stream that stays open, it keeps, in that order.
pub proof fn frames_arrive_in_order(state: SessionState, deliveries: Seq<Delivery>, id: StreamId)
    requires
        one_life(state, state.read_pending, id),
        state.distribute(deliveries).1 is None,
        state.distribute(deliveries).0.streams.contains_key(id),
    ensures
        in_transit(state.distribute(deliveries).0, id) == in_transit(state, id),
        given(state, id).is_prefix_of(given(state.distribute(deliveries).0, id)),
{
    lemma_deliver_all(state, state.read_pending, deliveries, id);
    lemma_given_grows(state, state.read_pending, deliveries, id);
}

proof fn lemma_given_grows(
    state: SessionState,
    frames: Seq<Frame>,
    deliveries: Seq<Delivery>,
    id: StreamId,
)
    requires
        one_life(state, frames, id),
    ensures
        ({
            let after = Distribution {
                state: SessionState { read_pending: Seq::empty(), ..state },
                blocked: Set::empty(),
                stopped: None,
            }.deliver_all(frames, deliveries);
            after.state.streams.contains_key(id) ==> given(state, id).is_prefix_of(
                after.state.streams[id],
            )
        }),
    decreases frames.len(),
{
    if frames.len() > 0 {
        let shorter = frames.drop_last();
        let frame = frames.last();
        assert(frames =~= shorter.push(frame));
        lemma_frames_of_push(shorter, frame, id);
        let mine = frames_of(frames, id);
        let less = frames_of(shorter, id);
        assert forall|i: int| 0 <= i < less.len() implies less[i] == mine[i] by {}
        lemma_given_grows(state, shorter, deliveries, id);
        lemma_deliver_all(state, shorter, deliveries, id);
        if frame.stream_id == id {
            assert(mine[mine.len() - 1] == frame);
        }
    }
}

/// A frame that comes for a stream joins the end of what is in transit to it, and touches no
/// other stream.
pub proof fn a_frame_joins_its_stream(
    state: SessionState,
    frame: Frame,
    deliveries: Seq<Delivery>,
    id: StreamId,
)
    requires
        one_life(state, state.read_pending.push(frame), id),
        state.handle_stream_message(frame, deliveries).1 is None,
        state.handle_stream_message(frame, deliveries).0.streams.contains_key(id),
    ensures
        in_transit(state.handle_stream_message(frame, deliveries).0, id) == if frame.stream_id
            == id {
            in_transit(state, id).push(frame)
        } else {
            in_transit(state, id)
        },
{
    let pushed = SessionState { read_pending: state.read_pending.push(frame), ..state };
    frames_arrive_in_order(pushed, deliveries, id);
    lemma_frames_of_push(state.read_pending, frame, id);
    assert(in_transit(pushed, id) =~= if frame.stream_id == id {
        in_transit(state, id).push(frame)
    } else {
        in_transit(state, id)
    });
}

proof fn lemma_stop(start: Distribution, frames: Seq<Frame>, deliveries: Seq<Delivery>) -> (count:
    int)
    requires
        start.stopped is None,
        start.deliver_all(frames, deliveries).stopped is Some,
    ensures
        0 <= count < frames.len(),
        ({
            let before = start.deliver_all(frames.take(count), deliveries);
            let after = start.deliver_all(frames, deliveries);
            &&& before.stopped is None
            &&& frames[count].flags.has(Flag::Syn)
            &&& after.state.streams == before.state.streams
            &&& after.state.read_pending == before.state.read_pending
            &&& after.state.pending_streams == before.state.pending_streams
            &&& before.state.local_go_away || before.state.streams.contains_key(
                frames[count].stream_id,
            )
        }),
    decreases frames.len(),
{
    let shorter = frames.drop_last();
    let before = start.deliver_all(shorter, deliveries);
    if before.stopped is Some {
        let count = lemma_stop(start, shorter, deliveries);
        assert(shorter.take(count) =~= frames.take(count));
        count
    } else {
        assert(shorter =~= frames.take(frames.len() - 1));
        frames.len() - 1
    }
}

/// A distribution breaks off only where the peer opens a stream and must not, because this
/// end takes in no more streams or because the stream is open. Until there the streams get
/// their frames in order. The rest of the frames is lost.
pub proof fn a_distribution_breaks_off(
    state: SessionState,
    deliveries: Seq<Delivery>,
    id: StreamId,
)
    requires
        one_life(state, state.read_pending, id),
        state.distribute(deliveries).1 is Some,
        state.distribute(deliveries).0.streams.contains_key(id),
    ensures
        exists|count: int|
            0 <= count < state.read_pending.len()
                && (#[trigger] state.read_pending[count]).flags.has(Flag::Syn) && (
            state.local_go_away || state.distribute(deliveries).0.streams.contains_key(
                state.read_pending[count].stream_id,
            )) && in_transit(state.distribute(deliveries).0, id) == given(state, id) + frames_of(
                state.read_pending.take(count),
                id,
            ),
{
    let start = Distribution {
        state: SessionState { read_pending: Seq::empty(), ..state },
        blocked: Set::empty(),
        stopped: None,
    };
    let frames = state.read_pending;
    let count = lemma_stop(start, frames, deliveries);
    lemma_one_life_of_prefix(state, frames, count, id);
    lemma_deliver_all(state, frames.take(count), deliveries, id);
    lemma_local_go_away(start, frames.take(count), deliveries);
    assert(frames[count].flags.has(Flag::Syn));
}

proof fn lemma_local_go_away(start: Distribution, frames: Seq<Frame>, deliveries: Seq<Delivery>)
    ensures
        start.deliver_all(frames, deliveries).state.local_go_away == start.state.local_go_away,
    decreases frames.len(),
{
    if frames.len() > 0 {
        lemma_local_go_away(start, frames.drop_last(), deliveries);
    }
}

proof fn lemma_one_life_of_prefix(
    state: SessionState,
    frames: Seq<Frame>,
    count: int,
    id: StreamId,
)
    requires
        0 <= count <= frames.len(),
        one_life(state, frames, id),
    ensures
        one_life(state, frames.take(count), id),
    decreases frames.len(),
{
    if count == frames.len() {
        assert(frames.take(count) =~= frames);
    } else {
        let shorter = frames.drop_last();
        assert(frames =~= shorter.push(frames.last()));
        lemma_frames_of_push(shorter, frames.last(), id);
        let mine = frames_of(frames, id);
        let less = frames_of(shorter, id);
        assert forall|i: int| 0 <= i < less.len() implies less[i] == mine[i] by {}
        lemma_one_life_of_prefix(state, shorter, count, id);
        assert(shorter.take(count) =~= frames.take(count));
    }
}

/// The peer opens a stream: it is there with the frame that opened it, and it waits to be handed
/// out. It has answered with a window update that accepts it.
pub proof fn a_stream_is_accepted(distribution: Distribution, frame: Frame, delivery: Delivery)
    requires
        distribution.stopped is None,
        !distribution.blocked.contains(frame.stream_id),
        !distribution.state.local_go_away,
        !distribution.state.streams.contains_key(frame.stream_id),
        frame.flags.has(Flag::Syn),
    ensures
        ({
            let id = frame.stream_id;
            let after = distribution.deliver(frame, delivery);
            let handle = after.state.pending_streams.last();
            &&& after.stopped is None
            &&& after.state.streams == distribution.state.streams.insert(id, seq![frame])
            &&& after.state.waiting.contains(id)
            &&& after.state.pending_streams.drop_last() == distribution.state.pending_streams
            &&& handle.id == id
            &&& handle.state == StreamState::Established
            &&& handle.announcements == seq![
                StreamEvent::Frame(Frame::window_update(Flags::only(Flag::Ack), id, 0)),
            ]
        }),
{
    let id = frame.stream_id;
    let after = distribution.deliver(frame, delivery);
    let handle = after.state.pending_streams.last();
    assert(Seq::<Frame>::empty().push(frame) =~= seq![frame]);
    assert(after.state.streams =~= distribution.state.streams.insert(id, seq![frame]));
    assert(after.state.pending_streams.drop_last() =~= distribution.state.pending_streams);
    assert(handle.announcements =~= seq![
        StreamEvent::Frame(Frame::window_update(Flags::only(Flag::Ack), id, 0)),
    ]);
}

/// The peer opens a stream that is open: the session answers with a go away that calls it a
/// protocol error and takes the place of all that was to be sent, and closes.
pub proof fn a_second_opening_ends_the_session(
    distribution: Distribution,
    frame: Frame,
    delivery: Delivery,
)
    requires
        distribution.stopped is None,
        !distribution.blocked.contains(frame.stream_id),
        !distribution.state.local_go_away,
        distribution.state.streams.contains_key(frame.stream_id),
        frame.flags.has(Flag::Syn),
    ensures
        ({
            let after = distribution.deliver(frame, delivery);
            &&& after.stopped == Some(After::GoAway(None))
            &&& after.state == (SessionState {
                write_pending: seq![Frame::go_away(GoAwayCode::ProtocolError)],
                ..distribution.state
            })
            &&& after.state.finish(After::GoAway(None)).local_go_away
        }),
{
}

/// The peer opens a stream twice, and nobody has asked for it yet: the first opening is
/// accepted, and the second one ends the session.
pub proof fn a_waiting_stream_is_not_opened_again(
    distribution: Distribution,
    first: Frame,
    second: Frame,
    deliveries: (Delivery, Delivery),
)
    requires
        distribution.stopped is None,
        !distribution.blocked.contains(first.stream_id),
        !distribution.state.local_go_away,
        !distribution.state.streams.contains_key(first.stream_id),
        first.flags.has(Flag::Syn),
        second.flags.has(Flag::Syn),
        second.stream_id == first.stream_id,
    ensures
        ({
            let accepted = distribution.deliver(first, deliveries.0);
            let after = accepted.deliver(second, deliveries.1);
            &&& accepted.stopped is None
            &&& accepted.state.waiting.contains(first.stream_id)
            &&& after.stopped == Some(After::GoAway(None))
            &&& after.state.write_pending == seq![Frame::go_away(GoAwayCode::ProtocolError)]
            &&& after.state.pending_streams == accepted.state.pending_streams
        }),
{
    a_stream_is_accepted(distribution, first, deliveries.0);
}

/// The peer opens a stream at an end that takes in no more: the stream is torn down, and no
/// stream comes of it.
pub proof fn a_stream_is_refused(distribution: Distribution, frame: Frame, delivery: Delivery)
    requires
        distribution.stopped is None,
        !distribution.blocked.contains(frame.stream_id),
        distribution.state.local_go_away,
        frame.flags.has(Flag::Syn),
    ensures
        ({
            let after = distribution.deliver(frame, delivery);
            &&& after.stopped == Some(After::Nothing)
            &&& after.state == (SessionState {
                write_pending: distribution.state.write_pending.push(
                    Frame::window_update(Flags::only(Flag::Rst), frame.stream_id, 0),
                ),
                ..distribution.state
            })
        }),
{
}

/// A stream that is slow to read does not hold up the others: a frame stays behind only if
/// its own stream took no more.
pub proof fn a_slow_stream_holds_up_no_other(
    distribution: Distribution,
    frame: Frame,
    delivery: Delivery,
)
    requires
        distribution.stopped is None,
        !distribution.blocked.contains(frame.stream_id),
        distribution.possible(frame.stream_id, delivery) != Delivery::Blocked,
        distribution.state.streams.contains_key(frame.stream_id),
    ensures
        distribution.deliver(frame, delivery).state.read_pending
            == distribution.state.read_pending,
        distribution.deliver(frame, delivery).blocked == distribution.blocked,
{
}

} // verus!
