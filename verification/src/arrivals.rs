//! What holds of the streams that the peer opens.
use vstd::prelude::*;

use crate::frame::{Flag, Frame, StreamId, Type};
use crate::laws::Move;
use crate::model::{Delivery, Distribution, Inputs, SessionState};
use crate::step::{After, Flushing, Incoming, OutcomeState, Point, Readiness, StepState, Then};
use crate::stream::{HandleState, StreamState};

verus! {

impl Distribution {
    /// Whether a frame opens a stream that is accepted.
    pub open spec fn accepts(self, frame: Frame) -> bool {
        &&& self.stopped is None
        &&& frame.flags.has(Flag::Syn)
        &&& !self.blocked.contains(frame.stream_id)
        &&& !self.state.local_go_away
        &&& !self.state.streams.contains_key(frame.stream_id)
    }

    /// The streams that some frames open and that are accepted, in the order of the frames.
    pub open spec fn accepted(self, frames: Seq<Frame>, deliveries: Seq<Delivery>) -> Seq<
        HandleState,
    >
        decreases frames.len(),
    {
        if frames.len() == 0 {
            Seq::empty()
        } else {
            let earlier = self.accepted(frames.drop_last(), deliveries);
            if self.deliver_all(frames.drop_last(), deliveries).accepts(frames.last()) {
                earlier.push(self.state.opened_by_peer(frames.last().stream_id))
            } else {
                earlier
            }
        }
    }
}

impl SessionState {
    /// The stream that the peer opens under a number, as it is handed out.
    pub open spec fn opened_by_peer(self, id: StreamId) -> HandleState {
        HandleState::fresh(
            id,
            StreamState::SynReceived,
            self.config.max_stream_window_size,
            self.config.max_stream_window_size,
        ).announce()
    }

    /// The streams that are accepted when the frames for streams are dealt with, in order.
    pub open spec fn accepted(self, deliveries: Seq<Delivery>) -> Seq<HandleState> {
        Distribution {
            state: SessionState { read_pending: Seq::empty(), ..self },
            blocked: Set::empty(),
            stopped: None,
        }.accepted(self.read_pending, deliveries)
    }

    /// The streams that are accepted in the distribution that comes when the queue has gone
    /// out, if one comes.
    pub open spec fn accepted_behind(self, then: Then, inputs: Inputs) -> Seq<HandleState> {
        if then.point == Point::Flush {
            self.finish(then.after).accepted(inputs.deliveries)
        } else {
            Seq::empty()
        }
    }

    /// The streams of the peer that are accepted in a move, in order.
    pub open spec fn accepted_in(self, step: Move, inputs: Inputs) -> Seq<HandleState> {
        match step {
            Move::Received(_, Incoming::Frame(frame)) => if frame.ty == Type::Data || frame.ty
                == Type::WindowUpdate {
                SessionState {
                    read_pending: self.read_pending.push(frame),
                    ..self
                }.accepted(inputs.deliveries)
            } else {
                Seq::empty()
            },
            Move::Flushed(Flushing::Retry(then), Readiness::Pending) => self.accepted_behind(
                then,
                inputs,
            ),
            Move::Flushed(Flushing::Last(then), Readiness::Ready) => self.accepted_behind(
                then,
                inputs,
            ),
            Move::Flushed(Flushing::Last(then), Readiness::Pending) => self.accepted_behind(
                then,
                inputs,
            ),
            _ => Seq::empty(),
        }
    }

    /// What the session asks for after a move, if it asks for anything.
    pub open spec fn asks_after(self, step: Move, inputs: Inputs) -> Option<StepState> {
        match step {
            Move::PollNext => Some(self.poll_next().1),
            Move::Ready(frame, then, readiness) => Some(self.ready(frame, then, readiness).1),
            Move::Sent(then, result) => Some(self.sent(then, result).1),
            Move::Flushed(flushing, readiness) => Some(
                self.flushed(flushing, readiness, inputs).1,
            ),
            Move::Ticked(tick) => Some(self.ticked(tick, inputs).1),
            Move::Received(idle, incoming) => Some(self.received(idle, incoming, inputs).1),
            Move::Shutdown => Some(self.call_shutdown().1),
            Move::GoAway => Some(self.call_go_away().1),
            Move::OpenStream => None,
        }
    }

    /// The stream that is handed out by the poll that a move ends, if one is.
    pub open spec fn handed_out_in(self, step: Move, inputs: Inputs) -> Seq<HandleState> {
        handed_out(self.asks_after(step, inputs))
    }

    /// The streams of the peer that are accepted in many moves, in order.
    pub open spec fn all_accepted(self, moves: Seq<(Move, Inputs)>) -> Seq<HandleState>
        decreases moves.len(),
    {
        if moves.len() == 0 {
            Seq::empty()
        } else {
            let (step, inputs) = moves.last();
            self.all_accepted(moves.drop_last()) + self.run(moves.drop_last()).accepted_in(
                step,
                inputs,
            )
        }
    }

    /// The streams that are handed out by the polls that end in many moves, in order.
    pub open spec fn all_handed_out(self, moves: Seq<(Move, Inputs)>) -> Seq<HandleState>
        decreases moves.len(),
    {
        if moves.len() == 0 {
            Seq::empty()
        } else {
            let (step, inputs) = moves.last();
            self.all_handed_out(moves.drop_last()) + self.run(moves.drop_last()).handed_out_in(
                step,
                inputs,
            )
        }
    }
}

/// The stream that a step hands out, if it does.
pub open spec fn handed_out(step: Option<StepState>) -> Seq<HandleState> {
    match step {
        Some(StepState::Done(OutcomeState::Stream(handle))) => seq![handle],
        _ => Seq::empty(),
    }
}

/// Whether the streams that wait, with those that come behind them, are those that were handed
/// out and those that still wait.
spec fn in_line(
    state: SessionState,
    came: Seq<HandleState>,
    result: (SessionState, StepState),
) -> bool {
    state.pending_streams + came == handed_out(Some(result.1)) + result.0.pending_streams
}

proof fn lemma_accepted(start: Distribution, frames: Seq<Frame>, deliveries: Seq<Delivery>)
    ensures
        start.deliver_all(frames, deliveries).state.pending_streams == start.state.pending_streams
            + start.accepted(frames, deliveries),
        start.deliver_all(frames, deliveries).state.config == start.state.config,
    decreases frames.len(),
{
    let after = start.deliver_all(frames, deliveries);
    if frames.len() == 0 {
        assert(after.state.pending_streams =~= start.state.pending_streams + start.accepted(
            frames,
            deliveries,
        ));
    } else {
        lemma_accepted(start, frames.drop_last(), deliveries);
        assert(after.state.pending_streams =~= start.state.pending_streams + start.accepted(
            frames,
            deliveries,
        ));
    }
}

proof fn lemma_distribute_accepts(state: SessionState, deliveries: Seq<Delivery>)
    ensures
        state.distribute(deliveries).0.pending_streams == state.pending_streams + state.accepted(
            deliveries,
        ),
{
    lemma_accepted(
        Distribution {
            state: SessionState { read_pending: Seq::empty(), ..state },
            blocked: Set::empty(),
            stopped: None,
        },
        state.read_pending,
        deliveries,
    );
}

proof fn lemma_begin_round_line(state: SessionState, inputs: Inputs)
    ensures
        in_line(state, Seq::empty(), state.begin_round(inputs)),
{
    let result = state.begin_round(inputs);
    assert(state.pending_streams + Seq::<HandleState>::empty() =~= handed_out(Some(result.1))
        + result.0.pending_streams);
}

proof fn lemma_end_round_line(state: SessionState, idle: bool, inputs: Inputs)
    ensures
        in_line(state, Seq::empty(), state.end_round(idle, inputs)),
{
    lemma_begin_round_line(state, inputs);
    let result = state.end_round(idle, inputs);
    assert(state.pending_streams + Seq::<HandleState>::empty() =~= handed_out(Some(result.1))
        + result.0.pending_streams);
}

proof fn lemma_send_all_line(state: SessionState, then: Then)
    ensures
        in_line(state, Seq::empty(), state.send_all(then)),
{
    let result = state.send_all(then);
    assert(state.pending_streams + Seq::<HandleState>::empty() =~= handed_out(Some(result.1))
        + result.0.pending_streams);
}

proof fn lemma_take_event_line(state: SessionState, idle: bool, inputs: Inputs)
    ensures
        in_line(state, Seq::empty(), state.take_event(idle, inputs)),
{
    if inputs.events.len() > 0 {
        let (heard, after) = state.hear(inputs.events);
        match after {
            Some(after) => lemma_send_all_line(heard, Then { point: Point::Events, after }),
            None => lemma_end_round_line(heard, false, inputs),
        }
    } else {
        lemma_end_round_line(state.look_for_event(inputs.events), idle, inputs);
    }
}

proof fn lemma_take_unbound_line(state: SessionState, idle: bool, inputs: Inputs)
    ensures
        in_line(state, Seq::empty(), state.take_unbound(idle, inputs)),
{
    if inputs.unbound.len() > 0 {
        let (heard, after) = state.hear_unbound(inputs.unbound);
        match after {
            Some(after) => lemma_send_all_line(heard, Then { point: Point::Unbound, after }),
            None => lemma_take_event_line(heard, false, inputs),
        }
    } else {
        lemma_take_event_line(state.look_for_unbound(inputs.unbound), idle, inputs);
    }
}

proof fn lemma_go_on_line(state: SessionState, after: Option<After>, inputs: Inputs)
    ensures
        in_line(state, Seq::empty(), state.go_on(after, inputs)),
{
    match after {
        Some(after) => lemma_send_all_line(state, Then { point: Point::Frames, after }),
        None => lemma_take_unbound_line(state, false, inputs),
    }
}

proof fn lemma_behind(
    state: SessionState,
    came: Seq<HandleState>,
    between: SessionState,
    result: (SessionState, StepState),
)
    requires
        between.pending_streams == state.pending_streams + came,
        in_line(between, Seq::empty(), result),
    ensures
        in_line(state, came, result),
{
    assert(between.pending_streams + Seq::<HandleState>::empty() =~= between.pending_streams);
}

proof fn lemma_received_line(
    state: SessionState,
    idle: bool,
    incoming: Incoming,
    inputs: Inputs,
)
    ensures
        in_line(
            state,
            state.accepted_in(Move::Received(idle, incoming), inputs),
            state.received(idle, incoming, inputs),
        ),
{
    let came = state.accepted_in(Move::Received(idle, incoming), inputs);
    let result = state.received(idle, incoming, inputs);
    match incoming {
        Incoming::Frame(frame) => {
            let (handled, after) = state.handle_frame(frame, inputs.deliveries);
            if frame.ty == Type::Data || frame.ty == Type::WindowUpdate {
                lemma_distribute_accepts(
                    SessionState { read_pending: state.read_pending.push(frame), ..state },
                    inputs.deliveries,
                );
            } else {
                assert(handled.pending_streams =~= state.pending_streams + came);
            }
            lemma_go_on_line(handled, after, inputs);
            lemma_behind(state, came, handled, result);
        },
        Incoming::Eof => {
            lemma_go_on_line(SessionState { eof: true, ..state }, None, inputs);
        },
        Incoming::Pending => {
            lemma_take_unbound_line(state, idle, inputs);
        },
        Incoming::Failed(_) => {
            assert(state.pending_streams + came =~= handed_out(Some(result.1))
                + result.0.pending_streams);
        },
    }
}

proof fn lemma_sent_all_line(state: SessionState, then: Then, inputs: Inputs)
    ensures
        in_line(state, state.accepted_behind(then, inputs), state.sent_all(then, inputs)),
{
    let came = state.accepted_behind(then, inputs);
    let finished = state.finish(then.after);
    let result = state.sent_all(then, inputs);
    match then.point {
        Point::Flush => {
            let (distributed, after) = finished.distribute(inputs.deliveries);
            lemma_distribute_accepts(finished, inputs.deliveries);
            match after {
                Some(after) => {
                    lemma_send_all_line(distributed, Then { point: Point::Distribution, after });
                },
                None => {
                    assert(distributed.pending_streams + Seq::<HandleState>::empty()
                        =~= handed_out(Some(result.1)) + result.0.pending_streams);
                },
            }
            lemma_behind(state, came, distributed, result);
        },
        Point::Frames => lemma_take_unbound_line(finished, false, inputs),
        Point::Unbound => lemma_take_event_line(finished, false, inputs),
        Point::Events => lemma_end_round_line(finished, false, inputs),
        _ => {
            assert(state.pending_streams + came =~= handed_out(Some(result.1))
                + result.0.pending_streams);
        },
    }
}

proof fn lemma_flushed_line(
    state: SessionState,
    flushing: Flushing,
    readiness: Readiness,
    inputs: Inputs,
)
    ensures
        in_line(
            state,
            state.accepted_in(Move::Flushed(flushing, readiness), inputs),
            state.flushed(flushing, readiness, inputs),
        ),
{
    let came = state.accepted_in(Move::Flushed(flushing, readiness), inputs);
    let result = state.flushed(flushing, readiness, inputs);
    if readiness is Failed {
        assert(state.pending_streams + came =~= handed_out(Some(result.1))
            + result.0.pending_streams);
    } else {
        match flushing {
            Flushing::Retry(then) => {
                if readiness is Pending {
                    lemma_sent_all_line(state, then, inputs);
                } else {
                    lemma_send_all_line(state, then);
                }
            },
            Flushing::Last(then) => lemma_sent_all_line(state, then, inputs),
            Flushing::Complete => {
                lemma_begin_round_line(state, inputs);
                assert(state.pending_streams + came =~= handed_out(Some(result.1))
                    + result.0.pending_streams);
            },
        }
    }
}

/// In one move, the streams that the peer opens and that are accepted come behind those that
/// wait, in the order in which they were opened, and the stream that is handed out, if one is,
/// is the first of them. A stream that this end opens is not among them.
pub proof fn a_move_hands_out_the_first(state: SessionState, step: Move, inputs: Inputs)
    ensures
        state.pending_streams + state.accepted_in(step, inputs) == state.handed_out_in(
            step,
            inputs,
        ) + state.moved(step, inputs).pending_streams,
        state.handed_out_in(step, inputs).len() <= 1,
{
    reveal(SessionState::moved);
    match step {
        Move::Received(idle, incoming) => lemma_received_line(state, idle, incoming, inputs),
        Move::Flushed(flushing, readiness) => {
            lemma_flushed_line(state, flushing, readiness, inputs);
        },
        Move::Ticked(_) => {
            lemma_begin_round_line(state, inputs);
            assert(state.pending_streams + state.accepted_in(step, inputs)
                =~= state.handed_out_in(step, inputs) + state.moved(
                step,
                inputs,
            ).pending_streams);
        },
        _ => {
            assert(state.pending_streams + state.accepted_in(step, inputs)
                =~= state.handed_out_in(step, inputs) + state.moved(
                step,
                inputs,
            ).pending_streams);
        },
    }
}

/// A poll ends only where the session is over, or where a round has found nothing at all: no
/// request, no frame and no event. It says that the session is over where it is and nowhere else,
/// it ends with nothing only where no stream waits, and where it ends with a stream, that stream
/// was the first of those that waited.
pub proof fn a_poll_ends_with_what_waits(state: SessionState, step: Move, inputs: Inputs)
    ensures
        ({
            let later = state.moved(step, inputs);
            let over = later.eof || (later.remote_go_away && later.local_go_away);
            let found_nothing = step == Move::Received(true, Incoming::Pending)
                && inputs.unbound.len() == 0 && inputs.events.len() == 0;
            match state.asks_after(step, inputs) {
                Some(StepState::Done(OutcomeState::Finished)) => over,
                Some(StepState::Done(OutcomeState::Pending)) => !over && found_nothing
                    && later.pending_streams.len() == 0 && state.pending_streams.len() == 0,
                Some(StepState::Done(OutcomeState::Stream(handle))) => !over && found_nothing
                    && state.pending_streams.len() > 0 && handle == state.pending_streams[0]
                    && later.pending_streams == state.pending_streams.drop_first(),
                _ => !found_nothing,
            }
        }),
{
    reveal(SessionState::moved);
    match step {
        Move::Received(idle, incoming) => {
            lemma_received_ends(state, idle, incoming, inputs);
        },
        Move::Flushed(flushing, readiness) => {
            lemma_flushed_ends(state, flushing, readiness, inputs);
        },
        _ => {},
    }
}

/// Whether a poll that does not end with a round that found nothing ends only because the
/// session is over.
spec fn ends_when_over(result: (SessionState, StepState)) -> bool {
    match result.1 {
        StepState::Done(OutcomeState::Finished) => result.0.is_dead(),
        StepState::Done(OutcomeState::Pending) => false,
        StepState::Done(OutcomeState::Stream(_)) => false,
        _ => true,
    }
}

proof fn lemma_take_event_ends(state: SessionState, inputs: Inputs)
    ensures
        ends_when_over(state.take_event(false, inputs)),
{
}

proof fn lemma_take_unbound_ends(state: SessionState, inputs: Inputs)
    ensures
        ends_when_over(state.take_unbound(false, inputs)),
{
    if inputs.unbound.len() > 0 {
        lemma_take_event_ends(state.hear_unbound(inputs.unbound).0, inputs);
    } else {
        lemma_take_event_ends(state.look_for_unbound(inputs.unbound), inputs);
    }
}

proof fn lemma_flushed_ends(
    state: SessionState,
    flushing: Flushing,
    readiness: Readiness,
    inputs: Inputs,
)
    ensures
        ends_when_over(state.flushed(flushing, readiness, inputs)),
{
    match flushing {
        Flushing::Retry(then) => lemma_sent_all_ends(state, then, inputs),
        Flushing::Last(then) => lemma_sent_all_ends(state, then, inputs),
        Flushing::Complete => {},
    }
}

proof fn lemma_sent_all_ends(state: SessionState, then: Then, inputs: Inputs)
    ensures
        ends_when_over(state.sent_all(then, inputs)),
{
    lemma_take_unbound_ends(state.finish(then.after), inputs);
    lemma_take_event_ends(state.finish(then.after), inputs);
}

proof fn lemma_received_ends(state: SessionState, idle: bool, incoming: Incoming, inputs: Inputs)
    ensures
        ({
            let (later, step) = state.received(idle, incoming, inputs);
            if idle && incoming == Incoming::Pending && inputs.unbound.len() == 0
                && inputs.events.len() == 0 {
                let looked = state.look_for_unbound(inputs.unbound).look_for_event(inputs.events);
                (later, step) == looked.end_poll()
            } else {
                ends_when_over((later, step))
            }
        }),
{
    match incoming {
        Incoming::Frame(frame) => {
            lemma_take_unbound_ends(state.handle_frame(frame, inputs.deliveries).0, inputs);
        },
        Incoming::Eof => lemma_take_unbound_ends(SessionState { eof: true, ..state }, inputs),
        Incoming::Pending => {
            if inputs.unbound.len() > 0 {
                lemma_take_event_ends(state.hear_unbound(inputs.unbound).0, inputs);
            }
            lemma_take_unbound_ends(state, inputs);
        },
        Incoming::Failed(_) => {},
    }
}

/// The moves of polls in which nothing is found at all.
pub open spec fn nothing_found(count: nat) -> Seq<(Move, Inputs)> {
    Seq::new(
        count,
        |i: int|
            (
                Move::Received(true, Incoming::Pending),
                Inputs {
                    deliveries: Seq::empty(),
                    commands: Seq::empty(),
                    unbound: Seq::empty(),
                    events: Seq::empty(),
                },
            ),
    )
}

/// Every stream that waits is handed out: as many polls in which nothing is found hand out all
/// of them, in order, and then none waits.
pub proof fn every_stream_is_handed_out(state: SessionState)
    requires
        !(state.eof || (state.remote_go_away && state.local_go_away)),
    ensures
        ({
            let moves = nothing_found(state.pending_streams.len());
            &&& state.all_handed_out(moves) == state.pending_streams
            &&& state.run(moves).pending_streams.len() == 0
        }),
{
    let waiting = state.pending_streams;
    lemma_handed_out(state, waiting.len());
    assert(waiting.take(waiting.len() as int) =~= waiting);
}

proof fn lemma_handed_out(state: SessionState, count: nat)
    requires
        !state.is_dead(),
        count <= state.pending_streams.len(),
    ensures
        ({
            let moves = nothing_found(count);
            let later = state.run(moves);
            &&& state.all_handed_out(moves) == state.pending_streams.take(count as int)
            &&& later.pending_streams == state.pending_streams.skip(count as int)
            &&& !later.is_dead()
        }),
    decreases count,
{
    let moves = nothing_found(count);
    let waiting = state.pending_streams;
    if count == 0 {
        assert(state.all_handed_out(moves) =~= waiting.take(0));
        assert(waiting.skip(0) =~= waiting);
    } else {
        let fewer = (count - 1) as nat;
        lemma_handed_out(state, fewer);
        assert(moves.drop_last() =~= nothing_found(fewer));
        let between = state.run(moves.drop_last());
        let (step, inputs) = moves.last();
        assert(step == Move::Received(true, Incoming::Pending));
        a_poll_ends_with_what_waits(between, step, inputs);
        let later = between.moved(step, inputs);
        assert(later.pending_streams == between.pending_streams.drop_first()
            && between.handed_out_in(step, inputs) == seq![between.pending_streams[0]]
            && !later.is_dead()) by {
            lemma_received_ends(between, true, Incoming::Pending, inputs);
            reveal(SessionState::moved);
        }
        assert(waiting.skip(fewer as int).drop_first() =~= waiting.skip(count as int));
        assert(waiting.take(fewer as int) + seq![waiting[fewer as int]] =~= waiting.take(
            count as int,
        ));
        assert(waiting.skip(fewer as int)[0] == waiting[fewer as int]);
    }
}

proof fn lemma_line_on(
    handed: Seq<HandleState>,
    between: Seq<HandleState>,
    start: Seq<HandleState>,
    accepted: Seq<HandleState>,
    came: Seq<HandleState>,
    now: Seq<HandleState>,
    later: Seq<HandleState>,
)
    requires
        handed + between == start + accepted,
        between + came == now + later,
    ensures
        (handed + now) + later == start + (accepted + came),
{
    assert((handed + now) + later =~= handed + (now + later));
    assert(handed + (between + came) =~= (handed + between) + came);
    assert((start + accepted) + came =~= start + (accepted + came));
}

/// The streams that the peer opens are handed out in the order in which they were opened, one at
/// the end of a poll, each of them once, whatever happens: those that have been handed out,
/// followed by those that wait, are those that waited at the start, followed by those that were
/// accepted since. A stream that this end opens is never handed out by a poll.
pub proof fn streams_are_handed_out_in_order(state: SessionState, moves: Seq<(Move, Inputs)>)
    ensures
        state.all_handed_out(moves) + state.run(moves).pending_streams == state.pending_streams
            + state.all_accepted(moves),
    decreases moves.len(),
{
    if moves.len() == 0 {
        assert(state.all_handed_out(moves) + state.run(moves).pending_streams
            =~= state.pending_streams + state.all_accepted(moves));
    } else {
        let shorter = moves.drop_last();
        let between = state.run(shorter);
        let (step, inputs) = moves.last();
        streams_are_handed_out_in_order(state, shorter);
        a_move_hands_out_the_first(between, step, inputs);
        lemma_line_on(
            state.all_handed_out(shorter),
            between.pending_streams,
            state.pending_streams,
            state.all_accepted(shorter),
            between.accepted_in(step, inputs),
            between.handed_out_in(step, inputs),
            state.run(moves).pending_streams,
        );
    }
}

} // verus!
