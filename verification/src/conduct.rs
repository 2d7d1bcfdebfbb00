//! What each thing that happens to a session does to it.
//!
//! The laws here speak of the fields of a session, of the fields of frames, and of numbers. What
//! they do not mention stays as it is.
use vstd::prelude::*;
use vstd::std_specs::convert::FromSpec;

use crate::channel::Capacity;
use crate::config::Config;
use crate::control::Command;
use crate::error::{Error, Failure};
use crate::frame::{flags_are_bits, Flag, Flags, Frame, GoAwayCode, StreamId, Type};
use crate::laws::{nothing_is_ever_taken_back, Move};
use crate::model::{Delivery, Distribution, Inputs, SessionState};
use crate::session::SessionType;
use crate::step::{
    After, Flushing, Incoming, OutcomeState, Point, Readiness, StepState, Then, Tick,
};
use crate::stream::{HandleState, StreamEvent, StreamState};
use crate::time::{an_interval_keeps_its_period, Instant};

verus! {

/// Whether the transport has come to its end, or both ends have said that they close.
pub open spec fn is_over(state: SessionState) -> bool {
    state.eof || (state.remote_go_away && state.local_go_away)
}

/// The window update for a stream that carries some flags and gives no credit.
pub open spec fn update(bits: u16, id: StreamId) -> Frame {
    Frame { ty: Type::WindowUpdate, flags: Flags { bits }, stream_id: id, length: 0, body: None }
}

/// The ping that carries some flags and a number.
pub open spec fn ping(bits: u16, number: u32) -> Frame {
    Frame { ty: Type::Ping, flags: Flags { bits }, stream_id: 0, length: number, body: None }
}

/// The go away that carries a code.
pub open spec fn go_away(code: u32) -> Frame {
    Frame { ty: Type::GoAway, flags: Flags { bits: 0 }, stream_id: 0, length: code, body: None }
}

/// Whether a frame carries the flag that opens a stream or asks for an answer.
pub open spec fn is_syn(frame: Frame) -> bool {
    frame.flags.bits % 2 == 1
}

/// Whether a frame carries the flag that accepts a stream or is an answer.
pub open spec fn is_ack(frame: Frame) -> bool {
    (frame.flags.bits / 2) % 2 == 1
}

/// The reasons are the numbers 0, 1 and 2, and a number that is none of them is read as the last.
pub proof fn reasons_are_numbers(code: u32)
    ensures
        GoAwayCode::Normal.spec_value() == 0,
        GoAwayCode::ProtocolError.spec_value() == 1,
        GoAwayCode::InternalError.spec_value() == 2,
        code <= 2 ==> <GoAwayCode as FromSpec<u32>>::from_spec(code).spec_value() == code,
        code > 2 ==> <GoAwayCode as FromSpec<u32>>::from_spec(code) == GoAwayCode::InternalError,
{
}

/// The flags that are made of one flag are its bit.
pub proof fn one_flag_is_one_bit(flag: Flag)
    ensures
        <Flags as FromSpec<Flag>>::from_spec(flag).bits == match flag {
            Flag::Syn => 1int,
            Flag::Ack => 2,
            Flag::Fin => 4,
            Flag::Rst => 8,
        },
{
}

/// The end of a stream that has just been made, and has told that it wants one frame sent.
pub open spec fn handle(
    id: StreamId,
    state: StreamState,
    window: u32,
    told: Frame,
) -> HandleState {
    HandleState {
        id,
        state,
        recv_window: window,
        send_window: window,
        announcements: seq![StreamEvent::Frame(told)],
        events: Seq::empty(),
        told: Seq::empty(),
        found: Seq::empty(),
    }
}

/// Whether `queue` is what a session that was as `state` but for its queue begins to send: the
/// transport is asked to take the first frame, and the rest waits. A session that is over drops
/// the first frame. Where there is nothing to send, or nothing is sent, the transport is flushed.
pub open spec fn begins_to_send(
    state: SessionState,
    queue: Seq<Frame>,
    then: Then,
    result: (SessionState, StepState),
) -> bool {
    let rest = result.0.write_pending;
    &&& result.0 == (SessionState { write_pending: rest, ..state })
    &&& if queue.len() == 0 {
        &&& rest.len() == 0
        &&& result.1 == StepState::PollFlush(Flushing::Last(then))
    } else {
        &&& seq![queue[0]] + rest == queue
        &&& result.1 == if is_over(state) {
            StepState::PollFlush(Flushing::Last(then))
        } else {
            StepState::PollReady(queue[0], then)
        }
    }
}

proof fn lemma_send_all(state: SessionState, queue: Seq<Frame>, then: Then)
    ensures
        begins_to_send(
            state,
            queue,
            then,
            (SessionState { write_pending: queue, ..state }).send_all(then),
        ),
{
    let result = (SessionState { write_pending: queue, ..state }).send_all(then);
    if queue.len() > 0 {
        assert(seq![queue[0]] + result.0.write_pending =~= queue);
    }
}

/// A new session has the settings that it is given, knows of nothing, and gives out the id 1
/// first if it is a client, and 2 if it is a server. It sends pings if the settings say so, with
/// the time between them that they give.
pub proof fn a_new_session_knows_of_nothing(config: Config, ty: SessionType)
    ensures
        ({
            let state = SessionState::fresh(config, ty);
            &&& state.config == config
            &&& state.ty == ty
            &&& ty == SessionType::Client ==> state.next_stream_id == 1
            &&& ty == SessionType::Server ==> state.next_stream_id == 2
            &&& !state.eof && !state.remote_go_away && !state.local_go_away
            &&& state.ping_id == 0 && state.pings.is_empty()
            &&& state.streams.is_empty() && state.asked.is_empty() && state.waiting.is_empty()
            &&& state.pending_streams.len() == 0
            &&& state.write_pending.len() == 0 && state.read_pending.len() == 0
            &&& state.unread_streams.len() == 0 && state.closed_streams.len() == 0
            &&& state.commands.len() == 0 && state.unbound.len() == 0 && state.events.len() == 0
            &&& state.open_answers.len() == 0 && state.close_answers.len() == 0
                && state.close_failures.len() == 0
            &&& config.enable_keepalive <==> state.keepalive is Some
            &&& state.keepalive is Some ==> state.keepalive->0.spec_period()
                == config.keepalive_interval
        }),
{
    an_interval_keeps_its_period(config.keepalive_interval);
}

/// Whatever happens to a session, the ids that it gives out are odd for a client and even for a
/// server.
pub proof fn ids_are_odd_for_a_client(
    config: Config,
    ty: SessionType,
    moves: Seq<(Move, Inputs)>,
)
    ensures
        SessionState::fresh(config, ty).run(moves).next_stream_id % 2 == if ty
            == SessionType::Client {
            1int
        } else {
            0
        },
{
    nothing_is_ever_taken_back(SessionState::fresh(config, ty), moves);
}

/// This end opens a stream wherever it can: the session is not over, the peer wants streams, the
/// next id can still be counted up, and no stream has it. The stream gets that id, asks for its
/// announcement to be sent, and has been given nothing. The next id is two greater.
pub proof fn opening_succeeds(state: SessionState)
    requires
        !is_over(state),
        !state.remote_go_away,
        state.next_stream_id <= u32::MAX - 2,
        !state.streams.contains_key(state.next_stream_id),
    ensures
        ({
            let id = state.next_stream_id;
            let window = state.config.max_stream_window_size;
            &&& state.open_stream().1 == Ok::<HandleState, Error>(
                handle(id, StreamState::SynSent, window, update(1, id)),
            )
            &&& state.open_stream().0.next_stream_id == id + 2
            &&& state.open_stream().0 == (SessionState {
                next_stream_id: (id + 2) as u32,
                streams: state.streams.insert(id, Seq::empty()),
                asked: state.asked.insert(id, Seq::empty()),
                ..state
            })
        }),
{
    let id = state.next_stream_id;
    assert(Seq::<StreamEvent>::empty().push(StreamEvent::Frame(update(1, id))) =~= seq![
        StreamEvent::Frame(update(1, id)),
    ]);
}

/// This end opens no stream where it cannot, and says why. Nothing changes, but that an id that
/// a stream has already is not given out again.
pub proof fn opening_fails_for_a_reason(state: SessionState)
    ensures
        ({
            let (later, result) = state.open_stream();
            &&& is_over(state) ==> later == state && result == Err::<HandleState, Error>(
                Error::SessionShutdown,
            )
            &&& !is_over(state) && state.remote_go_away ==> later == state && result == Err::<
                HandleState,
                Error,
            >(Error::RemoteGoAway)
            &&& !is_over(state) && !state.remote_go_away ==> {
                &&& state.next_stream_id > u32::MAX - 2 ==> later == state && result == Err::<
                    HandleState,
                    Error,
                >(Error::StreamsExhausted)
                &&& state.next_stream_id <= u32::MAX - 2 && state.streams.contains_key(
                    state.next_stream_id,
                ) ==> result == Err::<HandleState, Error>(Error::DuplicateStream)
                    && later.next_stream_id == state.next_stream_id + 2 && later == (
                SessionState { next_stream_id: later.next_stream_id, ..state })
            }
        }),
{
}

/// Every frame that a stream tells the session to send joins the end of the queue to the peer,
/// whatever the frame, and nothing else comes of it.
pub proof fn a_frame_of_a_stream_joins_the_queue(
    state: SessionState,
    queue: Seq<StreamEvent>,
    frame: Frame,
)
    requires
        queue.len() > 0,
        queue[0] == StreamEvent::Frame(frame),
    ensures
        state.hear(queue) == (
            SessionState {
                events: state.events.push(queue),
                write_pending: state.write_pending.push(frame),
                ..state
            },
            Some(After::Nothing),
        ),
        state.hear_unbound(queue) == (
            SessionState {
                unbound: state.unbound.push(queue),
                write_pending: state.write_pending.push(frame),
                ..state
            },
            Some(After::Nothing),
        ),
{
}

/// The frame of the oldest event goes out behind all that the session has to send, in the order
/// in which the session looks for events.
pub proof fn a_frame_of_a_stream_goes_out(
    state: SessionState,
    idle: bool,
    inputs: Inputs,
    frame: Frame,
)
    ensures
        inputs.unbound.len() > 0 && inputs.unbound[0] == StreamEvent::Frame(frame)
            ==> begins_to_send(
            SessionState { unbound: state.unbound.push(inputs.unbound), ..state },
            state.write_pending.push(frame),
            Then { point: Point::Unbound, after: After::Nothing },
            state.take_unbound(idle, inputs),
        ),
        inputs.events.len() > 0 && inputs.events[0] == StreamEvent::Frame(frame) ==> begins_to_send(
            SessionState { events: state.events.push(inputs.events), ..state },
            state.write_pending.push(frame),
            Then { point: Point::Events, after: After::Nothing },
            state.take_event(idle, inputs),
        ),
{
    let queue = state.write_pending.push(frame);
    lemma_send_all(
        SessionState { unbound: state.unbound.push(inputs.unbound), ..state },
        queue,
        Then { point: Point::Unbound, after: After::Nothing },
    );
    lemma_send_all(
        SessionState { events: state.events.push(inputs.events), ..state },
        queue,
        Then { point: Point::Events, after: After::Nothing },
    );
}

/// What is left of a session when a stream tells that it is closed: the stream is no more, and
/// is on record with the frames that it had been given.
pub open spec fn without(state: SessionState, id: StreamId) -> SessionState {
    if state.streams.contains_key(id) {
        SessionState {
            streams: state.streams.remove(id),
            asked: state.asked.remove(id),
            waiting: state.waiting.remove(id),
            closed_streams: state.closed_streams.push((id, state.streams[id])),
            ..state
        }
    } else {
        state
    }
}

/// A stream that tells that it is closed is removed. A stream that has come into any other state
/// changes nothing. Either way nothing is sent, and the session goes on to what comes next.
pub proof fn a_stream_that_tells_its_state(
    state: SessionState,
    idle: bool,
    inputs: Inputs,
    id: StreamId,
    now: StreamState,
)
    ensures
        inputs.unbound.len() > 0 && inputs.unbound[0] == StreamEvent::StateChanged((id, now)) ==> {
            let heard = SessionState { unbound: state.unbound.push(inputs.unbound), ..state };
            state.take_unbound(idle, inputs) == (if now == StreamState::Closed {
                without(heard, id)
            } else {
                heard
            }).take_event(false, inputs)
        },
        inputs.events.len() > 0 && inputs.events[0] == StreamEvent::StateChanged((id, now)) ==> {
            let heard = SessionState { events: state.events.push(inputs.events), ..state };
            state.take_event(idle, inputs) == (if now == StreamState::Closed {
                without(heard, id)
            } else {
                heard
            }).begin_round(inputs)
        },
{
}

/// A stream that tells that the peer broke the protocol makes the session send a go away with
/// the code 1 and nothing else, and close when that is out.
pub proof fn a_stream_that_reports_the_peer(state: SessionState, idle: bool, inputs: Inputs)
    ensures
        inputs.unbound.len() > 0 && inputs.unbound[0] == StreamEvent::GoAway ==> begins_to_send(
            SessionState { unbound: state.unbound.push(inputs.unbound), ..state },
            seq![go_away(1)],
            Then { point: Point::Unbound, after: After::GoAway(None) },
            state.take_unbound(idle, inputs),
        ),
        inputs.events.len() > 0 && inputs.events[0] == StreamEvent::GoAway ==> begins_to_send(
            SessionState { events: state.events.push(inputs.events), ..state },
            seq![go_away(1)],
            Then { point: Point::Events, after: After::GoAway(None) },
            state.take_event(idle, inputs),
        ),
{
    lemma_send_all(
        SessionState { unbound: state.unbound.push(inputs.unbound), ..state },
        seq![go_away(1)],
        Then { point: Point::Unbound, after: After::GoAway(None) },
    );
    lemma_send_all(
        SessionState { events: state.events.push(inputs.events), ..state },
        seq![go_away(1)],
        Then { point: Point::Events, after: After::GoAway(None) },
    );
}

/// A look for events that finds none changes nothing, and the session goes on: from the events
/// that must not get lost to the others, and from those to the next round, or to the end of the
/// poll where the round has found nothing at all.
pub proof fn no_event_changes_nothing(state: SessionState, idle: bool, inputs: Inputs)
    ensures
        inputs.unbound.len() == 0 ==> state.take_unbound(idle, inputs) == (SessionState {
            unbound: state.unbound.push(Seq::empty()),
            ..state
        }).take_event(idle, inputs),
        inputs.events.len() == 0 && !idle ==> state.take_event(idle, inputs) == (SessionState {
            events: state.events.push(Seq::empty()),
            ..state
        }).begin_round(inputs),
        inputs.events.len() == 0 && idle ==> state.take_event(idle, inputs) == (SessionState {
            events: state.events.push(Seq::empty()),
            ..state
        }).end_poll(),
{
    if inputs.unbound.len() == 0 {
        assert(inputs.unbound =~= Seq::empty());
    }
    if inputs.events.len() == 0 {
        assert(inputs.events =~= Seq::empty());
    }
}

/// A poll of a session that is not over and has a stream waiting ends with the first of them. It
/// ends with nothing only where none waits, and says that the session is over where it is.
pub proof fn a_poll_ends_with_the_first_stream(state: SessionState)
    ensures
        is_over(state) ==> state.end_poll() == (state, StepState::Done(OutcomeState::Finished)),
        !is_over(state) && state.pending_streams.len() == 0 ==> state.end_poll() == (
            state,
            StepState::Done(OutcomeState::Pending),
        ),
        !is_over(state) && state.pending_streams.len() > 0 ==> {
            let (later, step) = state.end_poll();
            &&& step == StepState::Done(OutcomeState::Stream(state.pending_streams[0]))
            &&& seq![state.pending_streams[0]] + later.pending_streams == state.pending_streams
            &&& later == (SessionState {
                pending_streams: later.pending_streams,
                waiting: state.waiting.remove(state.pending_streams[0].id),
                ..state
            })
        },
{
    if !is_over(state) && state.pending_streams.len() > 0 {
        assert(seq![state.pending_streams[0]] + state.end_poll().0.pending_streams
            =~= state.pending_streams);
    }
}

/// A poll begins with what was left over. A session that is over says so. One that has frames to
/// send begins to send them, one that has only frames for streams flushes the transport first,
/// and one that has neither flushes it in any case.
pub proof fn a_poll_begins_with_what_was_left_over(state: SessionState)
    ensures
        ({
            let then = Then { point: Point::Flush, after: After::Nothing };
            if is_over(state) {
                state.poll_next() == (state, StepState::Done(OutcomeState::Finished))
            } else if state.write_pending.len() > 0 {
                begins_to_send(state, state.write_pending, then, state.poll_next())
            } else if state.read_pending.len() > 0 {
                state.poll_next() == (state, StepState::PollFlush(Flushing::Last(then)))
            } else {
                state.poll_next() == (state, StepState::PollFlush(Flushing::Complete))
            }
        }),
{
    lemma_send_all(
        state,
        state.write_pending,
        Then { point: Point::Flush, after: After::Nothing },
    );
}

/// A round of a session that is not over begins with the oldest request of a control. A request
/// to close makes the session send a go away with the code 0 and nothing else. A request for a
/// stream is answered with what a call gives, and nothing is sent. Where there is no request,
/// the round has found nothing so far.
pub proof fn a_round_begins_with_a_request(state: SessionState, inputs: Inputs)
    ensures
        is_over(state) ==> state.begin_round(inputs) == (
            state,
            StepState::Done(OutcomeState::Finished),
        ),
        !is_over(state) && inputs.commands.len() == 0 ==> state.begin_round(inputs) == (
            SessionState { commands: state.commands.push(Seq::empty()), ..state },
            StepState::PollFrame { idle: true },
        ),
        !is_over(state) && inputs.commands.len() > 0 ==> {
            let looked = SessionState { commands: state.commands.push(inputs.commands), ..state };
            match inputs.commands[0] {
                Command::OpenStream(tx) => {
                    let (opened, answer) = looked.open_stream();
                    let open_answers = state.open_answers.push((tx, answer));
                    state.begin_round(inputs) == (
                        SessionState { open_answers, ..opened },
                        StepState::PollFrame { idle: false },
                    )
                },
                Command::Shutdown(tx) => begins_to_send(
                    looked,
                    seq![go_away(0)],
                    Then { point: Point::Commands, after: After::GoAway(Some(tx)) },
                    state.begin_round(inputs),
                ),
            }
        },
{
    if inputs.commands.len() == 0 {
        assert(inputs.commands =~= Seq::empty());
    } else if let Command::Shutdown(tx) = inputs.commands[0] {
        lemma_send_all(
            SessionState { commands: state.commands.push(inputs.commands), ..state },
            seq![go_away(0)],
            Then { point: Point::Commands, after: After::GoAway(Some(tx)) },
        );
    }
}

/// A call that closes the session, or sends a go away, makes it send a go away with the code 0
/// and nothing else. A session that is over has nothing to close.
pub proof fn a_call_sends_a_go_away(state: SessionState)
    ensures
        ({
            let then = Then { point: Point::Call, after: After::GoAway(None) };
            &&& begins_to_send(state, seq![go_away(0)], then, state.call_go_away())
            &&& if is_over(state) {
                state.call_shutdown() == (state, StepState::Done(OutcomeState::Called))
            } else {
                begins_to_send(state, seq![go_away(0)], then, state.call_shutdown())
            }
        }),
{
    lemma_send_all(
        state,
        seq![go_away(0)],
        Then { point: Point::Call, after: After::GoAway(None) },
    );
}

/// Whether some ping has waited for its answer for more than thirty seconds.
pub open spec fn waits_too_long(pings: Map<u32, Instant>, now: Instant) -> bool {
    exists|id: u32| #[trigger]
        pings.contains_key(id) && now.nanos > pings[id].nanos + 30_000_000_000
}

/// When a ping is due, every session breaks off if some ping has waited for its answer for more
/// than thirty seconds, and nothing else changes. If none has, the next ping is sent behind all
/// that the session has to send. Its number is one greater than the last, and starts from 0
/// again behind the greatest one.
pub proof fn a_ping_is_due(state: SessionState, ping_at: Instant, now: Instant, inputs: Inputs)
    ensures
        ({
            let result = state.ticked(Tick::Due { ping_at, now }, inputs);
            let number = if state.ping_id == u32::MAX {
                0u32
            } else {
                (state.ping_id + 1) as u32
            };
            let after = After::Ping { ping_id: number, ping_at };
            if waits_too_long(state.pings, now) {
                result == (state, StepState::Done(OutcomeState::Failed(Failure::TimedOut)))
            } else {
                begins_to_send(
                    SessionState { ping_id: number, ..state },
                    state.write_pending.push(ping(1, number)),
                    Then { point: Point::KeepAlive, after },
                    result,
                )
            }
        }),
{
    let number = if state.ping_id == u32::MAX {
        0u32
    } else {
        (state.ping_id + 1) as u32
    };
    if waits_too_long(state.pings, now) {
        let id = choose|id: u32| #[trigger]
            state.pings.contains_key(id) && now.nanos > state.pings[id].nanos + 30_000_000_000;
        assert(state.pings.contains_key(id));
        assert(state.overdue(now));
    } else {
        assert(!state.overdue(now));
        lemma_send_all(
            SessionState { ping_id: number, ..state },
            state.write_pending.push(ping(1, number)),
            Then { point: Point::KeepAlive, after: After::Ping { ping_id: number, ping_at } },
        );
    }
}

/// A peer that leaves a ping unanswered is found out, whichever end it is: if a ping was due at
/// one time and one is due more than thirty seconds later, with no answer in between, the
/// session breaks off.
pub proof fn a_peer_that_stays_silent_is_left(
    state: SessionState,
    sent: (Instant, Instant),
    later: SessionState,
    due: (Instant, Instant),
    inputs: Inputs,
)
    requires
        !waits_too_long(state.pings, sent.1),
        state.keep_alive(sent.0, sent.1).1 is Some,
        ({
            let (pinged, after) = state.keep_alive(sent.0, sent.1);
            let pings = pinged.finish(after->0).pings;
            forall|id: u32| #[trigger]
                pings.contains_key(id) ==> later.pings.contains_key(id) && later.pings[id]
                    == pings[id]
        }),
        due.1.nanos > sent.0.nanos + 30_000_000_000,
    ensures
        later.ticked(Tick::Due { ping_at: due.0, now: due.1 }, inputs) == (
            later,
            StepState::Done(OutcomeState::Failed(Failure::TimedOut)),
        ),
{
    let (pinged, after) = state.keep_alive(sent.0, sent.1);
    let number = pinged.ping_id;
    let pings = pinged.finish(after->0).pings;
    assert(pings.contains_key(number) && pings[number] == sent.0);
    assert(later.pings.contains_key(number) && later.pings[number] == sent.0);
    a_ping_is_due(later, due.0, due.1, inputs);
}

/// Where no ping is due, nothing changes, and the round begins.
pub proof fn no_ping_is_due(state: SessionState, inputs: Inputs)
    ensures
        state.ticked(Tick::Waiting, inputs) == state.begin_round(inputs),
        state.ticked(Tick::Ended, inputs) == state.begin_round(inputs),
{
}

/// A ping of the peer is answered with its number, behind all that the session has to send. An
/// answer ends the wait for the ping with its number and for those with smaller ones, and for no
/// other. A ping that is neither changes nothing.
pub proof fn a_ping_comes(state: SessionState, idle: bool, frame: Frame, inputs: Inputs)
    requires
        frame.ty == Type::Ping,
    ensures
        ({
            let result = state.received(idle, Incoming::Frame(frame), inputs);
            if is_syn(frame) {
                begins_to_send(
                    state,
                    state.write_pending.push(ping(2, frame.length)),
                    Then { point: Point::Frames, after: After::Nothing },
                    result,
                )
            } else if is_ack(frame) {
                let pings = state.handle_frame(frame, inputs.deliveries).0.pings;
                &&& forall|id: u32| #[trigger]
                    pings.contains_key(id) <==> state.pings.contains_key(id) && id > frame.length
                &&& forall|id: u32| #[trigger]
                    pings.contains_key(id) ==> pings[id] == state.pings[id]
                &&& result == (SessionState { pings, ..state }).take_unbound(false, inputs)
            } else {
                result == state.take_unbound(false, inputs)
            }
        }),
{
    flags_are_bits(frame.flags);
    lemma_send_all(
        state,
        state.write_pending.push(ping(2, frame.length)),
        Then { point: Point::Frames, after: After::Nothing },
    );
}

/// A go away of the peer, whatever its code, is kept in mind and answered with one with the code
/// 0 and nothing else. An end that has sent one already drops all that it had to send.
pub proof fn a_go_away_comes(state: SessionState, idle: bool, frame: Frame, inputs: Inputs)
    requires
        frame.ty == Type::GoAway,
    ensures
        ({
            let result = state.received(idle, Incoming::Frame(frame), inputs);
            let heard = SessionState { remote_go_away: true, ..state };
            if state.local_go_away {
                result == (SessionState { write_pending: Seq::empty(), ..heard }).take_unbound(
                    false,
                    inputs,
                )
            } else {
                begins_to_send(
                    heard,
                    seq![go_away(0)],
                    Then { point: Point::Frames, after: After::GoAway(None) },
                    result,
                )
            }
        }),
{
    lemma_send_all(
        SessionState { remote_go_away: true, ..state },
        seq![go_away(0)],
        Then { point: Point::Frames, after: After::GoAway(None) },
    );
}

/// A frame for a stream comes behind those that are left over, and all of them are dealt with.
/// If that breaks off, what is to be sent is sent; otherwise the session goes on to the events.
pub proof fn a_frame_for_a_stream_comes(
    state: SessionState,
    idle: bool,
    frame: Frame,
    inputs: Inputs,
)
    requires
        frame.ty == Type::Data || frame.ty == Type::WindowUpdate,
    ensures
        ({
            let result = state.received(idle, Incoming::Frame(frame), inputs);
            let (dealt, stopped) = (SessionState {
                read_pending: state.read_pending.push(frame),
                ..state
            }).distribute(inputs.deliveries);
            match stopped {
                None => result == dealt.take_unbound(false, inputs),
                Some(after) => begins_to_send(
                    dealt,
                    dealt.write_pending,
                    Then { point: Point::Frames, after },
                    result,
                ),
            }
        }),
{
    let (dealt, stopped) = (SessionState {
        read_pending: state.read_pending.push(frame),
        ..state
    }).distribute(inputs.deliveries);
    if let Some(after) = stopped {
        lemma_send_all(dealt, dealt.write_pending, Then { point: Point::Frames, after });
    }
}

/// The end of the transport is kept in mind, no frame changes nothing, and an error of the
/// transport goes to the caller. In the first two cases the session goes on to the events; only
/// where there was no frame may the round still have found nothing.
pub proof fn no_frame_comes(
    state: SessionState,
    idle: bool,
    error: std::io::Error,
    inputs: Inputs,
)
    ensures
        state.received(idle, Incoming::Eof, inputs) == (SessionState {
            eof: true,
            ..state
        }).take_unbound(false, inputs),
        state.received(idle, Incoming::Pending, inputs) == state.take_unbound(idle, inputs),
        state.received(idle, Incoming::Failed(error), inputs) == (
            state,
            StepState::Done(OutcomeState::Failed(Failure::Io(error))),
        ),
{
}

/// A transport that takes a frame is given that frame. One that does not leaves it at the head
/// of the queue, and is flushed.
pub proof fn the_transport_is_asked(state: SessionState, frame: Frame, then: Then)
    ensures
        state.ready(frame, then, Readiness::Ready) == (state, StepState::StartSend(frame, then)),
        state.ready(frame, then, Readiness::Pending) == (
            SessionState { write_pending: seq![frame] + state.write_pending, ..state },
            StepState::PollFlush(Flushing::Retry(then)),
        ),
{
}

/// When the transport has been given a frame, or has been flushed after it took none, the
/// session goes on with the rest of the queue.
pub proof fn the_queue_goes_on(state: SessionState, then: Then, inputs: Inputs)
    ensures
        begins_to_send(state, state.write_pending, then, state.sent(then, Ok(()))),
        begins_to_send(
            state,
            state.write_pending,
            then,
            state.flushed(Flushing::Retry(then), Readiness::Ready, inputs),
        ),
{
    lemma_send_all(state, state.write_pending, then);
}

/// What a session knows when a queue has gone out: a ping that went out is waited for, and an
/// end whose go away went out closes and answers whoever asked for that.
pub open spec fn behind(state: SessionState, after: After) -> SessionState {
    match after {
        After::Nothing => state,
        After::Ping { ping_id, ping_at } => SessionState {
            pings: state.pings.insert(ping_id, ping_at),
            ..state
        },
        After::GoAway(None) => SessionState { local_go_away: true, ..state },
        After::GoAway(Some(tx)) => SessionState {
            local_go_away: true,
            close_answers: state.close_answers.push(tx),
            ..state
        },
    }
}

/// When a queue has gone out, as far as the transport takes it, what hung on that is done, and
/// the session goes on where it stood: from what was left over to the frames for streams, from
/// those to the flush that every poll makes, from a ping to the next, from a request to a frame,
/// from a frame to the events that must not get lost, from those to the others, from those to
/// the next round, and from a call to its end.
pub proof fn the_queue_has_gone_out(
    state: SessionState,
    then: Then,
    flushing: Flushing,
    readiness: Readiness,
    inputs: Inputs,
)
    requires
        flushing == Flushing::Last(then) && !(readiness is Failed) || flushing == Flushing::Retry(
            then,
        ) && readiness is Pending,
    ensures
        ({
            let result = state.flushed(flushing, readiness, inputs);
            let done = behind(state, then.after);
            let flush = StepState::PollFlush(Flushing::Complete);
            match then.point {
                Point::Flush => {
                    let (dealt, stopped) = done.distribute(inputs.deliveries);
                    match stopped {
                        None => result == (dealt, flush),
                        Some(after) => begins_to_send(
                            dealt,
                            dealt.write_pending,
                            Then { point: Point::Distribution, after },
                            result,
                        ),
                    }
                },
                Point::Distribution => result == (done, flush),
                Point::KeepAlive => result == (done, StepState::PollTimer),
                Point::Commands => result == (done, StepState::PollFrame { idle: false }),
                Point::Frames => result == done.take_unbound(false, inputs),
                Point::Unbound => result == done.take_event(false, inputs),
                Point::Events => result == done.begin_round(inputs),
                Point::Call => result == (done, StepState::Done(OutcomeState::Called)),
            }
        }),
{
    let done = behind(state, then.after);
    assert(done == state.finish(then.after));
    if then.point == Point::Flush {
        let (dealt, stopped) = done.distribute(inputs.deliveries);
        if let Some(after) = stopped {
            lemma_send_all(dealt, dealt.write_pending, Then { point: Point::Distribution, after });
        }
    }
}

/// Behind the flush that every poll makes, a session that sends pings asks whether one is due,
/// and any other begins a round.
pub proof fn every_poll_flushes(state: SessionState, readiness: Readiness, inputs: Inputs)
    requires
        !(readiness is Failed),
    ensures
        state.flushed(Flushing::Complete, readiness, inputs) == if state.keepalive is Some {
            (state, StepState::PollTimer)
        } else {
            state.begin_round(inputs)
        },
{
}

/// An error of the transport goes to the caller, and what hung on the queue is not done: no ping
/// is waited for, this end does not close, and a request to close is dropped.
pub proof fn the_transport_fails(
    state: SessionState,
    frame: Frame,
    then: Then,
    error: std::io::Error,
    inputs: Inputs,
)
    ensures
        ({
            let known = match then.after {
                After::GoAway(Some(tx)) => SessionState {
                    close_failures: state.close_failures.push(tx),
                    ..state
                },
                _ => state,
            };
            let failed = (known, StepState::Done(OutcomeState::Failed(Failure::Io(error))));
            let failure = Readiness::Failed(error);
            &&& state.ready(frame, then, failure) == failed
            &&& state.sent(then, Err(error)) == failed
            &&& state.flushed(Flushing::Retry(then), failure, inputs) == failed
            &&& state.flushed(Flushing::Last(then), failure, inputs) == failed
            &&& state.flushed(Flushing::Complete, failure, inputs) == (
                state,
                StepState::Done(OutcomeState::Failed(Failure::Io(error))),
            )
        }),
{
}

/// Whether two distributions differ in nothing but what the streams have been given, what they
/// said, which of them are open, and which frames are left over.
pub open spec fn only_streams_change(before: Distribution, after: Distribution) -> bool {
    &&& after.stopped == before.stopped
    &&& after.state == (SessionState {
        streams: after.state.streams,
        asked: after.state.asked,
        unread_streams: after.state.unread_streams,
        waiting: after.state.waiting,
        read_pending: after.state.read_pending,
        ..before.state
    })
}

/// A frame that opens no stream is given to its stream and to nobody else. The stream has it
/// behind those that it had; or it says that it has no room, which it does not say before it has
/// been given nine frames, and the frame is left over; or it says that nobody reads it, which it
/// does not say while the session holds it, and is no more. Where there is no such stream, nothing
/// changes. A frame whose stream took no more before is left over. Nothing is sent to the peer
/// and nothing breaks off, whatever the frame.
pub proof fn a_frame_goes_to_its_stream(before: Distribution, frame: Frame, delivery: Delivery)
    requires
        before.stopped is None,
        !is_syn(frame) || before.blocked.contains(frame.stream_id),
    ensures
        ({
            let id = frame.stream_id;
            let after = before.deliver(frame, delivery);
            let streams = before.state.streams;
            let asked = before.state.asked;
            let given = streams[id];
            &&& only_streams_change(before, after)
            &&& if before.blocked.contains(id) {
                after == (Distribution {
                    state: SessionState {
                        read_pending: before.state.read_pending.push(frame),
                        ..before.state
                    },
                    ..before
                })
            } else if !streams.contains_key(id) {
                after == before
            } else if delivery == Delivery::Disconnected && !before.state.waiting.contains(id) {
                &&& after.state.streams == streams.remove(id)
                &&& after.state.asked == asked.remove(id)
                &&& after.state.waiting == before.state.waiting
                &&& after.state.unread_streams == before.state.unread_streams.push((id, given))
                &&& after.state.read_pending == before.state.read_pending
                &&& after.blocked == before.blocked
            } else if delivery == Delivery::Sent || given.len() < 9 {
                &&& after.state.streams == streams.insert(id, given.push(frame))
                &&& after.state.asked == asked.insert(id, asked[id].push(Capacity::Free))
                &&& after.state.waiting == before.state.waiting
                &&& after.state.unread_streams == before.state.unread_streams
                &&& after.state.read_pending == before.state.read_pending
                &&& after.blocked == before.blocked
            } else {
                &&& after.state.streams == streams
                &&& after.state.asked == asked.insert(id, asked[id].push(Capacity::Full))
                &&& after.state.waiting == before.state.waiting
                &&& after.state.unread_streams == before.state.unread_streams
                &&& after.state.read_pending == before.state.read_pending.push(frame)
                &&& after.blocked == before.blocked.insert(id)
            }
        }),
{
    flags_are_bits(frame.flags);
    let id = frame.stream_id;
    let after = before.deliver(frame, delivery);
    if before.blocked.contains(id) {
        assert(after.blocked =~= before.blocked);
    }
    if !before.state.waiting.contains(id) {
        assert(before.state.waiting.remove(id) =~= before.state.waiting);
    }
}

/// A frame that opens a stream opens it where this end takes in streams and none has the number:
/// the stream waits to be handed out, has the frame, and tells that it accepts. Where a stream
/// has the number, all that was to be sent gives way to a go away with the code 1, and this end
/// closes. Where this end takes in no more streams, the stream is torn down. In the last two
/// cases the distribution breaks off.
pub proof fn a_frame_opens_its_stream(before: Distribution, frame: Frame, delivery: Delivery)
    requires
        before.stopped is None,
        is_syn(frame),
        !before.blocked.contains(frame.stream_id),
    ensures
        ({
            let id = frame.stream_id;
            let after = before.deliver(frame, delivery);
            let state = before.state;
            let window = state.config.max_stream_window_size;
            if state.local_go_away {
                after == (Distribution {
                    state: SessionState {
                        write_pending: state.write_pending.push(update(8, id)),
                        ..state
                    },
                    stopped: Some(After::Nothing),
                    ..before
                })
            } else if state.streams.contains_key(id) {
                after == (Distribution {
                    state: SessionState { write_pending: seq![go_away(1)], ..state },
                    stopped: Some(After::GoAway(None)),
                    ..before
                })
            } else {
                after == (Distribution {
                    state: SessionState {
                        streams: state.streams.insert(id, seq![frame]),
                        asked: state.asked.insert(id, seq![Capacity::Free]),
                        waiting: state.waiting.insert(id),
                        pending_streams: state.pending_streams.push(
                            handle(id, StreamState::Established, window, update(2, id)),
                        ),
                        ..state
                    },
                    ..before
                })
            }
        }),
{
    flags_are_bits(frame.flags);
    let id = frame.stream_id;
    let after = before.deliver(frame, delivery);
    assert(Seq::<StreamEvent>::empty().push(StreamEvent::Frame(update(2, id))) =~= seq![
        StreamEvent::Frame(update(2, id)),
    ]);
    assert(Seq::<Frame>::empty().push(frame) =~= seq![frame]);
    assert(Seq::<Capacity>::empty().push(Capacity::Free) =~= seq![Capacity::Free]);
    if !before.state.local_go_away && !before.state.streams.contains_key(id) {
        assert(after.state.streams =~= before.state.streams.insert(id, seq![frame]));
        assert(after.state.asked =~= before.state.asked.insert(id, seq![Capacity::Free]));
    }
}

/// A distribution that has broken off changes nothing more.
pub proof fn a_distribution_that_broke_off_is_over(
    before: Distribution,
    frame: Frame,
    delivery: Delivery,
)
    requires
        before.stopped is Some,
    ensures
        before.deliver(frame, delivery) == before,
{
}

/// The frames of a distribution are dealt with one after the other, each once, in their order.
pub proof fn frames_are_dealt_with_one_by_one(
    before: Distribution,
    frames: Seq<Frame>,
    frame: Frame,
    deliveries: Seq<Delivery>,
)
    ensures
        before.deliver_all(Seq::empty(), deliveries) == before,
        before.deliver_all(frames.push(frame), deliveries) == before.deliver_all(
            frames,
            deliveries,
        ).deliver(frame, deliveries[frames.len() as int]),
{
    assert(frames.push(frame).drop_last() =~= frames);
}

/// A distribution deals with all that is left over, and with nothing else.
pub proof fn a_distribution_deals_with_what_is_left_over(
    state: SessionState,
    deliveries: Seq<Delivery>,
)
    ensures
        ({
            let begin = Distribution {
                state: SessionState { read_pending: Seq::empty(), ..state },
                blocked: Set::empty(),
                stopped: None,
            };
            let end = begin.deliver_all(state.read_pending, deliveries);
            state.distribute(deliveries) == (end.state, end.stopped)
        }),
{
}

/// A distribution that does not break off leaves the queue to the peer as it was, whatever the
/// frames, and changes nothing but the streams, those that wait, and the frames that are left
/// over.
pub proof fn a_distribution_sends_nothing(state: SessionState, deliveries: Seq<Delivery>)
    requires
        state.distribute(deliveries).1 is None,
    ensures
        ({
            let later = state.distribute(deliveries).0;
            &&& later.write_pending == state.write_pending
            &&& later == (SessionState {
                streams: later.streams,
                asked: later.asked,
                unread_streams: later.unread_streams,
                waiting: later.waiting,
                pending_streams: later.pending_streams,
                read_pending: later.read_pending,
                ..state
            })
        }),
{
    lemma_sends_nothing(
        Distribution {
            state: SessionState { read_pending: Seq::empty(), ..state },
            blocked: Set::empty(),
            stopped: None,
        },
        state.read_pending,
        deliveries,
    );
}

proof fn lemma_sends_nothing(before: Distribution, frames: Seq<Frame>, deliveries: Seq<Delivery>)
    requires
        before.deliver_all(frames, deliveries).stopped is None,
    ensures
        ({
            let later = before.deliver_all(frames, deliveries).state;
            later == (SessionState {
                streams: later.streams,
                asked: later.asked,
                unread_streams: later.unread_streams,
                waiting: later.waiting,
                pending_streams: later.pending_streams,
                read_pending: later.read_pending,
                ..before.state
            })
        }),
    decreases frames.len(),
{
    if frames.len() > 0 {
        let between = before.deliver_all(frames.drop_last(), deliveries);
        let frame = frames.last();
        let delivery = deliveries[frames.len() - 1];
        if between.stopped is Some {
            a_distribution_that_broke_off_is_over(between, frame, delivery);
        }
        lemma_sends_nothing(before, frames.drop_last(), deliveries);
        if is_syn(frame) && !between.blocked.contains(frame.stream_id) {
            a_frame_opens_its_stream(between, frame, delivery);
        } else {
            a_frame_goes_to_its_stream(between, frame, delivery);
        }
    }
}

} // verus!
