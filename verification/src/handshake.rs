//! What holds between the two ends of a connection.
use futures::channel::oneshot;

use vstd::prelude::*;

use crate::control::Command;
use crate::error::Failure;
use crate::frame::{single_flag, Flag, Flags, Frame, GoAwayCode, Type};
use crate::laws::{
    lemma_resume_grows, lemma_take_unbound_grows, nothing_is_ever_taken_back, over_is_over, Move,
};
use crate::model::{Delivery, Distribution, Inputs, SessionState};
use crate::step::{
    After, Flushing, Incoming, OutcomeState, Point, Readiness, StepState, Then, Tick,
};
use crate::stream::{StreamEvent, StreamState};
use crate::time::Instant;
use crate::transmission::Transmission;

verus! {

/// A ping is answered by the peer with a frame that ends the wait for it, whatever the two
/// ends have done in between. The wait for pings with greater numbers goes on.
pub proof fn a_ping_is_answered(
    state: SessionState,
    ping_at: Instant,
    now: Instant,
    peer: SessionState,
    later: SessionState,
    deliveries: Seq<Delivery>,
)
    requires
        !state.overdue(now),
    ensures
        ({
            let (pinged, after) = state.keep_alive(ping_at, now);
            let ping = pinged.write_pending.last();
            let (answered, sending) = peer.handle_frame(ping, deliveries);
            let pong = answered.write_pending.last();
            let (done, nothing) = later.handle_frame(pong, deliveries);
            let id = state.next_ping_id();
            &&& after == Some(After::Ping { ping_id: id, ping_at })
            &&& pinged.finish(after->0).pings == state.pings.insert(id, ping_at)
            &&& ping == Frame::ping(Flags::only(Flag::Syn), id)
            &&& sending == Some(After::Nothing)
            &&& pong == Frame::ping(Flags::only(Flag::Ack), id)
            &&& nothing is None
            &&& forall|other: u32| #[trigger]
                done.pings.contains_key(other) <==> later.pings.contains_key(other) && other > id
            &&& forall|other: u32| #[trigger]
                done.pings.contains_key(other) ==> done.pings[other] == later.pings[other]
        }),
{
    single_flag(Flag::Syn, Flag::Syn);
    single_flag(Flag::Ack, Flag::Syn);
    single_flag(Flag::Ack, Flag::Ack);
}

/// When a ping is due, the session breaks off if an earlier one has waited for its answer for
/// more than thirty seconds, and sends the next one otherwise.
pub proof fn a_silent_peer_times_out(
    state: SessionState,
    ping_at: Instant,
    now: Instant,
    inputs: Inputs,
)
    ensures
        ({
            let (next, step) = state.ticked(Tick::Due { ping_at, now }, inputs);
            if state.overdue(now) {
                &&& next == state
                &&& step == StepState::Done(OutcomeState::Failed(Failure::TimedOut))
            } else {
                &&& next.pings == state.pings
                &&& next.ping_id == state.next_ping_id()
                &&& !(step is Done)
            }
        }),
{
}

/// An answer to the last ping leaves nothing to wait for, unless the numbers have started
/// from the beginning again.
pub proof fn nothing_is_overdue_when_all_is_answered(
    state: SessionState,
    pong: Frame,
    now: Instant,
)
    requires
        forall|id: u32| #[trigger] state.pings.contains_key(id) ==> id <= pong.length,
        pong.flags.has(Flag::Ack),
        !pong.flags.has(Flag::Syn),
    ensures
        !state.handle_ping(pong).0.overdue(now),
{
}

/// A session that is asked to close sends a go away and nothing else, and takes in no more
/// streams when that is done.
pub proof fn closing_sends_a_go_away(state: SessionState, inputs: Inputs)
    requires
        !state.is_dead(),
    ensures
        ({
            let then = Then { point: Point::Call, after: After::GoAway(None) };
            let (next, step) = state.call_shutdown();
            &&& step == StepState::PollReady(Frame::go_away(GoAwayCode::Normal), then)
            &&& next == (SessionState { write_pending: Seq::empty(), ..state })
            &&& next.sent(then, Ok(())) == (next, StepState::PollFlush(Flushing::Last(then)))
            &&& next.sent_all(then, inputs) == (
                SessionState { local_go_away: true, ..next },
                StepState::Done(OutcomeState::Called),
            )
        }),
{
    assert(seq![Frame::go_away(GoAwayCode::Normal)].drop_first() =~= Seq::<Frame>::empty());
}

/// If one end closes, so does the other: a go away is answered with a go away, and when both
/// have gone out, both sessions are over. The reason that a go away gives makes no
/// difference.
pub proof fn both_ends_close(
    state: SessionState,
    peer: SessionState,
    code: GoAwayCode,
    deliveries: Seq<Delivery>,
)
    requires
        !peer.local_go_away,
    ensures
        ({
            let closing = state.finish(After::GoAway(None));
            let (answering, after) = peer.handle_frame(Frame::go_away(code), deliveries);
            let answer = answering.write_pending.last();
            &&& answering.write_pending == seq![Frame::go_away(GoAwayCode::Normal)]
            &&& after == Some(After::GoAway(None))
            &&& answering.finish(After::GoAway(None)).is_dead()
            &&& closing.handle_frame(answer, deliveries).0.is_dead()
            &&& closing.handle_frame(answer, deliveries).1 is None
        }),
{
}

/// Whether a queue has gone out, as far as the transport takes it, when a flush is answered.
pub open spec fn has_gone_out(
    transmission: Transmission,
    then: Then,
    flushing: Flushing,
    readiness: Readiness,
) -> bool {
    &&& transmission.step == StepState::PollFlush(flushing)
    &&& match flushing {
        Flushing::Retry(behind) => behind == then && readiness is Pending,
        Flushing::Last(behind) => behind == then && !(readiness is Failed),
        Flushing::Complete => false,
    }
}

/// Whether the transport brings a go away, whatever its reason, or comes to its end.
pub open spec fn is_the_end(incoming: Incoming) -> bool {
    match incoming {
        Incoming::Frame(frame) => frame.ty == Type::GoAway,
        Incoming::Eof => true,
        _ => false,
    }
}

/// Whether every poll of a session says that it is over, whatever happens to it.
pub open spec fn has_stopped(state: SessionState) -> bool {
    forall|moves: Seq<(Move, Inputs)>|
        (#[trigger] state.run(moves)).poll_next() == (
            state.run(moves),
            StepState::Done(OutcomeState::Finished),
        )
}

proof fn lemma_stopped(state: SessionState)
    requires
        state.is_dead(),
    ensures
        has_stopped(state),
{
    assert forall|moves: Seq<(Move, Inputs)>|
        (#[trigger] state.run(moves)).poll_next() == (
            state.run(moves),
            StepState::Done(OutcomeState::Finished),
        ) by {
        over_is_over(state, moves);
    }
}

/// A session whose go away has gone out, in whichever way it came to send it and however slow
/// the transport was, stops when a go away of the peer or the end of the transport comes,
/// whatever happens before that.
pub proof fn a_session_that_closes_stops(
    state: SessionState,
    then: Then,
    answers: Seq<Readiness>,
    flushing: Flushing,
    readiness: Readiness,
    inputs: Inputs,
    before: Seq<(Move, Inputs)>,
    idle: bool,
    incoming: Incoming,
    last: Inputs,
)
    requires
        then.after is GoAway,
        has_gone_out(Transmission::begin(state, then).after(answers), then, flushing, readiness),
        is_the_end(incoming),
    ensures
        ({
            let sent = Transmission::begin(state, then).after(answers).state;
            let closing = sent.flushed(flushing, readiness, inputs).0;
            &&& closing.local_go_away
            &&& has_stopped(closing.run(before).received(idle, incoming, last).0)
        }),
{
    let sent = Transmission::begin(state, then).after(answers).state;
    let finished = sent.finish(then.after);
    let closing = sent.flushed(flushing, readiness, inputs).0;
    lemma_resume_grows(finished, then.point, inputs);
    assert(closing == finished.resume(then.point, inputs).0);
    nothing_is_ever_taken_back(closing, before);
    a_closing_session_stops(closing.run(before), idle, incoming, last);
}

/// A session that has sent a go away stops when a go away of the peer comes, and every session
/// stops when the transport comes to its end.
pub proof fn a_closing_session_stops(
    state: SessionState,
    idle: bool,
    incoming: Incoming,
    inputs: Inputs,
)
    requires
        is_the_end(incoming),
        state.local_go_away || incoming is Eof,
    ensures
        has_stopped(state.received(idle, incoming, inputs).0),
{
    let later = state.received(idle, incoming, inputs).0;
    let handled = match incoming {
        Incoming::Frame(frame) => state.handle_frame(frame, inputs.deliveries).0,
        _ => SessionState { eof: true, ..state },
    };
    assert(handled.is_dead());
    lemma_take_unbound_grows(handled, false, inputs);
    assert(later.is_dead());
    lemma_stopped(later);
}

/// A session that gets a go away answers with one and stops when that has gone out, however slow
/// the transport is. It stops at once where it has sent one already.
pub proof fn a_session_that_gets_a_go_away_stops(
    peer: SessionState,
    idle: bool,
    go_away: Frame,
    inputs: Inputs,
    answers: Seq<Readiness>,
    flushing: Flushing,
    readiness: Readiness,
    more: Inputs,
)
    requires
        go_away.ty == Type::GoAway,
        !peer.is_dead(),
    ensures
        ({
            let reply = Then { point: Point::Frames, after: After::GoAway(None) };
            let heard = peer.handle_frame(go_away, inputs.deliveries).0;
            let begin = Transmission::begin(heard, reply);
            let received = peer.received(idle, Incoming::Frame(go_away), inputs);
            if peer.local_go_away {
                has_stopped(received.0)
            } else {
                &&& received == (begin.state, begin.step)
                &&& begin.outstanding() == seq![Frame::go_away(GoAwayCode::Normal)]
                &&& has_gone_out(begin.after(answers), reply, flushing, readiness) ==> has_stopped(
                    begin.after(answers).state.flushed(flushing, readiness, more).0,
                )
            }
        }),
{
    let reply = Then { point: Point::Frames, after: After::GoAway(None) };
    let heard = peer.handle_frame(go_away, inputs.deliveries).0;
    let begin = Transmission::begin(heard, reply);
    if peer.local_go_away {
        a_closing_session_stops(peer, idle, Incoming::Frame(go_away), inputs);
    } else {
        assert(begin.outstanding() =~= seq![Frame::go_away(GoAwayCode::Normal)]);
        if has_gone_out(begin.after(answers), reply, flushing, readiness) {
            let sent = begin.after(answers).state;
            lemma_transmission_keeps(begin, answers);
            let finished = sent.finish(reply.after);
            assert(finished.is_dead());
            let later = sent.flushed(flushing, readiness, more).0;
            lemma_resume_grows(finished, reply.point, more);
            assert(later == finished.resume(reply.point, more).0);
            lemma_stopped(later);
        }
    }
}

proof fn lemma_transmission_keeps(begin: Transmission, answers: Seq<Readiness>)
    ensures
        begin.after(answers).state.remote_go_away == begin.state.remote_go_away,
        begin.after(answers).state.local_go_away == begin.state.local_go_away,
    decreases answers.len(),
{
    if answers.len() > 0 {
        lemma_transmission_keeps(begin, answers.drop_last());
    }
}

/// When one end is asked to close, by a control or by a call, both sessions stop, whatever else
/// happens to them and however slow their transports are. The end that is asked sends a go away
/// and nothing else. The other end answers with a go away when it gets it, and stops when that
/// has gone out, or at once if it has sent one already. The end that was asked stops when a go
/// away of any reason comes, or the end of its transport.
pub proof fn closing_stops_both_sessions(
    state: SessionState,
    request: Option<(Seq<Command>, oneshot::Sender<()>)>,
    answers: Seq<Readiness>,
    flushing: Flushing,
    readiness: Readiness,
    inputs: Inputs,
    before: Seq<(Move, Inputs)>,
    idle: bool,
    incoming: Incoming,
    last: Inputs,
    peer: SessionState,
    peer_idle: bool,
    peer_inputs: (Inputs, Inputs),
    peer_answers: Seq<Readiness>,
    peer_flushing: Flushing,
    peer_readiness: Readiness,
)
    requires
        !state.is_dead(),
        request matches Some((queue, tx)) ==> queue.len() > 0 && queue[0] == Command::Shutdown(tx),
        is_the_end(incoming),
        !peer.is_dead(),
    ensures
        ({
            let go_away = Frame::go_away(GoAwayCode::Normal);
            // The end that is asked.
            let (asked, then, started) = match request {
                Some((queue, tx)) => (
                    state.obey(queue).0,
                    Then { point: Point::Commands, after: After::GoAway(Some(tx)) },
                    state.begin_round(Inputs { commands: queue, ..inputs }),
                ),
                None => (
                    state.shutdown(None).0,
                    Then { point: Point::Call, after: After::GoAway(None) },
                    state.call_shutdown(),
                ),
            };
            let begin = Transmission::begin(asked, then);
            let closing = begin.after(answers).state.flushed(flushing, readiness, inputs).0;
            // The other end.
            let reply = Then { point: Point::Frames, after: After::GoAway(None) };
            let heard = peer.handle_frame(go_away, peer_inputs.0.deliveries).0;
            let answering = Transmission::begin(heard, reply);
            let received = peer.received(peer_idle, Incoming::Frame(go_away), peer_inputs.0);
            &&& started == (begin.state, begin.step)
            &&& begin.outstanding() == seq![go_away]
            &&& has_gone_out(begin.after(answers), then, flushing, readiness) ==> has_stopped(
                closing.run(before).received(idle, incoming, last).0,
            )
            &&& if peer.local_go_away {
                has_stopped(received.0)
            } else {
                &&& received == (answering.state, answering.step)
                &&& answering.outstanding() == seq![go_away]
                &&& has_gone_out(
                    answering.after(peer_answers),
                    reply,
                    peer_flushing,
                    peer_readiness,
                ) ==> has_stopped(
                    answering.after(peer_answers).state.flushed(
                        peer_flushing,
                        peer_readiness,
                        peer_inputs.1,
                    ).0,
                )
            }
        }),
{
    let go_away = Frame::go_away(GoAwayCode::Normal);
    let (asked, then) = match request {
        Some((queue, tx)) => (
            state.obey(queue).0,
            Then { point: Point::Commands, after: After::GoAway(Some(tx)) },
        ),
        None => (
            state.shutdown(None).0,
            Then { point: Point::Call, after: After::GoAway(None) },
        ),
    };
    let begin = Transmission::begin(asked, then);
    assert(begin.outstanding() =~= seq![go_away]);
    if has_gone_out(begin.after(answers), then, flushing, readiness) {
        a_session_that_closes_stops(
            asked,
            then,
            answers,
            flushing,
            readiness,
            inputs,
            before,
            idle,
            incoming,
            last,
        );
    }
    a_session_that_gets_a_go_away_stops(
        peer,
        peer_idle,
        go_away,
        peer_inputs.0,
        peer_answers,
        peer_flushing,
        peer_readiness,
        peer_inputs.1,
    );
}

/// A stream that one end opens is accepted by the other, under the same id, and answered with
/// a window update that says so.
pub proof fn both_ends_open_a_stream(
    state: SessionState,
    peer: SessionState,
    deliveries: Seq<Delivery>,
)
    requires
        state.open_stream().1 is Ok,
        peer.read_pending.len() == 0,
        !peer.local_go_away,
        !peer.streams.contains_key(state.next_stream_id),
    ensures
        ({
            let (opened, handle) = state.open_stream();
            let id = state.next_stream_id;
            let announcement = handle->Ok_0.announcements[0];
            let (sending, after) = opened.hear_unbound(seq![announcement]);
            let syn = sending.write_pending.last();
            let (accepted, nothing) = peer.handle_frame(syn, deliveries);
            let stream = accepted.pending_streams.last();
            &&& opened.streams.contains_key(id)
            &&& handle->Ok_0.id == id
            &&& handle->Ok_0.state == StreamState::SynSent
            &&& handle->Ok_0.announcements.len() == 1
            &&& after == Some(After::Nothing)
            &&& syn == Frame::window_update(Flags::only(Flag::Syn), id, 0)
            &&& nothing is None
            &&& accepted.pending_streams.drop_last() == peer.pending_streams
            &&& stream.id == id
            &&& stream.state == StreamState::Established
            &&& stream.announcements == seq![
                StreamEvent::Frame(Frame::window_update(Flags::only(Flag::Ack), id, 0)),
            ]
        }),
{
    single_flag(Flag::Syn, Flag::Syn);
    let id = state.next_stream_id;
    let syn = Frame::window_update(Flags::only(Flag::Syn), id, 0);
    let pushed = SessionState { read_pending: peer.read_pending.push(syn), ..peer };
    let start = Distribution {
        state: SessionState { read_pending: Seq::empty(), ..pushed },
        blocked: Set::empty(),
        stopped: None,
    };
    let frames = pushed.read_pending;
    assert(frames =~= seq![syn]);
    assert(start.deliver_all(frames.drop_last(), deliveries) == start);
    assert(start.deliver_all(frames, deliveries) == start.deliver(syn, deliveries[0]));
    let accepted = peer.handle_frame(syn, deliveries).0;
    assert(accepted.pending_streams.drop_last() =~= peer.pending_streams);
    assert(accepted.pending_streams.last().announcements =~= seq![
        StreamEvent::Frame(Frame::window_update(Flags::only(Flag::Ack), id, 0)),
    ]);
}

} // verus!
