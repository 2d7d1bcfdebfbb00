//! The model of a session: what it knows, and how it goes from one state to the next.
//!
//! A session reads channels. What it finds in them, and whether a stream has room for a
//! frame, is no part of its state: the model takes it as [`Inputs`].
use futures::channel::oneshot;

use vstd::prelude::*;

use crate::channel::{are_found, Capacity};
use crate::config::Config;
use crate::control::Command;
use crate::error::{Error, Failure};
use crate::frame::{Flag, Flags, Frame, GoAwayCode, StreamId, Type};
use crate::session::SessionType;
use crate::step::{
    After, Flushing, Incoming, OutcomeState, Point, Readiness, StepState, Then, Tick,
};
use crate::stream::{HandleState, StreamEvent, StreamHandle, StreamState};
use crate::time::{Instant, Interval};

verus! {

/// How long a ping may stay unanswered, in nanoseconds.
pub const TIMEOUT_NANOS: u64 = 30_000_000_000;

/// The number of frames that wait for a stream, besides one more.
pub const FRAME_BUFFER: usize = 8;

/// What became of a frame that was given to a stream.
#[derive(Clone, Copy, Debug, PartialEq, Eq, Structural)]
pub enum Delivery {
    /// The stream has it.
    Sent,
    /// The stream has no room for it at the moment.
    Blocked,
    /// Nobody reads the stream any more.
    Disconnected,
}

/// What the channels of a session hold for it between two steps.
pub struct Inputs {
    /// What becomes of each frame that is given to a stream.
    pub deliveries: Seq<Delivery>,
    /// The requests of controls, the oldest first.
    pub commands: Seq<Command>,
    /// The events that must not get lost, the oldest first.
    pub unbound: Seq<StreamEvent>,
    /// The other events, the oldest first.
    pub events: Seq<StreamEvent>,
}

impl Inputs {
    /// The channels hold nothing.
    pub open spec fn none() -> Inputs {
        Inputs {
            deliveries: Seq::empty(),
            commands: Seq::empty(),
            unbound: Seq::empty(),
            events: Seq::empty(),
        }
    }
}

/// What a session knows.
#[verifier::ext_equal]
pub struct SessionState {
    /// Whether the transport has come to its end.
    pub eof: bool,
    /// Whether the peer wants no more streams.
    pub remote_go_away: bool,
    /// Whether this end wants no more streams.
    pub local_go_away: bool,
    /// The id of the next stream that this end opens.
    pub next_stream_id: StreamId,
    /// Which end this is.
    pub ty: SessionType,
    /// The settings.
    pub config: Config,
    /// The pings that are unanswered, each with its time.
    pub pings: Map<u32, Instant>,
    /// The number of the last ping of this end.
    pub ping_id: u32,
    /// The streams that are open, each with the frames that it has been given.
    pub streams: Map<StreamId, Seq<Frame>>,
    /// What each stream that is open has said of its room, each time that it was asked.
    pub asked: Map<StreamId, Seq<Capacity>>,
    /// The streams that were given up because nobody reads them any more, each with the
    /// frames that it had been given.
    pub unread_streams: Seq<(StreamId, Seq<Frame>)>,
    /// The streams that told that they are closed, each with the frames that it had been
    /// given.
    pub closed_streams: Seq<(StreamId, Seq<Frame>)>,
    /// The open streams that are among those that nobody has asked for yet.
    pub waiting: Set<StreamId>,
    /// The streams that the peer has opened and nobody has asked for yet.
    pub pending_streams: Seq<HandleState>,
    /// The frames that are to go to the peer.
    pub write_pending: Seq<Frame>,
    /// The frames that are to go to streams.
    pub read_pending: Seq<Frame>,
    /// The requests that were there at each look for one, the oldest first.
    pub commands: Seq<Seq<Command>>,
    /// The requests for a stream that have been answered, each with its answer.
    pub open_answers: Seq<
        (oneshot::Sender<Result<StreamHandle, Error>>, Result<HandleState, Error>),
    >,
    /// The requests to close that have been answered.
    pub close_answers: Seq<oneshot::Sender<()>>,
    /// The requests to close that were dropped because the go away could not be sent.
    pub close_failures: Seq<oneshot::Sender<()>>,
    /// The events that were there at each look for one that must not get lost, the oldest
    /// first.
    pub unbound: Seq<Seq<StreamEvent>>,
    /// The events that were there at each look for another one, the oldest first.
    pub events: Seq<Seq<StreamEvent>>,
    /// The interval between two pings of this end.
    pub keepalive: Option<Interval>,
}

/// How far a distribution of frames to streams has come.
#[verifier::ext_equal]
pub struct Distribution {
    /// What the session knows. `read_pending` holds the frames that stay.
    pub state: SessionState,
    /// The streams that took no frame.
    pub blocked: Set<StreamId>,
    /// What is to be done instead of the rest of the distribution.
    pub stopped: Option<After>,
}

/// The frames of one stream.
pub open spec fn frames_of(frames: Seq<Frame>, id: StreamId) -> Seq<Frame> {
    frames.filter(|frame: Frame| frame.stream_id == id)
}

impl Distribution {
    /// The frame stays for a later distribution.
    pub open spec fn keep(self, frame: Frame) -> Distribution {
        Distribution {
            state: SessionState { read_pending: self.state.read_pending.push(frame), ..self.state },
            blocked: self.blocked.insert(frame.stream_id),
            ..self
        }
    }

    /// One frame is dealt with. `delivery` is what becomes of it if its stream is open.
    pub open spec fn deliver(self, frame: Frame, delivery: Delivery) -> Distribution {
        let id = frame.stream_id;
        let syn = frame.flags.has(Flag::Syn);
        if self.stopped is Some {
            self
        } else if self.blocked.contains(id) {
            // What a stream gets, it gets in order.
            self.keep(frame)
        } else if syn && self.state.local_go_away {
            Distribution {
                state: self.state.queue(Frame::window_update(Flags::only(Flag::Rst), id, 0)),
                stopped: Some(After::Nothing),
                ..self
            }
        } else if syn {
            match self.state.create_stream(Some(id)) {
                (state, Ok(handle)) => Distribution {
                    state: SessionState {
                        pending_streams: state.pending_streams.push(handle),
                        waiting: state.waiting.insert(id),
                        ..state
                    },
                    ..self
                }.give(frame, delivery),
                (state, Err(_)) => Distribution {
                    state: state.queue_go_away(GoAwayCode::ProtocolError),
                    stopped: Some(After::GoAway(None)),
                    ..self
                },
            }
        } else {
            self.give(frame, delivery)
        }
    }

    /// A stream has room for its first frames, whether or not it is read.
    pub open spec fn has_room(self, id: StreamId) -> bool {
        self.state.streams[id].len() <= FRAME_BUFFER
    }

    /// What can become of a frame: a stream that the session itself still holds is not one that
    /// nobody reads, and one that has room takes the frame.
    pub open spec fn possible(self, id: StreamId, delivery: Delivery) -> Delivery {
        if delivery == Delivery::Disconnected && !self.state.waiting.contains(id) {
            delivery
        } else if delivery == Delivery::Sent || self.has_room(id) {
            Delivery::Sent
        } else {
            Delivery::Blocked
        }
    }

    /// A frame is given to its stream. If there is none, the frame is lost.
    pub open spec fn give(self, frame: Frame, delivery: Delivery) -> Distribution {
        let id = frame.stream_id;
        if self.state.streams.contains_key(id) {
            match self.possible(id, delivery) {
                Delivery::Sent => Distribution {
                    state: SessionState {
                        streams: self.state.streams.insert(id, self.state.streams[id].push(frame)),
                        ..self.state
                    }.ask(id, Capacity::Free),
                    ..self
                },
                Delivery::Blocked => Distribution {
                    state: self.state.ask(id, Capacity::Full),
                    ..self
                }.keep(frame),
                Delivery::Disconnected => Distribution {
                    state: self.state.give_up(id),
                    ..self
                },
            }
        } else {
            self
        }
    }

    /// The frames are dealt with one after the other.
    pub open spec fn deliver_all(
        self,
        frames: Seq<Frame>,
        deliveries: Seq<Delivery>,
    ) -> Distribution
        decreases frames.len(),
    {
        if frames.len() == 0 {
            self
        } else {
            self.deliver_all(frames.drop_last(), deliveries).deliver(
                frames.last(),
                deliveries[frames.len() - 1],
            )
        }
    }
}

impl Distribution {
    /// What becomes of some frames depends on as many deliveries.
    pub proof fn lemma_deliver_all_prefix(
        self,
        frames: Seq<Frame>,
        some: Seq<Delivery>,
        more: Seq<Delivery>,
    )
        requires
            frames.len() <= some.len(),
            frames.len() <= more.len(),
            forall|i: int| 0 <= i < frames.len() ==> some[i] == more[i],
        ensures
            self.deliver_all(frames, some) == self.deliver_all(frames, more),
        decreases frames.len(),
    {
        if frames.len() > 0 {
            self.lemma_deliver_all_prefix(frames.drop_last(), some, more);
        }
    }

    /// Once a distribution has stopped, the frames that are left change nothing.
    pub proof fn lemma_deliver_all_stopped(
        self,
        frames: Seq<Frame>,
        deliveries: Seq<Delivery>,
        count: int,
        some: Seq<Delivery>,
    )
        requires
            0 <= count <= frames.len(),
            count <= some.len(),
            frames.len() <= deliveries.len(),
            forall|i: int| 0 <= i < count ==> some[i] == deliveries[i],
            self.deliver_all(frames.take(count), some).stopped is Some,
        ensures
            self.deliver_all(frames, deliveries) == self.deliver_all(frames.take(count), some),
        decreases frames.len(),
    {
        if count == frames.len() {
            assert(frames.take(count) =~= frames);
            self.lemma_deliver_all_prefix(frames, some, deliveries);
        } else {
            assert(frames.drop_last().take(count) =~= frames.take(count));
            self.lemma_deliver_all_stopped(frames.drop_last(), deliveries, count, some);
        }
    }
}

impl SessionState {
    /// A session that has just been made.
    pub open spec fn fresh(config: Config, ty: SessionType) -> Self {
        SessionState {
            eof: false,
            remote_go_away: false,
            local_go_away: false,
            next_stream_id: ty.first_stream_id(),
            ty,
            config,
            pings: Map::empty(),
            ping_id: 0,
            streams: Map::empty(),
            asked: Map::empty(),
            unread_streams: Seq::empty(),
            closed_streams: Seq::empty(),
            waiting: Set::empty(),
            pending_streams: Seq::empty(),
            write_pending: Seq::empty(),
            read_pending: Seq::empty(),
            commands: Seq::empty(),
            open_answers: Seq::empty(),
            close_answers: Seq::empty(),
            close_failures: Seq::empty(),
            unbound: Seq::empty(),
            events: Seq::empty(),
            keepalive: if config.enable_keepalive {
                Some(Interval::every(config.keepalive_interval))
            } else {
                None
            },
        }
    }

    /// The ids that this end gives out are odd for a client and even for a server.
    pub open spec fn valid(self) -> bool {
        &&& self.next_stream_id >= self.ty.first_stream_id()
        &&& self.next_stream_id % 2 == self.ty.first_stream_id() % 2
    }

    /// Whether the session is over.
    pub open spec fn is_dead(self) -> bool {
        self.remote_go_away && self.local_go_away || self.eof
    }

    /// A frame is put at the end of the queue to the peer.
    pub open spec fn queue(self, frame: Frame) -> Self {
        SessionState { write_pending: self.write_pending.push(frame), ..self }
    }

    /// A go away takes the place of everything in the queue to the peer.
    pub open spec fn queue_go_away(self, code: GoAwayCode) -> Self {
        SessionState { write_pending: seq![Frame::go_away(code)], ..self }
    }

    /// The number of the next ping of this end.
    pub open spec fn next_ping_id(self) -> u32 {
        if self.ping_id == u32::MAX {
            0
        } else {
            (self.ping_id + 1) as u32
        }
    }

    /// A ping is answered, or the next ping of this end is made.
    pub open spec fn queue_ping(self, answered: Option<u32>) -> (Self, u32) {
        match answered {
            Some(id) => (self.queue(Frame::ping(Flags::only(Flag::Ack), id)), id),
            None => {
                let id = self.next_ping_id();
                (
                    SessionState { ping_id: id, ..self }.queue(
                        Frame::ping(Flags::only(Flag::Syn), id),
                    ),
                    id,
                )
            },
        }
    }

    /// A stream comes into being, unless its id is taken. It makes itself known to the peer.
    pub open spec fn insert_stream(self, id: StreamId, state: StreamState) -> (
        Self,
        Result<HandleState, Error>,
    ) {
        if self.streams.contains_key(id) {
            (self, Err(Error::DuplicateStream))
        } else {
            (
                SessionState {
                    streams: self.streams.insert(id, Seq::empty()),
                    asked: self.asked.insert(id, Seq::empty()),
                    ..self
                },
                Ok(
                    HandleState::fresh(
                        id,
                        state,
                        self.config.max_stream_window_size,
                        self.config.max_stream_window_size,
                    ).announce(),
                ),
            )
        }
    }

    /// A stream is asked for room.
    pub open spec fn ask(self, id: StreamId, capacity: Capacity) -> Self {
        SessionState { asked: self.asked.insert(id, self.asked[id].push(capacity)), ..self }
    }

    /// A stream is no more.
    pub open spec fn remove_stream(self, id: StreamId) -> Self {
        SessionState {
            streams: self.streams.remove(id),
            asked: self.asked.remove(id),
            waiting: self.waiting.remove(id),
            ..self
        }
    }

    /// A stream tells that it is closed. If there is none, nothing happens.
    pub open spec fn close_stream(self, id: StreamId) -> Self {
        if self.streams.contains_key(id) {
            SessionState {
                closed_streams: self.closed_streams.push((id, self.streams[id])),
                ..self.remove_stream(id)
            }
        } else {
            self
        }
    }

    /// A stream is given up because nobody reads it any more.
    pub open spec fn give_up(self, id: StreamId) -> Self {
        SessionState {
            unread_streams: self.unread_streams.push((id, self.streams[id])),
            ..self.remove_stream(id)
        }
    }

    /// Whether a stream with the number came to its end between two states.
    pub open spec fn lost(self, later: Self, id: StreamId) -> bool {
        ||| exists|i: int|
            self.closed_streams.len() <= i < later.closed_streams.len() && (
            #[trigger] later.closed_streams[i]).0 == id
        ||| exists|i: int|
            self.unread_streams.len() <= i < later.unread_streams.len() && (
            #[trigger] later.unread_streams[i]).0 == id
    }

    /// Whether this end has an id left for another stream.
    pub open spec fn has_stream_id(self) -> bool {
        self.next_stream_id + 2 <= u32::MAX
    }

    /// The peer opens the stream with the given id, or this end opens the next one. An id
    /// that this end takes is never given out again, even if a stream has it already.
    pub open spec fn create_stream(self, id: Option<StreamId>) -> (
        Self,
        Result<HandleState, Error>,
    ) {
        match id {
            Some(id) => self.insert_stream(id, StreamState::SynReceived),
            None => if self.has_stream_id() {
                SessionState {
                    next_stream_id: (self.next_stream_id + 2) as u32,
                    ..self
                }.insert_stream(self.next_stream_id, StreamState::Init)
            } else {
                (self, Err(Error::StreamsExhausted))
            },
        }
    }

    /// This end opens a stream.
    pub open spec fn open_stream(self) -> (Self, Result<HandleState, Error>) {
        if self.is_dead() {
            (self, Err(Error::SessionShutdown))
        } else if self.remote_go_away {
            (self, Err(Error::RemoteGoAway))
        } else {
            self.create_stream(None)
        }
    }

    /// A request for a stream is answered with what comes of it.
    pub open spec fn answer_open(
        self,
        tx: oneshot::Sender<Result<StreamHandle, Error>>,
    ) -> Self {
        let (state, answer) = self.open_stream();
        SessionState { open_answers: state.open_answers.push((tx, answer)), ..state }
    }

    /// A request to close is answered, if somebody asked.
    pub open spec fn answer_close(self, answer: Option<oneshot::Sender<()>>) -> Self {
        match answer {
            Some(tx) => SessionState { close_answers: self.close_answers.push(tx), ..self },
            None => self,
        }
    }

    /// The session is asked to close. The answer comes when the go away is out, and at once
    /// where the session is over.
    pub open spec fn shutdown(self, answer: Option<oneshot::Sender<()>>) -> (
        Self,
        Option<After>,
    ) {
        if self.is_dead() {
            (self.answer_close(answer), None)
        } else {
            (self.queue_go_away(GoAwayCode::Normal), Some(After::GoAway(answer)))
        }
    }

    /// Whether a ping has been unanswered for too long.
    pub open spec fn overdue(self, now: Instant) -> bool {
        exists|id: u32| #[trigger]
            self.pings.contains_key(id) && now.since(self.pings[id]) > TIMEOUT_NANOS
    }

    /// A ping of this end is due.
    pub open spec fn keep_alive(self, ping_at: Instant, now: Instant) -> (Self, Option<After>) {
        if self.overdue(now) {
            (self, None)
        } else {
            let (state, ping_id) = self.queue_ping(None);
            (state, Some(After::Ping { ping_id, ping_at }))
        }
    }

    /// A ping is answered with its own number. The answer to a ping is also the answer to
    /// those with smaller numbers.
    pub open spec fn handle_ping(self, frame: Frame) -> (Self, Option<After>) {
        if frame.flags.has(Flag::Syn) {
            (self.queue_ping(Some(frame.length)).0, Some(After::Nothing))
        } else if frame.flags.has(Flag::Ack) {
            (
                SessionState {
                    pings: self.pings.filter_keys(|id: u32| id > frame.length),
                    ..self
                },
                None,
            )
        } else {
            (self, None)
        }
    }

    /// The peer wants no more streams. Whatever its reason, this end closes too.
    pub open spec fn handle_go_away(self) -> (Self, Option<After>) {
        if self.local_go_away {
            (SessionState { remote_go_away: true, write_pending: Seq::empty(), ..self }, None)
        } else {
            (
                SessionState { remote_go_away: true, ..self }.queue_go_away(GoAwayCode::Normal),
                Some(After::GoAway(None)),
            )
        }
    }

    /// The frames that are to go to streams are dealt with.
    pub open spec fn distribution(self, deliveries: Seq<Delivery>) -> Distribution {
        Distribution {
            state: SessionState { read_pending: Seq::empty(), ..self },
            blocked: Set::empty(),
            stopped: None,
        }.deliver_all(self.read_pending, deliveries)
    }

    /// The frames that are to go to streams are dealt with.
    pub open spec fn distribute(self, deliveries: Seq<Delivery>) -> (Self, Option<After>) {
        let distribution = self.distribution(deliveries);
        (distribution.state, distribution.stopped)
    }

    /// A frame of a stream comes behind those that were left over.
    pub open spec fn handle_stream_message(self, frame: Frame, deliveries: Seq<Delivery>) -> (
        Self,
        Option<After>,
    ) {
        SessionState { read_pending: self.read_pending.push(frame), ..self }.distribute(deliveries)
    }

    /// A frame comes from the peer.
    pub open spec fn handle_frame(self, frame: Frame, deliveries: Seq<Delivery>) -> (
        Self,
        Option<After>,
    ) {
        match frame.ty {
            Type::Data | Type::WindowUpdate => self.handle_stream_message(frame, deliveries),
            Type::Ping => self.handle_ping(frame),
            Type::GoAway => self.handle_go_away(),
        }
    }

    /// A stream tells something.
    pub open spec fn handle_event(self, event: StreamEvent) -> (Self, Option<After>) {
        match event {
            StreamEvent::Frame(frame) => (self.queue(frame), Some(After::Nothing)),
            StreamEvent::StateChanged((id, state)) => if state == StreamState::Closed {
                (self.close_stream(id), None)
            } else {
                (self, None)
            },
            StreamEvent::GoAway => (
                self.queue_go_away(GoAwayCode::ProtocolError),
                Some(After::GoAway(None)),
            ),
        }
    }

    /// A control asks for something.
    pub open spec fn handle_command(self, command: Command) -> (Self, Option<After>) {
        match command {
            Command::OpenStream(tx) => (self.answer_open(tx), None),
            Command::Shutdown(answer) => self.shutdown(Some(answer)),
        }
    }

    /// Whether the session has heard from every stream that waits that it makes itself known to
    /// the peer.
    pub open spec fn has_announced(self) -> bool {
        forall|i: int|
            0 <= i < self.pending_streams.len() ==> are_found(
                (#[trigger] self.pending_streams[i]).announcements,
                self.unbound,
            )
    }

    /// The session has looked for a request, and `queue` was there.
    pub open spec fn look_for_command(self, queue: Seq<Command>) -> Self {
        SessionState { commands: self.commands.push(queue), ..self }
    }

    /// The session has looked for an event that must not get lost, and `queue` was there.
    pub open spec fn look_for_unbound(self, queue: Seq<StreamEvent>) -> Self {
        SessionState { unbound: self.unbound.push(queue), ..self }
    }

    /// The session has looked for another event, and `queue` was there.
    pub open spec fn look_for_event(self, queue: Seq<StreamEvent>) -> Self {
        SessionState { events: self.events.push(queue), ..self }
    }

    /// The oldest request of a control is obeyed.
    pub open spec fn obey(self, queue: Seq<Command>) -> (Self, Option<After>) {
        self.look_for_command(queue).handle_command(queue[0])
    }

    /// The oldest event that must not get lost is dealt with.
    pub open spec fn hear_unbound(self, queue: Seq<StreamEvent>) -> (Self, Option<After>) {
        self.look_for_unbound(queue).handle_event(queue[0])
    }

    /// The oldest other event is dealt with.
    pub open spec fn hear(self, queue: Seq<StreamEvent>) -> (Self, Option<After>) {
        self.look_for_event(queue).handle_event(queue[0])
    }

    /// The queue to the peer has gone out.
    pub open spec fn finish(self, after: After) -> Self {
        match after {
            After::Nothing => self,
            After::GoAway(answer) => SessionState {
                local_go_away: true,
                ..self.answer_close(answer)
            },
            After::Ping { ping_id, ping_at } => SessionState {
                pings: self.pings.insert(ping_id, ping_at),
                ..self
            },
        }
    }

    /// The queue to the peer is to go out. A session that is over drops the first frame of
    /// the queue and leaves the rest.
    pub open spec fn send_all(self, then: Then) -> (Self, StepState) {
        if self.write_pending.len() == 0 {
            (self, StepState::PollFlush(Flushing::Last(then)))
        } else {
            let rest = SessionState { write_pending: self.write_pending.drop_first(), ..self };
            if self.is_dead() {
                (rest, StepState::PollFlush(Flushing::Last(then)))
            } else {
                (rest, StepState::PollReady(self.write_pending[0], then))
            }
        }
    }

    /// What was done at `point` is done, and it goes on behind it.
    pub open spec fn resume(self, point: Point, inputs: Inputs) -> (Self, StepState) {
        match point {
            Point::Flush => {
                let (state, after) = self.distribute(inputs.deliveries);
                match after {
                    Some(after) => state.send_all(Then { point: Point::Distribution, after }),
                    None => (state, StepState::PollFlush(Flushing::Complete)),
                }
            },
            Point::Distribution => (self, StepState::PollFlush(Flushing::Complete)),
            Point::KeepAlive => (self, StepState::PollTimer),
            Point::Commands => (self, StepState::PollFrame { idle: false }),
            Point::Frames => self.take_unbound(false, inputs),
            Point::Unbound => self.take_event(false, inputs),
            Point::Events => self.end_round(false, inputs),
            Point::Call => (self, StepState::Done(OutcomeState::Called)),
        }
    }

    /// The session takes an event that must not get lost.
    pub open spec fn take_unbound(self, idle: bool, inputs: Inputs) -> (Self, StepState) {
        if inputs.unbound.len() > 0 {
            let (state, after) = self.hear_unbound(inputs.unbound);
            match after {
                Some(after) => state.send_all(Then { point: Point::Unbound, after }),
                None => state.take_event(false, inputs),
            }
        } else {
            self.look_for_unbound(inputs.unbound).take_event(idle, inputs)
        }
    }

    /// The session takes another event.
    pub open spec fn take_event(self, idle: bool, inputs: Inputs) -> (Self, StepState) {
        if inputs.events.len() > 0 {
            let (state, after) = self.hear(inputs.events);
            match after {
                Some(after) => state.send_all(Then { point: Point::Events, after }),
                None => state.end_round(false, inputs),
            }
        } else {
            self.look_for_event(inputs.events).end_round(idle, inputs)
        }
    }

    /// A round that found something to do is followed by another.
    pub open spec fn end_round(self, idle: bool, inputs: Inputs) -> (Self, StepState) {
        if idle {
            self.end_poll()
        } else {
            self.begin_round(inputs)
        }
    }

    /// A round takes a request, a frame, and an event of each kind.
    pub open spec fn begin_round(self, inputs: Inputs) -> (Self, StepState) {
        if self.is_dead() {
            self.end_poll()
        } else {
            if inputs.commands.len() > 0 {
                let (state, after) = self.obey(inputs.commands);
                match after {
                    Some(after) => state.send_all(Then { point: Point::Commands, after }),
                    None => (state, StepState::PollFrame { idle: false }),
                }
            } else {
                (
                    self.look_for_command(inputs.commands),
                    StepState::PollFrame { idle: true },
                )
            }
        }
    }

    /// The poll is over. A stream that the peer has opened is handed out.
    pub open spec fn end_poll(self) -> (Self, StepState) {
        if self.is_dead() {
            (self, StepState::Done(OutcomeState::Finished))
        } else if self.pending_streams.len() > 0 {
            (
                SessionState {
                    pending_streams: self.pending_streams.drop_first(),
                    waiting: self.waiting.remove(self.pending_streams[0].id),
                    ..self
                },
                StepState::Done(OutcomeState::Stream(self.pending_streams[0])),
            )
        } else {
            (self, StepState::Done(OutcomeState::Pending))
        }
    }

    /// A poll begins with what was left over by the last one.
    pub open spec fn poll_next(self) -> (Self, StepState) {
        if self.is_dead() {
            (self, StepState::Done(OutcomeState::Finished))
        } else {
            self.flush()
        }
    }

    /// What was left over by the last poll goes out first.
    pub open spec fn flush(self) -> (Self, StepState) {
        if self.read_pending.len() > 0 || self.write_pending.len() > 0 {
            self.send_all(Then { point: Point::Flush, after: After::Nothing })
        } else {
            (self, StepState::PollFlush(Flushing::Complete))
        }
    }

    /// The session is asked to close by a call.
    pub open spec fn call_shutdown(self) -> (Self, StepState) {
        match self.shutdown(None) {
            (state, Some(after)) => state.send_all(Then { point: Point::Call, after }),
            (state, None) => (state, StepState::Done(OutcomeState::Called)),
        }
    }

    /// A go away is sent by a call.
    pub open spec fn call_go_away(self) -> (Self, StepState) {
        self.queue_go_away(GoAwayCode::Normal).send_all(
            Then { point: Point::Call, after: After::GoAway(None) },
        )
    }

    /// What was to be done once the queue has gone out is not done. A request to close gets no
    /// answer.
    pub open spec fn give_over(self, after: After) -> Self {
        match after {
            After::GoAway(Some(tx)) => SessionState {
                close_failures: self.close_failures.push(tx),
                ..self
            },
            _ => self,
        }
    }

    /// The queue could not go out.
    pub open spec fn fail_behind(self, then: Then, error: std::io::Error) -> (Self, StepState) {
        self.give_over(then.after).fail(error)
    }

    /// The session is polled no further.
    pub open spec fn fail(self, error: std::io::Error) -> (Self, StepState) {
        (self, StepState::Done(OutcomeState::Failed(Failure::Io(error))))
    }

    /// The transport was asked whether it takes a frame.
    pub open spec fn ready(self, frame: Frame, then: Then, readiness: Readiness) -> (
        Self,
        StepState,
    ) {
        match readiness {
            Readiness::Ready => (self, StepState::StartSend(frame, then)),
            Readiness::Pending => (
                SessionState { write_pending: seq![frame] + self.write_pending, ..self },
                StepState::PollFlush(Flushing::Retry(then)),
            ),
            Readiness::Failed(error) => self.fail_behind(then, error),
        }
    }

    /// The transport was given a frame.
    pub open spec fn sent(self, then: Then, result: Result<(), std::io::Error>) -> (
        Self,
        StepState,
    ) {
        match result {
            Ok(()) => self.send_all(then),
            Err(error) => self.fail_behind(then, error),
        }
    }

    /// The transport was flushed.
    pub open spec fn flushed(self, flushing: Flushing, readiness: Readiness, inputs: Inputs) -> (
        Self,
        StepState,
    ) {
        match (readiness, flushing) {
            (Readiness::Failed(error), Flushing::Retry(then)) => self.fail_behind(then, error),
            (Readiness::Failed(error), Flushing::Last(then)) => self.fail_behind(then, error),
            (Readiness::Failed(error), Flushing::Complete) => self.fail(error),
            (Readiness::Ready, Flushing::Retry(then)) => self.send_all(then),
            (Readiness::Pending, Flushing::Retry(then)) => self.sent_all(then, inputs),
            (_, Flushing::Last(then)) => self.sent_all(then, inputs),
            (_, Flushing::Complete) => match self.keepalive {
                Some(_) => (self, StepState::PollTimer),
                None => self.begin_round(inputs),
            },
        }
    }

    /// The queue to the peer has gone out, as far as the transport takes it.
    pub open spec fn sent_all(self, then: Then, inputs: Inputs) -> (Self, StepState) {
        self.finish(then.after).resume(then.point, inputs)
    }

    /// The interval between two pings was polled.
    pub open spec fn ticked(self, tick: Tick, inputs: Inputs) -> (Self, StepState) {
        match tick {
            Tick::Due { ping_at, now } => {
                let (state, after) = self.keep_alive(ping_at, now);
                match after {
                    Some(after) => state.send_all(Then { point: Point::KeepAlive, after }),
                    None => (state, StepState::Done(OutcomeState::Failed(Failure::TimedOut))),
                }
            },
            _ => self.begin_round(inputs),
        }
    }

    /// A frame has been dealt with.
    pub open spec fn go_on(self, after: Option<After>, inputs: Inputs) -> (Self, StepState) {
        match after {
            Some(after) => self.send_all(Then { point: Point::Frames, after }),
            None => self.take_unbound(false, inputs),
        }
    }

    /// What comes behind a frame does not depend on what becomes of frames.
    pub proof fn lemma_go_on(self, after: Option<After>, inputs: Inputs, others: Inputs)
        requires
            others == (Inputs { deliveries: others.deliveries, ..inputs }),
        ensures
            self.go_on(after, inputs) == self.go_on(after, others),
    {
    }

    /// The transport was asked for a frame.
    pub open spec fn received(self, idle: bool, incoming: Incoming, inputs: Inputs) -> (
        Self,
        StepState,
    ) {
        match incoming {
            Incoming::Frame(frame) => {
                let (state, after) = self.handle_frame(frame, inputs.deliveries);
                state.go_on(after, inputs)
            },
            Incoming::Eof => SessionState { eof: true, ..self }.go_on(None, inputs),
            Incoming::Pending => self.take_unbound(idle, inputs),
            Incoming::Failed(error) => self.fail(error),
        }
    }
}

} // verus!
