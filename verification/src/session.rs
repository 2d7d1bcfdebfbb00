//! The session, can open and manage substreams
use futures::channel::mpsc::{Receiver, Sender, UnboundedReceiver, UnboundedSender};
use futures::channel::oneshot;
use std::collections::hash_map::Entry;
use std::collections::{BTreeMap, HashMap, HashSet, VecDeque};
use std::task::Context;

use vstd::prelude::*;
use vstd::std_specs::iter::IteratorSpec;

use crate::channel::{
    are_found, clone_command_sender, clone_event_sender, clone_unbound_sender, close_fate,
    command_buffer, command_channel, commands_found, commands_linked, drop_close_request,
    event_buffer, event_channel, events_found, events_linked, frame_buffer, frame_channel,
    frames_asked, frames_last_told, frames_linked, frames_sent, in_turn, lemma_in_turn_push,
    open_fate, poll_commands, poll_events, poll_frame_sender, poll_unbound, send_close_answer,
    send_frame, send_open_answer, unbound_channel, unbound_found, unbound_linked, was_found,
    Capacity, Fate, Handover, Polled,
};
use crate::config::Config;
use crate::control::{Command, Control};
use crate::error::{Error, Failure};
use crate::frame::{Flag, Flags, Frame, GoAwayCode, StreamId, Type};
use crate::model::{Delivery, Distribution, Inputs, SessionState, FRAME_BUFFER, TIMEOUT_NANOS};
use crate::step::{After, Flushing, Incoming, Outcome, Point, Readiness, Step, Then, Tick};
use crate::stream::{HandleState, StreamEnds, StreamEvent, StreamHandle, StreamState};
use crate::time::{interval, Duration, Instant, Interval};

verus! {

/// A buffer that held more than this many frames is replaced by a smaller one.
const BUF_SHRINK_THRESHOLD: usize = 255;

/// The number of events, and of commands, that wait for the session.
const EVENT_BUFFER: usize = 32;

/// Session type, client or server
#[derive(Copy, Clone, Debug, Eq, PartialEq, Ord, PartialOrd, Structural)]
pub enum SessionType {
    /// The session is a client
    Client,
    /// The session is a server (typical low level stream is an accepted TcpStream)
    Server,
}

impl SessionType {
    /// If this is a client type (inbound connection)
    pub fn is_client(self) -> (client: bool)
        ensures
            client == (self == SessionType::Client),
    {
        self == SessionType::Client
    }

    /// If this is a server type (outbound connection)
    pub fn is_server(self) -> (server: bool)
        ensures
            server == (self == SessionType::Server),
    {
        self == SessionType::Server
    }

    /// The id of the first stream that this end opens.
    pub open spec fn first_stream_id(self) -> StreamId {
        match self {
            SessionType::Client => 1,
            SessionType::Server => 2,
        }
    }
}

/// The session
pub struct Session {
    // Got EOF from low level raw stream
    eof: bool,
    // remote_go_away indicates the remote side does
    // not want further connections.
    remote_go_away: bool,
    // local_go_away indicates that we should stop
    // accepting further connections.
    local_go_away: bool,
    // next_stream_id is the next stream we should
    // send. This depends if we are a client/server.
    next_stream_id: StreamId,
    ty: SessionType,
    // config holds our configuration
    config: Config,
    // pings is used to track inflight pings
    pings: BTreeMap<u32, Instant>,
    ping_id: u32,
    // streams maps a stream id to a sender of stream,
    streams: HashMap<StreamId, Sender<Frame>>,
    // The StreamHandle not yet been polled
    pending_streams: VecDeque<StreamHandle>,
    // The buffer which will send to underlying network
    write_pending_frames: VecDeque<Frame>,
    // The buffer which will distribute to sub streams
    read_pending_frames: VecDeque<Frame>,
    // For receive events from sub streams (for clone to new stream)
    event_sender: Sender<StreamEvent>,
    // For receive events from sub streams
    event_receiver: Receiver<StreamEvent>,
    // The control information must be sent successfully and will not cause memory problems
    unbound_event_sender: UnboundedSender<StreamEvent>,
    unbound_event_receiver: UnboundedReceiver<StreamEvent>,
    // use to async open stream/close session
    control_sender: Sender<Command>,
    control_receiver: Receiver<Command>,
    keepalive: Option<Interval>,
    // The streams that have come to their end
    ends: StreamEnds,
    // The streams that were given up because nobody reads them any more
    unread_streams: Ghost<Seq<(StreamId, Sender<Frame>)>>,
    // The streams that told that they are closed
    closed_streams: Ghost<Seq<(StreamId, Sender<Frame>)>>,
    // The open streams whose handles have not yet been polled
    waiting: Ghost<Set<StreamId>>,
    // The requests that have been answered
    open_answers: Ghost<Seq<
        (oneshot::Sender<Result<StreamHandle, Error>>, Result<HandleState, Error>),
    >>,
    close_answers: Ghost<Seq<oneshot::Sender<()>>>,
    // The requests to close that were dropped because the go away could not be sent
    close_failures: Ghost<Seq<oneshot::Sender<()>>>,
}

impl View for Session {
    type V = SessionState;

    closed spec fn view(&self) -> SessionState {
        SessionState {
            eof: self.eof,
            remote_go_away: self.remote_go_away,
            local_go_away: self.local_go_away,
            next_stream_id: self.next_stream_id,
            ty: self.ty,
            config: self.config,
            pings: self.pings@,
            ping_id: self.ping_id,
            streams: self.streams@.map_values(|sender: Sender<Frame>| frames_sent(sender)),
            asked: self.streams@.map_values(|sender: Sender<Frame>| frames_asked(sender)),
            unread_streams: self.unread_streams@.map_values(
                |entry: (StreamId, Sender<Frame>)| (entry.0, frames_sent(entry.1)),
            ),
            closed_streams: self.closed_streams@.map_values(
                |entry: (StreamId, Sender<Frame>)| (entry.0, frames_sent(entry.1)),
            ),
            waiting: self.waiting@,
            pending_streams: self.pending_streams@.map_values(|handle: StreamHandle| handle@),
            write_pending: self.write_pending_frames@,
            read_pending: self.read_pending_frames@,
            commands: commands_found(self.control_receiver),
            open_answers: self.open_answers@,
            close_answers: self.close_answers@,
            close_failures: self.close_failures@,
            unbound: unbound_found(self.unbound_event_receiver),
            events: events_found(self.event_receiver),
            keepalive: self.keepalive,
        }
    }
}

impl Session {
    /// The session holds a sending end of each of its channels, its channels have the size
    /// that they are given, the streams that wait to be handed out report to it, the streams
    /// that were given up had said that nobody reads them, the sending ends of the streams that
    /// are no more have been dropped, and the answers on record have been given.
    pub closed spec fn wf(&self) -> bool {
        &&& self@.valid()
        &&& events_linked(self.event_sender, self.event_receiver)
        &&& unbound_linked(self.unbound_event_sender, self.unbound_event_receiver)
        &&& commands_linked(self.control_sender, self.control_receiver)
        &&& in_turn(self@.events)
        &&& in_turn(self@.unbound)
        &&& in_turn(self@.commands)
        &&& event_buffer(self.event_receiver) == EVENT_BUFFER
        &&& command_buffer(self.control_receiver) == EVENT_BUFFER
        &&& forall|id: StreamId| #[trigger]
            self.streams@.contains_key(id) ==> frame_buffer(self.streams@[id]) == FRAME_BUFFER
        &&& forall|i: int|
            0 <= i < self.pending_streams@.len() ==> self.hears(
                #[trigger] self.pending_streams@[i],
            ) && self.serves(self.pending_streams@[i])
        &&& forall|id: StreamId| #[trigger]
            self.waiting@.contains(id) ==> self.streams@.contains_key(id) && holds(
                self.pending_streams@,
                self.streams@[id],
                id,
            )
        &&& forall|i: int|
            0 <= i < self.unread_streams@.len() ==> frames_last_told(
                (#[trigger] self.unread_streams@[i]).1,
            ) == Some(Capacity::Closed) && self.ends.has_dropped(self.unread_streams@[i].1)
        &&& forall|i: int|
            0 <= i < self.closed_streams@.len() ==> self.ends.has_dropped(
                (#[trigger] self.closed_streams@[i]).1,
            )
        &&& forall|i: int|
            0 <= i < self.open_answers@.len() ==> self.has_answered(
                (#[trigger] self.open_answers@[i]).0,
                self.open_answers@[i].1,
            )
        &&& forall|i: int|
            0 <= i < self.close_answers@.len() ==> !(close_fate(
                #[trigger] self.close_answers@[i],
            ) is Dropped)
        &&& forall|i: int|
            0 <= i < self.close_failures@.len() ==> close_fate(
                #[trigger] self.close_failures@[i],
            ) is Dropped
    }

    /// Whether a request for a stream got the given answer, or nobody waited for it any more.
    /// A stream that was the answer has the ear of the session.
    pub open spec fn has_answered(
        &self,
        tx: oneshot::Sender<Result<StreamHandle, Error>>,
        answer: Result<HandleState, Error>,
    ) -> bool {
        match open_fate(tx) {
            Fate::Answered(Ok(handle)) => answer == Ok::<HandleState, Error>(handle@)
                && self.hears(handle) && self.serves(handle),
            Fate::Answered(Err(error)) => answer == Err::<HandleState, Error>(error),
            Fate::Abandoned => true,
            Fate::Dropped => false,
        }
    }

    /// A stream is given up only where its channel has said that nobody reads it any more.
    pub proof fn streams_given_up_are_unread(self, i: int)
        requires
            self.wf(),
            0 <= i < self@.unread_streams.len(),
        ensures
            exists|sender: Sender<Frame>|
                frames_last_told(sender) == Some(Capacity::Closed) && self@.unread_streams[i].1
                    == #[trigger] frames_sent(sender),
    {
        assert(frames_last_told(self.unread_streams@[i].1) == Some(Capacity::Closed));
        assert(self@.unread_streams[i].1 == frames_sent(self.unread_streams@[i].1));
    }

    /// The end at which the events arrive that must not get lost.
    pub closed spec fn unbound_end(&self) -> UnboundedReceiver<StreamEvent> {
        self.unbound_event_receiver
    }

    /// The end at which the other events arrive.
    pub closed spec fn event_end(&self) -> Receiver<StreamEvent> {
        self.event_receiver
    }

    /// The end at which the requests arrive.
    pub closed spec fn command_end(&self) -> Receiver<Command> {
        self.control_receiver
    }

    /// What the session has found came out of the ends at which events and requests arrive, and
    /// a stream or a control has its ear if it reports to these.
    pub proof fn what_is_told_arrives(self, handle: StreamHandle, control: Control)
        ensures
            self@.unbound == unbound_found(self.unbound_end()),
            self@.events == events_found(self.event_end()),
            self@.commands == commands_found(self.command_end()),
            self.hears(handle) <==> handle.reports_to(self.event_end(), self.unbound_end()),
            self.obeys(control) <==> control.reports_to(self.command_end()),
    {
    }

    /// Thirty-two events and as many requests wait for the session, besides one of each sender.
    pub proof fn thirty_two_messages_wait(self)
        requires
            self.wf(),
        ensures
            event_buffer(self.event_end()) == 32,
            command_buffer(self.command_end()) == 32,
    {
    }

    /// A stream that a step hands out has the ear of the session, is served by it, and has asked
    /// the session to send all that it has announced.
    pub proof fn what_is_handed_out_works(self, step: Step, handle: StreamHandle, i: int)
        requires
            self.vouches(step),
            step == Step::Done(Outcome::Stream(handle)),
        ensures
            self.hears(handle),
            self.serves(handle),
            0 <= i < handle@.announcements.len() ==> exists|j: int|
                0 <= j < self@.unbound.len() && (#[trigger] self@.unbound[j]).contains(
                    handle@.announcements[i],
                ),
    {
        if 0 <= i < handle@.announcements.len() {
            assert(was_found(handle@.announcements[i], self@.unbound));
        }
    }

    /// Whoever asked for a stream and waited for the answer got the answer on record: the error,
    /// or a stream that has the ear of the session and is served by it. No request on record was
    /// dropped.
    pub proof fn whoever_asked_got_the_answer(self, i: int)
        requires
            self.wf(),
            0 <= i < self@.open_answers.len(),
        ensures
            ({
                let (tx, answer) = self@.open_answers[i];
                &&& !(open_fate(tx) is Dropped)
                &&& forall|handle: StreamHandle|
                    open_fate(tx) == Fate::Answered(Ok::<StreamHandle, Error>(handle)) ==> answer
                        == Ok::<HandleState, Error>(handle@) && #[trigger] self.hears(handle)
                        && self.serves(handle)
                &&& forall|error: Error| #[trigger]
                    open_fate(tx) == Fate::Answered(Err::<StreamHandle, Error>(error)) ==> answer
                        == Err::<HandleState, Error>(error)
            }),
    {
        let (tx, answer) = self.open_answers@[i];
        assert(self.has_answered(tx, answer));
    }

    /// Nothing that waits for the session is lost: the requests and the events are taken one
    /// after the other, each look finds what the last one left, and a look that finds nothing
    /// finds an empty channel.
    pub proof fn everything_is_taken_in_turn(self)
        requires
            self.wf(),
        ensures
            in_turn(self@.commands),
            in_turn(self@.unbound),
            in_turn(self@.events),
    {
    }

    /// The answers that are on record have been given, unless nobody waited for them any more,
    /// and the requests to close that failed have been dropped without an answer.
    pub proof fn answers_are_given(self)
        requires
            self.wf(),
        ensures
            forall|i: int|
                0 <= i < self@.open_answers.len() ==> self.has_answered(
                    (#[trigger] self@.open_answers[i]).0,
                    self@.open_answers[i].1,
                ),
            forall|i: int|
                0 <= i < self@.close_answers.len() ==> !(close_fate(
                    #[trigger] self@.close_answers[i],
                ) is Dropped),
            forall|i: int|
                0 <= i < self@.close_failures.len() ==> close_fate(
                    #[trigger] self@.close_failures[i],
                ) is Dropped,
    {
    }

    /// Whether the session gets the events of the stream.
    pub closed spec fn hears(&self, handle: StreamHandle) -> bool {
        handle.reports_to(self.event_receiver, self.unbound_event_receiver)
    }

    /// Whether the frames that come for the stream go to the handle.
    pub closed spec fn feeds(&self, handle: StreamHandle) -> bool {
        is_fed(self.streams@, handle)
    }

    /// Whether the frames that came for the stream went to the handle, until the stream told
    /// that it is closed.
    pub closed spec fn has_closed(&self, handle: StreamHandle) -> bool {
        was_fed(self.closed_streams@, handle)
    }

    /// Whether the frames that came for the stream went to the handle, until nobody read it any
    /// more.
    pub closed spec fn has_given_up(&self, handle: StreamHandle) -> bool {
        was_fed(self.unread_streams@, handle)
    }

    /// Whether the frames that come for the stream go to the handle, unless the stream has come
    /// to its end.
    pub closed spec fn serves(&self, handle: StreamHandle) -> bool {
        is_served(self.streams@, self.closed_streams@, self.unread_streams@, handle)
    }

    /// A stream that is used stays with its session.
    pub proof fn a_stream_in_use_is_served(self, earlier: StreamHandle, handle: StreamHandle)
        requires
            handle.is_still(earlier),
        ensures
            self.hears(earlier) ==> self.hears(handle),
            self.feeds(earlier) ==> self.feeds(handle),
            self.serves(earlier) ==> self.serves(handle),
    {
        if was_fed(self.closed_streams@, earlier) {
            lemma_still_fed(self.closed_streams@, earlier, handle);
        }
        if was_fed(self.unread_streams@, earlier) {
            lemma_still_fed(self.unread_streams@, earlier, handle);
        }
    }

    /// A stream that has not come to its end gets the frames that come for it. One that has is
    /// on record.
    pub proof fn an_open_stream_is_fed(self, handle: StreamHandle)
        ensures
            self.serves(handle) == (self.feeds(handle) || self.has_closed(handle)
                || self.has_given_up(handle)),
            self.feeds(handle) ==> self@.streams.contains_key(handle@.id),
            self.has_closed(handle) ==> exists|i: int|
                0 <= i < self@.closed_streams.len() && (#[trigger] self@.closed_streams[i]).0
                    == handle@.id,
            self.has_given_up(handle) ==> exists|i: int|
                0 <= i < self@.unread_streams.len() && (#[trigger] self@.unread_streams[i]).0
                    == handle@.id,
    {
        if self.has_closed(handle) {
            let i = fed_by(self.closed_streams@, handle);
            assert(self@.closed_streams[i].0 == handle@.id);
        }
        if self.has_given_up(handle) {
            let i = fed_by(self.unread_streams@, handle);
            assert(self@.unread_streams[i].0 == handle@.id);
        }
    }

    /// What an open stream has been given is what was sent into the channel of its handle.
    pub proof fn what_is_given_goes_to_the_handle(self, handle: StreamHandle)
        requires
            self.feeds(handle),
        ensures
            exists|sender: Sender<Frame>| #[trigger]
                frames_linked(sender, handle.inbox()) && self@.streams[handle@.id] == frames_sent(
                    sender,
                ) && self@.asked[handle@.id] == frames_asked(sender),
    {
        let sender = self.streams@[handle@.id];
        assert(frames_linked(sender, handle.inbox()));
    }

    /// The reader of a stream that has come to its end does not wait: it gets the frames that
    /// the stream had been given, those that it has not read yet and no others, and then the
    /// end.
    pub proof fn a_reader_of_a_stream_that_ended_gets_the_end(
        self,
        ends: StreamEnds,
        handle: StreamHandle,
    )
        requires
            self.wf(),
            self.knows(ends),
            self.has_closed(handle) || self.has_given_up(handle),
        ensures
            ends.left_for(handle) is Some,
            ({
                let all = handle@.read() + ends.left_for(handle)->0;
                ||| exists|i: int|
                    0 <= i < self@.closed_streams.len() && #[trigger] self@.closed_streams[i] == (
                        handle@.id,
                        all,
                    )
                ||| exists|i: int|
                    0 <= i < self@.unread_streams.len() && #[trigger] self@.unread_streams[i] == (
                        handle@.id,
                        all,
                    )
            }),
    {
        let all = handle@.read() + ends.left_for(handle)->0;
        if self.has_closed(handle) {
            let i = fed_by(self.closed_streams@, handle);
            assert(self.ends.has_dropped(self.closed_streams@[i].1));
            ends.lemma_left(self.closed_streams@[i].1, handle);
            assert(self@.closed_streams[i] == (handle@.id, all));
        } else {
            let i = fed_by(self.unread_streams@, handle);
            assert(self.ends.has_dropped(self.unread_streams@[i].1));
            ends.lemma_left(self.unread_streams@[i].1, handle);
            assert(self@.unread_streams[i] == (handle@.id, all));
        }
    }

    /// Whether all streams of the session have come to their end, and are among `ends`: what the
    /// session has given to a stream and its reader has not read is what is left.
    pub open spec fn ends_with(&self, ends: StreamEnds) -> bool {
        &&& self.knows(ends)
        &&& forall|handle: StreamHandle|
            self.feeds(handle) ==> (#[trigger] ends.left_for(handle)) is Some && handle@.read()
                + ends.left_for(handle)->0 == self@.streams[handle@.id]
    }

    /// When a session has been dropped, the reader of any stream that it ever had does not wait:
    /// it gets what is left, and then the end.
    pub proof fn every_reader_gets_the_end(
        self,
        earlier: Session,
        ends: StreamEnds,
        handle: StreamHandle,
    )
        requires
            self.wf(),
            self.continues(earlier),
            self.ends_with(ends),
            earlier.serves(handle),
        ensures
            ends.left_for(handle) is Some,
            self.feeds(handle) ==> handle@.read() + ends.left_for(handle)->0
                == self@.streams[handle@.id],
    {
        assert(self.serves(handle));
        if !self.feeds(handle) {
            self.a_reader_of_a_stream_that_ended_gets_the_end(ends, handle);
        }
    }

    /// Whether the streams of the session that have come to their end are among `ends`.
    pub closed spec fn knows(&self, ends: StreamEnds) -> bool {
        ends.go_on_from(self.ends)
    }

    /// The streams that have come to their end so far.
    pub fn ends(&self) -> (ends: &StreamEnds)
        ensures
            self.knows(*ends),
    {
        &self.ends
    }

    /// Whether the session gets the requests of the control.
    pub closed spec fn obeys(&self, control: Control) -> bool {
        control.reports_to(self.control_receiver)
    }

    /// Whether the session gets the events and requests of all those whose events and
    /// requests `earlier` gets, and gives the frames of a stream to the handle that `earlier`
    /// gives them to, until the stream comes to its end.
    pub closed spec fn continues(&self, earlier: Session) -> bool {
        &&& forall|handle: StreamHandle|
            handle.reports_to(earlier.event_receiver, earlier.unbound_event_receiver)
                ==> #[trigger] handle.reports_to(self.event_receiver, self.unbound_event_receiver)
        &&& forall|control: Control|
            control.reports_to(earlier.control_receiver) ==> #[trigger] control.reports_to(
                self.control_receiver,
            )
        &&& forall|handle: StreamHandle|
            is_served(
                earlier.streams@,
                earlier.closed_streams@,
                earlier.unread_streams@,
                handle,
            ) ==> #[trigger] is_served(
                self.streams@,
                self.closed_streams@,
                self.unread_streams@,
                handle,
            )
        &&& earlier.closed_streams@.is_prefix_of(self.closed_streams@)
        &&& earlier.unread_streams@.is_prefix_of(self.unread_streams@)
        &&& forall|id: StreamId|
            endings(earlier.closed_streams@, id) <= #[trigger] endings(self.closed_streams@, id)
        &&& forall|id: StreamId|
            endings(earlier.unread_streams@, id) <= #[trigger] endings(self.unread_streams@, id)
        &&& forall|handle: StreamHandle|
            is_fed(earlier.streams@, handle) ==> #[trigger] is_fed(self.streams@, handle)
                || endings(earlier.closed_streams@, handle@.id) < endings(
                self.closed_streams@,
                handle@.id,
            ) || endings(earlier.unread_streams@, handle@.id) < endings(
                self.unread_streams@,
                handle@.id,
            )
    }

    /// A stream or a control that has the ear of a session keeps it. The frames of a stream go
    /// to the same handle until a stream with its number comes to its end.
    pub proof fn heard_for_good(self, earlier: Session, handle: StreamHandle, control: Control)
        requires
            self.continues(earlier),
        ensures
            earlier.hears(handle) ==> self.hears(handle),
            earlier.obeys(control) ==> self.obeys(control),
            earlier.serves(handle) ==> self.serves(handle),
            earlier.feeds(handle) ==> self.feeds(handle) || earlier@.lost(self@, handle@.id),
            earlier@.lost(self@, handle@.id) ==> (exists|i: int|
                earlier@.closed_streams.len() <= i < self@.closed_streams.len() && (
                #[trigger] self@.closed_streams[i]).0 == handle@.id) || (exists|i: int|
                earlier@.unread_streams.len() <= i < self@.unread_streams.len() && (
                #[trigger] self@.unread_streams[i]).0 == handle@.id),
    {
        let id = handle@.id;
        if earlier.feeds(handle) && !self.feeds(handle) {
            if endings(earlier.closed_streams@, id) < endings(self.closed_streams@, id) {
                let i = lemma_ended(earlier.closed_streams@, self.closed_streams@, id);
                assert(self@.closed_streams[i].0 == id);
            } else {
                let i = lemma_ended(earlier.unread_streams@, self.unread_streams@, id);
                assert(self@.unread_streams[i].0 == id);
            }
        }
    }

    /// What goes on step by step goes on as a whole.
    pub proof fn continues_further(self, between: Session, earlier: Session)
        requires
            self.continues(between),
            between.continues(earlier),
        ensures
            self.continues(earlier),
    {
    }

    /// Whether the session gets the events of the stream that the step hands out, if it does,
    /// and has heard that the stream accepts, and the frames that come for the stream go to it.
    pub open spec fn vouches(&self, step: Step) -> bool {
        step matches Step::Done(Outcome::Stream(handle)) ==> self.hears(handle) && self.serves(
            handle,
        ) && are_found(handle@.announcements, self@.unbound)
    }

    /// Create a new session
    pub fn new(config: Config, ty: SessionType) -> (session: Session)
        requires
            config.valid(),
        ensures
            session.wf(),
            session@ == SessionState::fresh(config, ty),
    {
        let next_stream_id: StreamId = match ty {
            SessionType::Client => 1,
            SessionType::Server => 2,
        };
        let (event_sender, event_receiver) = event_channel(EVENT_BUFFER);
        let (unbound_event_sender, unbound_event_receiver) = unbound_channel();
        let (control_sender, control_receiver) = command_channel(EVENT_BUFFER);
        let keepalive = if config.enable_keepalive {
            Some(interval(config.keepalive_interval))
        } else {
            None
        };
        let session = Session {
            eof: false,
            remote_go_away: false,
            local_go_away: false,
            next_stream_id,
            ty,
            config,
            pings: BTreeMap::new(),
            ping_id: 0,
            streams: HashMap::new(),
            pending_streams: VecDeque::new(),
            write_pending_frames: VecDeque::new(),
            read_pending_frames: VecDeque::new(),
            event_sender,
            event_receiver,
            unbound_event_sender,
            unbound_event_receiver,
            control_sender,
            control_receiver,
            keepalive,
            ends: StreamEnds::new(),
            unread_streams: Ghost(Seq::empty()),
            closed_streams: Ghost(Seq::empty()),
            waiting: Ghost(Set::empty()),
            open_answers: Ghost(Seq::empty()),
            close_answers: Ghost(Seq::empty()),
            close_failures: Ghost(Seq::empty()),
        };
        assert(session@ =~= SessionState::fresh(config, ty));
        proof {
            reveal(in_turn);
        }
        session
    }

    /// Create a server session
    pub fn new_server(config: Config) -> (session: Session)
        requires
            config.valid(),
        ensures
            session.wf(),
            session@ == SessionState::fresh(config, SessionType::Server),
    {
        Self::new(config, SessionType::Server)
    }

    /// Create a client session
    pub fn new_client(config: Config) -> (session: Session)
        requires
            config.valid(),
        ensures
            session.wf(),
            session@ == SessionState::fresh(config, SessionType::Client),
    {
        Self::new(config, SessionType::Client)
    }

    fn is_dead(&self) -> (dead: bool)
        ensures
            dead == self@.is_dead(),
    {
        self.remote_go_away && self.local_go_away || self.eof
    }

    fn create_stream(&mut self, stream_id: Option<StreamId>) -> (result: Result<
        StreamHandle,
        Error,
    >)
        requires
            old(self).wf(),
        ensures
            final(self).wf(),
            final(self).continues(*old(self)),
            final(self)@ == old(self)@.create_stream(stream_id).0,
            match result {
                Ok(handle) => old(self)@.create_stream(stream_id).1 == Ok::<HandleState, Error>(
                    handle@,
                ) && final(self).hears(handle) && final(self).feeds(handle),
                Err(error) => old(self)@.create_stream(stream_id).1 == Err::<HandleState, Error>(
                    error,
                ),
            },
    {
        let (stream_id, state) = match stream_id {
            Some(stream_id) => (stream_id, StreamState::SynReceived),
            None => {
                let next_id: StreamId = self.next_stream_id;
                match next_id.checked_add(2) {
                    Some(id) => {
                        self.next_stream_id = id;
                    },
                    None => {
                        return Err(Error::StreamsExhausted);
                    },
                }
                (next_id, StreamState::Init)
            },
        };
        let (frame_sender, frame_receiver) = frame_channel(FRAME_BUFFER);
        match self.streams.entry(stream_id) {
            Entry::Occupied(_) => {
                return Err(Error::DuplicateStream);
            },
            Entry::Vacant(entry) => {
                entry.insert(frame_sender);
            },
        }
        let mut stream = StreamHandle::new(
            stream_id,
            clone_event_sender(&self.event_sender),
            clone_unbound_sender(&self.unbound_event_sender),
            frame_receiver,
            state,
            self.config.max_stream_window_size,
            self.config.max_stream_window_size,
        );
        stream.send_window_update(&self.event_receiver, &self.unbound_event_receiver);
        Ok(stream)
    }

    /// Offers a frame to its stream.
    fn offer(&mut self, cx: &mut Context<'_>, frame: Frame) -> (offer: Offer)
        requires
            old(self).wf(),
        ensures
            final(self).wf(),
            final(self).continues(*old(self)),
            match offer {
                Offer::NoStream => final(self)@ == old(self)@ && !old(self)@.streams.contains_key(
                    frame.stream_id,
                ),
                Offer::Taken => old(self)@.streams.contains_key(frame.stream_id) && final(self)@
                    == (SessionState {
                    streams: old(self)@.streams.insert(
                        frame.stream_id,
                        old(self)@.streams[frame.stream_id].push(frame),
                    ),
                    ..old(self)@
                }).ask(frame.stream_id, Capacity::Free),
                Offer::Refused(back) => old(self)@.streams.contains_key(frame.stream_id)
                    && final(self)@ == old(self)@.ask(frame.stream_id, Capacity::Full) && back
                    == frame && old(self)@.streams[frame.stream_id].len() > FRAME_BUFFER,
                Offer::Disconnected(id) => old(self)@.streams.contains_key(frame.stream_id)
                    && final(self)@.remove_stream(id) == old(self)@.remove_stream(id)
                    && final(self)@.streams == old(self)@.streams && id == frame.stream_id
                    && !old(self)@.waiting.contains(id)
                    && frames_last_told(final(self).streams@[id]) == Some(Capacity::Closed),
            },
    {
        let stream_id: StreamId = frame.stream_id();
        let offer = match self.streams.entry(stream_id) {
            Entry::Occupied(mut entry) => {
                let frame_sender = entry.get_mut();
                match poll_frame_sender(frame_sender, &self.pending_streams, cx) {
                    Capacity::Free => match send_frame(
                        frame_sender,
                        &self.pending_streams,
                        frame,
                    ) {
                        Handover::Sent => Offer::Taken,
                        Handover::Full(frame) => Offer::Refused(frame),
                        Handover::Closed => Offer::Disconnected(stream_id),
                    },
                    Capacity::Full => Offer::Refused(frame),
                    Capacity::Closed => Offer::Disconnected(stream_id),
                }
            },
            Entry::Vacant(_) => Offer::NoStream,
        };
        proof {
            let before = old(self)@;
            let id = frame.stream_id;
            match offer {
                Offer::NoStream => {
                    assert(self@ =~= before);
                },
                Offer::Taken => {
                    assert(self@ =~= (SessionState {
                        streams: before.streams.insert(id, before.streams[id].push(frame)),
                        ..before
                    }).ask(id, Capacity::Free));
                },
                Offer::Refused(_) => {
                    assert(self@ =~= before.ask(id, Capacity::Full));
                },
                Offer::Disconnected(_) => {
                    assert(self@.streams =~= before.streams);
                    assert(self@.remove_stream(id) =~= before.remove_stream(id));
                },
            }
        }
        offer
    }

    /// Deals with the answer to an offer.
    fn settle(&mut self, offer: Offer, block_substream: &mut HashSet<StreamId>)
        requires
            old(self).wf(),
            offer matches Offer::Disconnected(id) ==> old(self)@.streams.contains_key(id)
                && frames_last_told(old(self).streams@[id]) == Some(Capacity::Closed),
        ensures
            final(self).wf(),
            final(self).continues(*old(self)),
            match offer {
                Offer::NoStream | Offer::Taken => final(self)@ == old(self)@
                    && final(block_substream)@ == old(block_substream)@,
                Offer::Refused(frame) => final(self)@ == (SessionState {
                    read_pending: old(self)@.read_pending.push(frame),
                    ..old(self)@
                }) && final(block_substream)@ == old(block_substream)@.insert(frame.stream_id),
                Offer::Disconnected(id) => final(self)@ == old(self)@.give_up(id)
                    && final(block_substream)@ == old(block_substream)@,
            },
    {
        match offer {
            Offer::NoStream => {},
            Offer::Taken => {},
            Offer::Refused(frame) => {
                block_substream.insert(frame.stream_id());
                self.read_pending_frames.push_back(frame);
            },
            Offer::Disconnected(stream_id) => {
                let ghost sender = self.streams@[stream_id];
                if let Some(sender) = self.streams.remove(&stream_id) {
                    self.ends.drop_one(stream_id, sender);
                }
                proof {
                    lemma_was_fed(self.unread_streams@, stream_id, sender);
                    self.unread_streams@ = self.unread_streams@.push((stream_id, sender));
                    self.waiting@ = self.waiting@.remove(stream_id);
                }
                assert(self@ =~= old(self)@.give_up(stream_id));
            },
        }
    }

    /// Deals with one frame of a stream.
    fn deliver(
        &mut self,
        cx: &mut Context<'_>,
        frame: Frame,
        block_substream: &mut HashSet<StreamId>,
    ) -> (stopped: Option<After>)
        requires
            old(self).wf(),
        ensures
            final(self).wf(),
            final(self).continues(*old(self)),
            exists|delivery: Delivery|
                (Distribution { state: final(self)@, blocked: final(block_substream)@, stopped })
                    == #[trigger] (Distribution {
                    state: old(self)@,
                    blocked: old(block_substream)@,
                    stopped: None,
                }).deliver(frame, delivery),
    {
        let ghost start = Distribution {
            state: self@,
            blocked: block_substream@,
            stopped: None,
        };
        let stream_id: StreamId = frame.stream_id();
        // Guarantee the order in which messages are sent
        if block_substream.contains(&stream_id) {
            self.read_pending_frames.push_back(frame);
            assert(start.deliver(frame, Delivery::Blocked).blocked =~= block_substream@);
            return None;
        }
        if frame.flags().contains(Flag::Syn) {
            if self.local_go_away {
                let flags = Flags::from(Flag::Rst);
                self.queue_frame(Frame::new_window_update(flags, stream_id, 0));
                assert(start.deliver(frame, Delivery::Sent).state == self@);
                return Some(After::Nothing);
            }
            match self.create_stream(Some(stream_id)) {
                Ok(stream) => {
                    let ghost handles = self.pending_streams@;
                    let ghost pending = self@.pending_streams;
                    self.pending_streams.push_back(stream);
                    proof {
                        lemma_holds_push(handles, stream);
                        self.waiting@ = self.waiting@.insert(stream_id);
                    }
                    assert(self@.pending_streams =~= pending.push(stream@));
                },
                Err(_) => {
                    let after = self.send_go_away_with_code(GoAwayCode::ProtocolError);
                    assert(start.deliver(frame, Delivery::Sent).state == self@);
                    return Some(after);
                },
            }
        }
        let offer = self.offer(cx, frame);
        let ghost delivery = match offer {
            Offer::Refused(_) => Delivery::Blocked,
            Offer::Disconnected(_) => Delivery::Disconnected,
            _ => Delivery::Sent,
        };
        self.settle(offer, block_substream);
        assert((Distribution { state: self@, blocked: block_substream@, stopped: None })
            == start.deliver(frame, delivery));
        None
    }

    /// Puts a frame at the end of the queue to the peer.
    fn queue_frame(&mut self, frame: Frame)
        requires
            old(self).wf(),
        ensures
            final(self).wf(),
            final(self).continues(*old(self)),
            final(self)@ == old(self)@.queue(frame),
    {
        self.write_pending_frames.push_back(frame);
    }

    fn send_go_away_with_code(&mut self, code: GoAwayCode) -> (after: After)
        requires
            old(self).wf(),
        ensures
            final(self).wf(),
            final(self).continues(*old(self)),
            final(self)@ == old(self)@.queue_go_away(code),
            after == After::GoAway(None),
    {
        // clear all pending write and then send go away to close session
        self.write_pending_frames.clear();
        self.write_pending_frames.push_back(Frame::new_go_away(code));
        assert(self@.write_pending =~= seq![Frame::go_away(code)]);
        After::GoAway(None)
    }

    /// Try send buffer to all sub streams
    fn distribute_to_substream(&mut self, cx: &mut Context<'_>) -> (stopped: Option<After>)
        requires
            old(self).wf(),
        ensures
            final(self).wf(),
            final(self).continues(*old(self)),
            exists|deliveries: Seq<Delivery>|
                deliveries.len() == old(self)@.read_pending.len() && (final(self)@, stopped)
                    == #[trigger] old(self)@.distribute(deliveries),
    {
        let mut block_substream: HashSet<StreamId> = HashSet::new();
        let mut buf: VecDeque<Frame> = if self.read_pending_frames.len() > BUF_SHRINK_THRESHOLD {
            VecDeque::with_capacity(BUF_SHRINK_THRESHOLD)
        } else {
            VecDeque::new()
        };
        std::mem::swap(&mut self.read_pending_frames, &mut buf);
        let ghost frames = buf@;
        let ghost start = Distribution {
            state: SessionState { read_pending: Seq::empty(), ..old(self)@ },
            blocked: Set::empty(),
            stopped: None,
        };
        let ghost mut deliveries: Seq<Delivery> = Seq::empty();
        assert(self@ =~= start.state);
        assert(block_substream@ =~= start.blocked);
        assert(frames.take(0) =~= Seq::<Frame>::empty());
        assert(frames.skip(0) =~= frames);
        loop
            invariant
                self.wf(),
                self.continues(*old(self)),
                deliveries.len() + buf@.len() == frames.len(),
                buf@ == frames.skip(deliveries.len() as int),
                start.deliver_all(frames.take(deliveries.len() as int), deliveries) == (
                Distribution { state: self@, blocked: block_substream@, stopped: None }),
                frames == old(self)@.read_pending,
                start == (Distribution {
                    state: SessionState { read_pending: Seq::empty(), ..old(self)@ },
                    blocked: Set::empty(),
                    stopped: None,
                }),
            decreases buf@.len(),
        {
            let frame = match buf.pop_front() {
                Some(frame) => frame,
                None => {
                    assert(frames.take(deliveries.len() as int) =~= frames);
                    assert((self@, None::<After>) == old(self)@.distribute(deliveries));
                    return None;
                },
            };
            let ghost before = Distribution {
                state: self@,
                blocked: block_substream@,
                stopped: None,
            };
            let ghost done = frames.take(deliveries.len() as int);
            let stopped = self.deliver(cx, frame, &mut block_substream);
            proof {
                let here = Distribution { state: self@, blocked: block_substream@, stopped };
                let delivery = choose|delivery: Delivery|
                    here == #[trigger] before.deliver(frame, delivery);
                let more = deliveries.push(delivery);
                assert(frames[deliveries.len() as int] == frame);
                assert(frames.take(more.len() as int) =~= done.push(frame));
                assert(done.push(frame).drop_last() =~= done);
                start.lemma_deliver_all_prefix(done, deliveries, more);
                deliveries = more;
                assert(frames.skip(deliveries.len() as int) =~= buf@);
            }
            if stopped.is_some() {
                proof {
                    let rest = Seq::new(buf@.len(), |i: int| Delivery::Sent);
                    start.lemma_deliver_all_stopped(
                        frames,
                        deliveries + rest,
                        deliveries.len() as int,
                        deliveries,
                    );
                    assert((self@, stopped) == old(self)@.distribute(deliveries + rest));
                }
                return stopped;
            }
        }
    }

    fn send_ping(&mut self, ping_id: Option<u32>) -> (id: u32)
        requires
            old(self).wf(),
        ensures
            final(self).wf(),
            final(self).continues(*old(self)),
            (final(self)@, id) == old(self)@.queue_ping(ping_id),
    {
        let (flag, ping_id) = match ping_id {
            Some(ping_id) => (Flag::Ack, ping_id),
            None => {
                self.ping_id = self.ping_id.wrapping_add(1);
                (Flag::Syn, self.ping_id)
            },
        };
        self.queue_frame(Frame::new_ping(Flags::from(flag), ping_id));
        ping_id
    }

    /// Whether a ping has been unanswered for too long.
    fn is_overdue(&self, now: Instant) -> (overdue: bool)
        ensures
            overdue == self@.overdue(now),
    {
        for ping in pings: self.pings.iter()
            invariant
                forall|i: int|
                    0 <= i < pings.index() ==> now.since(*(#[trigger] pings.seq()[i]).1)
                        <= TIMEOUT_NANOS,
                pings.seq() == self.pings.iter().remaining(),
        {
            let (id, time) = ping;
            if time.elapsed(now).exceeds(Duration { nanos: TIMEOUT_NANOS }) {
                assert(self@.pings.contains_key(*id));
                return true;
            }
        }
        false
    }

    fn keep_alive(&mut self, ping_at: Instant, now: Instant) -> (result: Result<After, Failure>)
        requires
            old(self).wf(),
        ensures
            final(self).wf(),
            final(self).continues(*old(self)),
            match result {
                Ok(after) => (final(self)@, Some(after)) == old(self)@.keep_alive(ping_at, now),
                Err(failure) => failure == Failure::TimedOut && (final(self)@, None::<After>)
                    == old(self)@.keep_alive(ping_at, now),
            },
    {
        // If the remote peer does not follow the protocol and does not ack ping messages, the
        // pings would pile up. The keep alive message **must** be answered: a peer that does
        // not is disconnected.
        if self.is_overdue(now) {
            return Err(Failure::TimedOut);
        }
        let ping_id: u32 = self.send_ping(None);
        Ok(After::Ping { ping_id, ping_at })
    }

    fn handle_ping(&mut self, frame: &Frame) -> (after: Option<After>)
        requires
            old(self).wf(),
        ensures
            final(self).wf(),
            final(self).continues(*old(self)),
            (final(self)@, after) == old(self)@.handle_ping(*frame),
    {
        let flags = frame.flags();
        if flags.contains(Flag::Syn) {
            // Send ping back
            self.send_ping(Some(frame.length()));
            Some(After::Nothing)
        } else if flags.contains(Flag::Ack) {
            let acked: u32 = frame.length();
            self.pings.remove(&acked);
            // If the remote peer does not follow the protocol,
            // there may be a memory leak, so here need to discard all ping ids below the ack.
            self.pings = split_off_pings(&mut self.pings, acked);
            assert(self@.pings =~= old(self)@.handle_ping(*frame).0.pings);
            None
        } else {
            None
        }
    }

    fn handle_go_away(&mut self, frame: &Frame) -> (after: Option<After>)
        requires
            old(self).wf(),
        ensures
            final(self).wf(),
            final(self).continues(*old(self)),
            (final(self)@, after) == old(self)@.handle_go_away(),
    {
        match GoAwayCode::from(frame.length()) {
            GoAwayCode::Normal => self.close(),
            GoAwayCode::ProtocolError => self.close(),
            GoAwayCode::InternalError => self.close(),
        }
    }

    /// Closes this end because the peer closes its own.
    fn close(&mut self) -> (after: Option<After>)
        requires
            old(self).wf(),
        ensures
            final(self).wf(),
            final(self).continues(*old(self)),
            (final(self)@, after) == old(self)@.handle_go_away(),
    {
        self.remote_go_away = true;
        self.write_pending_frames.clear();
        if !self.local_go_away {
            Some(self.send_go_away_with_code(GoAwayCode::Normal))
        } else {
            None
        }
    }

    // Send message to stream (Data/WindowUpdate)
    fn handle_stream_message(&mut self, cx: &mut Context<'_>, frame: Frame) -> (after: Option<
        After,
    >)
        requires
            old(self).wf(),
        ensures
            final(self).wf(),
            final(self).continues(*old(self)),
            exists|deliveries: Seq<Delivery>|
                deliveries.len() == old(self)@.read_pending.len() + 1 && (final(self)@, after)
                    == #[trigger] old(self)@.handle_stream_message(frame, deliveries),
    {
        self.read_pending_frames.push_back(frame);
        let ghost before = self@;
        let after = self.distribute_to_substream(cx);
        proof {
            let deliveries = choose|deliveries: Seq<Delivery>|
                deliveries.len() == before.read_pending.len() && (self@, after)
                    == #[trigger] before.distribute(deliveries);
            assert((self@, after) == old(self)@.handle_stream_message(frame, deliveries));
        }
        after
    }

    fn handle_frame(&mut self, cx: &mut Context<'_>, frame: Frame) -> (after: Option<After>)
        requires
            old(self).wf(),
        ensures
            final(self).wf(),
            final(self).continues(*old(self)),
            exists|deliveries: Seq<Delivery>|
                deliveries.len() == old(self)@.read_pending.len() + 1 && (final(self)@, after)
                    == #[trigger] old(self)@.handle_frame(frame, deliveries),
    {
        let ghost some = Seq::new(self@.read_pending.len() + 1, |i: int| Delivery::Sent);
        match frame.ty() {
            Type::Data | Type::WindowUpdate => {
                let after = self.handle_stream_message(cx, frame);
                proof {
                    let deliveries = choose|deliveries: Seq<Delivery>|
                        deliveries.len() == old(self)@.read_pending.len() + 1 && (self@, after)
                            == #[trigger] old(self)@.handle_stream_message(frame, deliveries);
                    assert((self@, after) == old(self)@.handle_frame(frame, deliveries));
                }
                after
            },
            Type::Ping => {
                let after = self.handle_ping(&frame);
                assert((self@, after) == old(self)@.handle_frame(frame, some));
                after
            },
            Type::GoAway => {
                let after = self.handle_go_away(&frame);
                assert((self@, after) == old(self)@.handle_frame(frame, some));
                after
            },
        }
    }

    fn handle_event(&mut self, event: StreamEvent) -> (after: Option<After>)
        requires
            old(self).wf(),
        ensures
            final(self).wf(),
            final(self).continues(*old(self)),
            (final(self)@, after) == old(self)@.handle_event(event),
    {
        match event {
            StreamEvent::Frame(frame) => {
                self.queue_frame(frame);
                Some(After::Nothing)
            },
            StreamEvent::StateChanged((stream_id, state)) => {
                if let StreamState::Closed = state {
                    let ghost open = self.streams@.contains_key(stream_id);
                    let ghost sender = self.streams@[stream_id];
                    if let Some(sender) = self.streams.remove(&stream_id) {
                        self.ends.drop_one(stream_id, sender);
                    }
                    proof {
                        if open {
                            lemma_was_fed(self.closed_streams@, stream_id, sender);
                            self.closed_streams@ = self.closed_streams@.push((stream_id, sender));
                            self.waiting@ = self.waiting@.remove(stream_id);
                        }
                    }
                    assert(self@ =~= old(self)@.close_stream(stream_id));
                }
                None
            },
            StreamEvent::GoAway => Some(self.send_go_away_with_code(GoAwayCode::ProtocolError)),
        }
    }

    /// Open a new stream to remote session
    pub fn open_stream(&mut self) -> (result: Result<StreamHandle, Error>)
        requires
            old(self).wf(),
        ensures
            final(self).wf(),
            final(self).continues(*old(self)),
            final(self)@ == old(self)@.open_stream().0,
            match result {
                Ok(handle) => old(self)@.open_stream().1 == Ok::<HandleState, Error>(handle@)
                    && final(self).hears(handle) && final(self).feeds(handle),
                Err(error) => old(self)@.open_stream().1 == Err::<HandleState, Error>(error),
            },
    {
        if self.is_dead() {
            Err(Error::SessionShutdown)
        } else if self.remote_go_away {
            Err(Error::RemoteGoAway)
        } else {
            self.create_stream(None)
        }
    }

    /// Return a control to async open stream/close session
    pub fn control(&self) -> (control: Control)
        requires
            self.wf(),
        ensures
            self.obeys(control),
            control.sent() == Seq::<Command>::empty(),
            control.asked() == Seq::<Capacity>::empty(),
            control.last_told() is None,
    {
        Control::new(clone_command_sender(&self.control_sender))
    }

    /// The interval between two pings of this end, if it sends any.
    pub fn keepalive(&self) -> (keepalive: Option<Interval>)
        ensures
            keepalive == self@.keepalive,
    {
        self.keepalive
    }

    /// Opens a stream for a control.
    fn answer_open(&mut self, tx: oneshot::Sender<Result<StreamHandle, Error>>)
        requires
            old(self).wf(),
        ensures
            final(self).wf(),
            final(self).continues(*old(self)),
            final(self)@ == old(self)@.answer_open(tx),
    {
        let answer = self.open_stream();
        let _ignore = send_open_answer(tx, answer);
        proof {
            self.open_answers@ = self.open_answers@.push((tx, old(self)@.open_stream().1));
        }
    }

    /// Answers a request to close, if somebody asked.
    fn answer_close(&mut self, answer: Option<oneshot::Sender<()>>)
        requires
            old(self).wf(),
        ensures
            final(self).wf(),
            final(self).continues(*old(self)),
            final(self)@ == old(self)@.answer_close(answer),
    {
        if let Some(tx) = answer {
            let _ignore = send_close_answer(tx);
            proof {
                self.close_answers@ = self.close_answers@.push(tx);
            }
        }
    }

    /// Leaves undone what was to be done once the queue has gone out.
    fn give_over(&mut self, after: After)
        requires
            old(self).wf(),
        ensures
            final(self).wf(),
            final(self).continues(*old(self)),
            final(self)@ == old(self)@.give_over(after),
            after.is_unanswered(),
    {
        if let After::GoAway(Some(tx)) = after {
            let _fate = drop_close_request(tx);
            proof {
                self.close_failures@ = self.close_failures@.push(tx);
            }
        }
    }

    /// Begins to close the session. If it is over, whoever asked gets an answer at once.
    fn begin_shutdown(&mut self, answer: Option<oneshot::Sender<()>>) -> (after: Option<After>)
        requires
            old(self).wf(),
        ensures
            final(self).wf(),
            final(self).continues(*old(self)),
            (final(self)@, after) == old(self)@.shutdown(answer),
    {
        if self.is_dead() {
            self.answer_close(answer);
            return None;
        }
        // Ignore frames remaining in pending queue
        self.send_go_away_with_code(GoAwayCode::Normal);
        Some(After::GoAway(answer))
    }

    fn handle_command(&mut self, command: Command) -> (after: Option<After>)
        requires
            old(self).wf(),
        ensures
            final(self).wf(),
            final(self).continues(*old(self)),
            (final(self)@, after) == old(self)@.handle_command(command),
    {
        match command {
            Command::OpenStream(tx) => {
                self.answer_open(tx);
                None
            },
            Command::Shutdown(tx) => self.begin_shutdown(Some(tx)),
        }
    }

    fn control_poll(&mut self, cx: &mut Context<'_>) -> (taken: Taken)
        requires
            old(self).wf(),
        ensures
            final(self).wf(),
            final(self).continues(*old(self)),
            match taken {
                Taken::Pending => final(self)@ == old(self)@.look_for_command(Seq::empty()),
                Taken::Handled(after) => exists|queue: Seq<Command>|
                    queue.len() > 0 && (final(self)@, after) == #[trigger] old(self)@.obey(queue),
                Taken::Failed(_) => false,
            },
    {
        let polled = poll_commands(&mut self.control_receiver, &self.control_sender, cx);
        let ghost queue = commands_found(self.control_receiver).last();
        proof {
            lemma_in_turn_push(commands_found(old(self).control_receiver), queue);
            Control::lemma_reports_on(old(self).control_receiver, self.control_receiver);
        }
        match polled {
            Polled::Item(command) => {
                let after = self.handle_command(command);
                assert((self@, after) == old(self)@.obey(queue));
                Taken::Handled(after)
            },
            Polled::Pending => {
                assert(queue =~= Seq::empty());
                Taken::Pending
            },
            // Since session hold one event sender,
            // the channel can not be disconnected.
            Polled::Closed => vstd::pervasive::unreached(),
        }
    }

    // Receive events from sub streams
    fn recv_events(&mut self, cx: &mut Context<'_>) -> (taken: Taken)
        requires
            old(self).wf(),
        ensures
            final(self).wf(),
            final(self).continues(*old(self)),
            match taken {
                Taken::Pending => final(self)@ == old(self)@.look_for_event(Seq::empty()),
                Taken::Handled(after) => exists|queue: Seq<StreamEvent>|
                    queue.len() > 0 && (final(self)@, after) == #[trigger] old(self)@.hear(queue),
                Taken::Failed(_) => false,
            },
    {
        let polled = poll_events(&mut self.event_receiver, &self.event_sender, cx);
        let ghost queue = events_found(self.event_receiver).last();
        proof {
            lemma_in_turn_push(events_found(old(self).event_receiver), queue);
            StreamHandle::lemma_reports_on(
                old(self).event_receiver,
                old(self).unbound_event_receiver,
                self.event_receiver,
                self.unbound_event_receiver,
            );
        }
        match polled {
            Polled::Item(event) => {
                let after = self.handle_event(event);
                assert((self@, after) == old(self)@.hear(queue));
                Taken::Handled(after)
            },
            Polled::Pending => {
                assert(queue =~= Seq::empty());
                Taken::Pending
            },
            // Since session hold one event sender,
            // the channel can not be disconnected.
            Polled::Closed => vstd::pervasive::unreached(),
        }
    }

    fn recv_unbound_events(&mut self, cx: &mut Context<'_>) -> (taken: Taken)
        requires
            old(self).wf(),
        ensures
            final(self).wf(),
            final(self).continues(*old(self)),
            match taken {
                Taken::Pending => final(self)@ == old(self)@.look_for_unbound(Seq::empty())
                    && final(self)@.has_announced(),
                Taken::Handled(after) => exists|queue: Seq<StreamEvent>|
                    queue.len() > 0 && (final(self)@, after)
                        == #[trigger] old(self)@.hear_unbound(queue),
                Taken::Failed(_) => false,
            },
    {
        let polled = poll_unbound(
            &mut self.unbound_event_receiver,
            &self.unbound_event_sender,
            &self.pending_streams,
            cx,
        );
        let ghost queue = unbound_found(self.unbound_event_receiver).last();
        proof {
            assert forall|i: int| 0 <= i < self@.pending_streams.len() implies are_found(
                (#[trigger] self@.pending_streams[i]).announcements,
                self@.unbound,
            ) by {
                let handle = self.pending_streams@[i];
                assert(old(self).hears(old(self).pending_streams@[i]));
                handle.lemma_announces(
                    old(self).event_receiver,
                    old(self).unbound_event_receiver,
                );
            }
            lemma_in_turn_push(unbound_found(old(self).unbound_event_receiver), queue);
            StreamHandle::lemma_reports_on(
                old(self).event_receiver,
                old(self).unbound_event_receiver,
                self.event_receiver,
                self.unbound_event_receiver,
            );
        }
        match polled {
            Polled::Item(event) => {
                let after = self.handle_event(event);
                assert((self@, after) == old(self)@.hear_unbound(queue));
                Taken::Handled(after)
            },
            Polled::Pending => {
                assert(queue =~= Seq::empty());
                Taken::Pending
            },
            // Since session hold one event sender,
            // the channel can not be disconnected.
            Polled::Closed => vstd::pervasive::unreached(),
        }
    }

    /// Sends the queue to the peer, one frame after the other.
    ///
    /// A frame goes out when the transport is ready for it. If it is not, the frame goes back
    /// to the head of the queue and the transport is flushed.
    fn send_all(&mut self, then: Then) -> (step: Step)
        requires
            old(self).wf(),
        ensures
            final(self).wf(),
            final(self).continues(*old(self)),
            final(self).vouches(step),
            (final(self)@, step@) == old(self)@.send_all(then),
    {
        match self.write_pending_frames.pop_front() {
            Some(frame) => {
                assert(self@.write_pending =~= old(self)@.write_pending.drop_first());
                if self.is_dead() {
                    Step::PollFlush(Flushing::Last(then))
                } else {
                    Step::PollReady(frame, then)
                }
            },
            None => Step::PollFlush(Flushing::Last(then)),
        }
    }

    /// Whether a flush has left something to do.
    fn poll_complete(readiness: Readiness) -> (result: Result<bool, std::io::Error>)
        ensures
            result == match readiness {
                Readiness::Ready => Ok::<bool, std::io::Error>(false),
                Readiness::Pending => Ok::<bool, std::io::Error>(true),
                Readiness::Failed(error) => Err::<bool, std::io::Error>(error),
            },
    {
        match readiness {
            Readiness::Pending => Ok(true),
            Readiness::Ready => Ok(false),
            Readiness::Failed(error) => Err(error),
        }
    }

    /// Does what is to be done once the queue has gone out.
    fn finish(&mut self, after: After)
        requires
            old(self).wf(),
        ensures
            final(self).wf(),
            final(self).continues(*old(self)),
            final(self)@ == old(self)@.finish(after),
    {
        match after {
            After::Nothing => {},
            After::GoAway(answer) => {
                self.local_go_away = true;
                self.answer_close(answer);
            },
            After::Ping { ping_id, ping_at } => {
                self.pings.insert(ping_id, ping_at);
            },
        }
    }

    /// Drops the session. The reader of a stream does not wait any more: it gets the frames that
    /// the session has given to the stream, those that it has not read yet and no others, and
    /// then the end.
    pub fn end(self) -> (ends: StreamEnds)
        ensures
            self.ends_with(ends),
    {
        let mut ends = self.ends;
        ends.drop_all(self.streams);
        assert forall|handle: StreamHandle| self.feeds(handle) implies (
        #[trigger] ends.left_for(handle)) is Some && handle@.read() + ends.left_for(handle)->0
            == self@.streams[handle@.id] by {
            ends.lemma_left(self.streams@[handle@.id], handle);
        }
        ends
    }

    /// shutdown is used to close the session and all streams.
    /// Attempts to send a GoAway before closing the connection.
    pub fn shutdown(&mut self) -> (step: Step)
        requires
            old(self).wf(),
        ensures
            final(self).wf(),
            final(self).continues(*old(self)),
            final(self).vouches(step),
            (final(self)@, step@) == old(self)@.call_shutdown(),
    {
        match self.begin_shutdown(None) {
            Some(after) => self.send_all(Then { point: Point::Call, after }),
            None => Step::Done(Outcome::Called),
        }
    }

    /// GoAway can be used to prevent accepting further
    /// connections. It does not close the underlying conn.
    pub fn send_go_away(&mut self) -> (step: Step)
        requires
            old(self).wf(),
        ensures
            final(self).wf(),
            final(self).continues(*old(self)),
            final(self).vouches(step),
            (final(self)@, step@) == old(self)@.call_go_away(),
    {
        let after = self.send_go_away_with_code(GoAwayCode::Normal);
        self.send_all(Then { point: Point::Call, after })
    }

    /// Begins to poll the session: for the next stream that the peer opens, and for all that
    /// is to be done meanwhile.
    pub fn poll_next(&mut self) -> (step: Step)
        requires
            old(self).wf(),
        ensures
            final(self).wf(),
            final(self).continues(*old(self)),
            final(self).vouches(step),
            (final(self)@, step@) == old(self)@.poll_next(),
    {
        if self.is_dead() {
            return Step::Done(Outcome::Finished);
        }
        self.flush()
    }

    // Send all pending frames to remote streams
    fn flush(&mut self) -> (step: Step)
        requires
            old(self).wf(),
        ensures
            final(self).wf(),
            final(self).continues(*old(self)),
            final(self).vouches(step),
            (final(self)@, step@) == old(self)@.flush(),
    {
        if self.read_pending_frames.len() > 0 || self.write_pending_frames.len() > 0 {
            self.send_all(Then { point: Point::Flush, after: After::Nothing })
        } else {
            Step::PollFlush(Flushing::Complete)
        }
    }

    /// Ends a poll.
    fn end_poll(&mut self) -> (step: Step)
        requires
            old(self).wf(),
            old(self)@.is_dead() || old(self)@.has_announced(),
        ensures
            final(self).wf(),
            final(self).continues(*old(self)),
            final(self).vouches(step),
            (final(self)@, step@) == old(self)@.end_poll(),
    {
        if self.is_dead() {
            return Step::Done(Outcome::Finished);
        }
        match self.pending_streams.pop_front() {
            Some(stream) => {
                assert(self@.pending_streams =~= old(self)@.pending_streams.drop_first());
                assert(stream@ == old(self)@.pending_streams[0]);
                proof {
                    lemma_holds_drop_first(old(self).pending_streams@);
                    assert(self.pending_streams@ =~= old(self).pending_streams@.drop_first());
                    self.waiting@ = self.waiting@.remove(stream@.id);
                }
                Step::Done(Outcome::Stream(stream))
            },
            None => Step::Done(Outcome::Pending),
        }
    }

    /// Begins a round with a request of a control.
    fn begin_round(&mut self, cx: &mut Context<'_>) -> (step: Step)
        requires
            old(self).wf(),
        ensures
            final(self).wf(),
            final(self).continues(*old(self)),
            final(self).vouches(step),
            exists|inputs: Inputs|
                (final(self)@, step@) == #[trigger] old(self)@.begin_round(inputs),
    {
        if self.is_dead() {
            let step = self.end_poll();
            assert((self@, step@) == old(self)@.begin_round(Inputs::none()));
            return step;
        }
        match self.control_poll(cx) {
            Taken::Handled(after) => {
                let ghost queue = choose|queue: Seq<Command>|
                    queue.len() > 0 && (self@, after) == #[trigger] old(self)@.obey(queue);
                let ghost inputs = Inputs { commands: queue, ..Inputs::none() };
                let step = match after {
                    Some(after) => self.send_all(Then { point: Point::Commands, after }),
                    None => Step::PollFrame { idle: false },
                };
                assert((self@, step@) == old(self)@.begin_round(inputs));
                step
            },
            _ => {
                let step = Step::PollFrame { idle: true };
                assert((self@, step@) == old(self)@.begin_round(Inputs::none()));
                step
            },
        }
    }

    /// Ends a round.
    fn end_round(&mut self, cx: &mut Context<'_>, idle: bool) -> (step: Step)
        requires
            old(self).wf(),
            idle ==> old(self)@.has_announced(),
        ensures
            final(self).wf(),
            final(self).continues(*old(self)),
            final(self).vouches(step),
            exists|inputs: Inputs|
                (final(self)@, step@) == #[trigger] old(self)@.end_round(idle, inputs),
    {
        if idle {
            let step = self.end_poll();
            assert((self@, step@) == old(self)@.end_round(idle, Inputs::none()));
            step
        } else {
            let step = self.begin_round(cx);
            proof {
                let inputs = choose|inputs: Inputs|
                    (self@, step@) == #[trigger] old(self)@.begin_round(inputs);
                assert((self@, step@) == old(self)@.end_round(idle, inputs));
            }
            step
        }
    }

    /// Goes on with an event that may have to wait.
    fn take_event(&mut self, cx: &mut Context<'_>, idle: bool) -> (step: Step)
        requires
            old(self).wf(),
            idle ==> old(self)@.has_announced(),
        ensures
            final(self).wf(),
            final(self).continues(*old(self)),
            final(self).vouches(step),
            exists|inputs: Inputs|
                (final(self)@, step@) == #[trigger] old(self)@.take_event(idle, inputs),
    {
        match self.recv_events(cx) {
            Taken::Handled(after) => {
                let ghost queue = choose|queue: Seq<StreamEvent>|
                    queue.len() > 0 && (self@, after) == #[trigger] old(self)@.hear(queue);
                let ghost between = self@;
                match after {
                    Some(after) => {
                        let step = self.send_all(Then { point: Point::Events, after });
                        assert((self@, step@) == old(self)@.take_event(
                            idle,
                            Inputs { events: queue, ..Inputs::none() },
                        ));
                        step
                    },
                    None => {
                        let step = self.end_round(cx, false);
                        proof {
                            let inputs = choose|inputs: Inputs|
                                (self@, step@) == #[trigger] between.end_round(false, inputs);
                            assert((self@, step@) == old(self)@.take_event(
                                idle,
                                Inputs { events: queue, ..inputs },
                            ));
                        }
                        step
                    },
                }
            },
            _ => {
                let ghost between = self@;
                let step = self.end_round(cx, idle);
                proof {
                    let inputs = choose|inputs: Inputs|
                        (self@, step@) == #[trigger] between.end_round(idle, inputs);
                    assert((self@, step@) == old(self)@.take_event(
                        idle,
                        Inputs { events: Seq::empty(), ..inputs },
                    ));
                }
                step
            },
        }
    }

    /// Goes on with an event that must not get lost.
    fn take_unbound(&mut self, cx: &mut Context<'_>, idle: bool) -> (step: Step)
        requires
            old(self).wf(),
        ensures
            final(self).wf(),
            final(self).continues(*old(self)),
            final(self).vouches(step),
            exists|inputs: Inputs|
                (final(self)@, step@) == #[trigger] old(self)@.take_unbound(idle, inputs),
    {
        match self.recv_unbound_events(cx) {
            Taken::Handled(after) => {
                let ghost queue = choose|queue: Seq<StreamEvent>|
                    queue.len() > 0 && (self@, after) == #[trigger] old(self)@.hear_unbound(queue);
                let ghost between = self@;
                match after {
                    Some(after) => {
                        let step = self.send_all(Then { point: Point::Unbound, after });
                        assert((self@, step@) == old(self)@.take_unbound(
                            idle,
                            Inputs { unbound: queue, ..Inputs::none() },
                        ));
                        step
                    },
                    None => {
                        let step = self.take_event(cx, false);
                        proof {
                            let inputs = choose|inputs: Inputs|
                                (self@, step@) == #[trigger] between.take_event(false, inputs);
                            assert((self@, step@) == old(self)@.take_unbound(
                                idle,
                                Inputs { unbound: queue, ..inputs },
                            ));
                        }
                        step
                    },
                }
            },
            _ => {
                let ghost between = self@;
                let step = self.take_event(cx, idle);
                proof {
                    let inputs = choose|inputs: Inputs|
                        (self@, step@) == #[trigger] between.take_event(idle, inputs);
                    assert((self@, step@) == old(self)@.take_unbound(
                        idle,
                        Inputs { unbound: Seq::empty(), ..inputs },
                    ));
                }
                step
            },
        }
    }

    /// Goes on when the queue has gone out, as far as the transport takes it.
    fn sent_all(&mut self, cx: &mut Context<'_>, then: Then) -> (step: Step)
        requires
            old(self).wf(),
        ensures
            final(self).wf(),
            final(self).continues(*old(self)),
            final(self).vouches(step),
            exists|inputs: Inputs|
                (final(self)@, step@) == #[trigger] old(self)@.sent_all(then, inputs),
    {
        self.finish(then.after);
        let ghost between = self@;
        match then.point {
            Point::Flush => {
                let stopped = self.distribute_to_substream(cx);
                let ghost deliveries = choose|deliveries: Seq<Delivery>|
                    deliveries.len() == between.read_pending.len() && (self@, stopped)
                        == #[trigger] between.distribute(deliveries);
                let ghost inputs = Inputs { deliveries, ..Inputs::none() };
                let step = match stopped {
                    Some(after) => self.send_all(Then { point: Point::Distribution, after }),
                    None => Step::PollFlush(Flushing::Complete),
                };
                assert((self@, step@) == old(self)@.sent_all(then, inputs));
                step
            },
            Point::Distribution => {
                let step = Step::PollFlush(Flushing::Complete);
                assert((self@, step@) == old(self)@.sent_all(then, Inputs::none()));
                step
            },
            Point::KeepAlive => {
                let step = Step::PollTimer;
                assert((self@, step@) == old(self)@.sent_all(then, Inputs::none()));
                step
            },
            Point::Commands => {
                let step = Step::PollFrame { idle: false };
                assert((self@, step@) == old(self)@.sent_all(then, Inputs::none()));
                step
            },
            Point::Frames => {
                let step = self.take_unbound(cx, false);
                proof {
                    let inputs = choose|inputs: Inputs|
                        (self@, step@) == #[trigger] between.take_unbound(false, inputs);
                    assert((self@, step@) == old(self)@.sent_all(then, inputs));
                }
                step
            },
            Point::Unbound => {
                let step = self.take_event(cx, false);
                proof {
                    let inputs = choose|inputs: Inputs|
                        (self@, step@) == #[trigger] between.take_event(false, inputs);
                    assert((self@, step@) == old(self)@.sent_all(then, inputs));
                }
                step
            },
            Point::Events => {
                let step = self.end_round(cx, false);
                proof {
                    let inputs = choose|inputs: Inputs|
                        (self@, step@) == #[trigger] between.end_round(false, inputs);
                    assert((self@, step@) == old(self)@.sent_all(then, inputs));
                }
                step
            },
            Point::Call => {
                let step = Step::Done(Outcome::Called);
                assert((self@, step@) == old(self)@.sent_all(then, Inputs::none()));
                step
            },
        }
    }

    /// Goes on when the transport has been asked whether it takes a frame.
    pub fn ready(&mut self, frame: Frame, then: Then, readiness: Readiness) -> (step: Step)
        requires
            old(self).wf(),
        ensures
            final(self).wf(),
            final(self).continues(*old(self)),
            final(self).vouches(step),
            (final(self)@, step@) == old(self)@.ready(frame, then, readiness),
            readiness is Failed ==> then.after.is_unanswered(),
    {
        match readiness {
            Readiness::Ready => Step::StartSend(frame, then),
            Readiness::Pending => {
                self.write_pending_frames.push_front(frame);
                Step::PollFlush(Flushing::Retry(then))
            },
            Readiness::Failed(error) => {
                self.give_over(then.after);
                Step::Done(Outcome::Failed(Failure::Io(error)))
            },
        }
    }

    /// Goes on when the transport has been given a frame.
    pub fn sent(&mut self, then: Then, result: Result<(), std::io::Error>) -> (step: Step)
        requires
            old(self).wf(),
        ensures
            final(self).wf(),
            final(self).continues(*old(self)),
            final(self).vouches(step),
            (final(self)@, step@) == old(self)@.sent(then, result),
            result is Err ==> then.after.is_unanswered(),
    {
        match result {
            Ok(()) => self.send_all(then),
            Err(error) => {
                self.give_over(then.after);
                Step::Done(Outcome::Failed(Failure::Io(error)))
            },
        }
    }

    /// Goes on when the transport has been flushed.
    pub fn flushed(
        &mut self,
        cx: &mut Context<'_>,
        flushing: Flushing,
        readiness: Readiness,
    ) -> (step: Step)
        requires
            old(self).wf(),
        ensures
            final(self).wf(),
            final(self).continues(*old(self)),
            final(self).vouches(step),
            exists|inputs: Inputs|
                (final(self)@, step@) == #[trigger] old(self)@.flushed(flushing, readiness, inputs),
            readiness is Failed ==> flushing.is_unanswered(),
    {
        let pending = match Self::poll_complete(readiness) {
            Ok(pending) => pending,
            Err(error) => {
                match flushing {
                    Flushing::Retry(then) => self.give_over(then.after),
                    Flushing::Last(then) => self.give_over(then.after),
                    Flushing::Complete => {},
                }
                let step = Step::Done(Outcome::Failed(Failure::Io(error)));
                assert((self@, step@) == old(self)@.flushed(flushing, readiness, Inputs::none()));
                return step;
            },
        };
        match flushing {
            Flushing::Retry(then) => {
                if pending {
                    let step = self.sent_all(cx, then);
                    proof {
                        let inputs = choose|inputs: Inputs|
                            (self@, step@) == #[trigger] old(self)@.sent_all(then, inputs);
                        assert((self@, step@) == old(self)@.flushed(flushing, readiness, inputs));
                    }
                    step
                } else {
                    let step = self.send_all(then);
                    assert((self@, step@) == old(self)@.flushed(
                        flushing,
                        readiness,
                        Inputs::none(),
                    ));
                    step
                }
            },
            Flushing::Last(then) => {
                let step = self.sent_all(cx, then);
                proof {
                    let inputs = choose|inputs: Inputs|
                        (self@, step@) == #[trigger] old(self)@.sent_all(then, inputs);
                    assert((self@, step@) == old(self)@.flushed(flushing, readiness, inputs));
                }
                step
            },
            Flushing::Complete => {
                if self.keepalive.is_some() {
                    let step = Step::PollTimer;
                    assert((self@, step@) == old(self)@.flushed(
                        flushing,
                        readiness,
                        Inputs::none(),
                    ));
                    step
                } else {
                    let step = self.begin_round(cx);
                    proof {
                        let inputs = choose|inputs: Inputs|
                            (self@, step@) == #[trigger] old(self)@.begin_round(inputs);
                        assert((self@, step@) == old(self)@.flushed(flushing, readiness, inputs));
                    }
                    step
                }
            },
        }
    }

    /// Goes on when the interval between two pings has been polled.
    pub fn ticked(&mut self, cx: &mut Context<'_>, tick: Tick) -> (step: Step)
        requires
            old(self).wf(),
        ensures
            final(self).wf(),
            final(self).continues(*old(self)),
            final(self).vouches(step),
            exists|inputs: Inputs|
                (final(self)@, step@) == #[trigger] old(self)@.ticked(tick, inputs),
    {
        match tick {
            Tick::Due { ping_at, now } => {
                let step = match self.keep_alive(ping_at, now) {
                    Ok(after) => self.send_all(Then { point: Point::KeepAlive, after }),
                    Err(failure) => Step::Done(Outcome::Failed(failure)),
                };
                assert((self@, step@) == old(self)@.ticked(tick, Inputs::none()));
                step
            },
            _ => {
                let step = self.begin_round(cx);
                proof {
                    let inputs = choose|inputs: Inputs|
                        (self@, step@) == #[trigger] old(self)@.begin_round(inputs);
                    assert((self@, step@) == old(self)@.ticked(tick, inputs));
                }
                step
            },
        }
    }

    // Receive frames from low level stream
    fn recv_frames(&mut self, cx: &mut Context<'_>, incoming: Incoming) -> (taken: Taken)
        requires
            old(self).wf(),
        ensures
            final(self).wf(),
            final(self).continues(*old(self)),
            match incoming {
                Incoming::Frame(frame) => taken matches Taken::Handled(after)
                    && exists|deliveries: Seq<Delivery>|
                    deliveries.len() == old(self)@.read_pending.len() + 1 && (final(self)@, after)
                        == #[trigger] old(self)@.handle_frame(frame, deliveries),
                Incoming::Eof => taken == Taken::Handled(None) && final(self)@ == (SessionState {
                    eof: true,
                    ..old(self)@
                }),
                Incoming::Pending => taken == Taken::Pending && final(self)@ == old(self)@,
                Incoming::Failed(error) => taken == Taken::Failed(error) && final(self)@ == old(
                    self,
                )@,
            },
    {
        match incoming {
            Incoming::Frame(frame) => Taken::Handled(self.handle_frame(cx, frame)),
            Incoming::Eof => {
                self.eof = true;
                Taken::Handled(None)
            },
            Incoming::Pending => Taken::Pending,
            Incoming::Failed(error) => Taken::Failed(error),
        }
    }

    /// Goes on when a frame has been dealt with.
    fn go_on(&mut self, cx: &mut Context<'_>, after: Option<After>) -> (step: Step)
        requires
            old(self).wf(),
        ensures
            final(self).wf(),
            final(self).continues(*old(self)),
            final(self).vouches(step),
            exists|inputs: Inputs|
                (final(self)@, step@) == #[trigger] old(self)@.go_on(after, inputs),
    {
        match after {
            Some(after) => {
                let step = self.send_all(Then { point: Point::Frames, after });
                assert((self@, step@) == old(self)@.go_on(Some(after), Inputs::none()));
                step
            },
            None => {
                let step = self.take_unbound(cx, false);
                proof {
                    let inputs = choose|inputs: Inputs|
                        (self@, step@) == #[trigger] old(self)@.take_unbound(false, inputs);
                    assert((self@, step@) == old(self)@.go_on(None, inputs));
                }
                step
            },
        }
    }

    /// Goes on when the transport has been asked for a frame.
    pub fn received(&mut self, cx: &mut Context<'_>, idle: bool, incoming: Incoming) -> (step: Step)
        requires
            old(self).wf(),
        ensures
            final(self).wf(),
            final(self).continues(*old(self)),
            final(self).vouches(step),
            exists|inputs: Inputs|
                (final(self)@, step@) == #[trigger] old(self)@.received(idle, incoming, inputs),
    {
        let ghost given = incoming;
        match self.recv_frames(cx, incoming) {
            Taken::Handled(after) => {
                let ghost between = self@;
                let ghost deliveries = match given {
                    Incoming::Frame(frame) => choose|deliveries: Seq<Delivery>|
                        deliveries.len() == old(self)@.read_pending.len() + 1 && (self@, after)
                            == #[trigger] old(self)@.handle_frame(frame, deliveries),
                    _ => Seq::empty(),
                };
                let step = self.go_on(cx, after);
                proof {
                    let inputs = choose|inputs: Inputs|
                        (self@, step@) == #[trigger] between.go_on(after, inputs);
                    let all = Inputs { deliveries, ..inputs };
                    between.lemma_go_on(after, inputs, all);
                    assert((self@, step@) == old(self)@.received(idle, incoming, all));
                }
                step
            },
            Taken::Pending => {
                let step = self.take_unbound(cx, idle);
                proof {
                    let inputs = choose|inputs: Inputs|
                        (self@, step@) == #[trigger] old(self)@.take_unbound(idle, inputs);
                    assert((self@, step@) == old(self)@.received(idle, incoming, inputs));
                }
                step
            },
            Taken::Failed(error) => {
                let step = Step::Done(Outcome::Failed(Failure::Io(error)));
                assert((self@, step@) == old(self)@.received(idle, incoming, Inputs::none()));
                step
            },
        }
    }
}

/// `BTreeMap::split_off`: cuts the map in two. What lies below `id` stays, the rest is handed
/// out.
#[verifier::external_body]
fn split_off_pings(pings: &mut BTreeMap<u32, Instant>, id: u32) -> (rest: BTreeMap<u32, Instant>)
    ensures
        final(pings)@ == old(pings)@.filter_keys(|key: u32| key < id),
        rest@ == old(pings)@.filter_keys(|key: u32| key >= id),
{
    pings.split_off(&id)
}

/// Whether the sending end under the number of the stream is that of the handle's channel.
spec fn is_fed(streams: Map<StreamId, Sender<Frame>>, handle: StreamHandle) -> bool {
    streams.contains_key(handle@.id) && frames_linked(streams[handle@.id], handle.inbox())
}

/// Whether one of the sending ends was that of the handle's channel.
spec fn was_fed(gone: Seq<(StreamId, Sender<Frame>)>, handle: StreamHandle) -> bool {
    exists|i: int|
        0 <= i < gone.len() && (#[trigger] gone[i]).0 == handle@.id && frames_linked(
            gone[i].1,
            handle.inbox(),
        )
}

/// Which of the sending ends was that of the handle's channel.
spec fn fed_by(gone: Seq<(StreamId, Sender<Frame>)>, handle: StreamHandle) -> int {
    choose|i: int|
        0 <= i < gone.len() && (#[trigger] gone[i]).0 == handle@.id && frames_linked(
            gone[i].1,
            handle.inbox(),
        )
}

/// How many of the sending ends are those of streams with the number.
spec fn endings(gone: Seq<(StreamId, Sender<Frame>)>, id: StreamId) -> nat
    decreases gone.len(),
{
    if gone.len() == 0 {
        0
    } else {
        endings(gone.drop_last(), id) + if gone.last().0 == id {
            1nat
        } else {
            0
        }
    }
}

proof fn lemma_ended(
    earlier: Seq<(StreamId, Sender<Frame>)>,
    later: Seq<(StreamId, Sender<Frame>)>,
    id: StreamId,
) -> (i: int)
    requires
        earlier.is_prefix_of(later),
        endings(earlier, id) < endings(later, id),
    ensures
        earlier.len() <= i < later.len(),
        later[i].0 == id,
    decreases later.len(),
{
    if earlier.len() == later.len() {
        assert(earlier =~= later);
        0
    } else if later.last().0 == id {
        later.len() - 1
    } else {
        let shorter = later.drop_last();
        assert(earlier =~= shorter.take(earlier.len() as int));
        lemma_ended(earlier, shorter, id)
    }
}

/// Whether the sending end of the handle's channel is among those of the streams, or was.
spec fn is_served(
    streams: Map<StreamId, Sender<Frame>>,
    closed: Seq<(StreamId, Sender<Frame>)>,
    unread: Seq<(StreamId, Sender<Frame>)>,
    handle: StreamHandle,
) -> bool {
    is_fed(streams, handle) || was_fed(closed, handle) || was_fed(unread, handle)
}

proof fn lemma_still_fed(
    gone: Seq<(StreamId, Sender<Frame>)>,
    earlier: StreamHandle,
    handle: StreamHandle,
)
    requires
        handle.is_still(earlier),
        was_fed(gone, earlier),
    ensures
        was_fed(gone, handle),
{
    let i = fed_by(gone, earlier);
    assert(gone[i].0 == handle@.id && frames_linked(gone[i].1, handle.inbox()));
}

proof fn lemma_was_fed(gone: Seq<(StreamId, Sender<Frame>)>, id: StreamId, sender: Sender<Frame>)
    ensures
        forall|handle: StreamHandle|
            was_fed(gone, handle) ==> #[trigger] was_fed(gone.push((id, sender)), handle),
        forall|handle: StreamHandle|
            handle@.id == id && frames_linked(sender, handle.inbox()) ==> #[trigger] was_fed(
                gone.push((id, sender)),
                handle,
            ),
        forall|other: StreamId| #[trigger]
            endings(gone.push((id, sender)), other) == endings(gone, other) + if other == id {
                1nat
            } else {
                0
            },
{
    let longer = gone.push((id, sender));
    assert(longer.drop_last() =~= gone);
    assert forall|handle: StreamHandle| was_fed(gone, handle) implies #[trigger] was_fed(
        longer,
        handle,
    ) by {
        let i = choose|i: int|
            0 <= i < gone.len() && (#[trigger] gone[i]).0 == handle@.id && frames_linked(
                gone[i].1,
                handle.inbox(),
            );
        assert(longer[i] == gone[i]);
    }
    assert forall|handle: StreamHandle|
        handle@.id == id && frames_linked(sender, handle.inbox()) implies #[trigger] was_fed(
        longer,
        handle,
    ) by {
        assert(longer[gone.len() as int] == (id, sender));
    }
}

proof fn lemma_holds_push(handles: Seq<StreamHandle>, handle: StreamHandle)
    ensures
        forall|sender: Sender<Frame>, id: StreamId|
            holds(handles, sender, id) ==> #[trigger] holds(handles.push(handle), sender, id),
        forall|sender: Sender<Frame>|
            frames_linked(sender, handle.inbox()) ==> #[trigger] holds(
                handles.push(handle),
                sender,
                handle@.id,
            ),
{
    let longer = handles.push(handle);
    assert forall|sender: Sender<Frame>, id: StreamId|
        holds(handles, sender, id) implies #[trigger] holds(longer, sender, id) by {
        let i = choose|i: int|
            0 <= i < handles.len() && (#[trigger] handles[i])@.id == id && frames_linked(
                sender,
                handles[i].inbox(),
            );
        assert(longer[i] == handles[i]);
    }
    assert forall|sender: Sender<Frame>|
        frames_linked(sender, handle.inbox()) implies #[trigger] holds(
        longer,
        sender,
        handle@.id,
    ) by {
        assert(longer[handles.len() as int] == handle);
    }
}

proof fn lemma_holds_drop_first(handles: Seq<StreamHandle>)
    requires
        handles.len() > 0,
    ensures
        forall|sender: Sender<Frame>, id: StreamId|
            holds(handles, sender, id) && id != handles[0]@.id ==> #[trigger] holds(
                handles.drop_first(),
                sender,
                id,
            ),
{
    let rest = handles.drop_first();
    assert forall|sender: Sender<Frame>, id: StreamId|
        holds(handles, sender, id) && id != handles[0]@.id implies #[trigger] holds(
        rest,
        sender,
        id,
    ) by {
        let i = choose|i: int|
            0 <= i < handles.len() && (#[trigger] handles[i])@.id == id && frames_linked(
                sender,
                handles[i].inbox(),
            );
        assert(rest[i - 1] == handles[i]);
    }
}

/// Whether one of the handles is that of the stream, and has the other end of its channel.
spec fn holds(handles: Seq<StreamHandle>, sender: Sender<Frame>, id: StreamId) -> bool {
    exists|i: int|
        0 <= i < handles.len() && (#[trigger] handles[i])@.id == id && frames_linked(
            sender,
            handles[i].inbox(),
        )
}

/// What the session has found at one of its sources.
enum Taken {
    /// Nothing at the moment.
    Pending,
    /// Something, and it has been dealt with. It may have left something to send.
    Handled(Option<After>),
    /// The source failed.
    Failed(std::io::Error),
}

/// What becomes of a frame that is offered to its stream.
enum Offer {
    /// There is no such stream.
    NoStream,
    /// The stream took it.
    Taken,
    /// The stream has no room, and the frame comes back.
    Refused(Frame),
    /// Nobody reads the stream any more.
    Disconnected(StreamId),
}

} // verus!
