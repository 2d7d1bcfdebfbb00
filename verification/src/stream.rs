//! One end of a stream, as the session hands it out.
use futures::channel::mpsc::{Receiver, Sender, UnboundedReceiver, UnboundedSender};

use std::collections::HashMap;
use std::task::Context;

use vstd::prelude::*;

use crate::channel::{
    events_linked, events_sent, events_told, frames_found, frames_linked, frames_sent,
    frames_to_come, hang_up, is_dropped, left_over, poll_frames, send_event, send_unbound, taken,
    unbound_linked, unbound_sent, Capacity, Handover, Polled,
};
use crate::frame::{Flag, Flags, Frame, StreamId};

verus! {

/// Where a stream stands between its opening and its end.
#[derive(Clone, Copy, Debug, PartialEq, Eq, Structural)]
pub enum StreamState {
    /// Made on this end, and not announced to the peer yet.
    Init,
    /// Announced to the peer.
    SynSent,
    /// Announced by the peer, and not accepted yet.
    SynReceived,
    /// Open in both directions.
    Established,
    /// This end sends nothing more.
    LocalClosing,
    /// The peer sends nothing more.
    RemoteClosing,
    /// Torn down.
    Reset,
    /// Over.
    Closed,
}

impl StreamState {
    /// The flag by which a stream that is yet to be announced or accepted makes itself known.
    pub open spec fn announcement(self) -> Option<Flag> {
        match self {
            StreamState::Init => Some(Flag::Syn),
            StreamState::SynReceived => Some(Flag::Ack),
            _ => None,
        }
    }

    /// The state of a stream that has made itself known.
    pub open spec fn announced(self) -> StreamState {
        match self {
            StreamState::Init => StreamState::SynSent,
            StreamState::SynReceived => StreamState::Established,
            _ => self,
        }
    }
}

/// What a stream tells its session.
#[derive(Debug, PartialEq, Eq)]
pub enum StreamEvent {
    /// The frame is to be sent to the peer.
    Frame(Frame),
    /// The stream has come into another state.
    StateChanged((StreamId, StreamState)),
    /// The peer broke the protocol.
    GoAway,
}

/// The model of a stream handle.
#[verifier::ext_equal]
pub struct HandleState {
    /// The number of the stream.
    pub id: StreamId,
    /// Where the stream stands.
    pub state: StreamState,
    /// The bytes that the stream may receive before it gives new credit.
    pub recv_window: u32,
    /// The bytes that the stream may send before it gets new credit.
    pub send_window: u32,
    /// The events that the stream has sent and that must not get lost, in order.
    pub announcements: Seq<StreamEvent>,
    /// The other events that the stream has sent, in order.
    pub events: Seq<StreamEvent>,
    /// What the channel to the session has said to each such event that the stream has offered
    /// to it, in order.
    pub told: Seq<Capacity>,
    /// The frames of the stream that were there at each look for one, the oldest first.
    pub found: Seq<Seq<Frame>>,
}

impl HandleState {
    /// A stream that has not sent anything.
    pub open spec fn fresh(
        id: StreamId,
        state: StreamState,
        recv_window: u32,
        send_window: u32,
    ) -> HandleState {
        HandleState {
            id,
            state,
            recv_window,
            send_window,
            announcements: Seq::empty(),
            events: Seq::empty(),
            told: Seq::empty(),
            found: Seq::empty(),
        }
    }

    /// The frames that the reader of the stream has got, in order.
    pub open spec fn read(self) -> Seq<Frame> {
        taken(self.found)
    }

    /// A stream makes itself known by a window update that carries its flag. Its windows
    /// are at their full size from the start, so there is no credit to give. A stream that
    /// is known already does nothing.
    pub open spec fn announce(self) -> HandleState {
        match self.state.announcement() {
            Some(flag) => HandleState {
                state: self.state.announced(),
                announcements: self.announcements.push(
                    StreamEvent::Frame(Frame::window_update(Flags::only(flag), self.id, 0)),
                ),
                ..self
            },
            None => self,
        }
    }
}

/// The streams of a session that have come to their end: their sending ends have been dropped.
pub struct StreamEnds {
    // A table that was emptied when the last of the sending ends was dropped
    emptied: HashMap<StreamId, Sender<Frame>>,
}

impl StreamEnds {
    /// The frames that the reader of a stream is yet to get, `None` where the stream is not known
    /// to have come to its end.
    pub closed spec fn left_for(&self, handle: StreamHandle) -> Option<Seq<Frame>> {
        frames_to_come(self.emptied, handle.inbox())
    }

    /// Whether the sending end has been dropped.
    pub closed spec fn has_dropped(&self, sender: Sender<Frame>) -> bool {
        is_dropped(sender, self.emptied)
    }

    /// Whether what had been dropped in `earlier` has been dropped.
    pub open spec fn go_on_from(&self, earlier: StreamEnds) -> bool {
        &&& forall|sender: Sender<Frame>|
            earlier.has_dropped(sender) ==> #[trigger] self.has_dropped(sender)
        &&& forall|handle: StreamHandle|
            earlier.left_for(handle) is Some ==> #[trigger] self.left_for(handle)
                == earlier.left_for(handle)
    }

    /// The reader of a stream whose sending end has been dropped gets what was sent and it has
    /// not read yet.
    pub proof fn lemma_left(self, sender: Sender<Frame>, handle: StreamHandle)
        requires
            self.has_dropped(sender),
            frames_linked(sender, handle.inbox()),
        ensures
            self.left_for(handle) is Some,
            handle@.read() + self.left_for(handle)->0 == frames_sent(sender),
    {
    }

    /// The end of a stream does not change: what was left for its reader is still left.
    pub proof fn an_end_is_an_end_for_good(self, earlier: StreamEnds, handle: StreamHandle)
        requires
            self.go_on_from(earlier),
            earlier.left_for(handle) is Some,
        ensures
            self.left_for(handle) == earlier.left_for(handle),
    {
    }

    /// No stream has come to its end.
    pub(crate) fn new() -> StreamEnds {
        StreamEnds { emptied: HashMap::new() }
    }

    /// Drops the sending ends of some streams.
    pub(crate) fn drop_all(&mut self, streams: HashMap<StreamId, Sender<Frame>>)
        ensures
            forall|id: StreamId| #[trigger]
                streams@.contains_key(id) ==> final(self).has_dropped(streams@[id]),
            final(self).go_on_from(*old(self)),
    {
        let mut streams = streams;
        let ghost table = streams@;
        hang_up(&mut streams, &self.emptied);
        self.emptied = streams;
        assert forall|id: StreamId| #[trigger] table.contains_key(id) implies self.has_dropped(
            table[id],
        ) by {
            assert(is_dropped(table[id], self.emptied));
        }
    }

    /// Drops the sending end of a stream.
    pub(crate) fn drop_one(&mut self, id: StreamId, sender: Sender<Frame>)
        ensures
            final(self).has_dropped(sender),
            final(self).go_on_from(*old(self)),
    {
        let mut streams: HashMap<StreamId, Sender<Frame>> = HashMap::new();
        streams.insert(id, sender);
        assert(streams@.contains_key(id));
        self.drop_all(streams);
    }
}

/// One end of a stream.
pub struct StreamHandle {
    id: StreamId,
    event_sender: Sender<StreamEvent>,
    unbound_event_sender: UnboundedSender<StreamEvent>,
    frame_receiver: Receiver<Frame>,
    state: StreamState,
    recv_window: u32,
    send_window: u32,
}

impl View for StreamHandle {
    type V = HandleState;

    closed spec fn view(&self) -> HandleState {
        HandleState {
            id: self.id,
            state: self.state,
            recv_window: self.recv_window,
            send_window: self.send_window,
            announcements: unbound_sent(self.unbound_event_sender),
            events: events_sent(self.event_sender),
            told: events_told(self.event_sender),
            found: frames_found(self.frame_receiver),
        }
    }
}

impl StreamHandle {
    /// Whether what the stream sends arrives at the given ends.
    pub closed spec fn reports_to(
        &self,
        events: Receiver<StreamEvent>,
        unbound: UnboundedReceiver<StreamEvent>,
    ) -> bool {
        events_linked(self.event_sender, events) && self.announces_to(unbound)
    }

    /// Whether the events of the stream that must not get lost arrive at the given end.
    pub closed spec fn announces_to(&self, unbound: UnboundedReceiver<StreamEvent>) -> bool {
        unbound_linked(self.unbound_event_sender, unbound)
    }

    /// A stream that reports to a pair of ends makes itself known to one of them.
    pub proof fn lemma_announces(
        self,
        events: Receiver<StreamEvent>,
        unbound: UnboundedReceiver<StreamEvent>,
    )
        requires
            self.reports_to(events, unbound),
        ensures
            self.announces_to(unbound),
    {
    }

    /// What is sent to a pair of ends also arrives at ends that come after them.
    pub proof fn lemma_reports_on(
        events: Receiver<StreamEvent>,
        unbound: UnboundedReceiver<StreamEvent>,
        later_events: Receiver<StreamEvent>,
        later_unbound: UnboundedReceiver<StreamEvent>,
    )
        requires
            forall|sender: Sender<StreamEvent>|
                events_linked(sender, events) ==> #[trigger] events_linked(sender, later_events),
            forall|sender: UnboundedSender<StreamEvent>|
                unbound_linked(sender, unbound) ==> #[trigger] unbound_linked(
                    sender,
                    later_unbound,
                ),
        ensures
            forall|handle: StreamHandle|
                handle.reports_to(events, unbound) ==> #[trigger] handle.reports_to(
                    later_events,
                    later_unbound,
                ),
    {
    }

    /// The end by which the stream sends the events that must not get lost.
    pub closed spec fn announcing_end(&self) -> UnboundedSender<StreamEvent> {
        self.unbound_event_sender
    }

    /// The end by which the stream sends the other events.
    pub closed spec fn telling_end(&self) -> Sender<StreamEvent> {
        self.event_sender
    }

    /// What a stream has sent, it has put into its channels, and these are the channels of the
    /// ends that it reports to. What it has found came out of its inbox.
    pub proof fn what_a_stream_sends_goes_where_it_reports(
        self,
        events: Receiver<StreamEvent>,
        unbound: UnboundedReceiver<StreamEvent>,
    )
        ensures
            self@.announcements == unbound_sent(self.announcing_end()),
            self@.events == events_sent(self.telling_end()),
            self@.told == events_told(self.telling_end()),
            self@.found == frames_found(self.inbox()),
            self.reports_to(events, unbound) <==> events_linked(self.telling_end(), events)
                && unbound_linked(self.announcing_end(), unbound),
            self.announces_to(unbound) <==> unbound_linked(self.announcing_end(), unbound),
    {
    }

    /// Whether this is the same end of the stream as `earlier`, used since: what it sends arrives
    /// where it did, and what came to it still comes.
    pub open spec fn is_still(&self, earlier: StreamHandle) -> bool {
        &&& self@.id == earlier@.id
        &&& forall|events: Receiver<StreamEvent>, unbound: UnboundedReceiver<StreamEvent>|
            earlier.reports_to(events, unbound) ==> #[trigger] self.reports_to(events, unbound)
        &&& forall|sender: Sender<Frame>|
            frames_linked(sender, earlier.inbox()) ==> #[trigger] frames_linked(
                sender,
                self.inbox(),
            )
    }

    /// An end of a stream that has been used has the number that it had, reports where it did, and
    /// gets its frames from where it did.
    pub proof fn an_end_in_use_is_the_same_end(
        self,
        earlier: StreamHandle,
        events: Receiver<StreamEvent>,
        unbound: UnboundedReceiver<StreamEvent>,
        sender: Sender<Frame>,
    )
        requires
            self.is_still(earlier),
        ensures
            self@.id == earlier@.id,
            earlier.reports_to(events, unbound) ==> self.reports_to(events, unbound),
            frames_linked(sender, earlier.inbox()) ==> frames_linked(sender, self.inbox()),
    {
    }

    /// The end at which the frames of the stream arrive.
    pub closed spec fn inbox(&self) -> Receiver<Frame> {
        self.frame_receiver
    }

    /// Puts an end of a stream together.
    pub(crate) fn new(
        id: StreamId,
        event_sender: Sender<StreamEvent>,
        unbound_event_sender: UnboundedSender<StreamEvent>,
        frame_receiver: Receiver<Frame>,
        state: StreamState,
        recv_window: u32,
        send_window: u32,
    ) -> (handle: StreamHandle)
        requires
            events_sent(event_sender) == Seq::<StreamEvent>::empty(),
            events_told(event_sender) == Seq::<Capacity>::empty(),
            frames_found(frame_receiver) == Seq::<Seq<Frame>>::empty(),
            unbound_sent(unbound_event_sender) == Seq::<StreamEvent>::empty(),
        ensures
            handle@ == HandleState::fresh(id, state, recv_window, send_window),
            handle.inbox() == frame_receiver,
            forall|events: Receiver<StreamEvent>, unbound: UnboundedReceiver<StreamEvent>|
                events_linked(event_sender, events) && unbound_linked(unbound_event_sender, unbound)
                    ==> #[trigger] handle.reports_to(events, unbound),
    {
        StreamHandle {
            id,
            event_sender,
            unbound_event_sender,
            frame_receiver,
            state,
            recv_window,
            send_window,
        }
    }

    /// Makes the stream known to the peer. `unbound` is the end at which the session waits
    /// for the window update.
    pub(crate) fn send_window_update(
        &mut self,
        events: &Receiver<StreamEvent>,
        unbound: &UnboundedReceiver<StreamEvent>,
    )
        requires
            old(self).reports_to(*events, *unbound),
        ensures
            final(self)@ == old(self)@.announce(),
            final(self).reports_to(*events, *unbound),
            final(self).inbox() == old(self).inbox(),
    {
        let flag = match self.state {
            StreamState::Init => {
                self.state = StreamState::SynSent;
                Flag::Syn
            },
            StreamState::SynReceived => {
                self.state = StreamState::Established;
                Flag::Ack
            },
            _ => {
                return ;
            },
        };
        let frame = Frame::new_window_update(Flags::from(flag), self.id, 0);
        send_unbound(&mut self.unbound_event_sender, unbound, StreamEvent::Frame(frame));
    }

    /// Looks for the next frame of the stream. Where the stream is among `ends`, the reader does
    /// not wait: it gets the frames that are left, and then the end.
    pub fn poll_frame(&mut self, cx: &mut Context<'_>, ends: Option<&StreamEnds>) -> (polled:
        Polled<Frame>)
        ensures
            final(self)@ == (HandleState {
                found: old(self)@.found.push(final(self)@.found.last()),
                ..old(self)@
            }),
            polled.is_first_of(final(self)@.found.last()),
            old(self)@.found.len() > 0 ==> left_over(old(self)@.found.last()).is_prefix_of(
                final(self)@.found.last(),
            ),
            final(self)@.read() == match polled {
                Polled::Item(frame) => old(self)@.read().push(frame),
                _ => old(self)@.read(),
            },
            ends is Some && ends->0.left_for(*old(self)) is Some ==> {
                let rest = ends->0.left_for(*old(self))->0;
                &&& polled == if rest.len() > 0 {
                    Polled::Item(rest[0])
                } else {
                    Polled::Closed
                }
                &&& ends->0.left_for(*final(self)) == Some(left_over(rest))
            },
            final(self).is_still(*old(self)),
    {
        let emptied = match ends {
            Some(ends) => Some(&ends.emptied),
            None => None,
        };
        let polled = poll_frames(&mut self.frame_receiver, emptied, cx);
        assert(self@.found.drop_last() =~= old(self)@.found);
        polled
    }

    /// The number of the stream.
    pub fn id(&self) -> (id: StreamId)
        ensures
            id == self@.id,
    {
        self.id
    }

    /// Where the stream stands.
    pub fn state(&self) -> (state: StreamState)
        ensures
            state == self@.state,
    {
        self.state
    }

    /// Tells the session something: the event is offered to the channel to the session, and the
    /// answer handed on. If there is no room for it, it comes back; the first event of a stream
    /// always finds room. A session that is gone is gone for good.
    pub fn send_event(&mut self, event: StreamEvent) -> (handover: Handover<StreamEvent>)
        ensures
            final(self)@ == (HandleState {
                events: match handover {
                    Handover::Sent => old(self)@.events.push(event),
                    _ => old(self)@.events,
                },
                told: old(self)@.told.push(handover.told()),
                ..old(self)@
            }),
            handover matches Handover::Full(back) ==> back == event && old(self)@.events.len() > 0,
            old(self)@.told.contains(Capacity::Closed) ==> handover is Closed,
            final(self).is_still(*old(self)),
            final(self).inbox() == old(self).inbox(),
    {
        send_event(&mut self.event_sender, event)
    }
}

} // verus!
