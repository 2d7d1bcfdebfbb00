//! The channels between a session, its streams and its controls.
//!
//! Every channel is one of `futures::channel`. The functions here make the calls, and say
//! of each what the rest of the crate relies on. No function of the crate closes a channel
//! that the session reads, and none hands an end of one to code outside of it.
//!
//! A channel of `futures` panics when it comes to hold more messages or sending ends than
//! half the range of `usize`. Each of them takes up memory, so there is none left before that.
use futures::channel::mpsc::{channel, unbounded, Receiver, Sender};
use futures::channel::mpsc::{UnboundedReceiver, UnboundedSender};
use futures::channel::oneshot;
use futures::Stream;
use std::collections::{HashMap, VecDeque};
use std::pin::Pin;
use std::task::{Context, Poll};

use vstd::prelude::*;

use crate::control::Command;
use crate::error::Error;
use crate::frame::{Frame, StreamId};
use crate::stream::{StreamEvent, StreamHandle};

verus! {

/// The sending end of a bounded channel.
#[verifier::external_type_specification]
#[verifier::external_body]
#[verifier::reject_recursive_types(T)]
pub struct ExSender<T>(futures::channel::mpsc::Sender<T>);

/// The receiving end of a bounded channel.
#[verifier::external_type_specification]
#[verifier::external_body]
#[verifier::reject_recursive_types(T)]
pub struct ExReceiver<T>(futures::channel::mpsc::Receiver<T>);

/// The sending end of an unbounded channel.
#[verifier::external_type_specification]
#[verifier::external_body]
#[verifier::reject_recursive_types(T)]
pub struct ExUnboundedSender<T>(futures::channel::mpsc::UnboundedSender<T>);

/// The receiving end of an unbounded channel.
#[verifier::external_type_specification]
#[verifier::external_body]
#[verifier::reject_recursive_types(T)]
pub struct ExUnboundedReceiver<T>(futures::channel::mpsc::UnboundedReceiver<T>);

/// The sending end of a channel for one value.
#[verifier::external_type_specification]
#[verifier::external_body]
#[verifier::reject_recursive_types(T)]
pub struct ExOneshotSender<T>(futures::channel::oneshot::Sender<T>);

/// The task that a poll runs in, which is woken when polling again may help.
#[verifier::external_type_specification]
#[verifier::external_body]
pub struct ExContext<'a>(std::task::Context<'a>);

/// What a poll of a receiving end gives.
pub enum Polled<T> {
    /// The next message.
    Item(T),
    /// There is no message at the moment.
    Pending,
    /// There is no message and none will come.
    Closed,
}

impl<T> Polled<T> {
    /// Whether this is what a poll gives of a channel that holds `queue`, the oldest message
    /// first.
    pub open spec fn is_first_of(self, queue: Seq<T>) -> bool {
        match self {
            Polled::Item(message) => queue.len() > 0 && message == queue[0],
            _ => queue.len() == 0,
        }
    }

    /// Whether this can be what a poll gives where `rest` is yet to come.
    pub open spec fn takes_from(self, rest: Seq<T>) -> bool {
        match self {
            Polled::Item(message) => rest.len() > 0 && message == rest[0],
            Polled::Pending => true,
            Polled::Closed => rest.len() == 0,
        }
    }

    /// What is yet to come behind this where `rest` was yet to come before it.
    pub open spec fn rest_of(self, rest: Seq<T>) -> Seq<T> {
        match self {
            Polled::Item(_) => rest.drop_first(),
            _ => rest,
        }
    }
}

/// The messages that the polls of a channel took, in order.
pub open spec fn taken<T>(found: Seq<Seq<T>>) -> Seq<T>
    decreases found.len(),
{
    if found.len() == 0 {
        Seq::empty()
    } else if found.last().len() == 0 {
        taken(found.drop_last())
    } else {
        taken(found.drop_last()).push(found.last()[0])
    }
}

/// What a poll leaves of what a channel held.
pub open spec fn left_over<T>(queue: Seq<T>) -> Seq<T> {
    if queue.len() > 0 {
        queue.drop_first()
    } else {
        queue
    }
}

/// Whether the messages of a channel were taken one after the other: what one poll left, the
/// next one found, with what was sent in between behind it.
#[verifier::opaque]
pub open spec fn in_turn<T>(found: Seq<Seq<T>>) -> bool {
    forall|i: int, j: int|
        0 <= i && j == i + 1 && j < found.len() ==> left_over(#[trigger] found[i]).is_prefix_of(
            #[trigger] found[j],
        )
}

/// Whether each of the messages was in the channel at one of the polls.
pub open spec fn are_found<T>(messages: Seq<T>, found: Seq<Seq<T>>) -> bool {
    forall|i: int| 0 <= i < messages.len() ==> was_found(#[trigger] messages[i], found)
}

/// Whether the message was in the channel at one of the polls.
pub open spec fn was_found<T>(message: T, found: Seq<Seq<T>>) -> bool {
    exists|i: int| 0 <= i < found.len() && (#[trigger] found[i]).contains(message)
}

/// One more poll finds what the last one left.
pub proof fn lemma_in_turn_push<T>(found: Seq<Seq<T>>, queue: Seq<T>)
    requires
        in_turn(found),
        found.len() > 0 ==> left_over(found.last()).is_prefix_of(queue),
    ensures
        in_turn(found.push(queue)),
{
    reveal(in_turn);
}

/// Nothing that was in a channel is lost: the message in the place `place` of the queue is
/// taken as many polls later.
pub proof fn messages_are_taken_in_turn<T>(found: Seq<Seq<T>>, poll: int, place: int)
    requires
        in_turn(found),
        0 <= poll < found.len(),
        0 <= place < found[poll].len(),
        poll + place < found.len(),
    ensures
        found[poll + place].len() > 0,
        found[poll + place][0] == found[poll][place],
{
    lemma_in_turn(found, poll, place);
    assert(found[poll].skip(place)[0] == found[poll + place][0]);
}

proof fn lemma_in_turn<T>(found: Seq<Seq<T>>, poll: int, place: int)
    requires
        in_turn(found),
        0 <= poll,
        0 <= place <= found[poll].len(),
        poll + place < found.len(),
    ensures
        found[poll].skip(place).is_prefix_of(found[poll + place]),
    decreases place,
{
    if place > 0 {
        lemma_in_turn(found, poll, place - 1);
        reveal(in_turn);
        let before = found[poll + place - 1];
        let now = found[poll + place];
        let rest = found[poll].skip(place);
        assert(left_over(before).is_prefix_of(now));
        assert forall|i: int| 0 <= i < rest.len() implies rest[i] == now[i] by {
            assert(found[poll].skip(place - 1)[i + 1] == rest[i]);
            assert(before[i + 1] == rest[i]);
            assert(left_over(before)[i] == rest[i]);
        }
    }
}

/// A poll takes the first message of the queue, and leaves the others in their order. If it gives
/// none, there was none.
pub proof fn a_poll_takes_the_first<T>(found: Seq<Seq<T>>, queue: Seq<T>, polled: Polled<T>)
    ensures
        queue.len() > 0 ==> seq![queue[0]] + left_over(queue) == queue && taken(found.push(queue))
            == taken(found).push(queue[0]),
        queue.len() == 0 ==> left_over(queue) == queue && taken(found.push(queue)) == taken(found),
        taken(Seq::<Seq<T>>::empty()).len() == 0,
        polled.is_first_of(queue) <==> if queue.len() > 0 {
            polled == Polled::Item(queue[0])
        } else {
            !(polled is Item)
        },
{
    assert(found.push(queue).drop_last() =~= found);
    if queue.len() > 0 {
        assert(seq![queue[0]] + left_over(queue) =~= queue);
    }
}

/// What a sending end says of the room in its channel.
#[derive(Clone, Copy, Debug, PartialEq, Eq, Structural)]
pub enum Capacity {
    /// The channel takes a message.
    Free,
    /// The channel takes no message at the moment.
    Full,
    /// Nobody receives the messages any more.
    Closed,
}

/// What becomes of a message that is put into a bounded channel.
pub enum Handover<T> {
    /// The channel took it.
    Sent,
    /// The channel had no room, and the message comes back.
    Full(T),
    /// Nobody receives it, and it is lost.
    Closed,
}

impl<T> Handover<T> {
    /// What this says of the room in the channel.
    pub open spec fn told(self) -> Capacity {
        match self {
            Handover::Sent => Capacity::Free,
            Handover::Full(_) => Capacity::Full,
            Handover::Closed => Capacity::Closed,
        }
    }
}

/// What becomes of a message tells whether there was room for it.
pub proof fn a_handover_tells_of_the_room<T>(handover: Handover<T>)
    ensures
        handover.told() is Free <==> handover is Sent,
        handover.told() is Full <==> handover is Full,
        handover.told() is Closed <==> handover is Closed,
{
}

/// Whether the two are ends of one channel, which nobody has closed.
pub uninterp spec fn frames_linked(sender: Sender<Frame>, receiver: Receiver<Frame>) -> bool;

/// The frames that a sending end has put into its channel, in order. The end is the only one
/// of its channel: there is no function here that copies it.
pub uninterp spec fn frames_sent(sender: Sender<Frame>) -> Seq<Frame>;

/// The number of frames that a channel buffers besides the one slot of its sender.
pub uninterp spec fn frame_buffer(sender: Sender<Frame>) -> nat;

/// What a sending end was told of the room in its channel, each time that it asked.
pub uninterp spec fn frames_asked(sender: Sender<Frame>) -> Seq<Capacity>;

/// What a sending end knows of the room in its channel, `None` where it has not been told
/// anything since it last sent a frame.
pub uninterp spec fn frames_last_told(sender: Sender<Frame>) -> Option<Capacity>;

/// What the channel held at each poll of a receiving end, the oldest frame first. The poll took
/// the first of them.
pub uninterp spec fn frames_found(receiver: Receiver<Frame>) -> Seq<Seq<Frame>>;

/// `futures::channel::mpsc::channel`: a channel that is empty and buffers `buffer` frames.
/// The call panics where `buffer` reaches a quarter of the range of `usize`.
#[verifier::external_body]
pub(crate) fn frame_channel(buffer: usize) -> (ends: (Sender<Frame>, Receiver<Frame>))
    requires
        buffer < usize::MAX / 4,
    ensures
        frames_linked(ends.0, ends.1),
        frames_found(ends.1) == Seq::<Seq<Frame>>::empty(),
        frames_sent(ends.0) == Seq::<Frame>::empty(),
        frames_asked(ends.0) == Seq::<Capacity>::empty(),
        frame_buffer(ends.0) == buffer,
{
    channel(buffer)
}

/// `Sender::poll_ready`: looks for room in the channel, puts nothing into it, and has the
/// task woken if there is none. The buffer and the slot of the sender have room for all
/// frames until that many have been put in. A channel whose receiving end is held by one of
/// `handles` does not report that nobody receives.
#[verifier::external_body]
pub(crate) fn poll_frame_sender(
    sender: &mut Sender<Frame>,
    handles: &VecDeque<StreamHandle>,
    cx: &mut Context<'_>,
) -> (capacity: Capacity)
    ensures
        forall|i: int|
            0 <= i < handles@.len() && frames_linked(
                *old(sender),
                (#[trigger] handles@[i]).inbox(),
            ) ==> !(capacity is Closed),
        forall|receiver: Receiver<Frame>|
            frames_linked(*old(sender), receiver) ==> #[trigger] frames_linked(
                *final(sender),
                receiver,
            ),
        capacity is Full ==> frames_sent(*old(sender)).len() > frame_buffer(*old(sender)),
        frames_asked(*final(sender)) == frames_asked(*old(sender)).push(capacity),
        frames_last_told(*final(sender)) == Some(capacity),
        frames_sent(*final(sender)) == frames_sent(*old(sender)),
        frame_buffer(*final(sender)) == frame_buffer(*old(sender)),
{
    match sender.poll_ready(cx) {
        Poll::Ready(Ok(())) => Capacity::Free,
        Poll::Pending => Capacity::Full,
        Poll::Ready(Err(_)) => Capacity::Closed,
    }
}

/// `Sender::try_send`: the frame is in the channel behind those sent before it, or comes
/// back because the channel is full, or is lost because nobody receives it. An end that has
/// been told that there is room finds it. The buffer and the slot of the sender have room for
/// all frames until that many have been put in. A channel whose receiving end is held by one
/// of `handles` does not report that nobody receives.
#[verifier::external_body]
pub(crate) fn send_frame(
    sender: &mut Sender<Frame>,
    handles: &VecDeque<StreamHandle>,
    frame: Frame,
) -> (handover: Handover<Frame>)
    ensures
        forall|i: int|
            0 <= i < handles@.len() && frames_linked(
                *old(sender),
                (#[trigger] handles@[i]).inbox(),
            ) ==> !(handover is Closed),
        forall|receiver: Receiver<Frame>|
            frames_linked(*old(sender), receiver) ==> #[trigger] frames_linked(
                *final(sender),
                receiver,
            ),
        frames_last_told(*final(sender)) == match handover {
            Handover::Sent => None,
            Handover::Full(_) => Some(Capacity::Full),
            Handover::Closed => Some(Capacity::Closed),
        },
        handover is Full ==> frames_last_told(*old(sender)) != Some(Capacity::Free),
        frames_asked(*final(sender)) == frames_asked(*old(sender)),
        frames_sent(*final(sender)) == match handover {
            Handover::Sent => frames_sent(*old(sender)).push(frame),
            _ => frames_sent(*old(sender)),
        },
        handover matches Handover::Full(back) ==> back == frame && frames_sent(*old(sender)).len()
            > frame_buffer(*old(sender)),
        frame_buffer(*final(sender)) == frame_buffer(*old(sender)),
{
    match sender.try_send(frame) {
        Ok(()) => Handover::Sent,
        Err(error) => if error.is_full() {
            Handover::Full(error.into_inner())
        } else {
            Handover::Closed
        },
    }
}

/// What is yet to come out of a receiving end whose sending end was dropped before the table was
/// emptied, or with it. `None` where nothing is known of that.
pub uninterp spec fn frames_to_come(
    emptied: HashMap<StreamId, Sender<Frame>>,
    receiver: Receiver<Frame>,
) -> Option<Seq<Frame>>;

/// Whether the sending end was dropped before the table was emptied, or with it: what was sent
/// and not taken is yet to come, and nothing else.
pub open spec fn is_dropped(
    sender: Sender<Frame>,
    emptied: HashMap<StreamId, Sender<Frame>>,
) -> bool {
    forall|receiver: Receiver<Frame>| #[trigger]
        frames_linked(sender, receiver) ==> frames_to_come(emptied, receiver) is Some && taken(
            frames_found(receiver),
        ) + frames_to_come(emptied, receiver)->0 == frames_sent(sender)
}

/// Whether the sending ends were dropped before the table was emptied, or with it.
pub open spec fn are_dropped(
    streams: Map<StreamId, Sender<Frame>>,
    emptied: HashMap<StreamId, Sender<Frame>>,
) -> bool {
    forall|id: StreamId|
        streams.contains_key(id) ==> is_dropped(#[trigger] streams[id], emptied)
}

/// Whether one table was emptied after another: what had been dropped by then stays dropped.
pub open spec fn is_emptied_after(
    emptied: HashMap<StreamId, Sender<Frame>>,
    earlier: HashMap<StreamId, Sender<Frame>>,
) -> bool {
    forall|receiver: Receiver<Frame>|
        frames_to_come(earlier, receiver) is Some ==> #[trigger] frames_to_come(emptied, receiver)
            == frames_to_come(earlier, receiver)
}

/// `HashMap::clear`: drops every sending end in the table, which is the only one of its channel.
/// What had been dropped when `earlier` was emptied stays dropped.
#[verifier::external_body]
pub(crate) fn hang_up(
    streams: &mut HashMap<StreamId, Sender<Frame>>,
    earlier: &HashMap<StreamId, Sender<Frame>>,
)
    ensures
        final(streams)@.is_empty(),
        are_dropped(old(streams)@, *final(streams)),
        is_emptied_after(*final(streams), *earlier),
{
    streams.clear()
}

/// `Receiver::poll_next`: the oldest frame in the channel, or none if it is empty, and the task
/// is woken when there is one. What is sent comes behind what is there. Where the sending end
/// was dropped before the table `emptied` was emptied, or with it, no poll leaves the reader
/// waiting: it gives what is yet to come, and then the end.
#[verifier::external_body]
pub(crate) fn poll_frames(
    receiver: &mut Receiver<Frame>,
    emptied: Option<&HashMap<StreamId, Sender<Frame>>>,
    cx: &mut Context<'_>,
) -> (polled: Polled<Frame>)
    ensures
        emptied is Some && frames_to_come(*emptied->0, *old(receiver)) is Some ==> !(
        polled is Pending),
        forall|streams: HashMap<StreamId, Sender<Frame>>|
            frames_to_come(streams, *old(receiver)) is Some ==> polled.takes_from(
                frames_to_come(streams, *old(receiver))->0,
            ) && #[trigger] frames_to_come(streams, *final(receiver)) == Some(
                polled.rest_of(frames_to_come(streams, *old(receiver))->0),
            ),
        frames_found(*final(receiver)) == frames_found(*old(receiver)).push(
            frames_found(*final(receiver)).last(),
        ),
        polled.is_first_of(frames_found(*final(receiver)).last()),
        frames_found(*old(receiver)).len() > 0 ==> left_over(
            frames_found(*old(receiver)).last(),
        ).is_prefix_of(frames_found(*final(receiver)).last()),
        forall|sender: Sender<Frame>|
            frames_linked(sender, *old(receiver)) ==> #[trigger] frames_linked(
                sender,
                *final(receiver),
            ),
{
    match Pin::new(receiver).poll_next(cx) {
        Poll::Ready(Some(frame)) => Polled::Item(frame),
        Poll::Ready(None) => Polled::Closed,
        Poll::Pending => Polled::Pending,
    }
}

/// Whether the two are ends of one channel, which nobody has closed.
pub uninterp spec fn events_linked(
    sender: Sender<StreamEvent>,
    receiver: Receiver<StreamEvent>,
) -> bool;

/// The events that a sending end has put into its channel, in order.
pub uninterp spec fn events_sent(sender: Sender<StreamEvent>) -> Seq<StreamEvent>;

/// What the channel has said to each event that a sending end has offered to it, in order.
pub uninterp spec fn events_told(sender: Sender<StreamEvent>) -> Seq<Capacity>;

/// What the channel held at each poll of a receiving end, the oldest message first. The poll
/// took the first of them.
pub uninterp spec fn events_found(receiver: Receiver<StreamEvent>) -> Seq<Seq<StreamEvent>>;

/// The number of events that a channel buffers besides the one slot of each sender.
pub uninterp spec fn event_buffer(receiver: Receiver<StreamEvent>) -> nat;

/// `futures::channel::mpsc::channel`: a channel that is empty and buffers `buffer` events.
/// The call panics where `buffer` reaches a quarter of the range of `usize`.
#[verifier::external_body]
pub(crate) fn event_channel(buffer: usize) -> (ends: (Sender<StreamEvent>, Receiver<StreamEvent>))
    requires
        buffer < usize::MAX / 4,
    ensures
        events_linked(ends.0, ends.1),
        events_sent(ends.0) == Seq::<StreamEvent>::empty(),
        events_found(ends.1) == Seq::<Seq<StreamEvent>>::empty(),
        event_buffer(ends.1) == buffer,
{
    channel(buffer)
}

/// `Sender::clone`: another sending end of the same channel, which has sent nothing yet.
#[verifier::external_body]
pub(crate) fn clone_event_sender(sender: &Sender<StreamEvent>) -> (copy: Sender<StreamEvent>)
    ensures
        events_sent(copy) == Seq::<StreamEvent>::empty(),
        events_told(copy) == Seq::<Capacity>::empty(),
        forall|receiver: Receiver<StreamEvent>|
            events_linked(*sender, receiver) ==> #[trigger] events_linked(copy, receiver),
{
    sender.clone()
}

/// `Sender::try_send`: the event is in the channel behind those sent before it, or comes
/// back because the channel is full, or is lost because nobody receives it. Each sending end
/// has a slot of its own, so its first event finds room. Once nobody receives its events,
/// nobody ever will.
#[verifier::external_body]
pub(crate) fn send_event(sender: &mut Sender<StreamEvent>, event: StreamEvent) -> (handover:
    Handover<StreamEvent>)
    ensures
        events_sent(*final(sender)) == match handover {
            Handover::Sent => events_sent(*old(sender)).push(event),
            _ => events_sent(*old(sender)),
        },
        events_told(*final(sender)) == events_told(*old(sender)).push(handover.told()),
        events_told(*old(sender)).contains(Capacity::Closed) ==> handover is Closed,
        handover matches Handover::Full(back) ==> back == event && events_sent(
            *old(sender),
        ).len() > 0,
        forall|receiver: Receiver<StreamEvent>|
            events_linked(*old(sender), receiver) ==> #[trigger] events_linked(
                *final(sender),
                receiver,
            ),
{
    match sender.try_send(event) {
        Ok(()) => Handover::Sent,
        Err(error) => if error.is_full() {
            Handover::Full(error.into_inner())
        } else {
            Handover::Closed
        },
    }
}

/// `Receiver::poll_next`: the oldest event in the channel, or none if it is empty, and the task
/// is woken when there is one. What is sent comes behind what is there. The channel has a
/// sending end, so it never reports that it is closed.
#[verifier::external_body]
pub(crate) fn poll_events(
    receiver: &mut Receiver<StreamEvent>,
    sender: &Sender<StreamEvent>,
    cx: &mut Context<'_>,
) -> (polled: Polled<StreamEvent>)
    requires
        events_linked(*sender, *old(receiver)),
    ensures
        !(polled is Closed),
        events_found(*final(receiver)) == events_found(*old(receiver)).push(
            events_found(*final(receiver)).last(),
        ),
        polled.is_first_of(events_found(*final(receiver)).last()),
        events_found(*old(receiver)).len() > 0 ==> left_over(
            events_found(*old(receiver)).last(),
        ).is_prefix_of(events_found(*final(receiver)).last()),
        event_buffer(*final(receiver)) == event_buffer(*old(receiver)),
        forall|other: Sender<StreamEvent>|
            events_linked(other, *old(receiver)) ==> #[trigger] events_linked(
                other,
                *final(receiver),
            ),
{
    match Pin::new(receiver).poll_next(cx) {
        Poll::Ready(Some(event)) => Polled::Item(event),
        Poll::Ready(None) => Polled::Closed,
        Poll::Pending => Polled::Pending,
    }
}

/// Whether the two are ends of one channel, which nobody has closed.
pub uninterp spec fn unbound_linked(
    sender: UnboundedSender<StreamEvent>,
    receiver: UnboundedReceiver<StreamEvent>,
) -> bool;

/// The events that a sending end has put into its channel, in order.
pub uninterp spec fn unbound_sent(sender: UnboundedSender<StreamEvent>) -> Seq<StreamEvent>;

/// What the channel held at each poll of a receiving end, the oldest message first. The poll
/// took the first of them.
pub uninterp spec fn unbound_found(
    receiver: UnboundedReceiver<StreamEvent>,
) -> Seq<Seq<StreamEvent>>;

/// `futures::channel::mpsc::unbounded`: a channel that is empty.
#[verifier::external_body]
pub(crate) fn unbound_channel() -> (ends: (
    UnboundedSender<StreamEvent>,
    UnboundedReceiver<StreamEvent>,
))
    ensures
        unbound_linked(ends.0, ends.1),
        unbound_sent(ends.0) == Seq::<StreamEvent>::empty(),
        unbound_found(ends.1) == Seq::<Seq<StreamEvent>>::empty(),
{
    unbounded()
}

/// `UnboundedSender::clone`: another sending end of the same channel, which has sent nothing
/// yet.
#[verifier::external_body]
pub(crate) fn clone_unbound_sender(sender: &UnboundedSender<StreamEvent>) -> (copy:
    UnboundedSender<StreamEvent>)
    ensures
        unbound_sent(copy) == Seq::<StreamEvent>::empty(),
        forall|receiver: UnboundedReceiver<StreamEvent>|
            unbound_linked(*sender, receiver) ==> #[trigger] unbound_linked(copy, receiver),
{
    sender.clone()
}

/// `UnboundedSender::unbounded_send`: the event is in the channel behind those sent before
/// it. The channel has a receiving end, so it takes every event.
#[verifier::external_body]
pub(crate) fn send_unbound(
    sender: &mut UnboundedSender<StreamEvent>,
    receiver: &UnboundedReceiver<StreamEvent>,
    event: StreamEvent,
) -> (sent: bool)
    requires
        unbound_linked(*old(sender), *receiver),
    ensures
        sent,
        unbound_sent(*final(sender)) == unbound_sent(*old(sender)).push(event),
        forall|other: UnboundedReceiver<StreamEvent>|
            unbound_linked(*old(sender), other) ==> #[trigger] unbound_linked(
                *final(sender),
                other,
            ),
{
    sender.unbounded_send(event).is_ok()
}

/// `UnboundedReceiver::poll_next`: the oldest event in the channel, or none if it is empty, and
/// the task is woken when there is one. What is sent comes behind what is there, and what one of
/// `handles` has sent is there or was there at an earlier poll. The channel has a sending end,
/// so it never reports that it is closed.
#[verifier::external_body]
pub(crate) fn poll_unbound(
    receiver: &mut UnboundedReceiver<StreamEvent>,
    sender: &UnboundedSender<StreamEvent>,
    handles: &VecDeque<StreamHandle>,
    cx: &mut Context<'_>,
) -> (polled: Polled<StreamEvent>)
    requires
        unbound_linked(*sender, *old(receiver)),
    ensures
        !(polled is Closed),
        forall|i: int|
            0 <= i < handles@.len() && (#[trigger] handles@[i]).announces_to(*old(receiver))
                ==> are_found(handles@[i]@.announcements, unbound_found(*final(receiver))),
        unbound_found(*final(receiver)) == unbound_found(*old(receiver)).push(
            unbound_found(*final(receiver)).last(),
        ),
        polled.is_first_of(unbound_found(*final(receiver)).last()),
        unbound_found(*old(receiver)).len() > 0 ==> left_over(
            unbound_found(*old(receiver)).last(),
        ).is_prefix_of(unbound_found(*final(receiver)).last()),
        forall|other: UnboundedSender<StreamEvent>|
            unbound_linked(other, *old(receiver)) ==> #[trigger] unbound_linked(
                other,
                *final(receiver),
            ),
{
    match Pin::new(receiver).poll_next(cx) {
        Poll::Ready(Some(event)) => Polled::Item(event),
        Poll::Ready(None) => Polled::Closed,
        Poll::Pending => Polled::Pending,
    }
}

/// Whether the two are ends of one channel, which nobody has closed.
pub uninterp spec fn commands_linked(sender: Sender<Command>, receiver: Receiver<Command>) -> bool;

/// The commands that a sending end has put into its channel, in order.
pub uninterp spec fn commands_sent(sender: Sender<Command>) -> Seq<Command>;

/// What a sending end was told of the room in its channel, each time that it asked.
pub uninterp spec fn commands_asked(sender: Sender<Command>) -> Seq<Capacity>;

/// What a sending end knows of the room in its channel, `None` where it has not been told
/// anything since it last sent a command.
pub uninterp spec fn commands_last_told(sender: Sender<Command>) -> Option<Capacity>;

/// What the channel held at each poll of a receiving end, the oldest message first. The poll
/// took the first of them.
pub uninterp spec fn commands_found(receiver: Receiver<Command>) -> Seq<Seq<Command>>;

/// The number of commands that a channel buffers besides the one slot of each sender.
pub uninterp spec fn command_buffer(receiver: Receiver<Command>) -> nat;

/// `futures::channel::mpsc::channel`: a channel that is empty and buffers `buffer` commands.
/// The call panics where `buffer` reaches a quarter of the range of `usize`.
#[verifier::external_body]
pub(crate) fn command_channel(buffer: usize) -> (ends: (Sender<Command>, Receiver<Command>))
    requires
        buffer < usize::MAX / 4,
    ensures
        commands_linked(ends.0, ends.1),
        commands_sent(ends.0) == Seq::<Command>::empty(),
        commands_found(ends.1) == Seq::<Seq<Command>>::empty(),
        command_buffer(ends.1) == buffer,
{
    channel(buffer)
}

/// `Sender::clone`: another sending end of the same channel, which has sent nothing yet.
#[verifier::external_body]
pub(crate) fn clone_command_sender(sender: &Sender<Command>) -> (copy: Sender<Command>)
    ensures
        commands_sent(copy) == Seq::<Command>::empty(),
        commands_asked(copy) == Seq::<Capacity>::empty(),
        commands_last_told(copy) is None,
        forall|receiver: Receiver<Command>|
            commands_linked(*sender, receiver) ==> #[trigger] commands_linked(copy, receiver),
{
    sender.clone()
}

/// `Sender::poll_ready`: looks for room in the channel, puts nothing into it, and has the
/// task woken if there is none. Each sending end has a slot of its own, so there is room for
/// its first command. Once nobody receives its commands, nobody ever will.
#[verifier::external_body]
pub(crate) fn poll_command_sender(sender: &mut Sender<Command>, cx: &mut Context<'_>) -> (capacity:
    Capacity)
    ensures
        capacity is Full ==> commands_sent(*old(sender)).len() > 0,
        commands_last_told(*old(sender)) == Some(Capacity::Closed) ==> capacity is Closed,
        commands_asked(*final(sender)) == commands_asked(*old(sender)).push(capacity),
        commands_last_told(*final(sender)) == Some(capacity),
        commands_sent(*final(sender)) == commands_sent(*old(sender)),
        forall|receiver: Receiver<Command>|
            commands_linked(*old(sender), receiver) ==> #[trigger] commands_linked(
                *final(sender),
                receiver,
            ),
{
    match sender.poll_ready(cx) {
        Poll::Ready(Ok(())) => Capacity::Free,
        Poll::Pending => Capacity::Full,
        Poll::Ready(Err(_)) => Capacity::Closed,
    }
}

/// `Sender::try_send`: the command is in the channel behind those sent before it, or comes
/// back because the channel is full, or is lost because nobody receives it. An end that has
/// been told that there is room finds it. Each sending end has a slot of its own, so its first
/// command finds room.
#[verifier::external_body]
pub(crate) fn send_command(sender: &mut Sender<Command>, command: Command) -> (handover:
    Handover<Command>)
    ensures
        commands_sent(*final(sender)) == match handover {
            Handover::Sent => commands_sent(*old(sender)).push(command),
            _ => commands_sent(*old(sender)),
        },
        commands_last_told(*final(sender)) == match handover {
            Handover::Sent => None,
            _ => Some(handover.told()),
        },
        handover is Full ==> commands_last_told(*old(sender)) != Some(Capacity::Free),
        commands_asked(*final(sender)) == commands_asked(*old(sender)),
        handover matches Handover::Full(back) ==> back == command && commands_sent(
            *old(sender),
        ).len() > 0,
        forall|receiver: Receiver<Command>|
            commands_linked(*old(sender), receiver) ==> #[trigger] commands_linked(
                *final(sender),
                receiver,
            ),
{
    match sender.try_send(command) {
        Ok(()) => Handover::Sent,
        Err(error) => if error.is_full() {
            Handover::Full(error.into_inner())
        } else {
            Handover::Closed
        },
    }
}

/// `Receiver::poll_next`: the oldest command in the channel, or none if it is empty, and the
/// task is woken when there is one. What is sent comes behind what is there. The channel has a
/// sending end, so it never reports that it is closed.
#[verifier::external_body]
pub(crate) fn poll_commands(
    receiver: &mut Receiver<Command>,
    sender: &Sender<Command>,
    cx: &mut Context<'_>,
) -> (polled: Polled<Command>)
    requires
        commands_linked(*sender, *old(receiver)),
    ensures
        !(polled is Closed),
        commands_found(*final(receiver)) == commands_found(*old(receiver)).push(
            commands_found(*final(receiver)).last(),
        ),
        polled.is_first_of(commands_found(*final(receiver)).last()),
        commands_found(*old(receiver)).len() > 0 ==> left_over(
            commands_found(*old(receiver)).last(),
        ).is_prefix_of(commands_found(*final(receiver)).last()),
        command_buffer(*final(receiver)) == command_buffer(*old(receiver)),
        forall|other: Sender<Command>|
            commands_linked(other, *old(receiver)) ==> #[trigger] commands_linked(
                other,
                *final(receiver),
            ),
{
    match Pin::new(receiver).poll_next(cx) {
        Poll::Ready(Some(command)) => Polled::Item(command),
        Poll::Ready(None) => Polled::Closed,
        Poll::Pending => Polled::Pending,
    }
}

/// What becomes of the sending end of a channel for one value. The end can be used once, so
/// this is all that ever becomes of it.
pub enum Fate<T> {
    /// The value was put into the channel.
    Answered(T),
    /// A value was to be put into the channel, and nobody waited for it any more.
    Abandoned,
    /// No value was ever put into the channel.
    Dropped,
}

/// What becomes of the end by which a request for a stream is answered.
pub uninterp spec fn open_fate(
    sender: oneshot::Sender<Result<StreamHandle, Error>>,
) -> Fate<Result<StreamHandle, Error>>;

/// What becomes of the end by which a request to close is answered.
pub uninterp spec fn close_fate(sender: oneshot::Sender<()>) -> Fate<()>;

/// `oneshot::Sender::send`: puts the one value into the channel, or gives it back where nobody
/// waits for it. The end is used up.
#[verifier::external_body]
pub(crate) fn send_open_answer(
    sender: oneshot::Sender<Result<StreamHandle, Error>>,
    answer: Result<StreamHandle, Error>,
) -> (result: Result<(), Result<StreamHandle, Error>>)
    ensures
        open_fate(sender) == match result {
            Ok(()) => Fate::Answered(answer),
            Err(_) => Fate::Abandoned,
        },
        result matches Err(back) ==> back == answer,
{
    sender.send(answer)
}

/// `oneshot::Sender::send`: puts the one value into the channel, or gives it back where nobody
/// waits for it. The end is used up.
#[verifier::external_body]
pub(crate) fn send_close_answer(sender: oneshot::Sender<()>) -> (result: Result<(), ()>)
    ensures
        close_fate(sender) == match result {
            Ok(()) => Fate::Answered(()),
            Err(()) => Fate::Abandoned,
        },
{
    sender.send(())
}

/// `drop` of a `oneshot::Sender`: the end is used up, and no value was put into the channel.
#[verifier::external_body]
pub(crate) fn drop_close_request(sender: oneshot::Sender<()>) -> (fate: Fate<()>)
    ensures
        fate is Dropped,
        close_fate(sender) == fate,
{
    drop(sender);
    Fate::Dropped
}

} // verus!
