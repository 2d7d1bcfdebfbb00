//! Requests to a session from elsewhere.
use futures::channel::mpsc::{Receiver, Sender};
use futures::channel::oneshot;
use std::task::Context;

use vstd::prelude::*;

use crate::channel::{
    commands_asked, commands_last_told, commands_linked, commands_sent, poll_command_sender,
    send_command, Capacity, Handover,
};
use crate::error::Error;
use crate::stream::StreamHandle;

verus! {

/// A request to a session, with the end of the channel that takes the answer.
pub enum Command {
    /// Open a stream.
    OpenStream(oneshot::Sender<Result<StreamHandle, Error>>),
    /// Close the session.
    Shutdown(oneshot::Sender<()>),
}

/// Sends requests to a session.
pub struct Control {
    sender: Sender<Command>,
}

impl Control {
    /// The requests that have been sent, in order.
    pub closed spec fn sent(&self) -> Seq<Command> {
        commands_sent(self.sender)
    }

    /// What the channel to the session has said of its room, once for each request that was
    /// to be sent.
    pub closed spec fn asked(&self) -> Seq<Capacity> {
        commands_asked(self.sender)
    }

    /// What is known of the room in the channel to the session, `None` where nothing has been
    /// said since the last request was sent.
    pub closed spec fn last_told(&self) -> Option<Capacity> {
        commands_last_told(self.sender)
    }

    /// The end by which the requests are sent.
    pub closed spec fn sending_end(&self) -> Sender<Command> {
        self.sender
    }

    /// What has been sent has been put into the channel, and that is the channel of the end at
    /// which the requests arrive.
    pub proof fn what_is_sent_goes_where_it_arrives(self, commands: Receiver<Command>)
        ensures
            self.sent() == commands_sent(self.sending_end()),
            self.asked() == commands_asked(self.sending_end()),
            self.last_told() == commands_last_told(self.sending_end()),
            self.reports_to(commands) <==> commands_linked(self.sending_end(), commands),
    {
    }

    /// Whether the requests arrive at the given end.
    pub closed spec fn reports_to(&self, commands: Receiver<Command>) -> bool {
        commands_linked(self.sender, commands)
    }

    /// What is sent to an end also arrives at an end that comes after it.
    pub proof fn lemma_reports_on(commands: Receiver<Command>, later: Receiver<Command>)
        requires
            forall|sender: Sender<Command>|
                commands_linked(sender, commands) ==> #[trigger] commands_linked(sender, later),
        ensures
            forall|control: Control|
                control.reports_to(commands) ==> #[trigger] control.reports_to(later),
    {
    }

    /// A control that sends into the given channel.
    pub(crate) fn new(sender: Sender<Command>) -> (control: Control)
        ensures
            control.sent() == commands_sent(sender),
            control.asked() == commands_asked(sender),
            control.last_told() == commands_last_told(sender),
            forall|commands: Receiver<Command>|
                commands_linked(sender, commands) ==> #[trigger] control.reports_to(commands),
    {
        Control { sender }
    }

    /// Sends a request. The channel to the session is asked for room. If there is none, the
    /// request comes back, and the task is woken when there is; the first request of a control
    /// always finds room. If there is room, the request is sent, unless the session goes away
    /// at that moment. A session that is gone is gone for good.
    pub fn send(&mut self, cx: &mut Context<'_>, command: Command) -> (handover: Handover<Command>)
        ensures
            final(self).sent() == match handover {
                Handover::Sent => old(self).sent().push(command),
                _ => old(self).sent(),
            },
            handover matches Handover::Full(back) ==> back == command && old(self).sent().len() > 0,
            final(self).asked() == old(self).asked().push(final(self).asked().last()),
            match final(self).asked().last() {
                Capacity::Free => handover is Sent || handover is Closed,
                Capacity::Full => handover is Full,
                Capacity::Closed => handover is Closed,
            },
            final(self).last_told() == match handover {
                Handover::Sent => None,
                _ => Some(handover.told()),
            },
            old(self).last_told() == Some(Capacity::Closed) ==> handover is Closed,
            forall|commands: Receiver<Command>|
                old(self).reports_to(commands) ==> #[trigger] final(self).reports_to(commands),
    {
        match poll_command_sender(&mut self.sender, cx) {
            Capacity::Free => send_command(&mut self.sender, command),
            Capacity::Full => Handover::Full(command),
            Capacity::Closed => Handover::Closed,
        }
    }
}

} // verus!
