//! What holds of the way of a frame from the session to the transport.
use vstd::prelude::*;

use crate::frame::Frame;
use crate::model::SessionState;
use crate::step::{Flushing, Readiness, StepState, Then};

verus! {

/// How far the queue of a session has gone out.
#[verifier::ext_equal]
pub struct Transmission {
    /// What the session knows.
    pub state: SessionState,
    /// What the session asks for.
    pub step: StepState,
    /// The frames that the transport has been given, in order.
    pub handed: Seq<Frame>,
}

impl Transmission {
    /// The queue is to go out.
    pub open spec fn begin(state: SessionState, then: Then) -> Transmission {
        let (next, step) = state.send_all(then);
        Transmission { state: next, step, handed: Seq::empty() }
    }

    /// The frames that the transport has not been given yet.
    pub open spec fn outstanding(self) -> Seq<Frame> {
        match self.step {
            StepState::PollReady(frame, _) => seq![frame] + self.state.write_pending,
            StepState::StartSend(frame, _) => seq![frame] + self.state.write_pending,
            _ => self.state.write_pending,
        }
    }

    /// Whether the transport failed.
    pub open spec fn failed(self) -> bool {
        self.step is Done
    }

    /// The transport answers. When the session asks for nothing more that has to do with the
    /// queue, nothing more happens to it.
    pub open spec fn answered(self, readiness: Readiness) -> Transmission {
        match self.step {
            StepState::PollReady(frame, then) => {
                let (state, step) = self.state.ready(frame, then, readiness);
                Transmission { state, step, ..self }
            },
            StepState::StartSend(frame, then) => {
                let (state, step) = self.state.sent(
                    then,
                    match readiness {
                        Readiness::Failed(error) => Err(error),
                        _ => Ok(()),
                    },
                );
                Transmission { state, step, handed: self.handed.push(frame) }
            },
            StepState::PollFlush(Flushing::Retry(then)) => match readiness {
                Readiness::Ready => {
                    let (state, step) = self.state.send_all(then);
                    Transmission { state, step, ..self }
                },
                Readiness::Failed(error) => {
                    let (state, step) = self.state.fail_behind(then, error);
                    Transmission { state, step, ..self }
                },
                Readiness::Pending => self,
            },
            _ => self,
        }
    }

    /// The transport answers many times.
    pub open spec fn after(self, answers: Seq<Readiness>) -> Transmission
        decreases answers.len(),
    {
        if answers.len() == 0 {
            self
        } else {
            self.after(answers.drop_last()).answered(answers.last())
        }
    }
}

proof fn lemma_answered(transmission: Transmission, readiness: Readiness)
    requires
        !transmission.state.is_dead(),
    ensures
        ({
            let next = transmission.answered(readiness);
            &&& !next.state.is_dead()
            &&& transmission.failed() ==> next == transmission
            &&& !next.failed() ==> next.handed + next.outstanding() == transmission.handed
                + transmission.outstanding()
            &&& next.failed() && !transmission.failed() ==> next.handed.is_prefix_of(
                transmission.handed + transmission.outstanding(),
            )
        }),
{
    let next = transmission.answered(readiness);
    if !next.failed() {
        assert(next.handed + next.outstanding() =~= transmission.handed
            + transmission.outstanding());
    }
}

/// The frames of a queue go out in the order in which they were queued, each of them once.
/// However often the transport is not ready, no frame is lost: those that have not gone out
/// are still there, in that order. Where the transport fails, those that went out are the
/// first of the queue.
pub proof fn frames_go_out_in_order(state: SessionState, then: Then, answers: Seq<Readiness>)
    requires
        !state.is_dead(),
    ensures
        ({
            let end = Transmission::begin(state, then).after(answers);
            &&& !end.failed() ==> end.handed + end.outstanding() == state.write_pending
            &&& end.handed.is_prefix_of(state.write_pending)
            &&& !end.state.is_dead()
        }),
    decreases answers.len(),
{
    let begin = Transmission::begin(state, then);
    let end = begin.after(answers);
    if answers.len() == 0 {
        assert(begin.handed + begin.outstanding() =~= state.write_pending);
    } else {
        frames_go_out_in_order(state, then, answers.drop_last());
        lemma_answered(begin.after(answers.drop_last()), answers.last());
    }
    if !end.failed() {
        assert(end.handed =~= state.write_pending.take(end.handed.len() as int));
    }
}

/// If the transport takes every frame, the whole queue goes out, and what comes behind it is
/// a flush.
pub proof fn a_ready_transport_gets_everything(state: SessionState, then: Then)
    requires
        !state.is_dead(),
    ensures
        ({
            let count = state.write_pending.len();
            let answers = Seq::new(2 * count, |i: int| Readiness::Ready);
            let end = Transmission::begin(state, then).after(answers);
            &&& end.handed == state.write_pending
            &&& end.state == (SessionState { write_pending: Seq::empty(), ..state })
            &&& end.step == StepState::PollFlush(Flushing::Last(then))
        }),
{
    let queue = state.write_pending;
    lemma_ready(state, then, queue.len());
    assert(queue.take(queue.len() as int) =~= queue);
    assert(queue.skip(queue.len() as int) =~= Seq::<Frame>::empty());
}

proof fn lemma_ready(state: SessionState, then: Then, count: nat)
    requires
        !state.is_dead(),
        count <= state.write_pending.len(),
    ensures
        ({
            let answers = Seq::new(2 * count, |i: int| Readiness::Ready);
            let end = Transmission::begin(state, then).after(answers);
            let rest = SessionState {
                write_pending: state.write_pending.skip(count as int),
                ..state
            };
            &&& end.handed == state.write_pending.take(count as int)
            &&& (end.state, end.step) == rest.send_all(then)
        }),
    decreases count,
{
    let answers = Seq::new(2 * count, |i: int| Readiness::Ready);
    let begin = Transmission::begin(state, then);
    let queue = state.write_pending;
    if count == 0 {
        assert(queue.skip(0) =~= queue);
        assert(begin.after(answers).handed =~= queue.take(0));
    } else {
        let fewer = (count - 1) as nat;
        let earlier = Seq::new(2 * fewer, |i: int| Readiness::Ready);
        lemma_ready(state, then, fewer);
        assert(answers.drop_last().drop_last() =~= earlier);
        let before = begin.after(earlier);
        let between = before.answered(Readiness::Ready);
        assert(answers.drop_last().last() == Readiness::Ready);
        assert(begin.after(answers.drop_last()) == between);
        assert(begin.after(answers) == between.answered(Readiness::Ready));
        assert(queue.skip(fewer as int)[0] == queue[fewer as int]);
        assert(queue.skip(fewer as int).drop_first() =~= queue.skip(count as int));
        assert(queue.take(fewer as int).push(queue[fewer as int]) =~= queue.take(count as int));
    }
}

/// A session that is over gives nothing to the transport.
pub proof fn nothing_goes_out_of_a_dead_session(state: SessionState, then: Then)
    requires
        state.is_dead(),
    ensures
        state.send_all(then).1 == StepState::PollFlush(Flushing::Last(then)),
{
}

} // verus!
