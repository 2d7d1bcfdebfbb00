use std::collections::VecDeque;
use std::io;
use std::task::Context;

use futures::channel::oneshot;
use futures::task::noop_waker;

use yamux::channel::{Handover, Polled};
use yamux::codec::{decode, encode, Decoded};
use yamux::frame::{Flag, Flags, Frame, GoAwayCode, Type};
use yamux::step::{Incoming, Outcome, Readiness, Step, Tick};
use yamux::stream::{StreamEvent, StreamState};
use yamux::time::{Duration, Instant};
use yamux::{Command, Config, Error, Failure, Session, SessionType, StreamHandle};

const MAX: u32 = 262_144;

/// A transport in memory. Frames cross it as bytes.
struct Wire {
    incoming: VecDeque<Vec<u8>>,
    outgoing: VecDeque<Vec<u8>>,
    // The answers to the next questions whether it takes a frame; then it does.
    readiness: VecDeque<Readiness>,
    // The answers to the next flushes; then they are done.
    flushes: VecDeque<Readiness>,
    ticks: VecDeque<Tick>,
    eof: bool,
    broken: bool,
}

impl Wire {
    fn new() -> Wire {
        Wire {
            incoming: VecDeque::new(),
            outgoing: VecDeque::new(),
            readiness: VecDeque::new(),
            flushes: VecDeque::new(),
            ticks: VecDeque::new(),
            eof: false,
            broken: false,
        }
    }

    fn give(&mut self, frame: Frame) {
        self.incoming.push_back(encode(&frame));
    }

    fn take(&mut self) -> Option<Frame> {
        let bytes = self.outgoing.pop_front()?;
        Some(read(&bytes))
    }
}

fn read(bytes: &[u8]) -> Frame {
    match decode(bytes, MAX) {
        Decoded::Frame(frame, size) => {
            assert_eq!(size, bytes.len());
            frame
        }
        _ => panic!("no frame"),
    }
}

/// Does what the session asks for until it asks for nothing more.
fn drive(session: &mut Session, mut step: Step, wire: &mut Wire) -> Outcome {
    let waker = noop_waker();
    let mut cx = Context::from_waker(&waker);
    loop {
        step = match step {
            Step::PollReady(frame, then) => {
                let readiness = wire.readiness.pop_front().unwrap_or(Readiness::Ready);
                session.ready(frame, then, readiness)
            }
            Step::StartSend(frame, then) => {
                if wire.broken {
                    session.sent(then, Err(io::ErrorKind::BrokenPipe.into()))
                } else {
                    wire.outgoing.push_back(encode(&frame));
                    session.sent(then, Ok(()))
                }
            }
            Step::PollFlush(flushing) => {
                let readiness = wire.flushes.pop_front().unwrap_or(Readiness::Ready);
                session.flushed(&mut cx, flushing, readiness)
            }
            Step::PollFrame { idle } => {
                let incoming = match wire.incoming.pop_front() {
                    Some(bytes) => Incoming::Frame(read(&bytes)),
                    None => {
                        if wire.eof {
                            Incoming::Eof
                        } else {
                            Incoming::Pending
                        }
                    }
                };
                session.received(&mut cx, idle, incoming)
            }
            Step::PollTimer => {
                let tick = wire.ticks.pop_front().unwrap_or(Tick::Waiting);
                session.ticked(&mut cx, tick)
            }
            Step::Done(outcome) => return outcome,
        };
    }
}

fn poll(session: &mut Session, wire: &mut Wire) -> Outcome {
    let step = session.poll_next();
    drive(session, step, wire)
}

/// Polls a session that stays alive, and returns the streams that the peer has opened.
fn poll_streams(session: &mut Session, wire: &mut Wire) -> Vec<StreamHandle> {
    let mut streams = Vec::new();
    loop {
        match poll(session, wire) {
            Outcome::Stream(stream) => streams.push(stream),
            Outcome::Pending => return streams,
            _ => panic!("the session is over"),
        }
    }
}

/// Carries what each end has sent to the other.
fn exchange(left: &mut Wire, right: &mut Wire) {
    right.incoming.append(&mut left.outgoing);
    left.incoming.append(&mut right.outgoing);
}

fn quiet() -> Config {
    let mut config = Config::default();
    config.enable_keepalive = false;
    config
}

fn syn(id: u32) -> Frame {
    Frame::new_window_update(Flags::from(Flag::Syn), id, 0)
}

fn data(id: u32, byte: u8) -> Frame {
    Frame {
        ty: Type::Data,
        flags: Flags { bits: 0 },
        stream_id: id,
        length: 1,
        body: Some(vec![byte]),
    }
}

/// The next frame that a stream has, `None` if there is none at the moment, and `Some(None)`
/// if there will be none any more.
fn next_frame(stream: &mut StreamHandle) -> Option<Option<Frame>> {
    let waker = noop_waker();
    let mut cx = Context::from_waker(&waker);
    match stream.poll_frame(&mut cx, None) {
        Polled::Item(frame) => Some(Some(frame)),
        Polled::Closed => Some(None),
        Polled::Pending => None,
    }
}

fn at(seconds: u64) -> Instant {
    Instant {
        nanos: seconds * 1_000_000_000,
    }
}

fn due(seconds: u64) -> Tick {
    Tick::Due {
        ping_at: at(seconds),
        now: at(seconds),
    }
}

#[test]
fn test_open_exist_stream() {
    let mut config = Config::default();
    config.enable_keepalive = false;

    let mut session = Session::new_server(config);
    let mut wire = Wire::new();

    let next_stream_id = 3;
    // open stream
    let frame = Frame::new_window_update(Flags::from(Flag::Syn), next_stream_id, 0);
    wire.give(frame);
    let streams = poll_streams(&mut session, &mut wire);
    // stream window respond
    assert_eq!(
        Frame::new_window_update(Flags::from(Flag::Ack), next_stream_id, 0),
        wire.take().unwrap()
    );

    // open stream with duplicate stream id
    let frame = Frame::new_window_update(Flags::from(Flag::Syn), next_stream_id, 0);
    wire.give(frame);
    let more = poll_streams(&mut session, &mut wire);

    // get go away with protocol error
    let go_away = wire.take().unwrap();

    assert_eq!(go_away.ty(), Type::GoAway);
    assert_eq!(
        GoAwayCode::from(go_away.length()),
        GoAwayCode::ProtocolError
    );
    assert_eq!(streams.len(), 1);
    assert_eq!(streams[0].id(), 3);
    assert!(more.is_empty());
    assert_eq!(wire.take(), None);
}

// When the session is closed, whoever reads a stream must not wait for ever.
#[test]
fn test_close_session_on_stream_opened() {
    let config = Config::default();
    let mut server = Session::new_server(config);
    let mut client = Session::new_client(config);
    let mut server_wire = Wire::new();
    let mut client_wire = Wire::new();

    let mut control = client.control();
    let mut stream = client.open_stream().unwrap();

    assert!(matches!(
        poll(&mut client, &mut client_wire),
        Outcome::Pending
    ));
    exchange(&mut client_wire, &mut server_wire);
    let accepted = poll_streams(&mut server, &mut server_wire);
    assert_eq!(accepted.len(), 1);
    assert_eq!(accepted[0].id(), stream.id());
    exchange(&mut client_wire, &mut server_wire);

    let waker = noop_waker();
    let mut cx = Context::from_waker(&waker);
    let (tx, mut rx) = oneshot::channel();
    assert!(matches!(
        control.send(&mut cx, Command::Shutdown(tx)),
        Handover::Sent
    ));
    assert!(matches!(
        poll(&mut client, &mut client_wire),
        Outcome::Pending
    ));
    // The control has its answer.
    assert_eq!(rx.try_recv(), Ok(Some(())));

    exchange(&mut client_wire, &mut server_wire);
    assert!(matches!(
        poll(&mut server, &mut server_wire),
        Outcome::Finished
    ));
    exchange(&mut client_wire, &mut server_wire);
    assert!(matches!(
        poll(&mut client, &mut client_wire),
        Outcome::Finished
    ));
    drop(client);

    // The window update that accepted the stream, and then the end.
    let mut frames = Vec::new();
    loop {
        match next_frame(&mut stream) {
            Some(Some(frame)) => frames.push(frame),
            Some(None) => break,
            None => panic!("the stream waits for ever"),
        }
    }
    assert_eq!(
        frames,
        vec![Frame::new_window_update(Flags::from(Flag::Ack), 1, 0)]
    );
}

#[test]
fn the_two_ends_give_out_different_ids() {
    assert!(SessionType::Client.is_client());
    assert!(!SessionType::Client.is_server());
    assert!(SessionType::Server.is_server());
    assert!(!SessionType::Server.is_client());

    let mut client = Session::new(quiet(), SessionType::Client);
    assert_eq!(client.open_stream().unwrap().id(), 1);
    assert_eq!(client.open_stream().unwrap().id(), 3);
    assert_eq!(client.open_stream().unwrap().id(), 5);
    let mut server = Session::new(quiet(), SessionType::Server);
    assert_eq!(server.open_stream().unwrap().id(), 2);
    assert_eq!(server.open_stream().unwrap().id(), 4);
}

#[test]
fn an_opened_stream_is_announced_and_accepted() {
    let mut client = Session::new_client(quiet());
    let mut server = Session::new_server(quiet());
    let mut client_wire = Wire::new();
    let mut server_wire = Wire::new();

    let stream = client.open_stream().unwrap();
    assert_eq!(stream.state(), StreamState::SynSent);
    assert!(matches!(
        poll(&mut client, &mut client_wire),
        Outcome::Pending
    ));
    assert_eq!(read(&client_wire.outgoing[0]), syn(1));
    exchange(&mut client_wire, &mut server_wire);

    let mut accepted = poll_streams(&mut server, &mut server_wire);
    assert_eq!(accepted.len(), 1);
    assert_eq!(accepted[0].id(), 1);
    assert_eq!(accepted[0].state(), StreamState::Established);
    // The frame that opened the stream is the first that it gets.
    assert_eq!(next_frame(&mut accepted[0]), Some(Some(syn(1))));
    assert_eq!(
        server_wire.take(),
        Some(Frame::new_window_update(Flags::from(Flag::Ack), 1, 0))
    );
    assert_eq!(server_wire.take(), None);
}

#[test]
fn an_id_that_is_taken_is_skipped() {
    let mut client = Session::new_client(quiet());
    let mut wire = Wire::new();
    wire.give(syn(1));
    let _streams = poll_streams(&mut client, &mut wire);
    assert_eq!(client.open_stream().err(), Some(Error::DuplicateStream));
    assert_eq!(client.open_stream().unwrap().id(), 3);
}

#[test]
fn no_stream_is_opened_after_the_end() {
    let mut session = Session::new_client(quiet());
    let mut wire = Wire::new();
    wire.eof = true;
    assert!(matches!(poll(&mut session, &mut wire), Outcome::Finished));
    assert_eq!(session.open_stream().err(), Some(Error::SessionShutdown));
    // It stays over, and there is nothing to close.
    assert!(matches!(poll(&mut session, &mut wire), Outcome::Finished));
    let step = session.shutdown();
    assert!(matches!(step, Step::Done(Outcome::Called)));
    assert_eq!(wire.take(), None);
}

#[test]
fn no_stream_is_opened_after_a_go_away_of_the_peer() {
    let mut session = Session::new_client(quiet());
    let mut wire = Wire::new();
    wire.give(Frame::new_go_away(GoAwayCode::Normal));
    // The answer does not go out, so this end is not closing yet.
    wire.readiness
        .push_back(Readiness::Failed(io::ErrorKind::BrokenPipe.into()));
    assert!(matches!(
        poll(&mut session, &mut wire),
        Outcome::Failed(Failure::Io(_))
    ));
    assert_eq!(session.open_stream().err(), Some(Error::RemoteGoAway));
}

#[test]
fn a_go_away_is_answered_whatever_its_code() {
    for code in [0, 1, 2, 77] {
        let mut session = Session::new_server(quiet());
        let mut wire = Wire::new();
        let mut go_away = Frame::new_go_away(GoAwayCode::Normal);
        go_away.length = code;
        wire.give(go_away);
        assert!(matches!(poll(&mut session, &mut wire), Outcome::Finished));
        assert_eq!(wire.take(), Some(Frame::new_go_away(GoAwayCode::Normal)));
        assert_eq!(wire.take(), None);
    }
}

#[test]
fn a_session_that_closes_takes_in_no_stream() {
    let mut session = Session::new_server(quiet());
    let mut wire = Wire::new();
    let step = session.send_go_away();
    assert!(matches!(
        drive(&mut session, step, &mut wire),
        Outcome::Called
    ));
    assert_eq!(wire.take(), Some(Frame::new_go_away(GoAwayCode::Normal)));

    wire.give(syn(5));
    assert!(poll_streams(&mut session, &mut wire).is_empty());
    assert_eq!(
        wire.take(),
        Some(Frame::new_window_update(Flags::from(Flag::Rst), 5, 0))
    );
    // It may still open streams of its own.
    assert_eq!(session.open_stream().unwrap().id(), 2);
}

#[test]
fn a_shutdown_drops_what_was_queued() {
    let mut session = Session::new_server(quiet());
    let mut wire = Wire::new();
    // The transport takes nothing: the answer to the ping stays in the queue.
    wire.give(Frame::new_ping(Flags::from(Flag::Syn), 9));
    wire.readiness.push_back(Readiness::Pending);
    wire.flushes.push_back(Readiness::Ready);
    wire.flushes.push_back(Readiness::Pending);
    assert!(matches!(poll(&mut session, &mut wire), Outcome::Pending));
    assert_eq!(wire.take(), None);

    let step = session.shutdown();
    assert!(matches!(
        drive(&mut session, step, &mut wire),
        Outcome::Called
    ));
    assert_eq!(wire.take(), Some(Frame::new_go_away(GoAwayCode::Normal)));
    assert_eq!(wire.take(), None);
}

#[test]
fn both_ends_of_a_connection_close() {
    let mut client = Session::new_client(quiet());
    let mut server = Session::new_server(quiet());
    let mut client_wire = Wire::new();
    let mut server_wire = Wire::new();
    let step = client.shutdown();
    assert!(matches!(
        drive(&mut client, step, &mut client_wire),
        Outcome::Called
    ));
    exchange(&mut client_wire, &mut server_wire);
    assert!(matches!(
        poll(&mut server, &mut server_wire),
        Outcome::Finished
    ));
    exchange(&mut client_wire, &mut server_wire);
    assert!(matches!(
        poll(&mut client, &mut client_wire),
        Outcome::Finished
    ));
}

#[test]
fn a_ping_is_answered_with_its_number() {
    let mut session = Session::new_server(quiet());
    let mut wire = Wire::new();
    wire.give(Frame::new_ping(Flags::from(Flag::Syn), 4321));
    assert!(poll_streams(&mut session, &mut wire).is_empty());
    assert_eq!(
        wire.take(),
        Some(Frame::new_ping(Flags::from(Flag::Ack), 4321))
    );
    // A ping without a flag is ignored.
    wire.give(Frame::new_ping(Flags { bits: 0 }, 4321));
    assert!(poll_streams(&mut session, &mut wire).is_empty());
    assert_eq!(wire.take(), None);
}

#[test]
fn pings_are_numbered_and_time_out() {
    let mut session = Session::new_client(Config::default());
    let mut wire = Wire::new();
    wire.ticks.push_back(due(0));
    assert!(poll_streams(&mut session, &mut wire).is_empty());
    assert_eq!(wire.take(), Some(Frame::new_ping(Flags::from(Flag::Syn), 1)));

    // After thirty seconds it is not too late.
    wire.ticks.push_back(due(30));
    assert!(poll_streams(&mut session, &mut wire).is_empty());
    assert_eq!(wire.take(), Some(Frame::new_ping(Flags::from(Flag::Syn), 2)));

    // A moment later it is.
    wire.ticks.push_back(Tick::Due {
        ping_at: at(30),
        now: Instant {
            nanos: 30_000_000_001,
        },
    });
    assert!(matches!(
        poll(&mut session, &mut wire),
        Outcome::Failed(Failure::TimedOut)
    ));
    assert_eq!(wire.take(), None);
}

#[test]
fn an_answer_also_answers_earlier_pings() {
    let mut session = Session::new_client(Config::default());
    let mut wire = Wire::new();
    wire.ticks.push_back(due(0));
    wire.ticks.push_back(due(10));
    wire.ticks.push_back(due(20));
    assert!(poll_streams(&mut session, &mut wire).is_empty());
    assert_eq!(wire.take(), Some(Frame::new_ping(Flags::from(Flag::Syn), 1)));
    assert_eq!(wire.take(), Some(Frame::new_ping(Flags::from(Flag::Syn), 2)));
    assert_eq!(wire.take(), Some(Frame::new_ping(Flags::from(Flag::Syn), 3)));

    // The answer to the second ping counts for the first, but not for the third.
    wire.give(Frame::new_ping(Flags::from(Flag::Ack), 2));
    assert!(poll_streams(&mut session, &mut wire).is_empty());
    wire.ticks.push_back(due(45));
    assert!(poll_streams(&mut session, &mut wire).is_empty());
    assert_eq!(wire.take(), Some(Frame::new_ping(Flags::from(Flag::Syn), 4)));
    wire.ticks.push_back(due(51));
    assert!(matches!(
        poll(&mut session, &mut wire),
        Outcome::Failed(Failure::TimedOut)
    ));
}

#[test]
fn a_ping_crosses_the_connection_and_comes_back() {
    let mut client = Session::new_client(Config::default());
    let mut server = Session::new_server(quiet());
    let mut client_wire = Wire::new();
    let mut server_wire = Wire::new();
    client_wire.ticks.push_back(due(0));
    assert!(poll_streams(&mut client, &mut client_wire).is_empty());
    exchange(&mut client_wire, &mut server_wire);
    assert!(poll_streams(&mut server, &mut server_wire).is_empty());
    exchange(&mut client_wire, &mut server_wire);
    assert!(poll_streams(&mut client, &mut client_wire).is_empty());
    client_wire.ticks.push_back(due(1000));
    assert!(poll_streams(&mut client, &mut client_wire).is_empty());
}

#[test]
fn a_ping_that_did_not_go_out_is_not_awaited() {
    let mut session = Session::new_client(Config::default());
    let mut wire = Wire::new();
    wire.ticks.push_back(due(0));
    wire.broken = true;
    assert!(matches!(
        poll(&mut session, &mut wire),
        Outcome::Failed(Failure::Io(_))
    ));
    wire.broken = false;
    wire.ticks.push_back(due(1000));
    assert!(poll_streams(&mut session, &mut wire).is_empty());
    assert_eq!(wire.take(), Some(Frame::new_ping(Flags::from(Flag::Syn), 2)));
}

#[test]
fn an_interval_that_has_ended_is_let_be() {
    let mut session = Session::new_client(Config::default());
    let mut wire = Wire::new();
    wire.ticks.push_back(Tick::Ended);
    assert!(poll_streams(&mut session, &mut wire).is_empty());
    assert_eq!(wire.take(), None);
    let keepalive = session.keepalive().unwrap();
    assert_eq!(
        keepalive.period(),
        Duration {
            nanos: 30_000_000_000
        }
    );
    assert!(Session::new_client(quiet()).keepalive().is_none());
}

#[test]
fn frames_wait_for_a_stream_that_is_not_read_and_keep_their_order() {
    let mut session = Session::new_server(quiet());
    let mut wire = Wire::new();
    wire.give(syn(1));
    wire.give(syn(3));
    for byte in 0..20 {
        wire.give(data(1, byte));
        wire.give(data(3, byte + 100));
    }
    let mut streams = poll_streams(&mut session, &mut wire);
    assert_eq!(streams.len(), 2);

    // The channel holds eight frames and one more. The first is the one that opened it.
    let mut got = Vec::new();
    while let Some(Some(frame)) = next_frame(&mut streams[0]) {
        got.push(frame);
    }
    assert_eq!(got.len(), 9);
    assert_eq!(got[0], syn(1));

    // The other stream has not been held up by the first, nor has it lost anything.
    let mut others = Vec::new();
    for _ in 0..10 {
        while let Some(Some(frame)) = next_frame(&mut streams[1]) {
            others.push(frame);
        }
        while let Some(Some(frame)) = next_frame(&mut streams[0]) {
            got.push(frame);
        }
        assert!(poll_streams(&mut session, &mut wire).is_empty());
    }
    assert_eq!(got.len(), 21);
    assert_eq!(others.len(), 21);
    for byte in 0..20 {
        assert_eq!(got[byte + 1], data(1, byte as u8));
        assert_eq!(others[byte + 1], data(3, byte as u8 + 100));
    }
}

#[test]
fn a_long_backlog_is_kept_whole() {
    let mut session = Session::new_server(quiet());
    let mut wire = Wire::new();
    wire.give(syn(1));
    for i in 0..400u32 {
        wire.give(data(1, (i % 256) as u8));
    }
    let mut streams = poll_streams(&mut session, &mut wire);
    let mut got = Vec::new();
    for _ in 0..100 {
        while let Some(Some(frame)) = next_frame(&mut streams[0]) {
            got.push(frame);
        }
        assert!(poll_streams(&mut session, &mut wire).is_empty());
    }
    assert_eq!(got.len(), 401);
    for i in 0..400usize {
        assert_eq!(got[i + 1], data(1, (i % 256) as u8));
    }
}

#[test]
fn frames_for_no_stream_are_lost() {
    let mut session = Session::new_server(quiet());
    let mut wire = Wire::new();
    wire.give(data(7, 1));
    assert!(poll_streams(&mut session, &mut wire).is_empty());
    wire.give(syn(7));
    wire.give(data(7, 2));
    let mut streams = poll_streams(&mut session, &mut wire);
    assert_eq!(next_frame(&mut streams[0]), Some(Some(syn(7))));
    assert_eq!(next_frame(&mut streams[0]), Some(Some(data(7, 2))));
    assert_eq!(next_frame(&mut streams[0]), None);
}

#[test]
fn a_stream_that_nobody_reads_is_forgotten() {
    let mut session = Session::new_server(quiet());
    let mut wire = Wire::new();
    wire.give(syn(1));
    let streams = poll_streams(&mut session, &mut wire);
    drop(streams);
    wire.give(data(1, 1));
    assert!(poll_streams(&mut session, &mut wire).is_empty());
    assert!(wire.take().is_some());
    // The id is free again.
    wire.give(syn(1));
    assert_eq!(poll_streams(&mut session, &mut wire).len(), 1);
    assert_eq!(
        wire.take(),
        Some(Frame::new_window_update(Flags::from(Flag::Ack), 1, 0))
    );
}

#[test]
fn a_closed_stream_is_forgotten_and_no_other_state_matters() {
    let mut session = Session::new_server(quiet());
    let mut wire = Wire::new();
    wire.give(syn(1));
    let mut streams = poll_streams(&mut session, &mut wire);
    assert!(wire.take().is_some());

    for state in [
        StreamState::LocalClosing,
        StreamState::RemoteClosing,
        StreamState::Reset,
    ] {
        let event = StreamEvent::StateChanged((1, state));
        assert!(matches!(streams[0].send_event(event), Handover::Sent));
    }
    assert!(poll_streams(&mut session, &mut wire).is_empty());
    wire.give(data(1, 1));
    assert!(poll_streams(&mut session, &mut wire).is_empty());
    assert_eq!(next_frame(&mut streams[0]), Some(Some(syn(1))));
    assert_eq!(next_frame(&mut streams[0]), Some(Some(data(1, 1))));

    let event = StreamEvent::StateChanged((1, StreamState::Closed));
    assert!(matches!(streams[0].send_event(event), Handover::Sent));
    assert!(poll_streams(&mut session, &mut wire).is_empty());
    assert_eq!(next_frame(&mut streams[0]), Some(None));
}

#[test]
fn a_stream_sends_frames_and_reports_errors() {
    let mut session = Session::new_client(quiet());
    let mut wire = Wire::new();
    let mut stream = session.open_stream().unwrap();
    let event = StreamEvent::Frame(data(1, 42));
    assert!(matches!(stream.send_event(event), Handover::Sent));
    assert!(poll_streams(&mut session, &mut wire).is_empty());
    assert_eq!(wire.take(), Some(syn(1)));
    assert_eq!(wire.take(), Some(data(1, 42)));

    assert!(matches!(
        stream.send_event(StreamEvent::GoAway),
        Handover::Sent
    ));
    assert!(poll_streams(&mut session, &mut wire).is_empty());
    assert_eq!(
        wire.take(),
        Some(Frame::new_go_away(GoAwayCode::ProtocolError))
    );
}

#[test]
fn events_come_back_when_there_is_no_room_or_nobody_listens() {
    let mut session = Session::new_client(quiet());
    let mut stream = session.open_stream().unwrap();
    // Thirty-two events and the slot of the stream.
    for byte in 0..33 {
        let event = StreamEvent::Frame(data(1, byte));
        assert!(matches!(stream.send_event(event), Handover::Sent));
    }
    match stream.send_event(StreamEvent::Frame(data(1, 33))) {
        Handover::Full(event) => assert_eq!(event, StreamEvent::Frame(data(1, 33))),
        _ => panic!("there is room"),
    }
    drop(session);
    let mut other = Session::new_client(quiet());
    let mut stream = other.open_stream().unwrap();
    drop(other);
    assert!(matches!(
        stream.send_event(StreamEvent::GoAway),
        Handover::Closed
    ));
}

#[test]
fn there_is_room_again_when_the_session_has_listened() {
    let mut session = Session::new_client(quiet());
    let mut wire = Wire::new();
    let mut stream = session.open_stream().unwrap();
    let mut control = session.control();
    let waker = noop_waker();
    let mut cx = Context::from_waker(&waker);
    for byte in 0..33 {
        let event = StreamEvent::Frame(data(1, byte));
        assert!(matches!(stream.send_event(event), Handover::Sent));
        let (tx, _rx) = oneshot::channel();
        assert!(matches!(
            control.send(&mut cx, Command::OpenStream(tx)),
            Handover::Sent
        ));
    }
    let event = StreamEvent::Frame(data(1, 33));
    assert!(matches!(stream.send_event(event), Handover::Full(_)));
    let (tx, _rx) = oneshot::channel();
    assert!(matches!(
        control.send(&mut cx, Command::OpenStream(tx)),
        Handover::Full(_)
    ));

    assert!(poll_streams(&mut session, &mut wire).is_empty());
    let event = StreamEvent::Frame(data(1, 33));
    assert!(matches!(stream.send_event(event), Handover::Sent));
    let (tx, _rx) = oneshot::channel();
    assert!(matches!(
        control.send(&mut cx, Command::OpenStream(tx)),
        Handover::Sent
    ));
}

#[test]
fn a_session_that_is_gone_is_gone_for_good() {
    let mut session = Session::new_client(quiet());
    let mut stream = session.open_stream().unwrap();
    let mut control = session.control();
    let waker = noop_waker();
    let mut cx = Context::from_waker(&waker);
    drop(session);
    for _ in 0..3 {
        assert!(matches!(
            stream.send_event(StreamEvent::GoAway),
            Handover::Closed
        ));
        let (tx, _rx) = oneshot::channel();
        assert!(matches!(
            control.send(&mut cx, Command::Shutdown(tx)),
            Handover::Closed
        ));
    }
}

#[test]
fn a_control_opens_streams() {
    let mut session = Session::new_client(quiet());
    let mut wire = Wire::new();
    let mut control = session.control();
    let waker = noop_waker();
    let mut cx = Context::from_waker(&waker);

    let (tx, mut rx) = oneshot::channel();
    assert!(matches!(
        control.send(&mut cx, Command::OpenStream(tx)),
        Handover::Sent
    ));
    assert!(poll_streams(&mut session, &mut wire).is_empty());
    let stream = rx.try_recv().unwrap().unwrap().unwrap();
    assert_eq!(stream.id(), 1);
    assert_eq!(wire.take(), Some(syn(1)));

    // A session that is over refuses.
    wire.eof = true;
    let (tx, mut rx) = oneshot::channel();
    assert!(matches!(
        control.send(&mut cx, Command::OpenStream(tx)),
        Handover::Sent
    ));
    assert!(matches!(poll(&mut session, &mut wire), Outcome::Finished));
    // It was asked before it came to its end.
    assert_eq!(rx.try_recv().unwrap().unwrap().unwrap().id(), 3);
    drop(session);
    let (tx, _rx) = oneshot::channel();
    assert!(matches!(
        control.send(&mut cx, Command::OpenStream(tx)),
        Handover::Closed
    ));
}

#[test]
fn requests_come_back_when_there_is_no_room() {
    let session = Session::new_client(quiet());
    let mut control = session.control();
    let waker = noop_waker();
    let mut cx = Context::from_waker(&waker);
    for _ in 0..33 {
        let (tx, _rx) = oneshot::channel();
        assert!(matches!(
            control.send(&mut cx, Command::Shutdown(tx)),
            Handover::Sent
        ));
    }
    let (tx, _rx) = oneshot::channel();
    assert!(matches!(
        control.send(&mut cx, Command::Shutdown(tx)),
        Handover::Full(Command::Shutdown(_))
    ));
    // Another control has a slot of its own.
    let mut other = session.control();
    let (tx, _rx) = oneshot::channel();
    assert!(matches!(
        other.send(&mut cx, Command::Shutdown(tx)),
        Handover::Sent
    ));
}

#[test]
fn a_request_for_a_stream_is_refused_after_a_go_away_of_the_peer() {
    let mut session = Session::new_client(quiet());
    let mut wire = Wire::new();
    wire.give(Frame::new_go_away(GoAwayCode::Normal));
    wire.readiness
        .push_back(Readiness::Failed(io::ErrorKind::BrokenPipe.into()));
    assert!(matches!(
        poll(&mut session, &mut wire),
        Outcome::Failed(Failure::Io(_))
    ));

    let mut control = session.control();
    let waker = noop_waker();
    let mut cx = Context::from_waker(&waker);
    let (tx, mut rx) = oneshot::channel();
    assert!(matches!(
        control.send(&mut cx, Command::OpenStream(tx)),
        Handover::Sent
    ));
    assert!(poll_streams(&mut session, &mut wire).is_empty());
    match rx.try_recv() {
        Ok(Some(Err(error))) => assert_eq!(error, Error::RemoteGoAway),
        _ => panic!("no refusal"),
    }
}

#[test]
fn a_request_that_nobody_waits_for_is_obeyed_all_the_same() {
    let mut session = Session::new_client(quiet());
    let mut wire = Wire::new();
    let mut control = session.control();
    let waker = noop_waker();
    let mut cx = Context::from_waker(&waker);
    let (tx, rx) = oneshot::channel();
    drop(rx);
    assert!(matches!(
        control.send(&mut cx, Command::OpenStream(tx)),
        Handover::Sent
    ));
    assert!(poll_streams(&mut session, &mut wire).is_empty());
    assert_eq!(session.open_stream().unwrap().id(), 3);
}

#[test]
fn a_request_to_close_gets_no_answer_where_the_go_away_fails() {
    // The transport fails at each of the three steps that a frame takes.
    for step in 0..3 {
        let mut session = Session::new_client(quiet());
        let mut wire = Wire::new();
        let mut control = session.control();
        let waker = noop_waker();
        let mut cx = Context::from_waker(&waker);
        let (tx, mut rx) = oneshot::channel();
        assert!(matches!(
            control.send(&mut cx, Command::Shutdown(tx)),
            Handover::Sent
        ));
        let error = Readiness::Failed(io::ErrorKind::BrokenPipe.into());
        if step == 0 {
            wire.readiness.push_back(error);
        } else if step == 1 {
            wire.broken = true;
        } else {
            wire.flushes.push_back(Readiness::Ready);
            wire.flushes.push_back(error);
        }
        match poll(&mut session, &mut wire) {
            Outcome::Failed(Failure::Io(error)) => {
                assert_eq!(error.kind(), io::ErrorKind::BrokenPipe);
            }
            _ => panic!("the error is lost"),
        }
        assert!(rx.try_recv().is_err());
    }
}

#[test]
fn streams_of_the_peer_are_handed_out_in_the_order_of_their_opening() {
    let mut session = Session::new_server(quiet());
    let mut wire = Wire::new();
    let own = session.open_stream().unwrap();
    for id in [7, 1, 5, 3] {
        wire.give(syn(id));
    }
    // One with each poll, and never one that was opened here.
    for id in [7, 1, 5, 3] {
        match poll(&mut session, &mut wire) {
            Outcome::Stream(stream) => assert_eq!(stream.id(), id),
            _ => panic!("no stream"),
        }
    }
    assert!(matches!(poll(&mut session, &mut wire), Outcome::Pending));
    assert_eq!(own.id(), 2);
}

#[test]
fn a_second_opening_of_a_waiting_stream_ends_the_session() {
    let mut session = Session::new_server(quiet());
    let mut wire = Wire::new();
    wire.give(syn(3));
    wire.give(syn(3));
    let streams = poll_streams(&mut session, &mut wire);
    assert_eq!(streams.len(), 1);
    assert_eq!(
        wire.outgoing.pop_back().map(|bytes| read(&bytes)),
        Some(Frame::new_go_away(GoAwayCode::ProtocolError))
    );
}

#[test]
fn a_reader_gets_what_is_left_and_then_the_end() {
    let mut session = Session::new_server(quiet());
    let mut wire = Wire::new();
    wire.give(syn(1));
    wire.give(data(1, 10));
    wire.give(data(1, 11));
    let mut streams = poll_streams(&mut session, &mut wire);
    assert_eq!(next_frame(&mut streams[0]), Some(Some(syn(1))));

    let end = session.end();
    let waker = noop_waker();
    let mut cx = Context::from_waker(&waker);
    for byte in [10, 11] {
        match streams[0].poll_frame(&mut cx, Some(&end)) {
            Polled::Item(frame) => assert_eq!(frame, data(1, byte)),
            _ => panic!("a frame is lost"),
        }
    }
    for _ in 0..2 {
        assert!(matches!(
            streams[0].poll_frame(&mut cx, Some(&end)),
            Polled::Closed
        ));
    }
}

#[test]
fn a_reader_of_a_closed_stream_gets_what_is_left_and_then_the_end() {
    let mut session = Session::new_server(quiet());
    let mut wire = Wire::new();
    wire.give(syn(1));
    wire.give(data(1, 10));
    let mut streams = poll_streams(&mut session, &mut wire);
    let event = StreamEvent::StateChanged((1, StreamState::Closed));
    assert!(matches!(streams[0].send_event(event), Handover::Sent));
    assert!(poll_streams(&mut session, &mut wire).is_empty());

    // The session lives on, and the reader does not wait for it.
    let waker = noop_waker();
    let mut cx = Context::from_waker(&waker);
    for frame in [syn(1), data(1, 10)] {
        match streams[0].poll_frame(&mut cx, Some(session.ends())) {
            Polled::Item(got) => assert_eq!(got, frame),
            _ => panic!("a frame is lost"),
        }
    }
    assert!(matches!(
        streams[0].poll_frame(&mut cx, Some(session.ends())),
        Polled::Closed
    ));
    // Nor does it after the end of the session.
    let ends = session.end();
    assert!(matches!(
        streams[0].poll_frame(&mut cx, Some(&ends)),
        Polled::Closed
    ));
}

#[test]
fn both_ends_close_over_a_slow_transport_when_both_are_asked() {
    let mut client = Session::new_client(quiet());
    let mut server = Session::new_server(quiet());
    let mut client_wire = Wire::new();
    let mut server_wire = Wire::new();
    let waker = noop_waker();
    let mut cx = Context::from_waker(&waker);
    let mut client_control = client.control();
    let mut server_control = server.control();
    let (tx, _rx) = oneshot::channel();
    assert!(matches!(
        client_control.send(&mut cx, Command::Shutdown(tx)),
        Handover::Sent
    ));
    let (tx, _rx) = oneshot::channel();
    assert!(matches!(
        server_control.send(&mut cx, Command::Shutdown(tx)),
        Handover::Sent
    ));
    // The transport of the client takes nothing at first, and can be flushed only later.
    client_wire.readiness.push_back(Readiness::Pending);
    client_wire.flushes.push_back(Readiness::Ready);
    client_wire.flushes.push_back(Readiness::Pending);
    assert!(poll_streams(&mut client, &mut client_wire).is_empty());
    assert_eq!(client_wire.outgoing.len(), 0);
    assert!(poll_streams(&mut client, &mut client_wire).is_empty());
    assert_eq!(client_wire.outgoing.len(), 1);
    assert!(poll_streams(&mut server, &mut server_wire).is_empty());
    exchange(&mut client_wire, &mut server_wire);
    assert!(matches!(
        poll(&mut client, &mut client_wire),
        Outcome::Finished
    ));
    assert!(matches!(
        poll(&mut server, &mut server_wire),
        Outcome::Finished
    ));
    // Neither has answered a go away when it had sent one.
    assert_eq!(client_wire.take(), None);
    assert_eq!(server_wire.take(), None);
}

#[test]
fn events_are_dealt_with_in_the_order_in_which_they_were_sent() {
    let mut session = Session::new_client(quiet());
    let mut wire = Wire::new();
    let mut first = session.open_stream().unwrap();
    let mut second = session.open_stream().unwrap();
    for byte in 0..4 {
        let event = StreamEvent::Frame(data(1, byte));
        assert!(matches!(first.send_event(event), Handover::Sent));
        let event = StreamEvent::Frame(data(3, byte));
        assert!(matches!(second.send_event(event), Handover::Sent));
    }
    assert!(poll_streams(&mut session, &mut wire).is_empty());
    let mut sent = Vec::new();
    while let Some(frame) = wire.take() {
        if frame.ty() == Type::Data {
            sent.push(frame);
        } else {
            assert_eq!(frame.ty(), Type::WindowUpdate);
        }
    }
    for byte in 0..4 {
        assert_eq!(sent[2 * byte], data(1, byte as u8));
        assert_eq!(sent[2 * byte + 1], data(3, byte as u8));
    }
    assert_eq!(sent.len(), 8);
}

#[test]
fn a_request_to_close_is_answered_when_the_go_away_is_out() {
    let mut session = Session::new_client(quiet());
    let mut wire = Wire::new();
    let mut control = session.control();
    let waker = noop_waker();
    let mut cx = Context::from_waker(&waker);

    let (tx, mut rx) = oneshot::channel();
    assert!(matches!(
        control.send(&mut cx, Command::Shutdown(tx)),
        Handover::Sent
    ));
    wire.broken = true;
    assert!(matches!(
        poll(&mut session, &mut wire),
        Outcome::Failed(Failure::Io(_))
    ));
    // The go away did not go out, so there is no answer.
    assert!(rx.try_recv().is_err());

    wire.broken = false;
    let (tx, mut rx) = oneshot::channel();
    assert!(matches!(
        control.send(&mut cx, Command::Shutdown(tx)),
        Handover::Sent
    ));
    assert!(poll_streams(&mut session, &mut wire).is_empty());
    assert_eq!(rx.try_recv(), Ok(Some(())));
    assert_eq!(wire.take(), Some(Frame::new_go_away(GoAwayCode::Normal)));
}

#[test]
fn the_queue_goes_out_in_order_however_slow_the_transport_is() {
    let mut session = Session::new_client(quiet());
    let mut wire = Wire::new();
    let mut stream = session.open_stream().unwrap();
    for byte in 0..5 {
        let event = StreamEvent::Frame(data(1, byte));
        assert!(matches!(stream.send_event(event), Handover::Sent));
    }
    // Now and then the transport takes nothing, and cannot even flush.
    for _ in 0..4 {
        wire.readiness.push_back(Readiness::Pending);
        wire.readiness.push_back(Readiness::Ready);
    }
    for _ in 0..5 {
        wire.flushes.push_back(Readiness::Ready);
        wire.flushes.push_back(Readiness::Pending);
    }
    for _ in 0..10 {
        assert!(poll_streams(&mut session, &mut wire).is_empty());
    }
    assert_eq!(wire.take(), Some(syn(1)));
    for byte in 0..5 {
        assert_eq!(wire.take(), Some(data(1, byte)));
    }
    assert_eq!(wire.take(), None);
}

#[test]
fn an_error_of_the_transport_reaches_the_caller() {
    let mut session = Session::new_client(quiet());
    let step = session.poll_next();
    let waker = noop_waker();
    let mut cx = Context::from_waker(&waker);
    let flushing = match step {
        Step::PollFlush(flushing) => flushing,
        _ => panic!("nothing to flush"),
    };
    let error = io::Error::new(io::ErrorKind::ConnectionReset, "gone");
    match session.flushed(&mut cx, flushing, Readiness::Failed(error)) {
        Step::Done(Outcome::Failed(Failure::Io(error))) => {
            assert_eq!(error.kind(), io::ErrorKind::ConnectionReset);
            assert_eq!(error.to_string(), "gone");
        }
        _ => panic!("the error is lost"),
    }

    let error = io::Error::new(io::ErrorKind::InvalidData, "garbled");
    match session.received(&mut cx, true, Incoming::Failed(error)) {
        Step::Done(Outcome::Failed(Failure::Io(error))) => {
            assert_eq!(error.to_string(), "garbled");
        }
        _ => panic!("the error is lost"),
    }
}

#[test]
fn nothing_goes_out_of_a_session_that_is_over() {
    let mut session = Session::new_client(quiet());
    let mut wire = Wire::new();
    let mut stream = session.open_stream().unwrap();
    wire.eof = true;
    let event = StreamEvent::Frame(data(1, 1));
    assert!(matches!(stream.send_event(event), Handover::Sent));
    // The end is seen before the events, so nothing of them goes out.
    assert!(matches!(poll(&mut session, &mut wire), Outcome::Finished));
    assert_eq!(wire.take(), None);
}
