use yamux::codec::{decode, encode, DecodeError, Decoded};
use yamux::frame::{Flag, Flags, Frame, GoAwayCode, Type};
use yamux::time::{interval, Duration, Instant, Pulse, Timer};
use yamux::Config;

#[test]
fn a_flag_is_one_bit() {
    assert_eq!(Flags::from(Flag::Syn).bits, 1);
    assert_eq!(Flags::from(Flag::Ack).bits, 2);
    assert_eq!(Flags::from(Flag::Fin).bits, 4);
    assert_eq!(Flags::from(Flag::Rst).bits, 8);
    let both = Flags { bits: 5 };
    assert!(both.contains(Flag::Syn));
    assert!(!both.contains(Flag::Ack));
    assert!(both.contains(Flag::Fin));
    assert!(!both.contains(Flag::Rst));
}

#[test]
fn codes_are_numbers() {
    assert_eq!(GoAwayCode::Normal.value(), 0);
    assert_eq!(GoAwayCode::ProtocolError.value(), 1);
    assert_eq!(GoAwayCode::InternalError.value(), 2);
    assert_eq!(GoAwayCode::from(0), GoAwayCode::Normal);
    assert_eq!(GoAwayCode::from(1), GoAwayCode::ProtocolError);
    assert_eq!(GoAwayCode::from(2), GoAwayCode::InternalError);
    assert_eq!(GoAwayCode::from(3), GoAwayCode::InternalError);
}

#[test]
fn a_frame_says_what_it_is() {
    let update = Frame::new_window_update(Flags::from(Flag::Rst), 7, 9);
    assert_eq!(update.ty(), Type::WindowUpdate);
    assert_eq!(update.flags(), Flags { bits: 8 });
    assert_eq!(update.stream_id(), 7);
    assert_eq!(update.length(), 9);
    assert_eq!(update.body, None);
    let ping = Frame::new_ping(Flags::from(Flag::Ack), 11);
    assert_eq!(ping.ty(), Type::Ping);
    assert_eq!(ping.stream_id(), 0);
    assert_eq!(ping.length(), 11);
    let go_away = Frame::new_go_away(GoAwayCode::InternalError);
    assert_eq!(go_away.ty(), Type::GoAway);
    assert_eq!(go_away.length(), 2);
    assert_eq!(go_away.flags(), Flags { bits: 0 });
}

#[test]
fn a_frame_is_written_with_its_header_first() {
    let frame = Frame {
        ty: Type::Data,
        flags: Flags { bits: 0x0102 },
        stream_id: 0x03040506,
        length: 2,
        body: Some(vec![0xaa, 0xbb]),
    };
    assert_eq!(
        encode(&frame),
        vec![0, 0, 1, 2, 3, 4, 5, 6, 0, 0, 0, 2, 0xaa, 0xbb]
    );
    let ping = Frame::new_ping(Flags::from(Flag::Syn), 0xfffefdfc);
    assert_eq!(
        encode(&ping),
        vec![0, 2, 0, 1, 0, 0, 0, 0, 0xff, 0xfe, 0xfd, 0xfc]
    );
}

#[test]
fn what_was_written_is_read_back() {
    let frame = Frame {
        ty: Type::Data,
        flags: Flags { bits: 0x0102 },
        stream_id: 0x03040506,
        length: 2,
        body: Some(vec![0xaa, 0xbb]),
    };
    let mut bytes = encode(&frame);
    bytes.push(0xcc);
    match decode(&bytes, 2) {
        Decoded::Frame(read, size) => {
            assert_eq!(read, frame);
            assert_eq!(size, 14);
        }
        _ => panic!("no frame"),
    }
    // Neither the header nor the body may be cut off.
    for length in 0..14 {
        assert!(matches!(decode(&bytes[..length], 2), Decoded::Incomplete));
    }
    assert!(matches!(
        decode(&bytes, 1),
        Decoded::Invalid(DecodeError::TooLong)
    ));
}

#[test]
fn strange_headers_are_refused() {
    let mut bytes = encode(&Frame::new_go_away(GoAwayCode::Normal));
    bytes[1] = 4;
    assert!(matches!(
        decode(&bytes, 2),
        Decoded::Invalid(DecodeError::Type)
    ));
    bytes[0] = 1;
    assert!(matches!(
        decode(&bytes, 2),
        Decoded::Invalid(DecodeError::Version)
    ));
}

#[test]
fn an_interval_beats_again_and_again() {
    let period = Duration { nanos: 5 };
    let beat = interval(period);
    assert_eq!(beat.period(), period);
    assert_eq!(beat.poll_next(Timer::Running), Pulse::Waiting);
    assert_eq!(beat.poll_next(Timer::Fired), Pulse::Beat(period));
    assert_eq!(beat.poll_next(Timer::Fired), Pulse::Beat(period));
}

#[test]
fn time_passes_in_one_direction() {
    let early = Instant { nanos: 10 };
    let late = Instant { nanos: 25 };
    assert_eq!(late.duration_since(early), Duration { nanos: 15 });
    assert_eq!(early.elapsed(late), Duration { nanos: 15 });
    assert_eq!(late.elapsed(early), Duration { nanos: 0 });
    assert!(Duration { nanos: 3 }.exceeds(Duration { nanos: 2 }));
    assert!(!Duration { nanos: 2 }.exceeds(Duration { nanos: 2 }));
}

#[test]
fn the_standard_settings() {
    let config = Config::default();
    assert!(config.enable_keepalive);
    assert_eq!(config.keepalive_interval.nanos, 30_000_000_000);
    assert_eq!(config.max_stream_window_size, 262_144);
}
