use remote_desktop::dispatcher::Dispatcher;
use remote_desktop::dispatcher::HANDSHAKE_BACKOFF_MS;
use remote_desktop::dispatcher::HANDSHAKE_PROGRESS_MS;
use remote_desktop::dispatcher::HandshakeEvent;
use remote_desktop::dispatcher::HandshakeStep;
use remote_desktop::dispatcher::Phase;
use remote_desktop::dispatcher::RETRY_MS;
use remote_desktop::dispatcher::ReadIdle;
use remote_desktop::dispatcher::SessionError;
use remote_desktop::dispatcher::Step;
use remote_desktop::dispatcher::handshake_step;
use remote_desktop::message_type::MessageType;
use remote_desktop::wire::encode_message;

#[test]
fn handshake_rule_table() {
    assert_eq!(
        handshake_step(HandshakeEvent::Progress { handshaking: false }),
        HandshakeStep::Established
    );
    assert_eq!(
        handshake_step(HandshakeEvent::Progress { handshaking: true }),
        HandshakeStep::RetryAfter(1)
    );
    assert_eq!(handshake_step(HandshakeEvent::WouldBlock), HandshakeStep::RetryAfter(5));
    assert_eq!(handshake_step(HandshakeEvent::Interrupted), HandshakeStep::RetryAfter(5));
    assert_eq!(
        handshake_step(HandshakeEvent::UnexpectedEof),
        HandshakeStep::Abort(SessionError::HandshakeEof)
    );
    assert_eq!(handshake_step(HandshakeEvent::Failed), HandshakeStep::Abort(SessionError::Io));
    assert_eq!((HANDSHAKE_BACKOFF_MS, HANDSHAKE_PROGRESS_MS, RETRY_MS), (5, 1, 1));
}

#[test]
fn starts_by_polling_the_queue() {
    let d = Dispatcher::new();
    assert_eq!(d.phase(), Phase::Poll);
    assert!(d.unsent().is_empty());
}

#[test]
fn queued_message_is_written_in_full_then_flushed() {
    let mut d = Dispatcher::new();
    let payload = vec![1u8, 2, 3, 4, 5, 6];
    let frame = encode_message(MessageType::FrameDelta, &payload).unwrap();
    assert!(matches!(d.on_queued(MessageType::FrameDelta, &payload), Step::Write));
    assert_eq!(d.phase(), Phase::Write);
    assert_eq!(d.unsent(), &frame[..]);
    assert!(matches!(d.on_wrote(4), Step::Write));
    assert_eq!(d.unsent(), &frame[4..]);
    assert!(matches!(d.on_write_blocked(), Step::SleepThenWrite(1)));
    assert_eq!(d.unsent(), &frame[4..]);
    assert!(matches!(d.on_wrote(1), Step::Write));
    assert_eq!(d.unsent(), &frame[5..]);
    assert!(matches!(d.on_wrote(6), Step::Flush));
    assert_eq!(d.phase(), Phase::Flush);
    assert!(d.unsent().is_empty());
    assert!(matches!(d.on_flushed(), Step::PollQueue));
    assert_eq!(d.phase(), Phase::Poll);
}

#[test]
fn queue_is_drained_before_any_read() {
    let mut d = Dispatcher::new();
    assert!(matches!(d.on_queued(MessageType::FrameEnd, &[]), Step::Write));
    assert!(matches!(d.on_wrote(5), Step::Flush));
    assert!(matches!(d.on_flushed(), Step::PollQueue));
    assert!(matches!(d.on_queued(MessageType::FrameEnd, &[]), Step::Write));
    assert!(matches!(d.on_wrote(5), Step::Flush));
    assert!(matches!(d.on_flushed(), Step::PollQueue));
    assert!(matches!(d.on_queue_empty(), Step::PollQueue));
    assert_eq!(d.phase(), Phase::Poll);
    assert!(matches!(d.on_queue_empty(), Step::Read(5)));
    assert_eq!(d.phase(), Phase::Read);
}

#[test]
fn idle_queue_leads_to_exactly_one_read() {
    let mut d = Dispatcher::new();
    assert!(matches!(d.on_queue_empty(), Step::Read(5)));
    assert!(matches!(d.on_read_idle(ReadIdle::WouldBlock), Step::SleepThenPoll(1)));
    assert_eq!(d.phase(), Phase::Poll);
    assert!(matches!(d.on_queue_empty(), Step::Read(5)));
    assert!(matches!(d.on_read_idle(ReadIdle::TimedOut), Step::PollQueue));
    assert!(matches!(d.on_queue_empty(), Step::Read(5)));
    assert!(matches!(d.on_read_idle(ReadIdle::Interrupted), Step::PollQueue));
    assert_eq!(d.phase(), Phase::Poll);
}

#[test]
fn partial_header_is_kept_across_reads() {
    let mut d = Dispatcher::new();
    let frame = encode_message(MessageType::MouseMove, &[0, 0, 0, 10, 0, 0, 0, 20]).unwrap();
    let next = encode_message(MessageType::KeyDown, &[65]).unwrap();
    assert!(matches!(d.on_queue_empty(), Step::Read(5)));
    assert!(matches!(d.on_read(&frame[0..2]), Step::PollQueue));
    assert!(matches!(d.on_queue_empty(), Step::Read(3)));
    assert!(matches!(d.on_read(&frame[2..5]), Step::PollQueue));
    assert!(matches!(d.on_queue_empty(), Step::Read(8)));
    match d.on_read(&frame[5..13]) {
        Step::Dispatch(message) => {
            assert_eq!(message.msg_type, MessageType::MouseMove);
            assert_eq!(message.payload, vec![0, 0, 0, 10, 0, 0, 0, 20]);
        }
        other => panic!("expected a message, got {:?}", other),
    }
    assert_eq!(d.phase(), Phase::Dispatch);
    assert!(matches!(d.on_handled(true), Step::PollQueue));
    assert!(matches!(d.on_queue_empty(), Step::Read(5)));
    match d.on_read(&next) {
        Step::Dispatch(message) => {
            assert_eq!(message.msg_type, MessageType::KeyDown);
            assert_eq!(message.payload, vec![65]);
        }
        other => panic!("expected a message, got {:?}", other),
    }
}

#[test]
fn unknown_message_is_stepped_over_without_losing_the_next_header() {
    let mut d = Dispatcher::new();
    let mut stream = encode_message(MessageType::Unknown(0xFF), &[9; 17]).unwrap();
    stream.extend_from_slice(&encode_message(MessageType::Text, b"hi").unwrap());
    assert!(matches!(d.on_queue_empty(), Step::Read(5)));
    match d.on_read(&stream) {
        Step::Dispatch(message) => {
            assert_eq!(message.msg_type, MessageType::Unknown(0xFF));
            assert_eq!(message.payload, vec![9; 17]);
        }
        other => panic!("expected the unknown message, got {:?}", other),
    }
    match d.on_handled(true) {
        Step::Dispatch(message) => {
            assert_eq!(message.msg_type, MessageType::Text);
            assert_eq!(message.payload, b"hi".to_vec());
        }
        other => panic!("expected the text message, got {:?}", other),
    }
    assert!(matches!(d.on_handled(true), Step::PollQueue));
    assert!(matches!(d.on_queue_empty(), Step::Read(5)));
}

#[test]
fn zero_byte_read_ends_the_session_in_good_order() {
    let mut d = Dispatcher::new();
    assert!(matches!(d.on_queue_empty(), Step::Read(5)));
    assert!(matches!(d.on_read(&[]), Step::Finished));
    assert_eq!(d.phase(), Phase::Closed);
}

#[test]
fn fatal_outcomes_end_the_session() {
    let mut reading = Dispatcher::new();
    reading.on_queue_empty();
    assert!(matches!(reading.on_read_failed(), Step::Failed(SessionError::Io)));
    assert_eq!(reading.phase(), Phase::Closed);

    let mut writing = Dispatcher::new();
    writing.on_queued(MessageType::Text, b"x");
    assert!(matches!(writing.on_write_failed(), Step::Failed(SessionError::Io)));
    assert_eq!(writing.phase(), Phase::Closed);

    let mut closed_socket = Dispatcher::new();
    closed_socket.on_queued(MessageType::Text, b"x");
    assert!(matches!(closed_socket.on_wrote(0), Step::Failed(SessionError::SocketClosed)));
    assert_eq!(closed_socket.phase(), Phase::Closed);

    let mut handler = Dispatcher::new();
    handler.on_queue_empty();
    let frame = encode_message(MessageType::MouseMove, &[1]).unwrap();
    assert!(matches!(handler.on_read(&frame), Step::Dispatch(_)));
    assert!(matches!(handler.on_handled(false), Step::Failed(SessionError::Handler)));
    assert_eq!(handler.phase(), Phase::Closed);
}

#[test]
fn outcomes_out_of_turn_end_the_session() {
    let mut d = Dispatcher::new();
    assert!(matches!(d.on_wrote(1), Step::Failed(SessionError::OutOfTurn)));
    assert_eq!(d.phase(), Phase::Closed);
    assert!(matches!(d.on_queue_empty(), Step::Failed(SessionError::OutOfTurn)));
    assert!(matches!(d.on_queued(MessageType::Text, &[]), Step::Failed(SessionError::OutOfTurn)));
    assert!(matches!(d.on_read(&[1]), Step::Failed(SessionError::OutOfTurn)));
    assert!(matches!(d.on_read_idle(ReadIdle::TimedOut), Step::Failed(SessionError::OutOfTurn)));
    assert!(matches!(d.on_read_failed(), Step::Failed(SessionError::OutOfTurn)));
    assert!(matches!(d.on_flushed(), Step::Failed(SessionError::OutOfTurn)));
    assert!(matches!(d.on_handled(true), Step::Failed(SessionError::OutOfTurn)));
    assert!(matches!(d.on_write_blocked(), Step::Failed(SessionError::OutOfTurn)));
    assert!(matches!(d.on_write_failed(), Step::Failed(SessionError::OutOfTurn)));

    let mut too_much = Dispatcher::new();
    too_much.on_queued(MessageType::Text, b"abc");
    assert!(matches!(too_much.on_wrote(9), Step::Failed(SessionError::OutOfTurn)));
}

#[test]
fn framed_packet_is_written_as_it_is() {
    let mut d = Dispatcher::new();
    let packet = vec![0x22, 0, 0, 0, 8, 0, 0, 0, 1, 0, 0, 0, 2];
    assert!(matches!(d.on_queued_frame(&packet), Step::Write));
    assert_eq!(d.unsent(), &packet[..]);
    assert!(matches!(d.on_wrote(13), Step::Flush));
    assert!(matches!(d.on_flushed(), Step::PollQueue));
    assert!(matches!(d.on_queued_frame(&[]), Step::PollQueue));
    assert_eq!(d.phase(), Phase::Poll);
}
