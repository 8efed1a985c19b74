use std::sync::Arc;

use btclient::connection::{
    Connection, ConnectionError, LengthStep, ReadEvent, ReadStep, Received, WriteEvent, WriteStep,
};
use mio::PollOpt;

fn body(wanted: u64, bytes: &[u8]) -> ReadEvent {
    ReadEvent::Body { wanted, got: Received::Data(bytes.to_vec()) }
}

fn prefix(bytes: &[u8]) -> ReadEvent {
    ReadEvent::Prefix(Received::Data(bytes.to_vec()))
}

/// A connection whose peer has sent its handshake.
fn greeted() -> Connection {
    let mut conn = Connection::new(3);
    conn.mark_handshake_done();
    conn
}

#[test]
fn new_connection_is_idle() {
    let conn = Connection::new(7);
    assert_eq!(conn.token, 7);
    assert!(conn.is_idle());
    assert!(!conn.is_reset());
    assert!(!conn.is_to_be_removed());
    assert!(!conn.is_handshake_done());
    assert_eq!(conn.piece_bitmap.len(), 0);
    assert!(conn.piece_buf.is_empty());
    assert!(conn.reregister().0.is_hup());
    assert!(!conn.reregister().0.is_readable());
    assert!(!conn.reregister().0.is_writable());
}

#[test]
fn handshake_is_read_as_a_whole() {
    let mut sender = Connection::new(0);
    let hash: Vec<u8> = (0u8..20).collect();
    assert!(sender.send_handshake(&hash, "-bittorrent-rs-5".to_owned()).is_ok());
    let bytes = match sender.writable(WriteEvent::Ready) {
        WriteStep::Send(bytes) => bytes,
        _ => panic!("nothing to send"),
    };

    let mut conn = Connection::new(1);
    assert!(matches!(conn.readable(ReadEvent::Ready), ReadStep::NeedPrefix(1)));
    assert!(matches!(conn.readable(prefix(&bytes[..1])), ReadStep::NeedBody(67)));
    match conn.readable(body(67, &bytes[1..])) {
        ReadStep::Finished(Ok(Some(message))) => assert_eq!(message, &bytes[1..]),
        _ => panic!("no message"),
    }
    assert!(conn.is_handshake_done());
}

#[test]
fn message_is_read_by_its_length() {
    let mut conn = greeted();
    assert!(matches!(conn.readable(ReadEvent::Ready), ReadStep::NeedPrefix(4)));
    assert!(matches!(conn.readable(prefix(&[0, 0, 1, 2])), ReadStep::NeedBody(258)));
    let payload = vec![9u8; 258];
    match conn.readable(body(258, &payload)) {
        ReadStep::Finished(Ok(Some(message))) => assert_eq!(message, payload),
        _ => panic!("no message"),
    }
    assert!(matches!(conn.readable(ReadEvent::Ready), ReadStep::NeedPrefix(4)));
}

#[test]
fn empty_message_ends_the_event() {
    let mut conn = greeted();
    assert!(matches!(conn.readable(prefix(&[0, 0, 0, 0])), ReadStep::Finished(Ok(None))));
}

#[test]
fn interrupted_read_asks_for_the_same_length() {
    let mut conn = greeted();
    assert!(matches!(conn.readable(prefix(&[0, 0, 0, 5])), ReadStep::NeedBody(5)));
    let blocked = ReadEvent::Body { wanted: 5, got: Received::WouldBlock };
    assert!(matches!(conn.readable(blocked), ReadStep::Finished(Ok(None))));
    assert!(matches!(conn.readable(ReadEvent::Ready), ReadStep::NeedBody(5)));
    assert!(matches!(
        conn.readable(body(5, &[4, 0, 0, 0, 1])),
        ReadStep::Finished(Ok(Some(_)))
    ));
    assert!(matches!(conn.readable(ReadEvent::Ready), ReadStep::NeedPrefix(4)));
}

#[test]
fn interrupted_handshake_asks_for_the_same_length() {
    let mut conn = Connection::new(0);
    assert!(matches!(conn.readable(prefix(&[19])), ReadStep::NeedBody(67)));
    let blocked = ReadEvent::Body { wanted: 67, got: Received::WouldBlock };
    assert!(matches!(conn.readable(blocked), ReadStep::Finished(Ok(None))));
    assert!(matches!(conn.readable(ReadEvent::Ready), ReadStep::NeedBody(67)));
    match conn.readable(body(67, &[7u8; 67])) {
        ReadStep::Finished(Ok(Some(message))) => assert_eq!(message, vec![7u8; 67]),
        _ => panic!("no message"),
    }
    assert!(conn.is_handshake_done());
    assert!(matches!(conn.readable(ReadEvent::Ready), ReadStep::NeedPrefix(4)));
}

#[test]
fn read_that_blocks_before_the_length_changes_nothing() {
    let mut conn = greeted();
    let blocked = ReadEvent::Prefix(Received::WouldBlock);
    assert!(matches!(conn.readable(blocked), ReadStep::Finished(Ok(None))));
    assert!(matches!(conn.readable(ReadEvent::Ready), ReadStep::NeedPrefix(4)));
}

#[test]
fn read_errors() {
    let mut conn = greeted();
    assert!(matches!(
        conn.readable(prefix(&[0, 0])),
        ReadStep::Finished(Err(ConnectionError::InvalidLength))
    ));
    assert!(matches!(
        conn.readable(body(4, &[1, 2])),
        ReadStep::Finished(Err(ConnectionError::ShortRead))
    ));
    assert!(matches!(
        conn.readable(ReadEvent::Prefix(Received::Failed)),
        ReadStep::Finished(Err(ConnectionError::Io))
    ));
    assert!(matches!(
        conn.readable(ReadEvent::Body { wanted: 4, got: Received::Failed }),
        ReadStep::Finished(Err(ConnectionError::Io))
    ));
}

#[test]
fn message_length_of_a_prefix() {
    let conn = greeted();
    assert_eq!(conn.read_message_length(None), Ok(LengthStep::NeedPrefix(4)));
    assert_eq!(
        conn.read_message_length(Some(Received::Data(vec![0x12, 0x34, 0x56, 0x78]))),
        Ok(LengthStep::Held(0x1234_5678)),
    );
    assert_eq!(
        conn.read_message_length(Some(Received::WouldBlock)),
        Ok(LengthStep::Nothing),
    );
    assert_eq!(
        conn.read_message_length(Some(Received::Failed)),
        Err(ConnectionError::Io),
    );
    assert_eq!(
        conn.read_message_length(Some(Received::Data(vec![]))),
        Err(ConnectionError::InvalidLength),
    );
    let new = Connection::new(0);
    assert_eq!(new.read_message_length(None), Ok(LengthStep::NeedPrefix(1)));
    assert_eq!(
        new.read_message_length(Some(Received::Data(vec![19]))),
        Ok(LengthStep::Held(19)),
    );
}

#[test]
fn stored_length_is_taken_without_a_read() {
    let mut conn = greeted();
    conn.readable(ReadEvent::Body { wanted: 5, got: Received::WouldBlock });
    assert_eq!(conn.read_message_length(None), Ok(LengthStep::Stored(5)));
    assert_eq!(
        conn.read_message_length(Some(Received::Data(vec![0, 0, 0, 9]))),
        Ok(LengthStep::Stored(5)),
    );
}

#[test]
fn handshake_has_at_least_49_bytes() {
    for first in 1u8..=255 {
        let mut conn = Connection::new(0);
        match conn.readable(prefix(&[first])) {
            ReadStep::NeedBody(n) => assert_eq!(n, 48 + first as u64),
            _ => panic!("no body"),
        }
    }
    assert!(matches!(
        Connection::new(0).readable(prefix(&[0])),
        ReadStep::Finished(Ok(None))
    ));
}

#[test]
fn interest_and_reset_are_kept() {
    let mut conn = Connection::new(0);
    conn.register();
    conn.mark_reset();
    conn.send_interest().unwrap();
    conn.writable(WriteEvent::Ready);
    conn.writable(WriteEvent::Wrote);
    conn.readable(ReadEvent::Body { wanted: 60, got: Received::WouldBlock });
    conn.readable(body(60, &[1u8; 60]));
    conn.registered(true);
    conn.mark_idle();
    let (interest, _) = conn.reregister();
    assert!(interest.is_hup() && interest.is_readable() && !interest.is_writable());
    assert!(conn.is_reset());
}

#[test]
fn messages_go_out_in_order() {
    let mut conn = Connection::new(0);
    assert!(conn.send_interest().is_ok());
    assert!(conn.send_piece_request(2, 0, 16384).is_ok());
    assert!(conn.reregister().0.is_writable());
    match conn.writable(WriteEvent::Ready) {
        WriteStep::Send(m) => assert_eq!(*m, vec![0, 0, 0, 1, 2]),
        _ => panic!("nothing to send"),
    }
    assert!(matches!(conn.writable(WriteEvent::Wrote), WriteStep::Finished(Ok(()))));
    assert!(conn.reregister().0.is_writable());
    match conn.writable(WriteEvent::Ready) {
        WriteStep::Send(m) => {
            assert_eq!(*m, vec![0, 0, 0, 13, 6, 0, 0, 0, 2, 0, 0, 0, 0, 0, 0, 0x40, 0])
        }
        _ => panic!("nothing to send"),
    }
    assert!(matches!(conn.writable(WriteEvent::Wrote), WriteStep::Finished(Ok(()))));
    assert!(!conn.reregister().0.is_writable());
    assert!(conn.reregister().0.is_hup());
}

#[test]
fn blocked_write_is_queued_again() {
    let mut conn = Connection::new(0);
    assert!(conn.send_message(Arc::new(vec![1])).is_ok());
    assert!(conn.send_message(Arc::new(vec![2])).is_ok());
    let first = match conn.writable(WriteEvent::Ready) {
        WriteStep::Send(m) => m,
        _ => panic!("nothing to send"),
    };
    assert_eq!(*first, vec![1]);
    assert!(matches!(conn.writable(WriteEvent::WouldBlock(first)), WriteStep::Finished(Ok(()))));
    assert!(conn.reregister().0.is_writable());
    for expected in [2u8, 1] {
        match conn.writable(WriteEvent::Ready) {
            WriteStep::Send(m) => assert_eq!(*m, vec![expected]),
            _ => panic!("nothing to send"),
        }
    }
}

#[test]
fn write_errors() {
    let mut conn = Connection::new(0);
    assert!(matches!(
        conn.writable(WriteEvent::Ready),
        WriteStep::Finished(Err(ConnectionError::EmptyQueue))
    ));
    assert!(matches!(
        conn.writable(WriteEvent::Failed),
        WriteStep::Finished(Err(ConnectionError::Io))
    ));
}

#[test]
fn registration_waits_for_reading_and_writing() {
    let mut conn = Connection::new(0);
    let (interest, options) = conn.register();
    assert_eq!(options, PollOpt::edge() | PollOpt::oneshot());
    assert_eq!(conn.reregister(), (interest, options));
    assert!(interest.is_readable() && interest.is_writable() && interest.is_hup());
    conn.registered(false);
    assert!(conn.is_idle());
    conn.registered(true);
    assert!(!conn.is_idle());
}

#[test]
fn marks_stay() {
    let mut conn = Connection::new(0);
    conn.registered(true);
    conn.mark_idle();
    assert!(conn.is_idle());
    conn.mark_reset();
    assert!(conn.is_reset());
    conn.mark_to_be_removed();
    assert!(conn.is_to_be_removed());
    assert!(!conn.is_handshake_done());
}
