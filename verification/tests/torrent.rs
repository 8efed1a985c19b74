use btclient::connection::{ReadEvent, Received, WriteEvent, WriteStep};
use btclient::connection::ConnectionError;
use btclient::metainfo::{Metainfo, MetainfoError};
use btclient::torrent::{
    Command, CommandStep, DialEvent, DialStep, ReadyStep, Torrent, TorrentReadStep, MAX_CONNS,
    SERVER,
};
use btclient::tracker::{AnnounceError, PeerAddr, ReplyError};
use btclient::wire::MessageKind;
use mio::{PollOpt, Ready};

/// The metainfo file of a torrent with one file.
fn single(date: &str, length: i64, piece_length: i64, pieces: usize) -> Vec<u8> {
    let tracker = "http://tracker.example/announce";
    let mut out = format!("d8:announce{}:{}7:comment2:hi", tracker.len(), tracker);
    out.push_str("10:created by3:abc");
    out.push_str(date);
    out.push_str(&format!("4:infod6:lengthi{}e4:name8:file.txt", length));
    out.push_str(&format!("12:piece lengthi{}e", piece_length));
    out.push_str(&format!("6:pieces{}:{}ee", 20 * pieces, "x".repeat(20 * pieces)));
    out.into_bytes()
}

/// The metainfo file of a torrent with three files and no tracker.
fn multi() -> Vec<u8> {
    let mut out = String::from("d4:infod5:files");
    out.push_str("ld6:lengthi10000e4:pathl1:aeed6:lengthi50000e4:pathl3:sub1:bee");
    out.push_str("d6:lengthi5000e4:pathleee4:name3:dir12:piece lengthi32768e6:pieces40:");
    out.push_str(&"y".repeat(40));
    out.push_str("ee");
    out.into_bytes()
}

fn torrent() -> Torrent {
    let bytes = single("", 40000, 32768, 2);
    Torrent::new(&bytes, "-bittorrent-rs-42".to_owned(), 6881).unwrap().0
}

fn addresses(count: usize) -> Vec<PeerAddr> {
    (0..count).map(|i| PeerAddr { ip: [10, 0, 0, i as u8], port: 1000 + i as u16 }).collect()
}

/// A torrent with connections to this many peers.
fn connected(count: usize) -> Torrent {
    let mut t = torrent();
    t.take_peers(&addresses(count));
    let mut event = DialEvent::Start;
    loop {
        event = match t.dial(event) {
            DialStep::Connect { peer, .. } => DialEvent::Connected { peer },
            DialStep::Register { peer, token, .. } => {
                DialEvent::Registered { peer, token, accepted: true }
            }
            DialStep::Finished => return t,
        };
    }
}

fn sent(t: &mut Torrent, token: usize) -> Vec<u8> {
    let conn = t.find_connection_by_token(token);
    let message = match conn.writable(WriteEvent::Ready) {
        WriteStep::Send(message) => message.to_vec(),
        _ => panic!("nothing to send"),
    };
    assert!(matches!(conn.writable(WriteEvent::Wrote), WriteStep::Finished(Ok(()))));
    message
}

#[test]
fn torrent_is_made_from_bytes() {
    let (t, overview) =
        Torrent::new(&multi(), "-bittorrent-rs-1".to_owned(), 6881).ok().unwrap();
    assert_eq!(t.root_name(), "dir");
    assert!(overview.starts_with("------Metainfo File Overview-----\nInfoHash: 73d3a8541c39"));
    assert!(t.file_names().is_empty());
}

#[test]
fn files_are_placed() {
    let mut t = Torrent::new(&multi(), "-bittorrent-rs-1".to_owned(), 6881).ok().unwrap().0;
    assert!(t.placeable());
    t.lay_out();
    assert_eq!(t.file_names(), vec!["a".to_owned(), "sub".to_owned(), "<unknown>".to_owned()]);
}

#[test]
fn torrent_needs_no_piece_length() {
    let t = Torrent::new(&single("", 1, 0, 1), "x".to_owned(), 1).ok().unwrap().0;
    assert_eq!(t.root_name(), "file.txt");
    assert!(!t.placeable());
}

#[test]
fn torrent_errors() {
    let id = || "-bittorrent-rs-1".to_owned();
    assert_eq!(
        Torrent::new(&b"nonsense".to_vec(), id(), 1).err(),
        Some(MetainfoError::Malformed),
    );
    let mut huge = String::from("d4:infod5:filesl");
    huge.push_str(&format!("d6:lengthi{}e4:pathl1:aee", i64::MAX));
    huge.push_str("d6:lengthi1e4:pathl1:beee4:name3:dir12:piece lengthi1e6:pieces0:ee");
    assert_eq!(
        Torrent::new(&huge.into_bytes(), id(), 1).err(),
        Some(MetainfoError::Unusable),
    );
    let late = single("13:creation datei99999999999999e", 1, 1, 1);
    assert_eq!(Torrent::new(&late, id(), 1).err(), Some(MetainfoError::DateOutOfRange));
}

#[test]
fn download_starts_with_an_announcement() {
    let t = torrent();
    let expected = "http://tracker.example/announce?info_hash=\
        %B2M%13%FA%1C%F7%5D%C1%D0%19%1A8%EE%EE%AC%ED%1E%00%CA%AA\
        &peer_id=-bittorrent-rs-42&port=6881&uploaded=0&downloaded=0&left=40000\
        &compact=1&event=started&supportcrypto=0";
    assert_eq!(t.announce_url().unwrap(), expected);
    match t.accept_cmd(Command::StartDownload) {
        CommandStep::Announce(url) => assert_eq!(url.unwrap(), expected),
        other => panic!("{:?}", other),
    }
}

#[test]
fn download_needs_a_tracker() {
    let t = Torrent::new(&multi(), "x".to_owned(), 1).ok().unwrap().0;
    assert_eq!(t.announce_url(), Err(AnnounceError::NoTracker));
}

#[test]
fn files_are_listed() {
    match torrent().accept_cmd(Command::ListFiles) {
        CommandStep::Print(text) => assert_eq!(
            text,
            "File List:\nSize (bytes)\tPath\n\
             ------------\t----------------------------------------------\n\u{20}      \
             40000\tfile.txt\n",
        ),
        other => panic!("{:?}", other),
    }
}

#[test]
fn other_commands_do_nothing_yet() {
    let t = torrent();
    for command in [Command::StartSeed, Command::StopDownload, Command::StopSeed, Command::Exit] {
        assert!(matches!(t.accept_cmd(command), CommandStep::NotImplemented));
    }
}

#[test]
fn tracker_reply_names_peers() {
    let mut t = torrent();
    assert!(matches!(t.dial(DialEvent::Start), DialStep::Finished));
    let mut reply = b"d8:intervali1800e5:peers6:".to_vec();
    reply.extend_from_slice(&[9, 8, 7, 6, 0x1a, 0xe1, b'e']);
    assert_eq!(t.contact_tracker(&reply), Ok(()));
    match t.dial(DialEvent::Start) {
        DialStep::Connect { peer, address } => {
            assert_eq!((peer, address), (0, PeerAddr { ip: [9, 8, 7, 6], port: 6881 }))
        }
        _ => panic!("no peer"),
    }
    assert_eq!(t.contact_tracker(b"de"), Err(ReplyError::NoPeers));
    assert!(matches!(t.dial(DialEvent::Start), DialStep::Connect { .. }));
}

#[test]
fn piece_numbers_ascend() {
    let mut t = torrent();
    assert_eq!(t.get_piece_num(), Ok(0));
    assert_eq!(t.get_piece_num(), Ok(1));
    assert_eq!(t.get_piece_num(), Ok(2));
    assert_eq!(t.get_piece_num(), Err("No more pieces to request!".to_owned()));
    assert_eq!(t.get_piece_num(), Err("No more pieces to request!".to_owned()));
}

#[test]
fn first_missing_part_of_a_block() {
    let mut t = torrent();
    t.lay_out();
    assert_eq!(t.get_block_num(0), Ok(0));
    assert_eq!(t.get_block_num(3), Ok(0));
}

#[test]
fn peers_are_greeted_in_order() {
    let mut t = connected(3);
    for token in 0..3 {
        assert!(t.has_connection(token));
        assert_eq!(t.find_connection_by_token(token).token, token);
        assert!(!t.find_connection_by_token(token).is_idle());
        let handshake = sent(&mut t, token);
        assert_eq!(handshake.len(), 68);
        assert_eq!(&handshake[28..31], &[0xb2, 0x4d, 0x13]);
        assert_eq!(&handshake[48..65], b"-bittorrent-rs-42");
        assert_eq!(sent(&mut t, token), vec![0, 0, 0, 1, 2]);
        let request = [0, 0, 0, 13, 6, 0, 0, 0, token as u8, 0, 0, 0, 0, 0, 0, 0x40, 0];
        assert_eq!(sent(&mut t, token), request);
    }
    assert!(!t.has_connection(3));
}

#[test]
fn registration_asks_for_reads_and_writes() {
    let mut t = torrent();
    t.take_peers(&addresses(1));
    match t.dial(DialEvent::Connected { peer: 0 }) {
        DialStep::Register { peer, token, interest, options } => {
            assert_eq!((peer, token), (0, 0));
            assert_eq!(options, PollOpt::edge() | PollOpt::oneshot());
            assert!(interest.is_readable() && interest.is_writable() && interest.is_hup());
            assert!(!interest.is_error());
        }
        _ => panic!("no registration"),
    }
}

#[test]
fn refused_registration_goes_on_with_the_next_peer() {
    let mut t = torrent();
    t.take_peers(&addresses(2));
    assert!(matches!(
        t.dial(DialEvent::Connected { peer: 0 }),
        DialStep::Register { token: 0, .. }
    ));
    match t.dial(DialEvent::Registered { peer: 0, token: 0, accepted: false }) {
        DialStep::Connect { peer, address } => {
            assert_eq!(peer, 1);
            assert_eq!(address, addresses(2)[1]);
        }
        _ => panic!("no further peer"),
    }
    assert!(!t.has_connection(0));
}

#[test]
fn failed_connection_ends_the_attempt() {
    let mut t = torrent();
    t.take_peers(&addresses(2));
    assert!(matches!(t.dial(DialEvent::Failed), DialStep::Finished));
}

#[test]
fn there_is_room_for_so_many_connections() {
    let mut t = connected(200);
    assert!(t.has_connection(MAX_CONNS - 1));
    assert!(!t.has_connection(MAX_CONNS));
    assert!(matches!(t.dial(DialEvent::Connected { peer: 150 }), DialStep::Finished));
    t.find_connection_by_token(17).mark_reset();
    assert_eq!(t.tick(), vec![17]);
    assert!(matches!(
        t.dial(DialEvent::Connected { peer: 150 }),
        DialStep::Register { token: 17, .. }
    ));
}

#[test]
fn tick_removes_reset_connections() {
    let mut t = connected(4);
    t.find_connection_by_token(2).mark_reset();
    t.find_connection_by_token(0).mark_reset();
    assert_eq!(t.tick(), vec![0, 2]);
    assert!(!t.has_connection(0) && t.has_connection(1));
    assert!(!t.has_connection(2) && t.has_connection(3));
    assert_eq!(t.tick(), Vec::<usize>::new());
}

#[test]
fn idle_connections_are_registered_anew() {
    let mut t = connected(4);
    assert!(t.idle_connections().is_empty());
    for token in [3, 1, 0] {
        t.find_connection_by_token(token).mark_idle();
    }
    t.find_connection_by_token(1).mark_reset();
    assert_eq!(t.idle_connections(), vec![0, 3]);
    t.reregistered(0, true);
    t.reregistered(3, false);
    assert!(t.idle_connections().is_empty());
    assert!(!t.find_connection_by_token(0).is_idle());
    assert_eq!(t.tick(), vec![1, 3]);
}

#[test]
fn events_that_can_come_up() {
    let t = connected(1);
    assert!(t.takes(0, Ready::readable()));
    assert!(!t.takes(1, Ready::readable()));
    assert!(t.takes(SERVER, Ready::readable()));
    assert!(t.takes(SERVER, Ready::none()));
    assert!(!t.takes(SERVER, Ready::writable()));
    assert!(!t.takes(SERVER, Ready::error()));
    assert!(!t.takes(SERVER, Ready::hup()));
}

#[test]
fn error_and_hup_reset_a_connection() {
    let mut t = connected(2);
    assert_eq!(t.ready(0, Ready::error() | Ready::hup()), ReadyStep::Done);
    assert_eq!(t.ready(1, Ready::hup() | Ready::readable()), ReadyStep::HungUp);
    assert!(t.find_connection_by_token(0).is_reset());
    assert!(t.find_connection_by_token(1).is_reset());
    assert_eq!(t.tick(), vec![0, 1]);
}

#[test]
fn reset_connection_is_left_alone() {
    let mut t = connected(1);
    t.find_connection_by_token(0).mark_reset();
    assert_eq!(t.ready(0, Ready::writable() | Ready::readable()), ReadyStep::Done);
    assert_eq!(t.ready(0, Ready::readable()), ReadyStep::Done);
    assert!(!t.find_connection_by_token(0).is_idle());
}

#[test]
fn event_is_written_then_read() {
    let mut t = connected(1);
    let both = Ready::writable() | Ready::readable();
    assert_eq!(t.ready(0, both), ReadyStep::Write);
    assert_eq!(t.ready_after_write(0, both, true), ReadyStep::Read);
    assert!(!t.find_connection_by_token(0).is_idle());
    t.ready_after_read(0, true);
    assert!(t.find_connection_by_token(0).is_idle());
    assert!(!t.find_connection_by_token(0).is_reset());
}

#[test]
fn event_without_reading_leaves_idle() {
    let mut t = connected(2);
    assert_eq!(t.ready(0, Ready::writable()), ReadyStep::Write);
    assert_eq!(t.ready_after_write(0, Ready::writable(), true), ReadyStep::Done);
    assert!(t.find_connection_by_token(0).is_idle());
    assert_eq!(t.ready(1, Ready::none()), ReadyStep::Done);
    assert!(t.find_connection_by_token(1).is_idle());
}

#[test]
fn failed_write_and_read_reset() {
    let mut t = connected(2);
    let both = Ready::writable() | Ready::readable();
    assert_eq!(t.ready_after_write(0, both, false), ReadyStep::Done);
    assert!(t.find_connection_by_token(0).is_reset());
    assert!(!t.find_connection_by_token(0).is_idle());
    assert_eq!(t.ready(1, Ready::readable()), ReadyStep::Read);
    t.ready_after_read(1, false);
    assert!(t.find_connection_by_token(1).is_reset());
    assert!(t.find_connection_by_token(1).is_idle());
}

#[test]
fn queue_of_commands_is_registered_for_reading() {
    let (token, interest, options) = torrent().register();
    assert_eq!(token, SERVER);
    assert_eq!(interest, Ready::readable());
    assert_eq!(options, PollOpt::edge());
}

#[test]
fn round_leaves_no_idle_connection() {
    let mut t = connected(3);
    for token in 0..3 {
        assert_eq!(t.ready(token, Ready::none()), ReadyStep::Done);
    }
    assert_eq!(t.idle_connections(), vec![0, 1, 2]);
    t.reregistered(0, true);
    t.reregistered(1, false);
    t.reregistered(2, true);
    assert_eq!(t.tick(), vec![1]);
    assert!(t.idle_connections().is_empty());
    for token in [0, 2] {
        let conn = t.find_connection_by_token(token);
        assert!(!conn.is_idle() && !conn.is_reset());
    }
}

#[test]
fn torrent_is_made_from_metainfo() {
    let metainfo = Metainfo::from_bytes(&single("", 40000, 32768, 2)).unwrap();
    let t = Torrent::from_metainfo(metainfo, "-bittorrent-rs-42".to_owned(), 6881);
    assert_eq!(t.root_name(), "file.txt");
    assert_eq!(t.announce_url(), torrent().announce_url());
    assert!(t.file_names().is_empty());
}

#[test]
fn readable_queue_is_a_command() {
    let mut t = torrent();
    assert_eq!(t.ready(SERVER, Ready::readable()), ReadyStep::AcceptCommand);
    assert_eq!(t.ready(SERVER, Ready::none()), ReadyStep::Done);
}

#[test]
fn messages_reach_all_connections() {
    let mut t = connected(3);
    t.find_connection_by_token(1).mark_handshake_done();
    for token in 0..3 {
        for _ in 0..3 {
            sent(&mut t, token);
        }
        assert!(!t.find_connection_by_token(token).reregister().0.is_writable());
    }
    for message in [vec![4u8, 0, 0, 0, 9], vec![0]] {
        let wanted = message.len() as u64;
        t.readable(1, ReadEvent::Body { wanted, got: Received::Data(message) });
    }
    t.readable(1, ReadEvent::Prefix(Received::WouldBlock));
    for token in 0..3 {
        assert!(t.find_connection_by_token(token).reregister().0.is_writable());
        assert_eq!(sent(&mut t, token), vec![4, 0, 0, 0, 9]);
        assert_eq!(sent(&mut t, token), vec![0]);
        assert!(!t.find_connection_by_token(token).reregister().0.is_writable());
    }
}

#[test]
fn attempt_connects_the_accepted_peers() {
    let mut t = torrent();
    t.take_peers(&addresses(5));
    let mut event = DialEvent::Start;
    loop {
        event = match t.dial(event) {
            DialStep::Connect { peer: 4, .. } => DialEvent::Failed,
            DialStep::Connect { peer, .. } => DialEvent::Connected { peer },
            DialStep::Register { peer, token, .. } => {
                DialEvent::Registered { peer, token, accepted: peer % 2 == 1 }
            }
            DialStep::Finished => break,
        };
    }
    let pieces: Vec<u8> = (0..MAX_CONNS)
        .filter(|token| t.has_connection(*token))
        .collect::<Vec<usize>>()
        .into_iter()
        .map(|token| {
            sent(&mut t, token);
            sent(&mut t, token);
            sent(&mut t, token)[8]
        })
        .collect();
    assert_eq!(pieces, vec![1, 3]);
}

#[test]
fn messages_are_read_until_none_is_left() {
    let mut t = connected(1);
    t.find_connection_by_token(0).mark_handshake_done();
    assert!(matches!(t.readable(0, ReadEvent::Ready), TorrentReadStep::NeedPrefix(4)));
    let prefix = ReadEvent::Prefix(Received::Data(vec![0, 0, 0, 3]));
    assert!(matches!(t.readable(0, prefix), TorrentReadStep::NeedBody(3)));
    let message = ReadEvent::Body { wanted: 3, got: Received::Data(vec![5, 0b1010_0000, 1]) };
    match t.readable(0, message) {
        TorrentReadStep::Message { kind, bytes } => {
            assert_eq!(kind, MessageKind::Bitfield);
            assert_eq!(bytes, vec![5, 0b1010_0000, 1]);
        }
        other => panic!("{:?}", other),
    }
    let bits: Vec<bool> = t.find_connection_by_token(0).piece_bitmap.iter().collect();
    let expected: Vec<bool> = "1010000000000001".chars().map(|c| c == '1').collect();
    assert_eq!(bits, expected);

    let have = ReadEvent::Body { wanted: 1, got: Received::Data(vec![1]) };
    assert!(matches!(
        t.readable(0, have),
        TorrentReadStep::Message { kind: MessageKind::Unchoke, .. }
    ));
    assert_eq!(t.find_connection_by_token(0).piece_bitmap.len(), 16);
    assert!(matches!(
        t.readable(0, ReadEvent::Prefix(Received::WouldBlock)),
        TorrentReadStep::Finished(Ok(()))
    ));
    assert!(matches!(
        t.readable(0, ReadEvent::Prefix(Received::Failed)),
        TorrentReadStep::Finished(Err(ConnectionError::Io))
    ));
}
