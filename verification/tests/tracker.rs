use btclient::tracker::{
    announce_url, latin1_bytes, latin1_text, overflows, peers_of_entries, peers_of_reply,
    AnnounceError, Entry, Peer, PeerAddr, ReplyError, TrackerInfo, TrackerRequest,
};

fn request<'a>(info_hash: &'a [u8]) -> TrackerRequest<'a> {
    TrackerRequest {
        info_hash,
        peer_id: "-bittorrent-rs-42",
        port: 6881,
        uploaded: 1,
        downloaded: 20,
        left: 300,
    }
}

const REST: &str = "&peer_id=-bittorrent-rs-42&port=6881&uploaded=1&downloaded=20&left=300\
    &compact=1&event=started&supportcrypto=0";

#[test]
fn announcement_is_appended_to_the_url() {
    let hash = [0u8, 0x20, b'a', b'~', 0xff, b'*'];
    assert_eq!(
        announce_url("http://tracker.example/announce", request(&hash)).unwrap(),
        format!("http://tracker.example/announce?info_hash=%00+a%7E%FF*{}", REST),
    );
}

#[test]
fn announcement_follows_a_query() {
    assert_eq!(
        announce_url("http://t/?key=1", request(b"h")).unwrap(),
        format!("http://t/?key=1&info_hash=h{}", REST),
    );
    assert_eq!(
        announce_url("http://t/?#part", request(b"h")).unwrap(),
        format!("http://t/?info_hash=h{}#part", REST),
    );
    assert_eq!(
        announce_url("HTTP://T", request(b"h")).unwrap(),
        format!("http://t/?info_hash=h{}", REST),
    );
}

#[test]
fn announcement_needs_a_url() {
    assert_eq!(announce_url("not a url", request(b"h")), Err(AnnounceError::InvalidUrl));
}

#[test]
fn announcement_goes_to_long_urls() {
    let long = format!("http://t/{}", "a".repeat(0x100_0000));
    assert_eq!(
        announce_url(&long, request(b"h")).unwrap(),
        format!("{}?info_hash=h{}", long, REST),
    );
}

#[test]
fn fragment_has_to_start_within_32_bits() {
    let limit = u32::MAX as u128;
    assert!(!overflows("http://t/#x", limit - 9));
    assert!(overflows("http://t/#x", limit - 8));
    assert!(overflows("http://t/?a#", limit));
    assert!(!overflows("http://t/", limit));
    assert!(!overflows("http://t/?a", 2 * limit));
}

#[test]
fn different_hashes_are_written_differently() {
    let urls: Vec<String> = (0u8..=255)
        .map(|b| announce_url("http://t", request(&[b])).unwrap())
        .collect();
    for (i, a) in urls.iter().enumerate() {
        for b in &urls[i + 1..] {
            assert_ne!(a, b);
        }
    }
}

#[test]
fn bytes_and_characters() {
    let bytes: Vec<u8> = (0u8..=255).collect();
    let text = latin1_text(&bytes);
    assert_eq!(text.chars().count(), 256);
    assert_eq!(latin1_bytes(&text), bytes);
    assert_eq!(latin1_bytes("\u{141}"), vec![0x41]);
}

#[test]
fn reply_lists_peers() {
    let mut reply = b"d8:intervali1800e5:peers12:".to_vec();
    reply.extend_from_slice(&[127, 0, 0, 1, 0x1a, 0xe1, 10, 1, 2, 3, 0, 80]);
    reply.push(b'e');
    assert_eq!(
        peers_of_reply(&reply).unwrap(),
        vec![
            PeerAddr { ip: [127, 0, 0, 1], port: 6881 },
            PeerAddr { ip: [10, 1, 2, 3], port: 80 },
        ],
    );
    assert_eq!(peers_of_reply(b"d8:intervali1e5:peers0:e").unwrap(), vec![]);
}

#[test]
fn reply_errors() {
    let cases: [(&[u8], ReplyError); 7] = [
        (b"", ReplyError::Malformed),
        (b"d5:peers", ReplyError::Malformed),
        (b"i5e", ReplyError::NotDictionary),
        (b"d8:intervali1ee", ReplyError::NoPeers),
        (b"d8:intervali1e5:peersi1ee", ReplyError::PeersNotBytes),
        (b"d8:intervali1e5:peers5:abcdee", ReplyError::TruncatedPeer),
        (b"d5:peers0:e", ReplyError::NoInterval),
    ];
    for (reply, error) in cases {
        assert_eq!(peers_of_reply(reply), Err(error));
    }
}

#[test]
fn entries_of_a_reply() {
    let peers = || Some(Entry::Bytes(vec![1, 2, 3, 4, 1, 0]));
    let expected = vec![PeerAddr { ip: [1, 2, 3, 4], port: 256 }];
    assert_eq!(peers_of_entries(peers(), Some(Entry::NotBytes)), Ok(expected.clone()));
    assert_eq!(peers_of_entries(peers(), Some(Entry::Bytes(vec![]))), Ok(expected));
    assert_eq!(peers_of_entries(peers(), Some(Entry::Missing)), Err(ReplyError::NoInterval));
    assert_eq!(peers_of_entries(peers(), None), Err(ReplyError::NoInterval));
    assert_eq!(peers_of_entries(None, None), Err(ReplyError::Malformed));
    assert_eq!(
        peers_of_entries(Some(Entry::NotDict), Some(Entry::NotDict)),
        Err(ReplyError::NotDictionary),
    );
}

#[test]
fn peers_start_out_choking() {
    let address = PeerAddr { ip: [1, 2, 3, 4], port: 5 };
    let peer = Peer::new(address);
    assert_eq!(peer.ip_port, address);
    assert_eq!(peer.id, None);
    assert_eq!(peer.piece_bitmap.len(), 0);
    assert!(peer.am_choking && peer.peer_choking);
    assert!(!peer.am_interested && !peer.peer_interested);
}

#[test]
fn tracker_info_of_a_reply() {
    let blank = TrackerInfo::new();
    assert!(blank.peers.is_empty());
    assert_eq!((blank.interval, blank.tracker_id), (0, None));
    let addresses = vec![
        PeerAddr { ip: [1, 1, 1, 1], port: 1 },
        PeerAddr { ip: [2, 2, 2, 2], port: 2 },
    ];
    let info = TrackerInfo::from_addresses(&addresses);
    let got: Vec<PeerAddr> = info.peers.iter().map(|p| p.ip_port).collect();
    assert_eq!(got, addresses);
    assert_eq!((info.interval, info.tracker_id), (100, None));
}
