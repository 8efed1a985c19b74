use btclient::wire::{
    handshake, interested, message_kind, piece_request, MessageKind, BLOCK_SZ, HANDSHAKE_LEN,
};

#[test]
fn handshake_has_all_fields() {
    let hash: Vec<u8> = (0u8..20).collect();
    let bytes = handshake(&hash, "-bittorrent-rs-123");
    assert_eq!(bytes.len(), HANDSHAKE_LEN);
    assert_eq!(bytes[0], 19);
    assert_eq!(&bytes[1..20], b"BitTorrent protocol");
    assert_eq!(&bytes[20..28], &[0u8; 8]);
    assert_eq!(&bytes[28..48], &hash[..]);
    assert_eq!(&bytes[48..66], b"-bittorrent-rs-123");
    assert_eq!(&bytes[66..], &[0u8; 2]);
    assert_eq!(bytes.len(), 49 + bytes[0] as usize);
}

#[test]
fn handshake_fills_a_short_hash() {
    let bytes = handshake(&[7, 8], "");
    assert_eq!(&bytes[28..32], &[7, 8, 0, 0]);
    assert_eq!(&bytes[48..68], &[0u8; 20]);
}

#[test]
fn interested_is_five_bytes() {
    assert_eq!(interested(), vec![0, 0, 0, 1, 2]);
}

#[test]
fn piece_request_is_seventeen_bytes() {
    assert_eq!(
        piece_request(1, 0x1234_5678, BLOCK_SZ as u32),
        vec![0, 0, 0, 13, 6, 0, 0, 0, 1, 0x12, 0x34, 0x56, 0x78, 0, 0, 0x40, 0],
    );
}

#[test]
fn message_kinds_follow_the_ids() {
    let kinds = [
        MessageKind::Choke,
        MessageKind::Unchoke,
        MessageKind::Interested,
        MessageKind::Uninterested,
        MessageKind::Have,
        MessageKind::Bitfield,
        MessageKind::Request,
        MessageKind::Piece,
        MessageKind::Cancel,
        MessageKind::Port,
    ];
    for (id, kind) in kinds.iter().enumerate() {
        assert_eq!(message_kind(id as u8), *kind);
    }
    assert_eq!(message_kind(10), MessageKind::Other);
    assert_eq!(message_kind(b'B'), MessageKind::Other);
}
