//! The peer wire format: the handshake and the length-prefixed messages that follow it.

use byteorder::{BigEndian, ByteOrder};
use vstd::prelude::*;
use vstd::string::*;
use vstd::utf8::*;

verus! {

/// Length of the protocol string.
pub const PSTRLEN: u8 = 19;

/// Length of a handshake, its length byte included.
pub const HANDSHAKE_LEN: usize = 68;

/// Length of the fields for the info hash and the peer id.
pub const HASH_LEN: usize = 20;

/// Number of bytes that one request asks for.
pub const BLOCK_SZ: usize = 16384;

/// The protocol string of a handshake.
pub open spec fn protocol() -> Seq<char> {
    "BitTorrent protocol"@
}

/// The bytes of a text of ASCII characters.
pub open spec fn ascii_bytes(text: Seq<char>) -> Seq<u8> {
    Seq::new(text.len(), |i: int| text[i] as u8)
}

/// A byte string, filled up with zero bytes to a length.
pub open spec fn zero_padded(bytes: Seq<u8>, len: nat) -> Seq<u8> {
    bytes + Seq::new((len - bytes.len()) as nat, |i: int| 0u8)
}

/// The four bytes of a number, the most significant one first.
pub open spec fn be32(n: u32) -> Seq<u8> {
    seq![
        (n / 0x100_0000) as u8,
        (n / 0x1_0000 % 0x100) as u8,
        (n / 0x100 % 0x100) as u8,
        (n % 0x100) as u8,
    ]
}

/// The number whose four bytes come first in a byte string, the most significant one first.
pub open spec fn be32_value(bytes: Seq<u8>) -> int {
    bytes[0] * 0x100_0000 + bytes[1] * 0x1_0000 + bytes[2] * 0x100 + bytes[3]
}

/// The handshake for an info hash and a peer id.
pub open spec fn handshake_bytes(info_hash: Seq<u8>, peer_id: Seq<u8>) -> Seq<u8> {
    seq![PSTRLEN] + ascii_bytes(protocol()) + zero_padded(Seq::empty(), 8) + zero_padded(
        info_hash,
        HASH_LEN as nat,
    ) + zero_padded(peer_id, HASH_LEN as nat)
}

/// A message that consists of its id alone.
pub open spec fn control_bytes(id: u8) -> Seq<u8> {
    be32(1) + seq![id]
}

/// The request for `length` bytes of piece `index` from `begin` on.
pub open spec fn request_bytes(index: u32, begin: u32, length: u32) -> Seq<u8> {
    be32(13) + seq![6u8] + be32(index) + be32(begin) + be32(length)
}

/// What a message is about.
#[derive(Clone, Copy, Debug, PartialEq, Eq, Structural)]
pub enum MessageKind {
    Choke,
    Unchoke,
    Interested,
    Uninterested,
    Have,
    Bitfield,
    Request,
    Piece,
    Cancel,
    Port,
    /// A handshake, or a message that is not known.
    Other,
}

/// What a message with this id is about.
pub open spec fn kind_of(id: u8) -> MessageKind {
    if id == 0 {
        MessageKind::Choke
    } else if id == 1 {
        MessageKind::Unchoke
    } else if id == 2 {
        MessageKind::Interested
    } else if id == 3 {
        MessageKind::Uninterested
    } else if id == 4 {
        MessageKind::Have
    } else if id == 5 {
        MessageKind::Bitfield
    } else if id == 6 {
        MessageKind::Request
    } else if id == 7 {
        MessageKind::Piece
    } else if id == 8 {
        MessageKind::Cancel
    } else if id == 9 {
        MessageKind::Port
    } else {
        MessageKind::Other
    }
}

/// What a message with this id is about.
pub fn message_kind(id: u8) -> (r: MessageKind)
    ensures
        r == kind_of(id),
{
    match id {
        0 => MessageKind::Choke,
        1 => MessageKind::Unchoke,
        2 => MessageKind::Interested,
        3 => MessageKind::Uninterested,
        4 => MessageKind::Have,
        5 => MessageKind::Bitfield,
        6 => MessageKind::Request,
        7 => MessageKind::Piece,
        8 => MessageKind::Cancel,
        9 => MessageKind::Port,
        _ => MessageKind::Other,
    }
}

/// `BigEndian::read_u32`: the number in the first four bytes, the most significant one first. The
/// call panics on fewer than four bytes.
#[verifier::external_body]
pub(crate) fn read_be32(bytes: &[u8]) -> (n: u32)
    requires
        bytes@.len() >= 4,
    ensures
        n == be32_value(bytes@),
{
    BigEndian::read_u32(bytes)
}

/// Appends the four bytes of a number, the most significant one first.
fn push_be32(out: &mut Vec<u8>, n: u32)
    ensures
        final(out)@ == old(out)@ + be32(n),
{
    out.push((n / 0x100_0000) as u8);
    out.push((n / 0x1_0000 % 0x100) as u8);
    out.push((n / 0x100 % 0x100) as u8);
    out.push((n % 0x100) as u8);
    assert(out@ =~= old(out)@ + be32(n));
}

/// Appends a byte string, filled up with zero bytes to a length.
fn push_padded(out: &mut Vec<u8>, bytes: &[u8], len: usize)
    requires
        bytes@.len() <= len,
    ensures
        final(out)@ == old(out)@ + zero_padded(bytes@, len as nat),
{
    let mut i: usize = 0;
    while i < len
        invariant
            i <= len,
            bytes@.len() <= len,
            out@ == old(out)@ + zero_padded(bytes@, len as nat).take(i as int),
        decreases len - i,
    {
        if i < bytes.len() {
            out.push(bytes[i]);
        } else {
            out.push(0);
        }
        assert(zero_padded(bytes@, len as nat).take(i + 1) =~= zero_padded(
            bytes@,
            len as nat,
        ).take(i as int).push(zero_padded(bytes@, len as nat)[i as int]));
        i = i + 1;
    }
    assert(zero_padded(bytes@, len as nat).take(len as int) =~= zero_padded(bytes@, len as nat));
}

/// Builds the handshake for an info hash and a peer id. Each of the two is followed by zero bytes
/// where it is shorter than its field.
pub fn handshake(info_hash: &[u8], peer_id: &str) -> (r: Vec<u8>)
    requires
        info_hash@.len() <= HASH_LEN,
        encode_utf8(peer_id@).len() <= HASH_LEN,
    ensures
        r@ == handshake_bytes(info_hash@, encode_utf8(peer_id@)),
        r@.len() == HANDSHAKE_LEN,
{
    let mut out: Vec<u8> = Vec::with_capacity(HANDSHAKE_LEN);
    out.push(PSTRLEN);
    let name: &str = "BitTorrent protocol";
    let none: Vec<u8> = Vec::new();
    proof {
        reveal_strlit("BitTorrent protocol");
        is_ascii_chars_encode_utf8(name@);
        assert(name.spec_bytes() =~= ascii_bytes(protocol()));
        assert(zero_padded(ascii_bytes(protocol()), 19) =~= ascii_bytes(protocol()));
    }
    push_padded(&mut out, name.as_bytes(), PSTRLEN as usize);
    push_padded(&mut out, none.as_slice(), 8);
    push_padded(&mut out, info_hash, HASH_LEN);
    push_padded(&mut out, peer_id.as_bytes(), HASH_LEN);
    assert(none@ =~= Seq::<u8>::empty());
    out
}

/// Builds the message that tells a peer of interest in its pieces.
pub fn interested() -> (r: Vec<u8>)
    ensures
        r@ == control_bytes(2),
{
    let mut out: Vec<u8> = Vec::with_capacity(5);
    push_be32(&mut out, 1);
    out.push(2);
    assert(out@ =~= control_bytes(2));
    out
}

/// Builds the request for `length` bytes of piece `index` from `begin` on.
pub fn piece_request(index: u32, begin: u32, length: u32) -> (r: Vec<u8>)
    ensures
        r@ == request_bytes(index, begin, length),
{
    let mut out: Vec<u8> = Vec::with_capacity(17);
    push_be32(&mut out, 13);
    out.push(6);
    push_be32(&mut out, index);
    push_be32(&mut out, begin);
    push_be32(&mut out, length);
    assert(out@ =~= request_bytes(index, begin, length));
    out
}

/// The four bytes of a number are read back as that number.
pub proof fn law_be32_read_back(n: u32, rest: Seq<u8>)
    ensures
        be32(n).len() == 4,
        be32_value(be32(n) + rest) == n,
{
    assert((be32(n) + rest).take(4) =~= be32(n));
    assert(n / 0x100_0000 < 0x100);
    assert((n / 0x100_0000) * 0x100_0000 + (n / 0x1_0000 % 0x100) * 0x1_0000 + (n / 0x100 % 0x100)
        * 0x100 + n % 0x100 == n);
}

/// A handshake has 68 bytes: the length of the protocol string, that string, eight zero bytes, the
/// info hash and the peer id. Its first byte tells how many of the others there are.
pub proof fn law_handshake_fields(info_hash: Seq<u8>, peer_id: Seq<u8>)
    requires
        info_hash.len() <= HASH_LEN,
        peer_id.len() <= HASH_LEN,
    ensures
        ({
            let bytes = handshake_bytes(info_hash, peer_id);
            &&& bytes.len() == HANDSHAKE_LEN
            &&& bytes[0] == PSTRLEN
            &&& bytes.len() == 49 + bytes[0]
            &&& bytes.subrange(1, 20) == ascii_bytes(protocol())
            &&& bytes.subrange(20, 28) == zero_padded(Seq::empty(), 8)
            &&& bytes.subrange(28, 48) == zero_padded(info_hash, 20)
            &&& bytes.subrange(48, 68) == zero_padded(peer_id, 20)
        }),
{
    reveal_strlit("BitTorrent protocol");
    let bytes = handshake_bytes(info_hash, peer_id);
    assert(bytes.subrange(1, 20) =~= ascii_bytes(protocol()));
    assert(bytes.subrange(20, 28) =~= zero_padded(Seq::empty(), 8));
    assert(bytes.subrange(28, 48) =~= zero_padded(info_hash, 20));
    assert(bytes.subrange(48, 68) =~= zero_padded(peer_id, 20));
}

/// The messages that are sent start with their length, which does not count itself,
/// and go on with their id.
pub proof fn law_messages_are_framed(index: u32, begin: u32, length: u32)
    ensures
        be32_value(control_bytes(2)) == control_bytes(2).len() - 4,
        kind_of(control_bytes(2)[4]) == MessageKind::Interested,
        be32_value(request_bytes(index, begin, length)) == request_bytes(
            index,
            begin,
            length,
        ).len() - 4,
        kind_of(request_bytes(index, begin, length)[4]) == MessageKind::Request,
        be32_value(request_bytes(index, begin, length).skip(5)) == index,
        be32_value(request_bytes(index, begin, length).skip(9)) == begin,
        be32_value(request_bytes(index, begin, length).skip(13)) == length,
{
    let bytes = request_bytes(index, begin, length);
    law_be32_read_back(1, seq![2u8]);
    law_be32_read_back(13, bytes.skip(4));
    assert(bytes =~= be32(13) + bytes.skip(4));
    law_be32_read_back(index, bytes.skip(9));
    assert(bytes.skip(5) =~= be32(index) + bytes.skip(9));
    law_be32_read_back(begin, bytes.skip(13));
    assert(bytes.skip(9) =~= be32(begin) + bytes.skip(13));
    law_be32_read_back(length, Seq::empty());
    assert(bytes.skip(13) =~= be32(length) + Seq::empty());
}

/// A byte string that is filled up keeps its bytes, and has zero bytes behind them.
pub proof fn law_zero_padded(bytes: Seq<u8>, len: nat, i: int)
    requires
        bytes.len() <= len,
    ensures
        zero_padded(bytes, len).len() == len,
        0 <= i < bytes.len() ==> zero_padded(bytes, len)[i] == bytes[i],
        bytes.len() <= i < len ==> zero_padded(bytes, len)[i] == 0,
{
}

/// A text whose characters have numbers below 256 has a byte for each of them: that number.
pub proof fn law_ascii_bytes(text: Seq<char>, i: int)
    ensures
        ascii_bytes(text).len() == text.len(),
        0 <= i < text.len() && 0 <= text[i] as int <= 255 ==> ascii_bytes(text)[i] as int
            == text[i] as int,
{
}

/// The four bytes of a number, the most significant one first, are its digits to the base 256.
pub proof fn law_be32(n: u32, bytes: Seq<u8>)
    ensures
        be32(n).len() == 4,
        ((be32(n)[0] * 256 + be32(n)[1]) * 256 + be32(n)[2]) * 256 + be32(n)[3] == n,
        be32_value(bytes) == ((bytes[0] * 256 + bytes[1]) * 256 + bytes[2]) * 256 + bytes[3],
{
    law_be32_read_back(n, Seq::empty());
    assert(be32(n) + Seq::empty() =~= be32(n));
}

/// The bytes of a handshake, each by its place.
pub proof fn law_handshake_bytes(info_hash: Seq<u8>, peer_id: Seq<u8>, i: int)
    requires
        info_hash.len() <= 20,
        peer_id.len() <= 20,
    ensures
        handshake_bytes(info_hash, peer_id).len() == 68,
        handshake_bytes(info_hash, peer_id)[0] == 19,
        0 <= i < 19 ==> handshake_bytes(info_hash, peer_id)[1 + i] as int
            == "BitTorrent protocol"@[i] as int,
        0 <= i < 8 ==> handshake_bytes(info_hash, peer_id)[20 + i] == 0,
        0 <= i < info_hash.len() ==> handshake_bytes(info_hash, peer_id)[28 + i] == info_hash[i],
        info_hash.len() <= i < 20 ==> handshake_bytes(info_hash, peer_id)[28 + i] == 0,
        0 <= i < peer_id.len() ==> handshake_bytes(info_hash, peer_id)[48 + i] == peer_id[i],
        peer_id.len() <= i < 20 ==> handshake_bytes(info_hash, peer_id)[48 + i] == 0,
{
    reveal_strlit("BitTorrent protocol");
}

/// The bytes of the other messages that are sent: a length that counts what is behind it, an id,
/// and for a request three numbers of four bytes, the most significant byte first.
pub proof fn law_message_bytes(id: u8, index: u32, begin: u32, length: u32)
    ensures
        control_bytes(id) == seq![0u8, 0u8, 0u8, 1u8, id],
        ({
            let bytes = request_bytes(index, begin, length);
            &&& bytes.len() == 17
            &&& bytes.take(5) == seq![0u8, 0u8, 0u8, 13u8, 6u8]
            &&& bytes[5] * 0x100_0000 + bytes[6] * 0x1_0000 + bytes[7] * 0x100 + bytes[8] == index
            &&& bytes[9] * 0x100_0000 + bytes[10] * 0x1_0000 + bytes[11] * 0x100 + bytes[12]
                == begin
            &&& bytes[13] * 0x100_0000 + bytes[14] * 0x1_0000 + bytes[15] * 0x100 + bytes[16]
                == length
        }),
{
    law_be32(index, Seq::empty());
    law_be32(begin, Seq::empty());
    law_be32(length, Seq::empty());
    assert(control_bytes(id) =~= seq![0u8, 0u8, 0u8, 1u8, id]);
    assert(request_bytes(index, begin, length).take(5) =~= seq![0u8, 0u8, 0u8, 13u8, 6u8]);
}

/// Each kind of message has one id, and all other ids are of no known kind.
pub proof fn law_message_kinds(id: u8)
    ensures
        kind_of(id) is Choke <==> id == 0,
        kind_of(id) is Unchoke <==> id == 1,
        kind_of(id) is Interested <==> id == 2,
        kind_of(id) is Uninterested <==> id == 3,
        kind_of(id) is Have <==> id == 4,
        kind_of(id) is Bitfield <==> id == 5,
        kind_of(id) is Request <==> id == 6,
        kind_of(id) is Piece <==> id == 7,
        kind_of(id) is Cancel <==> id == 8,
        kind_of(id) is Port <==> id == 9,
        kind_of(id) is Other <==> id >= 10,
{
}

} // verus!
