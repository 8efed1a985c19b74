//! What the operations promise to those who call them, call by call: how what a call gives, and
//! what it leaves, relate to what it was given.

use std::sync::Arc;

use mio::{PollOpt, Ready};
use vstd::prelude::*;
use vstd::utf8::*;

use crate::bitfield;
use crate::btclient;
use crate::btclient::{Added, BTClient};
use crate::connection;
use crate::connection::{
    Connection, ConnectionError, ConnectionView, LengthStep, ReadEvent, ReadStep, Received,
    WriteEvent, WriteStep,
};
use crate::console;
use crate::console::Action;
use crate::metainfo;
use crate::metainfo::{metainfo_of, FileEntry, FileT, Metainfo, MetainfoError, MetainfoView};
use crate::readiness;
use crate::readiness::{PollOption, Readiness};
use crate::text;
use crate::torrent;
use crate::torrent::{
    Command, CommandStep, DialEvent, DialStep, ReadyStep, Torrent, TorrentReadStep, TorrentView,
};
use crate::tracker;
use crate::tracker::{
    AnnounceError, Entry, EntryView, Peer, PeerAddr, ReplyError, TrackerInfo, TrackerRequest,
};
use crate::wire;
use crate::wire::MessageKind;

verus! {

/// A new connection is known by its token, is idle, waits for a hang-up alone, has read nothing and
/// has nothing to send.
pub proof fn law_connection_new(token: usize, conn: Connection, kind: Readiness)
    requires
        call_ensures(Connection::new, (token,), conn),
    ensures
        conn@.token == token,
        conn@.interest.contains(kind) <==> kind is Hup,
        conn@.is_idle && !conn@.is_reset && !conn@.is_to_be_removed && !conn@.handshake_done,
        conn@.read_continuation is None && !conn@.write_continuation,
        conn@.send_queue.len() == 0 && conn@.piece_bitmap.len() == 0 && conn@.piece_buf.len() == 0,
{
    connection::law_new_connection(token, kind);
}

/// A readable connection asks for the length that is stored, or else for a prefix; a prefix tells
/// how many bytes follow; and a body is handed over as a whole or not at all. Only a whole body and
/// one that has to wait change the connection: the one ends the handshake and the wait, the other
/// stores how many bytes to wait for.
pub proof fn law_connection_readable(conn: &mut Connection, event: ReadEvent, step: ReadStep)
    requires
        call_ensures(Connection::readable, (conn, event), step),
    ensures
        match event {
            ReadEvent::Ready => {
                &&& final(conn)@ == old(conn)@
                &&& old(conn)@.read_continuation matches Some(n) ==> n > 0 ==> step
                    == ReadStep::NeedBody(n as u64)
                &&& old(conn)@.read_continuation is None ==> step == ReadStep::NeedPrefix(
                    if old(conn)@.handshake_done {
                        4
                    } else {
                        1
                    },
                )
            },
            ReadEvent::Prefix(Received::Data(bytes)) => {
                let len = bytes@.len();
                let n4 = bytes@[0] * 0x100_0000 + bytes@[1] * 0x1_0000 + bytes@[2] * 0x100
                    + bytes@[3];
                let n1 = bytes@[0] as int;
                let done = old(conn)@.handshake_done;
                &&& final(conn)@ == old(conn)@
                &&& len == 0 || (done && len < 4) ==> step == ReadStep::Finished(
                    Err(ConnectionError::InvalidLength),
                )
                &&& done && len >= 4 && n4 > 0 ==> step == ReadStep::NeedBody(n4 as u64)
                &&& done && len >= 4 && n4 == 0 ==> step == ReadStep::Finished(Ok(None))
                &&& !done && len >= 1 && n1 > 0 ==> step == ReadStep::NeedBody((48 + n1) as u64)
                &&& !done && len >= 1 && n1 == 0 ==> step == ReadStep::Finished(Ok(None))
            },
            ReadEvent::Body { wanted, got: Received::Data(bytes) } => {
                &&& bytes@.len() < wanted ==> step == ReadStep::Finished(
                    Err(ConnectionError::ShortRead),
                ) && final(conn)@ == old(conn)@
                &&& bytes@.len() >= wanted ==> step == ReadStep::Finished(Ok(Some(bytes)))
                    && final(conn)@ == (ConnectionView {
                    read_continuation: None,
                    handshake_done: true,
                    ..old(conn)@
                })
            },
            ReadEvent::Prefix(Received::WouldBlock) => step == ReadStep::Finished(Ok(None))
                && final(conn)@ == old(conn)@,
            ReadEvent::Body { wanted, got: Received::WouldBlock } => {
                &&& step == ReadStep::Finished(Ok(None))
                &&& wanted <= u32::MAX ==> final(conn)@ == (ConnectionView {
                    read_continuation: Some(wanted as u32),
                    ..old(conn)@
                })
            },
            ReadEvent::Prefix(Received::Failed)
            | ReadEvent::Body { got: Received::Failed, .. } => step == ReadStep::Finished(
                Err(ConnectionError::Io),
            ) && final(conn)@ == old(conn)@,
        },
{
    match event {
        ReadEvent::Prefix(Received::Data(bytes)) => {
            connection::law_read_begins(old(conn)@, bytes);
        },
        ReadEvent::Body { wanted, got: Received::Data(bytes) } => {
            connection::law_message_is_whole(old(conn)@, event, wanted, bytes, bytes);
        },
        ReadEvent::Body { wanted, got: _ } => {
            connection::law_body_that_does_not_come(old(conn)@, wanted);
        },
        _ => {},
    }
}

/// A length that is stored is found without a read, and one that is not is read from the prefix.
pub proof fn law_connection_read_message_length(
    conn: &Connection,
    got: Option<Received>,
    r: Result<LengthStep, ConnectionError>,
)
    requires
        call_ensures(Connection::read_message_length, (conn, got), r),
    ensures
        conn@.read_continuation matches Some(n) ==> r == Ok::<LengthStep, ConnectionError>(
            LengthStep::Stored(n),
        ),
        conn@.read_continuation is None ==> match got {
            None => r == Ok::<LengthStep, ConnectionError>(
                LengthStep::NeedPrefix(
                    if conn@.handshake_done {
                        4
                    } else {
                        1
                    },
                ),
            ),
            Some(Received::WouldBlock) => r == Ok::<LengthStep, ConnectionError>(
                LengthStep::Nothing,
            ),
            Some(Received::Failed) => r == Err::<LengthStep, ConnectionError>(ConnectionError::Io),
            Some(Received::Data(bytes)) => {
                let len = bytes@.len();
                let done = conn@.handshake_done;
                &&& len == 0 || (done && len < 4) <==> r == Err::<LengthStep, ConnectionError>(
                    ConnectionError::InvalidLength,
                )
                &&& done && len >= 4 ==> (r matches Ok(LengthStep::Held(n)) && n == bytes@[0]
                    * 0x100_0000 + bytes@[1] * 0x1_0000 + bytes@[2] * 0x100 + bytes@[3])
                &&& !done && len >= 1 ==> (r matches Ok(LengthStep::Held(n)) && n == bytes@[0])
            },
        },
{
}

/// A writable connection hands out the oldest message that it has to send. One that is out is gone,
/// one that the stream does not take comes back behind the others, and with nothing left to send
/// the interest in writing is dropped, and no other.
pub proof fn law_connection_writable(
    conn: &mut Connection,
    event: WriteEvent,
    step: WriteStep,
    kind: Readiness,
)
    requires
        call_ensures(Connection::writable, (conn, event), step),
    ensures
        ({
            let queue = old(conn)@.send_queue;
            match event {
                WriteEvent::Ready => {
                    &&& queue.len() == 0 ==> step == WriteStep::Finished(
                        Err(ConnectionError::EmptyQueue),
                    ) && final(conn)@ == old(conn)@
                    &&& queue.len() > 0 ==> {
                        &&& step matches WriteStep::Send(message)
                        &&& message@ == queue[0]
                        &&& seq![message@] + final(conn)@.send_queue == queue
                        &&& (ConnectionView { send_queue: queue, ..final(conn)@ }) == old(conn)@
                    }
                },
                WriteEvent::Wrote => {
                    &&& step == WriteStep::Finished(Ok(()))
                    &&& final(conn)@.send_queue == queue
                    &&& final(conn)@.interest.contains(kind) <==> old(conn)@.interest.contains(kind)
                        && !(kind is Writable && queue.len() == 0)
                    &&& !final(conn)@.write_continuation
                    &&& (ConnectionView {
                        interest: old(conn)@.interest,
                        write_continuation: old(conn)@.write_continuation,
                        ..final(conn)@
                    }) == old(conn)@
                },
                WriteEvent::WouldBlock(message) => {
                    &&& step == WriteStep::Finished(Ok(()))
                    &&& final(conn)@.send_queue == queue + seq![message@]
                    &&& final(conn)@.write_continuation
                    &&& (ConnectionView {
                        send_queue: queue,
                        write_continuation: old(conn)@.write_continuation,
                        ..final(conn)@
                    }) == old(conn)@
                },
                WriteEvent::Failed => step == WriteStep::Finished(Err(ConnectionError::Io))
                    && final(conn)@ == old(conn)@,
            }
        }),
{
    match event {
        WriteEvent::WouldBlock(message) => {
            connection::law_write_steps(old(conn)@, message);
            assert(final(conn)@.send_queue =~= old(conn)@.send_queue + seq![message@]);
        },
        WriteEvent::Ready => {
            if old(conn)@.send_queue.len() > 0 {
                assert(seq![old(conn)@.send_queue[0]] + final(conn)@.send_queue
                    =~= old(conn)@.send_queue);
            }
        },
        _ => {},
    }
}

/// Whether a connection is another one with one more message to send, and with interest in writing.
pub open spec fn sends(before: ConnectionView, message: Seq<u8>, after: ConnectionView) -> bool {
    &&& after.send_queue == before.send_queue + seq![message]
    &&& after.interest.contains(Readiness::Writable)
    &&& forall|kind: Readiness| !(kind is Writable) ==> (#[trigger] after.interest.contains(kind)
        <==> before.interest.contains(kind))
    &&& (ConnectionView {
        send_queue: before.send_queue,
        interest: before.interest,
        ..after
    }) == before
}

proof fn lemma_sends(before: ConnectionView, message: Seq<u8>)
    ensures
        sends(before, message, before.queued(message)),
{
    assert(before.queued(message).send_queue =~= before.send_queue + seq![message]);
}

/// A message that is sent is queued as it is, behind all else.
pub proof fn law_connection_send_message(
    conn: &mut Connection,
    message: Arc<Vec<u8>>,
    r: Result<(), ConnectionError>,
)
    requires
        call_ensures(Connection::send_message, (conn, message), r),
    ensures
        r is Ok,
        sends(old(conn)@, message@, final(conn)@),
{
    lemma_sends(old(conn)@, message@);
}

/// A handshake that is sent is one message of 68 bytes, behind all else. It says how long the name
/// of the protocol is, and holds the hash and the peer id that it was made with.
pub proof fn law_connection_send_handshake(
    conn: &mut Connection,
    info_hash: &[u8],
    peer_id: String,
    r: Result<(), ConnectionError>,
    i: int,
)
    requires
        call_ensures(Connection::send_handshake, (conn, info_hash, peer_id), r),
        info_hash@.len() <= 20,
        encode_utf8(peer_id@).len() <= 20,
    ensures
        r is Ok,
        ({
            let m = final(conn)@.send_queue.last();
            &&& sends(old(conn)@, m, final(conn)@)
            &&& m.len() == 68
            &&& m[0] == 19
            &&& 0 <= i < info_hash@.len() ==> m[28 + i] == info_hash@[i]
            &&& 0 <= i < encode_utf8(peer_id@).len() ==> m[48 + i] == encode_utf8(peer_id@)[i]
        }),
{
    let id = encode_utf8(peer_id@);
    lemma_sends(old(conn)@, wire::handshake_bytes(info_hash@, id));
    wire::law_handshake_bytes(info_hash@, id, i);
}

/// The interest in pieces is one message of one byte, behind all else.
pub proof fn law_connection_send_interest(conn: &mut Connection, r: Result<(), ConnectionError>)
    requires
        call_ensures(Connection::send_interest, (conn,), r),
    ensures
        r is Ok,
        sends(old(conn)@, seq![0u8, 0u8, 0u8, 1u8, 2u8], final(conn)@),
{
    lemma_sends(old(conn)@, wire::control_bytes(2));
    wire::law_message_bytes(2, 0, 0, 0);
}

proof fn lemma_request(idx: usize, begin: usize, length: usize)
    ensures
        ({
            let x = connection::low32(idx as int);
            let y = connection::low32(begin as int);
            let z = connection::low32(length as int);
            let m = wire::request_bytes(x, y, z);
            &&& m.len() == 17
            &&& m.take(5) == seq![0u8, 0u8, 0u8, 13u8, 6u8]
            &&& idx <= u32::MAX ==> m[5] * 0x100_0000 + m[6] * 0x1_0000 + m[7] * 0x100 + m[8] == idx
            &&& begin <= u32::MAX ==> m[9] * 0x100_0000 + m[10] * 0x1_0000 + m[11] * 0x100 + m[12]
                == begin
            &&& length <= u32::MAX ==> m[13] * 0x100_0000 + m[14] * 0x1_0000 + m[15] * 0x100 + m[16]
                == length
        }),
{
    wire::law_message_bytes(
        2,
        connection::low32(idx as int),
        connection::low32(begin as int),
        connection::low32(length as int),
    );
}

/// A request is one message of thirteen bytes, behind all else, with the numbers that it was made
/// with.
pub proof fn law_connection_send_piece_request(
    conn: &mut Connection,
    idx: usize,
    begin: usize,
    length: usize,
    r: Result<(), ConnectionError>,
)
    requires
        call_ensures(Connection::send_piece_request, (conn, idx, begin, length), r),
    ensures
        r is Ok,
        ({
            let m = final(conn)@.send_queue.last();
            &&& sends(old(conn)@, m, final(conn)@)
            &&& m.len() == 17
            &&& m.take(5) == seq![0u8, 0u8, 0u8, 13u8, 6u8]
            &&& idx <= u32::MAX ==> m[5] * 0x100_0000 + m[6] * 0x1_0000 + m[7] * 0x100 + m[8] == idx
            &&& begin <= u32::MAX ==> m[9] * 0x100_0000 + m[10] * 0x1_0000 + m[11] * 0x100 + m[12]
                == begin
            &&& length <= u32::MAX ==> m[13] * 0x100_0000 + m[14] * 0x1_0000 + m[15] * 0x100 + m[16]
                == length
        }),
{
    let x = connection::low32(idx as int);
    let y = connection::low32(begin as int);
    let z = connection::low32(length as int);
    let m = wire::request_bytes(x, y, z);
    lemma_sends(old(conn)@, m);
    assert(final(conn)@.send_queue.last() == m);
    lemma_request(idx, begin, length);
}

/// A connection is registered for what it waits for, for one event, and waits for its stream to be
/// readable and writable from then on; the poller's answer tells whether it is idle. A mark sets
/// what it says, and is read back.
pub proof fn law_connection_register_and_marks(
    a: &mut Connection,
    b: &Connection,
    c: &mut Connection,
    accepted: bool,
    ra: (Ready, PollOpt),
    rb: (Ready, PollOpt),
    kind: Readiness,
    option: PollOption,
)
    requires
        call_ensures(Connection::register, (a,), ra),
        call_ensures(Connection::reregister, (b,), rb),
        call_ensures(Connection::registered, (c, accepted), ()),
    ensures
        readiness::kinds_of(ra.0).contains(kind) <==> kind is Readable || kind is Writable
            || old(a)@.interest.contains(kind),
        final(a)@.interest == readiness::kinds_of(ra.0),
        (ConnectionView { interest: old(a)@.interest, ..final(a)@ }) == old(a)@,
        readiness::kinds_of(rb.0) == b@.interest,
        readiness::options_of(ra.1).contains(option) <==> option is Edge || option is Oneshot,
        readiness::options_of(rb.1).contains(option) <==> option is Edge || option is Oneshot,
        accepted ==> !final(c)@.is_idle,
        !accepted ==> final(c)@ == old(c)@,
        (ConnectionView { is_idle: old(c)@.is_idle, ..final(c)@ }) == old(c)@,
{
}

/// A mark sets what it says and nothing else, and what was marked is read back.
pub proof fn law_connection_marks(
    a: &mut Connection,
    b: &mut Connection,
    c: &mut Connection,
    d: &mut Connection,
    e: &Connection,
    reset: bool,
    idle: bool,
    removed: bool,
    done: bool,
)
    requires
        call_ensures(Connection::mark_reset, (a,), ()),
        call_ensures(Connection::mark_idle, (b,), ()),
        call_ensures(Connection::mark_to_be_removed, (c,), ()),
        call_ensures(Connection::mark_handshake_done, (d,), ()),
        call_ensures(Connection::is_reset, (e,), reset),
        call_ensures(Connection::is_idle, (e,), idle),
        call_ensures(Connection::is_to_be_removed, (e,), removed),
        call_ensures(Connection::is_handshake_done, (e,), done),
    ensures
        final(a)@ == (ConnectionView { is_reset: true, ..old(a)@ }),
        final(b)@ == (ConnectionView { is_idle: true, ..old(b)@ }),
        final(c)@ == (ConnectionView { is_to_be_removed: true, ..old(c)@ }),
        final(d)@ == (ConnectionView { handshake_done: true, ..old(d)@ }),
        reset == e@.is_reset,
        idle == e@.is_idle,
        removed == e@.is_to_be_removed,
        done == e@.handshake_done,
{
}

/// Whether a torrent is another one but for the connection at one token.
pub open spec fn differs_at(before: TorrentView, token: usize, after: TorrentView) -> bool {
    &&& after.conns.remove(token) == before.conns.remove(token)
    &&& after.conns.dom().contains(token) <==> before.conns.dom().contains(token)
    &&& (TorrentView { conns: before.conns, ..after }) == before
}

/// The queue of commands is registered under the token of the torrent, for reading alone.
pub proof fn law_torrent_register(
    torrent: &Torrent,
    r: (usize, Ready, PollOpt),
    kind: Readiness,
    option: PollOption,
)
    requires
        torrent.wf(),
        call_ensures(Torrent::register, (torrent,), r),
    ensures
        r.0 == 10_000_000,
        readiness::kinds_of(r.1).contains(kind) <==> kind is Readable,
        readiness::options_of(r.2).contains(option) <==> option is Edge,
{
}

/// An event is taken for a connection that there is, and for the queue of commands where it says
/// at most that the queue is readable.
pub proof fn law_torrent_takes(
    torrent: &Torrent,
    token: usize,
    event: Ready,
    there: bool,
    taken: bool,
)
    requires
        torrent.wf(),
        call_ensures(Torrent::has_connection, (torrent, token), there),
        call_ensures(Torrent::takes, (torrent, token, event), taken),
    ensures
        there == torrent@.conns.dom().contains(token),
        there ==> token < 128,
        token != 10_000_000 ==> taken == there,
        token == 10_000_000 ==> (taken <==> forall|kind: Readiness| #[trigger]
            readiness::kinds_of(event).contains(kind) ==> kind is Readable),
{
    let kinds = readiness::kinds_of(event);
    if token == 10_000_000 {
        if kinds.contains(Readiness::Error) {
        }
        if kinds.contains(Readiness::Hup) {
        }
        if kinds.contains(Readiness::Writable) {
        }
    }
}

/// An event of a connection that is not reset resets it on an error and on a hang-up, and asks for
/// a write where the stream is writable, or else for a read where it is readable. One that asks for
/// neither leaves the connection idle.
pub proof fn law_torrent_ready(torrent: &mut Torrent, token: usize, event: Ready, step: ReadyStep)
    requires
        old(torrent).wf(),
        call_ensures(Torrent::ready, (torrent, token, event), step),
        old(torrent)@.conns.dom().contains(token),
    ensures
        ({
            let kinds = readiness::kinds_of(event);
            let broken = kinds.contains(Readiness::Error) || kinds.contains(Readiness::Hup);
            let live = !broken && !old(torrent)@.conns[token].is_reset;
            let writable = kinds.contains(Readiness::Writable);
            let readable = kinds.contains(Readiness::Readable);
            let before = old(torrent)@.conns[token];
            &&& differs_at(old(torrent)@, token, final(torrent)@)
            &&& step is Write <==> live && writable
            &&& step is Read <==> live && !writable && readable
            &&& step is HungUp <==> !kinds.contains(Readiness::Error) && kinds.contains(
                Readiness::Hup,
            )
            &&& step !is AcceptCommand
            &&& final(torrent)@.conns[token].is_reset <==> before.is_reset || broken
            &&& final(torrent)@.conns[token].is_idle <==> before.is_idle || (!broken && !writable
                && !readable)
            &&& (ConnectionView {
                is_idle: before.is_idle,
                is_reset: before.is_reset,
                ..final(torrent)@.conns[token]
            }) == before
        }),
{
    let before = old(torrent)@;
    assert(final(torrent)@.conns.remove(token) =~= before.conns.remove(token));
    assert(final(torrent)@.conns.dom().contains(token));
}

/// A readable queue of commands asks for a command to be taken, and nothing changes.
pub proof fn law_torrent_ready_for_command(torrent: &mut Torrent, event: Ready, step: ReadyStep)
    requires
        old(torrent).wf(),
        call_ensures(Torrent::ready, (torrent, 10_000_000usize, event), step),
        forall|kind: Readiness| #[trigger]
            readiness::kinds_of(event).contains(kind) ==> kind is Readable,
    ensures
        final(torrent)@ == old(torrent)@,
        readiness::kinds_of(event).contains(Readiness::Readable) ==> step is AcceptCommand,
        !readiness::kinds_of(event).contains(Readiness::Readable) ==> step is Done,
{
}

/// After a write that went well a readable stream is read; after one that failed the connection is
/// reset. A stream that is not readable leaves the connection idle.
pub proof fn law_torrent_ready_after_write(
    torrent: &mut Torrent,
    token: usize,
    event: Ready,
    ok: bool,
    step: ReadyStep,
)
    requires
        old(torrent).wf(),
        call_ensures(Torrent::ready_after_write, (torrent, token, event, ok), step),
        old(torrent)@.conns.dom().contains(token),
    ensures
        ({
            let readable = readiness::kinds_of(event).contains(Readiness::Readable);
            let before = old(torrent)@.conns[token];
            let after = final(torrent)@.conns[token];
            &&& differs_at(old(torrent)@, token, final(torrent)@)
            &&& step is Read <==> ok && readable && !before.is_reset
            &&& step is Done <==> !(step is Read)
            &&& after.is_reset <==> before.is_reset || !ok
            &&& after.is_idle <==> before.is_idle || !readable
            &&& (ConnectionView { is_idle: before.is_idle, is_reset: before.is_reset, ..after })
                == before
        }),
{
    assert(final(torrent)@.conns.remove(token) =~= old(torrent)@.conns.remove(token));
}

/// After a read the connection is idle, and reset if the read failed.
pub proof fn law_torrent_ready_after_read(torrent: &mut Torrent, token: usize, ok: bool)
    requires
        call_ensures(Torrent::ready_after_read, (torrent, token, ok), ()),
        old(torrent)@.conns.dom().contains(token),
    ensures
        differs_at(old(torrent)@, token, final(torrent)@),
        final(torrent)@.conns[token] == (ConnectionView {
            is_idle: true,
            is_reset: !ok || old(torrent)@.conns[token].is_reset,
            ..old(torrent)@.conns[token]
        }),
{
    assert(final(torrent)@.conns.remove(token) =~= old(torrent)@.conns.remove(token));
}

/// A body that has come as a whole is the message, of the kind that its first byte tells, and every
/// connection has it to send, once more than before. A body that has not come as a whole fails the
/// read, and nothing is sent.
pub proof fn law_torrent_readable(
    torrent: &mut Torrent,
    token: usize,
    wanted: u64,
    bytes: Vec<u8>,
    step: TorrentReadStep,
    other: usize,
)
    requires
        call_ensures(
            Torrent::readable,
            (torrent, token, ReadEvent::Body { wanted, got: Received::Data(bytes) }),
            step,
        ),
        old(torrent)@.conns.dom().contains(token),
        old(torrent)@.conns.dom().contains(other),
        bytes@.len() > 0,
    ensures
        (TorrentView { conns: old(torrent)@.conns, ..final(torrent)@ }) == old(torrent)@,
        final(torrent)@.conns.dom() == old(torrent)@.conns.dom(),
        bytes@.len() >= wanted ==> {
            &&& step matches TorrentReadStep::Message { kind, bytes: message }
            &&& message == bytes
            &&& kind is Bitfield <==> bytes@[0] == 5
            &&& kind is Unchoke <==> bytes@[0] == 1
            &&& kind is Piece <==> bytes@[0] == 7
            &&& final(torrent)@.conns[other].send_queue == old(torrent)@.conns[other].send_queue
                + seq![bytes@]
            &&& final(torrent)@.conns[other].interest.contains(Readiness::Writable)
            &&& final(torrent)@.conns[token].handshake_done
            &&& final(torrent)@.conns[token].read_continuation is None
            &&& bytes@[0] != 5 || other != token ==> final(torrent)@.conns[other].piece_bitmap
                == old(torrent)@.conns[other].piece_bitmap
            &&& bytes@[0] == 5 ==> final(torrent)@.conns[token].piece_bitmap.len() == 8 * (
            bytes@.len() - 1)
        },
        bytes@.len() < wanted ==> {
            &&& step == TorrentReadStep::Finished(Err(ConnectionError::ShortRead))
            &&& final(torrent)@ == old(torrent)@
        },
{
    let event = ReadEvent::Body { wanted, got: Received::Data(bytes) };
    let t = old(torrent)@;
    connection::law_message_is_whole(t.conns[token], event, wanted, bytes, bytes);
    assert(final(torrent)@.conns.dom() =~= t.conns.dom());
    if bytes@.len() >= wanted {
        assert(final(torrent)@.conns[other].send_queue =~= t.conns[other].send_queue
            + seq![bytes@]);
        bitfield::law_bits_of_bytes(bytes@.skip(1), 0, 0);
    } else {
        assert(final(torrent)@.conns =~= t.conns);
    }
}

/// The tokens of the connections that are to be registered anew ascend: no token is there twice,
/// and a token is there if its connection is idle and not reset.
pub proof fn law_torrent_idle_connections(torrent: &Torrent, r: Vec<usize>, token: usize)
    requires
        call_ensures(Torrent::idle_connections, (torrent,), r),
    ensures
        r@.contains(token) <==> torrent@.conns.dom().contains(token)
            && torrent@.conns[token].is_idle && !torrent@.conns[token].is_reset,
        forall|i: int, j: int| 0 <= i < j < r@.len() ==> r@[i] < r@[j],
{
    torrent::law_lists(
        torrent@,
        r@,
        |c: ConnectionView| c.is_idle && !c.is_reset,
        0,
        token,
    );
}

/// A connection that the poller does not accept is reset; one that it accepts is idle no more.
pub proof fn law_torrent_reregistered(torrent: &mut Torrent, token: usize, accepted: bool)
    requires
        call_ensures(Torrent::reregistered, (torrent, token, accepted), ()),
        old(torrent)@.conns.dom().contains(token),
    ensures
        differs_at(old(torrent)@, token, final(torrent)@),
        accepted ==> final(torrent)@.conns[token] == (ConnectionView {
            is_idle: false,
            ..old(torrent)@.conns[token]
        }),
        !accepted ==> final(torrent)@.conns[token] == (ConnectionView {
            is_reset: true,
            ..old(torrent)@.conns[token]
        }),
{
    assert(final(torrent)@.conns.remove(token) =~= old(torrent)@.conns.remove(token));
}

/// A round ends with the connections that are not reset, as they were, and with the tokens of the
/// others, each once.
pub proof fn law_torrent_tick(torrent: &mut Torrent, r: Vec<usize>, token: usize)
    requires
        call_ensures(Torrent::tick, (torrent,), r),
    ensures
        (TorrentView { conns: old(torrent)@.conns, ..final(torrent)@ }) == old(torrent)@,
        old(torrent)@.conns.dom().contains(token) <==> final(torrent)@.conns.dom().contains(token)
            || r@.contains(token),
        !(final(torrent)@.conns.dom().contains(token) && r@.contains(token)),
        r@.contains(token) <==> old(torrent)@.conns.dom().contains(token)
            && old(torrent)@.conns[token].is_reset,
        final(torrent)@.conns.dom().contains(token) ==> final(torrent)@.conns[token]
            == old(torrent)@.conns[token],
        forall|i: int, j: int| 0 <= i < j < r@.len() ==> r@[i] < r@[j],
{
    torrent::law_lists(old(torrent)@, r@, |c: ConnectionView| c.is_reset, 0, token);
    torrent::law_tick_removes_reset(old(torrent)@, token);
}

/// A torrent made of a metainfo is new: it has what it was made with, and all its bytes are left.
pub proof fn law_torrent_from_metainfo(m: Metainfo, peer_id: String, port: u16, t: Torrent, i: int)
    requires
        call_ensures(Torrent::from_metainfo, (m, peer_id, port), t),
    ensures
        t@.metainfo == m@,
        m@.directory matches Some(name) ==> t@.root_name == name,
        m@.directory is None ==> t@.root_name == m@.files[0].paths[0],
        t@.peer_id == peer_id@,
        t@.port == port,
        t@.piece_bitmap.len() == m@.piece_count,
        0 <= i < m@.piece_count ==> !t@.piece_bitmap[i],
        0 <= metainfo::sum_of_lengths(m@.files) <= usize::MAX ==> t@.left
            == metainfo::sum_of_lengths(m@.files),
        t@.uploaded == 0 && t@.downloaded == 0 && t@.piece_nxt_req == 0,
        t@.num_seeders == 0 && t@.num_leachers == 0 && t@.token == 10_000_000,
        t@.files.len() == 0 && t@.block_bitmap.len() == 0,
        t@.tracker_info.interval == 0 && t@.tracker_info.tracker_id is None,
        t@.tracker_info.peers.len() == 0 && t@.conns.dom() == Set::<usize>::empty(),
{
    torrent::law_new_torrent(m@, peer_id@, port, i);
}

/// A torrent is made of bytes that are a metainfo file, and of no others.
pub proof fn law_torrent_new(
    bytes: &Vec<u8>,
    peer_id: String,
    port: u16,
    r: Result<(Torrent, String), MetainfoError>,
)
    requires
        call_ensures(Torrent::new, (bytes, peer_id, port), r),
    ensures
        metainfo_of(bytes@) is None <==> r == Err::<(Torrent, String), _>(MetainfoError::Malformed),
        metainfo_of(bytes@) matches Some(m) ==> {
            &&& !m.usable() ==> r == Err::<(Torrent, String), _>(MetainfoError::Unusable)
            &&& m.usable() && m.dated_overview() is None ==> r == Err::<(Torrent, String), _>(
                MetainfoError::DateOutOfRange,
            )
            &&& m.usable() && m.dated_overview() is Some ==> {
                &&& r matches Ok((t, overview))
                &&& t@.metainfo == m
                &&& t@.peer_id == peer_id@
                &&& t@.port == port
                &&& Some(overview@) == m.dated_overview()
            }
        },
{
}

/// To place the files of a torrent gives each file its place and its name, and changes neither its
/// connections nor what is left to get.
pub proof fn law_torrent_lay_out(torrent: &mut Torrent, i: int, j: int)
    requires
        old(torrent).wf(),
        call_ensures(Torrent::lay_out, (torrent,), ()),
    ensures
        final(torrent)@.files.len() == old(torrent)@.metainfo.files.len(),
        0 <= i < final(torrent)@.files.len() ==> final(torrent)@.files[i]
            == old(torrent)@.metainfo.placed(i),
        ({
            let m = old(torrent)@.metainfo;
            0 <= m.piece_length <= usize::MAX ==> final(torrent)@.block_bitmap.len()
                == m.piece_count * (m.piece_length as int / 16384)
        }),
        0 <= i < final(torrent)@.block_bitmap.len() ==> final(torrent)@.block_bitmap[i].len()
            == 16384,
        0 <= i < final(torrent)@.block_bitmap.len() && 0 <= j < 16384
            ==> !final(torrent)@.block_bitmap[i][j],
        (TorrentView {
            files: old(torrent)@.files,
            block_bitmap: old(torrent)@.block_bitmap,
            ..final(torrent)@
        }) == old(torrent)@,
{
    let m = old(torrent)@.metainfo;
    if 0 <= m.piece_length <= usize::MAX {
        metainfo::law_block_count(m);
        assert(m.blocks_per_piece() == m.piece_length as int / 16384);
        assert(m.piece_count * m.blocks_per_piece() >= 0) by (nonlinear_arith)
            requires
                m.piece_count >= 0,
                m.blocks_per_piece() >= 0,
        ;
    }
    if m.block_count() >= 0 {
        torrent::law_laid_out(old(torrent)@, i, j);
    }
}

/// The names of the files are those that the files have, in their order.
pub proof fn law_torrent_names(torrent: &Torrent, root_name: String, names: Vec<String>, i: int)
    requires
        call_ensures(Torrent::root_name, (torrent,), root_name),
        call_ensures(Torrent::file_names, (torrent,), names),
    ensures
        root_name@ == torrent@.root_name,
        names@.len() == torrent@.files.len(),
        0 <= i < names@.len() ==> names@[i]@ == torrent@.files[i].name,
{
    assert(text::texts(names@).len() == torrent@.files.len());
    if 0 <= i < names@.len() {
        assert(text::texts(names@)[i] == torrent@.files[i].name);
    }
}

/// A reply of the tracker is taken over as a whole or not at all: it names a peer for each six
/// bytes of its list, by the host in the first four and the port in the other two.
pub proof fn law_torrent_contact_tracker(
    torrent: &mut Torrent,
    reply: &[u8],
    r: Result<(), ReplyError>,
    i: int,
)
    requires
        call_ensures(Torrent::contact_tracker, (torrent, reply), r),
    ensures
        r is Err ==> final(torrent)@ == old(torrent)@,
        (TorrentView { tracker_info: old(torrent)@.tracker_info, ..final(torrent)@ })
            == old(torrent)@,
        ({
            let listed = tracker::bencode_entry(reply@, "peers"@);
            let interval = tracker::bencode_entry(reply@, "interval"@);
            let usable = interval == Some(EntryView::NotBytes) || (interval matches Some(entry)
                && entry is Bytes);
            &&& r is Ok <==> (listed matches Some(EntryView::Bytes(bytes)) && bytes.len() % 6 == 0
                && usable)
            &&& listed matches Some(EntryView::Bytes(bytes)) ==> {
                let peers = final(torrent)@.tracker_info.peers;
                &&& r is Ok ==> 6 * peers.len() == bytes.len()
                &&& r is Ok && 0 <= i < peers.len() ==> {
                    &&& peers[i].ip_port.ip@ == bytes.subrange(6 * i, 6 * i + 4)
                    &&& peers[i].ip_port.port == 256 * bytes[6 * i + 4] + bytes[6 * i + 5]
                }
            }
        }),
{
    let before = old(torrent)@;
    let told = final(torrent)@;
    if r is Ok {
        let bytes = tracker::bencode_entry(reply@, "peers"@)->0->Bytes_0;
        let addresses = choose|addresses: Seq<PeerAddr>| #[trigger]
            tracker::lists_addresses(bytes, addresses) && told == (TorrentView {
                tracker_info: tracker::TrackerInfoView::reply(addresses),
                ..before
            });
        if 0 <= i < addresses.len() {
            assert(tracker::address_at(bytes, 6 * i, addresses[i]));
        }
    }
}

/// The peers that a torrent takes over have the addresses that were named, in their order.
pub proof fn law_torrent_take_peers(torrent: &mut Torrent, addresses: &Vec<PeerAddr>, i: int)
    requires
        call_ensures(Torrent::take_peers, (torrent, addresses), ()),
    ensures
        final(torrent)@.tracker_info.peers.len() == addresses@.len(),
        0 <= i < addresses@.len() ==> final(torrent)@.tracker_info.peers[i].ip_port
            == addresses@[i],
        (TorrentView { tracker_info: old(torrent)@.tracker_info, ..final(torrent)@ })
            == old(torrent)@,
{
}

/// The first part of a block that is missing: all before it are there.
pub proof fn law_torrent_get_block_num(
    torrent: &Torrent,
    piece_num: usize,
    r: Result<usize, String>,
    k: int,
)
    requires
        call_ensures(Torrent::get_block_num, (torrent, piece_num), r),
    ensures
        r matches Ok(pos) && !torrent@.block_bitmap[piece_num as int][pos as int] && (0 <= k < pos
            ==> torrent@.block_bitmap[piece_num as int][k]),
{
}

/// The number of a piece is given out once: the next one is one above it. It is at most the number
/// of pieces, and when that one is gone there are no more.
pub proof fn law_torrent_get_piece_num(torrent: &mut Torrent, r: Result<usize, String>)
    requires
        old(torrent)@.piece_nxt_req < usize::MAX,
        call_ensures(Torrent::get_piece_num, (torrent,), r),
    ensures
        r is Ok <==> old(torrent)@.piece_nxt_req <= old(torrent)@.metainfo.piece_count,
        r matches Ok(n) ==> n == old(torrent)@.piece_nxt_req && final(torrent)@.piece_nxt_req == n
            + 1,
        r is Err ==> final(torrent)@ == old(torrent)@,
        (TorrentView { piece_nxt_req: old(torrent)@.piece_nxt_req, ..final(torrent)@ })
            == old(torrent)@,
{
}

/// A command to list the files prints a line for each file; one to start the download asks the
/// tracker of the torrent, or fails where it has none. There are no others yet.
pub proof fn law_torrent_accept_cmd(torrent: &Torrent, command: Command, step: CommandStep)
    requires
        call_ensures(Torrent::accept_cmd, (torrent, command), step),
    ensures
        command is ListFiles <==> step is Print,
        command is StartDownload <==> step is Announce,
        step matches CommandStep::Print(text) ==> text@ == torrent@.metainfo.file_list(),
        step matches CommandStep::Announce(r) ==> {
            &&& torrent@.metainfo.main_tracker is None <==> r == Err::<String, _>(
                AnnounceError::NoTracker,
            )
            &&& torrent@.metainfo.main_tracker matches Some(url) ==> (tracker::url_of(url) is None
                <==> r == Err::<String, _>(AnnounceError::InvalidUrl))
            &&& torrent@.metainfo.main_tracker matches Some(url) ==> (tracker::url_of(
                url,
            ) matches Some(base) ==> {
                let asked = tracker::with_pairs(base, torrent@.request().pairs());
                &&& r matches Ok(text) ==> text@ == asked
                &&& asked.len() <= 0xffff_ffff ==> r is Ok
            })
        },
{
    if let CommandStep::Announce(r) = step {
        torrent::law_torrent_announces_itself(
            torrent@,
            torrent@.metainfo,
            torrent@.peer_id,
            torrent@.port,
            r,
        );
        if let Some(url) = torrent@.metainfo.main_tracker {
            tracker::law_announces(url, torrent@.request(), r);
        }
    }
}

/// Whether a step is to connect to a peer at its listed address, or to finish where there is no
/// such peer.
pub open spec fn asks_for_peer(t: TorrentView, peer: int, step: DialStep) -> bool {
    if peer < t.tracker_info.peers.len() {
        &&& step matches DialStep::Connect { peer: of, address }
        &&& of == peer
        &&& address == t.tracker_info.peers[peer].ip_port
    } else {
        step == DialStep::Finished
    }
}

/// An attempt to connect begins with the first peer and goes on with the next one, whether the
/// poller has accepted a connection or not. An accepted one is told of the torrent: it gets a
/// handshake, the interest in pieces and a request, behind what it had to send.
pub proof fn law_torrent_dial(torrent: &mut Torrent, event: DialEvent, step: DialStep)
    requires
        call_ensures(Torrent::dial, (torrent, event), step),
        old(torrent)@.tracker_info.peers.len() <= usize::MAX,
    ensures
        ({
            let before = old(torrent)@;
            let after = final(torrent)@;
            match event {
                DialEvent::Start => after == before && asks_for_peer(before, 0, step),
                DialEvent::Failed => after == before && step == DialStep::Finished,
                DialEvent::Connected { peer } => {
                    &&& before.conns.dom().len() >= 128 ==> after == before && step
                        == DialStep::Finished
                    &&& before.conns.dom().len() < 128 ==> {
                        &&& step matches DialStep::Register { peer: of, token, interest, options }
                        &&& of == peer
                        &&& token < 128
                        &&& !before.conns.dom().contains(token)
                        &&& after.conns.remove(token) == before.conns
                        &&& after.conns.dom().contains(token)
                        &&& after.conns[token].token == token
                        &&& after.conns[token].is_idle
                        &&& !after.conns[token].is_reset
                        &&& !after.conns[token].is_to_be_removed
                        &&& !after.conns[token].handshake_done
                        &&& after.conns[token].read_continuation is None
                        &&& !after.conns[token].write_continuation
                        &&& after.conns[token].send_queue.len() == 0
                        &&& after.conns[token].piece_bitmap.len() == 0
                        &&& after.conns[token].piece_buf.len() == 0
                        &&& readiness::options_of(options).contains(PollOption::Oneshot)
                        &&& readiness::options_of(options).contains(PollOption::Edge)
                        &&& readiness::kinds_of(interest) == after.conns[token].interest
                        &&& readiness::kinds_of(interest).contains(Readiness::Readable)
                        &&& readiness::kinds_of(interest).contains(Readiness::Writable)
                        &&& readiness::kinds_of(interest).contains(Readiness::Hup)
                    }
                },
                DialEvent::Registered { peer, token, accepted } => {
                    &&& asks_for_peer(before, peer + 1, step)
                    &&& after.conns.remove(token) == before.conns.remove(token)
                    &&& !accepted ==> !after.conns.dom().contains(token)
                    &&& accepted ==> {
                        &&& after.conns.dom().contains(token)
                        &&& !after.conns[token].is_idle
                        &&& after.conns[token].interest.contains(Readiness::Writable)
                        &&& after.conns[token].send_queue == before.conns[token].send_queue + seq![
                            wire::handshake_bytes(
                                before.metainfo.info_hash,
                                encode_utf8(before.peer_id),
                            ),
                            seq![0u8, 0u8, 0u8, 1u8, 2u8],
                            wire::request_bytes(connection::low32(peer as int), 0, 16384),
                        ]
                        &&& (ConnectionView {
                            is_idle: before.conns[token].is_idle,
                            interest: before.conns[token].interest,
                            send_queue: before.conns[token].send_queue,
                            ..after.conns[token]
                        }) == before.conns[token]
                    }
                },
            }
        }),
        (TorrentView { conns: old(torrent)@.conns, ..final(torrent)@ }) == old(torrent)@,
{
    let before = old(torrent)@;
    let after = final(torrent)@;
    match event {
        DialEvent::Connected { peer } => {
            if before.conns.dom().len() < 128 {
                let token = step->Register_token;
                assert(after.conns.remove(token) =~= before.conns);
            }
        },
        DialEvent::Registered { peer, token, accepted } => {
            torrent::law_greeting_is_added(before, before.conns[token], peer);
            assert(after.conns.remove(token) =~= before.conns.remove(token));
        },
        _ => {},
    }
}

/// A client has the port that it was made with, and no torrents.
pub proof fn law_client_new(port: u16, secs: u64, c: BTClient, id: usize)
    requires
        call_ensures(BTClient::new, (port, secs), c),
    ensures
        c@.port == port,
        c@.next_id == 0,
        !c@.torrents.contains(id),
        c@.peer_id.take(15) == "-bittorrent-rs-"@,
        text::parsed(c@.peer_id.skip(15), 99_999) == Some((secs % 100_000) as nat),
{
    reveal_strlit("-bittorrent-rs-");
    assert(c@.peer_id.take(15) =~= "-bittorrent-rs-"@);
    btclient::law_peer_id_tells_time(secs as nat);
}

/// A torrent is added under the next id, with the peer id and the port of the client; bytes that
/// are no metainfo file change nothing.
pub proof fn law_client_add(
    client: &mut BTClient,
    bytes: &Vec<u8>,
    r: Result<Added, MetainfoError>,
    other: usize,
)
    requires
        call_ensures(BTClient::add, (client, bytes), r),
        old(client).wf(),
        old(client)@.next_id < usize::MAX,
    ensures
        r is Err ==> final(client)@ == old(client)@,
        metainfo_of(bytes@) is None <==> r == Err::<Added, _>(MetainfoError::Malformed),
        metainfo_of(bytes@) matches Some(m) ==> (r is Ok <==> m.usable() && m.placeable()
            && m.dated_overview() is Some),
        metainfo_of(bytes@) matches Some(m) ==> (r == Err::<Added, _>(MetainfoError::DateOutOfRange)
            <==> m.usable() && m.dated_overview() is None),
        r matches Ok(added) ==> {
            &&& added.id == old(client)@.next_id
            &&& Some(added.torrent@.metainfo) == metainfo_of(bytes@)
            &&& added.torrent@.peer_id == old(client)@.peer_id
            &&& added.torrent@.port == old(client)@.port
            &&& added.torrent@.files.len() == added.torrent@.metainfo.files.len()
            &&& Some(added.overview@) == added.torrent@.metainfo.dated_overview()
            &&& !old(client)@.torrents.contains(added.id)
            &&& final(client)@.torrents == old(client)@.torrents.insert(added.id)
            &&& final(client)@.torrent_roots == old(client)@.torrent_roots.insert(
                added.id,
                added.torrent@.root_name,
            )
            &&& final(client)@.next_id == added.id + 1
            &&& final(client)@.peer_id == old(client)@.peer_id
            &&& final(client)@.port == old(client)@.port
        },
{
}

/// A name that is tracked is listed under the id that it got, which none had before.
pub proof fn law_client_track(client: &mut BTClient, root_name: String, id: usize)
    requires
        call_ensures(BTClient::track, (client, root_name), id),
        old(client).wf(),
        old(client)@.next_id < usize::MAX,
    ensures
        id == old(client)@.next_id,
        !old(client)@.torrents.contains(id),
        final(client)@.torrents == old(client)@.torrents.insert(id),
        final(client)@.torrent_roots == old(client)@.torrent_roots.insert(id, root_name@),
        final(client)@.next_id == id + 1,
        final(client)@.peer_id == old(client)@.peer_id,
        final(client)@.port == old(client)@.port,
{
}

/// A torrent that is removed is gone, and no other; what is counted are those that are left.
pub proof fn law_client_remove(client: &mut BTClient, id: usize, r: Result<usize, String>)
    requires
        call_ensures(BTClient::remove, (client, id), r),
        old(client).wf(),
    ensures
        final(client)@.torrents == old(client)@.torrents.remove(id),
        final(client)@.torrent_roots == old(client)@.torrent_roots.remove(id),
        r matches Ok(left) && left == (if old(client)@.torrents.contains(id) {
            old(client)@.torrents.len() - 1
        } else {
            old(client)@.torrents.len() as int
        }),
        final(client)@.next_id == old(client)@.next_id,
        final(client)@.peer_id == old(client)@.peer_id,
        final(client)@.port == old(client)@.port,
{
    if !old(client)@.torrents.contains(id) {
        assert(old(client)@.torrents.remove(id) =~= old(client)@.torrents);
    }
}

/// A list has each torrent once, under its id and with its name. A command goes to the torrent that
/// it was given for.
pub proof fn law_client_list(
    client: &BTClient,
    list: Vec<(usize, String)>,
    id: usize,
    there: bool,
    next: usize,
    started: (usize, Command),
    shown: (usize, Command),
    i: int,
    j: int,
)
    requires
        client.wf(),
        call_ensures(BTClient::list, (client,), list),
        call_ensures(BTClient::contains, (client, id), there),
        call_ensures(BTClient::next_id, (client,), next),
        call_ensures(BTClient::start_download, (client, id), started),
        call_ensures(BTClient::showfiles, (client, id), shown),
    ensures
        there <==> client@.torrents.contains(id),
        there <==> exists|k: int| 0 <= k < list@.len() && list@[k].0 == id,
        0 <= i < list@.len() ==> list@[i].1@ == client@.torrent_roots[list@[i].0],
        0 <= i < j < list@.len() ==> list@[i].0 != list@[j].0,
        next == client@.next_id,
        started.0 == id && started.1 is StartDownload,
        shown.0 == id && shown.1 is ListFiles,
{
    btclient::law_list_names_each_once(client@, list@, i, j, id);
    if exists|k: int| 0 <= k < list@.len() && list@[k].0 == id {
        let k = choose|k: int| 0 <= k < list@.len() && list@[k].0 == id;
        btclient::law_list_names_each_once(client@, list@, k, k, id);
    }
}

/// The bytes of a metainfo file are read as what they say, or are told to be malformed.
pub proof fn law_metainfo_from_bytes(bytes: &Vec<u8>, r: Result<Metainfo, MetainfoError>)
    requires
        call_ensures(Metainfo::from_bytes, (bytes,), r),
    ensures
        metainfo_of(bytes@) is None <==> r is Err,
        r matches Err(e) ==> e is Malformed,
        r matches Ok(m) ==> metainfo_of(bytes@) == Some(m@),
{
}

/// A metainfo file is usable where it names the torrent and the first of its files, however many,
/// have a size of 64 bits; it is placeable where besides no last byte is out of reach, and the
/// blocks can be counted.
pub proof fn law_metainfo_checks(m: &Metainfo, usable: bool, placeable: bool)
    requires
        call_ensures(Metainfo::usable, (m,), usable),
        call_ensures(Metainfo::placeable, (m,), placeable),
    ensures
        usable <==> {
            &&& m@.directory is Some || (m@.files.len() > 0 && m@.files[0].paths.len() > 0)
            &&& m@.info_hash.len() <= 20
            &&& forall|n: int|
                0 <= n <= m@.files.len() ==> -0x8000_0000_0000_0000
                    <= #[trigger] metainfo::sum_of_lengths(m@.files.take(n))
                    <= 0x7fff_ffff_ffff_ffff
        },
        placeable <==> {
            &&& m@.files.len() > 0 ==> m@.piece_length != 0
            &&& m@.block_count() <= usize::MAX
            &&& forall|n: int|
                0 < n <= m@.files.len() ==> {
                    let size = #[trigger] metainfo::sum_of_lengths(m@.files.take(n));
                    &&& -0x8000_0000_0000_0000 < size <= 0x7fff_ffff_ffff_ffff
                    &&& !(m@.piece_length == -1 && size - 1 == -0x8000_0000_0000_0000)
                }
        },
{
    metainfo::law_usable(m@);
    assert forall|n: int| 0 <= n <= m@.files.len() implies #[trigger] m@.size_of_first(n)
        == metainfo::sum_of_lengths(m@.files.take(n)) by {
        metainfo::law_size_is_sum(m@, n);
    }
    assert forall|n: int| 0 <= n <= m@.files.len() implies #[trigger] metainfo::sum_of_lengths(
        m@.files.take(n),
    ) == m@.size_of_first(n) by {
        metainfo::law_size_is_sum(m@, n);
    }
    assert(m@.size_of_first(0) == 0);
}

/// The size of a torrent is the sum of the lengths of its files, and its blocks are those of its
/// pieces together. Its name is that of its directory or of its first file.
pub proof fn law_metainfo_sizes(
    m: &Metainfo,
    size: i64,
    blocks: usize,
    name: String,
    file: &FileEntry,
    file_name: String,
)
    requires
        call_ensures(Metainfo::total_size, (m,), size),
        call_ensures(Metainfo::block_count, (m,), blocks),
        call_ensures(Metainfo::root_name, (m,), name),
        call_ensures(FileEntry::name, (file,), file_name),
    ensures
        size == metainfo::sum_of_lengths(m@.files),
        blocks == m@.piece_count * ((m@.piece_length as usize) as int / 16384),
        m@.directory matches Some(directory) ==> name@ == directory,
        m@.directory is None ==> name@ == m@.files[0].paths[0],
        file.paths@.len() > 0 ==> file_name@ == file.paths@[0]@,
        file.paths@.len() == 0 ==> file_name@ == "<unknown>"@,
{
    metainfo::law_size_is_sum(m@, 0);
    let per_piece = (m@.piece_length as usize) as int / 16384;
    assert(per_piece * m@.piece_count == m@.piece_count * per_piece) by (nonlinear_arith);
}

/// The files lie one behind the other: where a file begins and ends are the bytes before it and
/// those before the next one, divided by the length of a piece. One that can be counted covers as
/// many bytes as it is long.
pub proof fn law_metainfo_layout(m: &Metainfo, r: Vec<FileT>, i: int)
    requires
        call_ensures(Metainfo::layout, (m,), r),
        m@.layout_fits(),
        0 <= i < m@.files.len(),
    ensures
        r@.len() == m@.files.len(),
        ({
            let begin = metainfo::sum_of_lengths(m@.files.take(i));
            let end = begin + m@.files[i].length - 1;
            let length = m@.piece_length as int;
            &&& r@[i].start_offset == metainfo::remainder(begin, length) as i64
            &&& r@[i].start_piece == metainfo::quotient(begin, length) as usize
            &&& r@[i].end_offset == metainfo::remainder(end, length) as i64
            &&& r@[i].end_piece == metainfo::quotient(end, length) as usize
            &&& m@.files[i].paths.len() > 0 ==> r@[i].name@ == m@.files[i].paths[0]
            &&& m@.files[i].paths.len() == 0 ==> r@[i].name@ == "<unknown>"@
        }),
        (m@.piece_length > 0 && (forall|k: int|
            0 <= k < m@.files.len() ==> (#[trigger] m@.files[k]).length >= 0)
            && metainfo::sum_of_lengths(m@.files) / (m@.piece_length as int) <= usize::MAX
            && m@.files[i].length > 0) ==> (r@[i].end_piece - r@[i].start_piece) * m@.piece_length
            + r@[i].end_offset - r@[i].start_offset + 1 == m@.files[i].length,
{
    metainfo::law_size_is_sum(m@, i);
    assert(r@[i]@ == m@.placed(i));
    if m@.piece_length > 0 && (forall|k: int|
        0 <= k < m@.files.len() ==> (#[trigger] m@.files[k]).length >= 0)
        && metainfo::sum_of_lengths(m@.files) / (m@.piece_length as int) <= usize::MAX
        && m@.files[i].length > 0 {
        metainfo::law_file_covers_its_length(m@, i);
        let a = r@[i].end_piece as int;
        let b = r@[i].start_piece as int;
        let c = m@.piece_length as int;
        assert(b * c >= 0) by (nonlinear_arith)
            requires
                b >= 0,
                c > 0,
        ;
        assert((a - b) * c == a * c - b * c) by (nonlinear_arith);
    }
}

/// A tracker is told the numbers of the request, at the end of the query of its URL. A text that is
/// no URL is refused, and so is a query that has no place.
pub proof fn law_tracker_announce_url(
    url: &str,
    request: TrackerRequest,
    r: Result<String, AnnounceError>,
)
    requires
        call_ensures(tracker::announce_url, (url, request), r),
    ensures
        tracker::url_of(url@) is None <==> r == Err::<String, _>(AnnounceError::InvalidUrl),
        r is Err ==> r == Err::<String, _>(AnnounceError::InvalidUrl) || r == Err::<String, _>(
            AnnounceError::TooLong,
        ),
        tracker::url_of(url@) matches Some(base) ==> {
            let pairs = request@.pairs();
            &&& r matches Ok(text) ==> text@ == tracker::with_pairs(base, pairs)
            &&& tracker::with_pairs(base, pairs).len() <= 0xffff_ffff ==> r is Ok
            &&& pairs.len() == 9
            &&& pairs[0].1 == request.info_hash@
            &&& pairs[1].1 == encode_utf8(request.peer_id@)
            &&& text::parsed(tracker::text_of_bytes(pairs[2].1), 0xffff) == Some(
                request.port as nat,
            )
            &&& text::parsed(tracker::text_of_bytes(pairs[3].1), usize::MAX as nat) == Some(
                request.uploaded as nat,
            )
            &&& text::parsed(tracker::text_of_bytes(pairs[4].1), usize::MAX as nat) == Some(
                request.downloaded as nat,
            )
            &&& text::parsed(tracker::text_of_bytes(pairs[5].1), usize::MAX as nat) == Some(
                request.left as nat,
            )
        },
{
    tracker::law_announces(url@, request@, r);
    tracker::law_announced_values(request@);
}

/// A torrent tells its tracker its own hash, peer id, port and numbers.
pub proof fn law_torrent_announce_url(torrent: &Torrent, r: Result<String, AnnounceError>)
    requires
        call_ensures(Torrent::announce_url, (torrent,), r),
    ensures
        torrent@.metainfo.main_tracker is None <==> r == Err::<String, _>(AnnounceError::NoTracker),
        ({
            let request = torrent@.request();
            &&& request.info_hash == torrent@.metainfo.info_hash
            &&& request.peer_id == torrent@.peer_id
            &&& request.port == torrent@.port
            &&& request.uploaded == torrent@.uploaded
            &&& request.downloaded == torrent@.downloaded
            &&& request.left == torrent@.left
            &&& torrent@.metainfo.main_tracker matches Some(url) ==> (tracker::url_of(url) is None
                <==> r == Err::<String, _>(AnnounceError::InvalidUrl))
            &&& torrent@.metainfo.main_tracker matches Some(url) ==> (tracker::url_of(
                url,
            ) matches Some(base) ==> (r matches Ok(text) ==> text@ == tracker::with_pairs(
                base,
                request.pairs(),
            )))
            &&& torrent@.metainfo.main_tracker matches Some(url) ==> (tracker::url_of(
                url,
            ) matches Some(base) ==> (tracker::with_pairs(base, request.pairs()).len()
                <= 0xffff_ffff ==> r is Ok))
        }),
{
    torrent::law_torrent_announces_itself(
        torrent@,
        torrent@.metainfo,
        torrent@.peer_id,
        torrent@.port,
        r,
    );
    if let Some(url) = torrent@.metainfo.main_tracker {
        tracker::law_announces(url, torrent@.request(), r);
    }
}

proof fn lemma_small_char(c: char)
    requires
        c as u32 <= 0xff,
    ensures
        0 <= c as int <= 255,
{
    assert(0 <= c as int <= 0x10ffff);
    assert(c as u32 == c as int);
}

/// The characters of a text stand for the bytes by their numbers, and back.
pub proof fn law_tracker_latin1(text: &str, bytes: &[u8], a: Vec<u8>, b: String, i: int)
    requires
        call_ensures(tracker::latin1_bytes, (text,), a),
        call_ensures(tracker::latin1_text, (bytes,), b),
    ensures
        a@.len() == text@.len(),
        0 <= i < text@.len() && 0 <= text@[i] as int <= 255 ==> a@[i] as int == text@[i] as int,
        b@.len() == bytes@.len(),
        0 <= i < bytes@.len() ==> b@[i] as int == bytes@[i] as int,
{
    if 0 <= i < bytes@.len() {
        assert(tracker::is_latin1(b@));
        lemma_small_char(b@[i]);
        assert(wire::ascii_bytes(b@)[i] == bytes@[i]);
        wire::law_ascii_bytes(b@, i);
    }
    wire::law_ascii_bytes(text@, i);
}

/// A reply lists an address for each six bytes: the host in four, the port in two, the more
/// significant one first. A reply of no use is told by what is wrong with it.
pub proof fn law_tracker_peers(
    peers: Option<Entry>,
    interval: Option<Entry>,
    r: Result<Vec<PeerAddr>, ReplyError>,
    i: int,
)
    requires
        call_ensures(tracker::peers_of_entries, (peers, interval), r),
    ensures
        peers is None <==> r == Err::<Vec<PeerAddr>, _>(ReplyError::Malformed),
        peers == Some(Entry::NotDict) <==> r == Err::<Vec<PeerAddr>, _>(ReplyError::NotDictionary),
        peers == Some(Entry::Missing) <==> r == Err::<Vec<PeerAddr>, _>(ReplyError::NoPeers),
        peers == Some(Entry::NotBytes) <==> r == Err::<Vec<PeerAddr>, _>(ReplyError::PeersNotBytes),
        peers matches Some(Entry::Bytes(bytes)) ==> {
            let timed = interval matches Some(entry) && (entry is Bytes || entry is NotBytes);
            &&& bytes@.len() % 6 != 0 <==> r == Err::<Vec<PeerAddr>, _>(ReplyError::TruncatedPeer)
            &&& bytes@.len() % 6 == 0 && !timed <==> r == Err::<Vec<PeerAddr>, _>(
                ReplyError::NoInterval,
            )
            &&& bytes@.len() % 6 == 0 && timed <==> r is Ok
            &&& r matches Ok(addresses) ==> {
                &&& 6 * addresses@.len() == bytes@.len()
                &&& 0 <= i < addresses@.len() ==> {
                    &&& addresses@[i].ip@ == bytes@.subrange(6 * i, 6 * i + 4)
                    &&& addresses@[i].port == 256 * bytes@[6 * i + 4] + bytes@[6 * i + 5]
                }
            }
        },
{
    tracker::law_reply_faults(tracker::optional_entry(peers), tracker::optional_entry(interval));
    if r is Ok && peers is Some && peers->0 is Bytes {
        let bytes = peers->0->Bytes_0@;
        let addresses = r->Ok_0@;
        if 0 <= i < addresses.len() {
            assert(tracker::address_at(bytes, 6 * i, addresses[i]));
        }
    }
}

/// A reply of a tracker lists the peers of its entry of that name.
pub proof fn law_tracker_peers_of_reply(
    reply: &[u8],
    r: Result<Vec<PeerAddr>, ReplyError>,
    i: int,
)
    requires
        call_ensures(tracker::peers_of_reply, (reply,), r),
    ensures
        ({
            let listed = tracker::bencode_entry(reply@, "peers"@);
            let interval = tracker::bencode_entry(reply@, "interval"@);
            let timed = interval matches Some(entry) && (entry is Bytes || entry is NotBytes);
            &&& listed is None <==> r == Err::<Vec<PeerAddr>, _>(ReplyError::Malformed)
            &&& listed == Some(EntryView::NotDict) <==> r == Err::<Vec<PeerAddr>, _>(
                ReplyError::NotDictionary,
            )
            &&& listed == Some(EntryView::Missing) <==> r == Err::<Vec<PeerAddr>, _>(
                ReplyError::NoPeers,
            )
            &&& listed == Some(EntryView::NotBytes) <==> r == Err::<Vec<PeerAddr>, _>(
                ReplyError::PeersNotBytes,
            )
            &&& listed matches Some(EntryView::Bytes(bytes)) ==> (bytes.len() % 6 != 0 <==> r
                == Err::<Vec<PeerAddr>, _>(ReplyError::TruncatedPeer))
            &&& r is Ok <==> timed && (listed matches Some(EntryView::Bytes(bytes)) && bytes.len()
                % 6 == 0)
            &&& listed matches Some(EntryView::Bytes(bytes)) ==> (r matches Ok(addresses) ==> {
                &&& 6 * addresses@.len() == bytes.len()
                &&& 0 <= i < addresses@.len() ==> {
                    &&& addresses@[i].ip@ == bytes.subrange(6 * i, 6 * i + 4)
                    &&& addresses@[i].port == 256 * bytes[6 * i + 4] + bytes[6 * i + 5]
                }
            })
        }),
{
    let listed = tracker::bencode_entry(reply@, "peers"@);
    let interval = tracker::bencode_entry(reply@, "interval"@);
    tracker::law_reply_faults(listed, interval);
    if r is Ok {
        let bytes = listed->0->Bytes_0;
        let addresses = r->Ok_0@;
        if 0 <= i < addresses.len() {
            assert(tracker::address_at(bytes, 6 * i, addresses[i]));
        }
    }
}

/// A peer is known by the address that it was named with, and what a tracker has said names a peer
/// for each address, in their order.
pub proof fn law_tracker_peer_new(
    address: PeerAddr,
    peer: Peer,
    blank: TrackerInfo,
    addresses: &Vec<PeerAddr>,
    told: TrackerInfo,
    i: int,
)
    requires
        call_ensures(Peer::new, (address,), peer),
        call_ensures(TrackerInfo::new, (), blank),
        call_ensures(TrackerInfo::from_addresses, (addresses,), told),
    ensures
        peer.ip_port == address,
        peer.id is None,
        bitfield::bits_of(peer.piece_bitmap).len() == 0,
        peer.am_choking && peer.peer_choking && !peer.am_interested && !peer.peer_interested,
        blank.peers@.len() == 0 && blank.interval == 0 && blank.tracker_id is None,
        told.peers@.len() == addresses@.len(),
        0 <= i < addresses@.len() ==> told.peers@[i].ip_port == addresses@[i],
        told.interval == 100 && told.tracker_id is None,
{
    assert(peer@.ip_port == address && peer@.id is None);
    assert(blank@.peers.len() == 0);
    assert(told@.peers.len() == addresses@.len());
    if 0 <= i < addresses@.len() {
        assert(told@.peers[i].ip_port == addresses@[i]);
    }
}

/// The kind of a message is told by its id; what is sent has the bytes of its parts.
pub proof fn law_wire_messages(
    id: u8,
    kind: MessageKind,
    info_hash: &[u8],
    peer_id: &str,
    greeting: Vec<u8>,
    interest: Vec<u8>,
    index: u32,
    begin: u32,
    length: u32,
    request: Vec<u8>,
    i: int,
)
    requires
        call_ensures(wire::message_kind, (id,), kind),
        call_ensures(wire::handshake, (info_hash, peer_id), greeting),
        call_ensures(wire::interested, (), interest),
        call_ensures(wire::piece_request, (index, begin, length), request),
        info_hash@.len() <= 20,
        encode_utf8(peer_id@).len() <= 20,
    ensures
        kind is Choke <==> id == 0,
        kind is Unchoke <==> id == 1,
        kind is Interested <==> id == 2,
        kind is Uninterested <==> id == 3,
        kind is Have <==> id == 4,
        kind is Bitfield <==> id == 5,
        kind is Request <==> id == 6,
        kind is Piece <==> id == 7,
        kind is Cancel <==> id == 8,
        kind is Port <==> id == 9,
        greeting@.len() == 68 && greeting@[0] == 19,
        0 <= i < info_hash@.len() ==> greeting@[28 + i] == info_hash@[i],
        0 <= i < encode_utf8(peer_id@).len() ==> greeting@[48 + i] == encode_utf8(peer_id@)[i],
        interest@ == seq![0u8, 0u8, 0u8, 1u8, 2u8],
        request@.len() == 17 && request@[3] == 13 && request@[4] == 6,
        ((request@[5] * 256 + request@[6]) * 256 + request@[7]) * 256 + request@[8] == index,
        ((request@[9] * 256 + request@[10]) * 256 + request@[11]) * 256 + request@[12] == begin,
        ((request@[13] * 256 + request@[14]) * 256 + request@[15]) * 256 + request@[16] == length,
{
    wire::law_message_kinds(id);
    wire::law_handshake_bytes(info_hash@, encode_utf8(peer_id@), i);
    wire::law_message_bytes(2, index, begin, length);
    let front = request@.take(5);
    assert(front[3] == 13 && front[4] == 6);
}

/// A port is read where the text is a number of at most 65535.
pub proof fn law_console_parse_port(text: &str, r: Option<u16>, port: u16)
    requires
        call_ensures(console::parse_port, (text,), r),
    ensures
        text@ == text::decimal(port as nat) ==> r == Some(port),
        r is Some <==> text::parsed(text@, 65535) is Some,
        r matches Some(n) ==> text::parsed(text@, 65535) == Some(n as nat),
{
    text::law_decimal_read_back(port as nat, 65535);
}

/// A line of one or two words, with white space around it, asks for what its first word says, and
/// an id that it names is read back. A blank line asks for nothing.
pub proof fn law_console_parse(
    line: &str,
    r: Action,
    before: Seq<char>,
    word: Seq<char>,
    after: Seq<char>,
    id: usize,
)
    requires
        call_ensures(console::parse, (line,), r),
        forall|i: int| 0 <= i < before.len() ==> text::is_white_space(#[trigger] before[i]),
        forall|i: int| 0 <= i < after.len() ==> text::is_white_space(#[trigger] after[i]),
        word.len() > 0,
        !text::is_white_space(word[0]) && !text::is_white_space(word.last()),
        !word.contains(' '),
    ensures
        line@ == before ==> r is Nothing,
        line@ == before + word + after ==> {
            &&& r is Help <==> word == "help"@ || word == "h"@
            &&& r is List <==> word == "list"@ || word == "l"@
            &&& r !is Nothing
        },
        line@ == before + (word + seq![' '] + text::decimal(id as nat)) + after ==> {
            &&& r is Help <==> word == "help"@ || word == "h"@
            &&& r is Remove <==> word == "remove"@ || word == "r"@
            &&& r matches Action::Remove(n) ==> n == id
            &&& r is Download <==> word == "download"@ || word == "d"@
            &&& r matches Action::Download(n) ==> n == id
            &&& r is Add <==> word == "add"@ || word == "a"@
            &&& r matches Action::Add(path) ==> path@ == text::decimal(id as nat)
            &&& r is ShowFiles <==> word == "showfiles"@ || word == "sf"@
            &&& r is Seed <==> word == "seed"@ || word == "s"@
            &&& r !is Nothing
            &&& r !is NotANumber
        },
{
    let digits = text::decimal(id as nat);
    text::law_decimal_read_back(id as nat, usize::MAX as nat);
    text::lemma_decimal_digits(id as nat);
    text::law_trimmed(before, word, after);
    text::law_words(word, digits);
    if line@ == before {
        let nothing = Seq::<char>::empty();
        text::law_words(nothing, nothing);
        assert(text::words(nothing) == seq![nothing]);
        console::law_commands(seq![nothing]);
    }
    if line@ == before + word + after {
        console::law_commands(seq![word]);
    }
    if line@ == before + (word + seq![' '] + digits) + after {
        let both = word + seq![' '] + digits;
        assert(both[0] == word[0] && both.last() == digits.last());
        assert(text::is_digit(digits.last()));
        text::law_trimmed(before, both, after);
        assert(!digits.contains(' ')) by {
            if digits.contains(' ') {
                let k = choose|k: int| 0 <= k < digits.len() && digits[k] == ' ';
                assert(text::is_digit(digits[k]));
            }
        }
        text::law_words(digits, digits);
        assert(text::words(both) =~= seq![word, digits]);
        console::law_commands(seq![word, digits]);
    }
}

/// What is appended to a text leaves the text as it is, and denotes what was appended.
pub proof fn law_text_numbers(
    a: &mut String,
    n: u64,
    b: &mut String,
    bytes: &[u8],
    c: &mut String,
    text: &str,
    width: usize,
    i: int,
)
    requires
        call_ensures(text::push_decimal, (a, n), ()),
        call_ensures(text::push_hex, (b, bytes), ()),
        call_ensures(text::push_right_aligned, (c, text, width), ()),
    ensures
        final(a)@.take(old(a)@.len() as int) == old(a)@,
        text::parsed(final(a)@.skip(old(a)@.len() as int), u64::MAX as nat) == Some(n as nat),
        final(b)@.take(old(b)@.len() as int) == old(b)@,
        final(b)@.len() == old(b)@.len() + 2 * bytes@.len(),
        0 <= i < bytes@.len() ==> final(b)@[old(b)@.len() + 2 * i]
            == "0123456789abcdef"@[bytes@[i] as int / 16],
        0 <= i < bytes@.len() ==> final(b)@[old(b)@.len() + 2 * i + 1]
            == "0123456789abcdef"@[bytes@[i] as int % 16],
        final(c)@.take(old(c)@.len() as int) == old(c)@,
        final(c)@.len() == old(c)@.len() + (if text@.len() < width {
            width as nat
        } else {
            text@.len()
        }),
        final(c)@.skip(final(c)@.len() - text@.len()) == text@,
        old(c)@.len() <= i < final(c)@.len() - text@.len() ==> final(c)@[i] == ' ',
{
    text::law_decimal_read_back(n as nat, u64::MAX as nat);
    assert(final(a)@.take(old(a)@.len() as int) =~= old(a)@);
    assert(final(a)@.skip(old(a)@.len() as int) =~= text::decimal(n as nat));
    text::law_hex(bytes@, i);
    assert(final(b)@.take(old(b)@.len() as int) =~= old(b)@);
    text::law_right_aligned(text@, width as nat);
    let aligned = text::right_aligned(text@, width as nat);
    assert(final(c)@.take(old(c)@.len() as int) =~= old(c)@);
    assert(final(c)@.skip(final(c)@.len() - text@.len()) =~= aligned.skip(
        aligned.len() - text@.len(),
    ));
    if old(c)@.len() <= i < final(c)@.len() - text@.len() {
        assert(aligned[i - old(c)@.len()] == ' ');
    }
}

/// The text of a number is read back as the number, and texts are the same where their characters
/// are.
pub proof fn law_text_read_back(
    n: u64,
    written: String,
    text: &str,
    max: u64,
    read: Option<u64>,
    other: &str,
    equal: bool,
)
    requires
        call_ensures(text::decimal_text, (n,), written),
        call_ensures(text::parse_decimal, (text, max), read),
        call_ensures(text::same, (text, other), equal),
    ensures
        text@ == written@ && n <= max ==> read == Some(n),
        text@ == written@ && n > max ==> read is None,
        text@ == seq!['+'] + written@ && n <= max ==> read == Some(n),
        text@.len() == 0 ==> read is None,
        read matches Some(m) ==> m <= max,
        equal <==> text@ == other@,
{
    text::lemma_decimal_digits(n as nat);
    let digits = text::decimal(n as nat);
    assert forall|j: int| 0 <= j < digits.len() implies 48 <= (#[trigger] digits[j]) as int
        <= 57 by {
        assert(text::is_digit(digits[j]));
    }
    text::law_parsed(digits, max as nat, 0);
    text::law_parsed(text@, max as nat, 0);
    if n <= max {
        text::law_decimal_read_back(n as nat, max as nat);
    }
}

/// A signed number is appended with its sign where it is negative, and its digits are read back.
pub proof fn law_text_push_signed_decimal(out: &mut String, n: i64)
    requires
        call_ensures(text::push_signed_decimal, (out, n), ()),
    ensures
        final(out)@.take(old(out)@.len() as int) == old(out)@,
        n >= 0 ==> text::parsed(final(out)@.skip(old(out)@.len() as int), i64::MAX as nat) == Some(
            n as nat,
        ),
        n < 0 ==> final(out)@[old(out)@.len() as int] == '-' && text::parsed(
            final(out)@.skip(1 + old(out)@.len() as int),
            0x8000_0000_0000_0000,
        ) == Some((-n) as nat),
{
    assert(final(out)@.take(old(out)@.len() as int) =~= old(out)@);
    if n >= 0 {
        text::law_signed_decimal(n as nat);
        text::law_decimal_read_back(n as nat, i64::MAX as nat);
        assert(final(out)@.skip(old(out)@.len() as int) =~= text::decimal(n as nat));
    } else {
        let size = (-n) as nat;
        text::law_signed_decimal(size);
        text::law_decimal_read_back(size, 0x8000_0000_0000_0000);
        assert(text::signed_decimal(n as int) == seq!['-'] + text::decimal(size));
        assert(final(out)@.skip(1 + old(out)@.len() as int) =~= text::decimal(size));
    }
}

/// To trim a text takes the white space around it, and no more.
pub proof fn law_text_trim(
    text: &str,
    r: &str,
    before: Seq<char>,
    inner: Seq<char>,
    after: Seq<char>,
)
    requires
        call_ensures(text::trim, (text,), r),
        forall|i: int| 0 <= i < before.len() ==> text::is_white_space(#[trigger] before[i]),
        forall|i: int| 0 <= i < after.len() ==> text::is_white_space(#[trigger] after[i]),
        inner.len() > 0,
        !text::is_white_space(inner[0]) && !text::is_white_space(inner.last()),
    ensures
        text@ == before + inner + after ==> r@ == inner,
        text@ == before ==> r@.len() == 0,
{
    text::law_trimmed(before, inner, after);
}

/// Words that are joined by spaces are split into the same words.
pub proof fn law_text_split_words(
    text: &str,
    r: Vec<String>,
    a: Seq<char>,
    b: Seq<char>,
    c: Seq<char>,
)
    requires
        call_ensures(text::split_words, (text,), r),
        !a.contains(' ') && !b.contains(' ') && !c.contains(' '),
    ensures
        r@.len() >= 1,
        text@ == a ==> r@.len() == 1 && r@[0]@ == a,
        text@ == a + seq![' '] + b ==> r@.len() == 2 && r@[0]@ == a && r@[1]@ == b,
        text@ == a + seq![' '] + b + seq![' '] + c ==> r@.len() == 3 && r@[0]@ == a && r@[1]@ == b
            && r@[2]@ == c,
{
    text::law_words(a, b);
    text::law_words(b, c);
    text::law_words(c, c);
    text::law_words(a + seq![' '] + b, c);
    let words = text::texts(r@);
    assert(words.len() == r@.len());
    assert forall|i: int| 0 <= i < r@.len() implies #[trigger] words[i] == r@[i]@ by {
    }
    if text@ == a + seq![' '] + b {
        assert(words =~= seq![a, b]);
        assert(words[0] == a && words[1] == b);
    }
    if text@ == a + seq![' '] + b + seq![' '] + c {
        assert(words =~= seq![a, b, c]);
        assert(words[0] == a && words[1] == b && words[2] == c);
    }
    if text@ == a {
        assert(words[0] == a);
    }
}

proof fn lemma_torrent_lines(list: Seq<(usize, String)>, more: Seq<(usize, String)>, n: int)
    requires
        0 <= n <= list.len(),
        list.len() < more.len(),
        more.take(list.len() as int) == list,
    ensures
        console::torrent_lines(more, n) == console::torrent_lines(list, n),
    decreases n,
{
    if n > 0 {
        lemma_torrent_lines(list, more, n - 1);
        assert(more.take(list.len() as int)[n - 1] == more[n - 1]);
    }
}

/// A list of torrents shows a line for each, with its id and its name; with one more torrent it has
/// one more line.
pub proof fn law_console_show_list(
    list: &Vec<(usize, String)>,
    shown: String,
    more: &Vec<(usize, String)>,
    longer: String,
    id: usize,
    name: String,
)
    requires
        call_ensures(console::show_list, (list,), shown),
        call_ensures(console::show_list, (more,), longer),
        more@ == list@.push((id, name)),
    ensures
        longer@ == shown@ + text::right_aligned(text::decimal(id as nat), 2) + "  "@ + name@
            + "\n"@,
        list@.len() == 0 ==> shown@ == "ID  Torrent"@ + "\n"@
            + "--  ----------------------------------------------"@ + "\n"@,
{
    let n = list@.len() as int;
    console::law_torrent_list(more@, n);
    assert(more@.take(n) =~= list@);
    lemma_torrent_lines(list@, more@, n);
    assert(shown@ =~= "ID  Torrent"@ + "\n"@ + "--  ----------------------------------------------"@
        + "\n"@ + console::torrent_lines(list@, n));
    assert(longer@ =~= shown@ + text::right_aligned(text::decimal(id as nat), 2) + "  "@ + name@
        + "\n"@);
}

proof fn lemma_file_lines(m: MetainfoView, more: MetainfoView, n: int)
    requires
        0 <= n <= m.files.len(),
        m.files.len() < more.files.len(),
        more.files.take(m.files.len() as int) == m.files,
    ensures
        more.file_lines(n) == m.file_lines(n),
    decreases n,
{
    if n > 0 {
        lemma_file_lines(m, more, n - 1);
        assert(more.files.take(m.files.len() as int)[n - 1] == more.files[n - 1]);
    }
}

/// A list of files shows a line for each, with its length and its name; with one more file it has
/// one more line.
pub proof fn law_metainfo_file_list(m: &Metainfo, shown: String, more: &Metainfo, longer: String)
    requires
        call_ensures(Metainfo::file_list, (m,), shown),
        call_ensures(Metainfo::file_list, (more,), longer),
        more@.files.len() == m@.files.len() + 1,
        more@.files.take(m@.files.len() as int) == m@.files,
    ensures
        longer@ == shown@ + text::right_aligned(
            text::signed_decimal(more@.files.last().length as int),
            12,
        ) + "\t"@ + more@.files.last().name() + "\n"@,
        m@.files.len() == 0 ==> shown@ == "File List:"@ + "\n"@ + "Size (bytes)\tPath"@ + "\n"@
            + "------------\t----------------------------------------------"@ + "\n"@,
{
    let n = m@.files.len() as int;
    metainfo::law_file_list(more@, n);
    lemma_file_lines(m@, more@, n);
    assert(shown@ =~= "File List:"@ + "\n"@ + "Size (bytes)\tPath"@ + "\n"@
        + "------------\t----------------------------------------------"@ + "\n"@ + m@.file_lines(
        n,
    ));
    assert(longer@ =~= shown@ + text::right_aligned(
        text::signed_decimal(more@.files.last().length as int),
        12,
    ) + "\t"@ + more@.files.last().name() + "\n"@);
}

/// An overview is given with the creation date that the metainfo file names, or without one where
/// it names none, and shows the date that it is given.
pub proof fn law_metainfo_overview(
    m: &Metainfo,
    date: Option<String>,
    dated: String,
    r: Option<String>,
)
    requires
        call_ensures(Metainfo::overview_with_date, (m, &date), dated),
        call_ensures(Metainfo::overview, (m,), r),
    ensures
        metainfo::stands_in("InfoHash: "@ + text::hex(m@.info_hash) + "\n"@, dated@),
        date matches Some(text) ==> metainfo::stands_in(
            "Creation Date: "@ + ("Some("@ + text@ + ")"@) + "\n"@,
            dated@,
        ),
        date is None ==> metainfo::stands_in("Creation Date: "@ + "None"@ + "\n"@, dated@),
        metainfo::stands_in(
            "Total File Size: "@ + text::signed_decimal(metainfo::sum_of_lengths(m@.files))
                + "\n"@,
            dated@,
        ),
        dated@.len() >= m@.file_list().len(),
        dated@.skip(dated@.len() - m@.file_list().len()) == m@.file_list(),
        m@.creation_date is None && date is None ==> (r matches Some(text) && text@ == dated@),
        m@.creation_date matches Some(secs) ==> {
            let shown = -10_000_000_000_000 <= secs <= 10_000_000_000_000 && metainfo::utc_text(
                secs,
            ) is Some;
            &&& r is Some <==> shown
            &&& shown && date is Some && date->0@ == metainfo::utc_text(secs)->0 ==> r->0@ == dated@
        },
{
    metainfo::law_overview(m@, metainfo::optional_text(date));
    metainfo::law_dated_overview(m@);
}

/// The connection that is found by a token is the one at that token, and what becomes of it becomes
/// of it there. A torrent is placeable where its metainfo is.
pub proof fn law_torrent_find_connection_by_token(
    torrent: &mut Torrent,
    token: usize,
    conn: &mut Connection,
    other: &Torrent,
    placeable: bool,
)
    requires
        call_ensures(Torrent::find_connection_by_token, (torrent, token), conn),
        call_ensures(Torrent::placeable, (other,), placeable),
    ensures
        old(conn)@ == old(torrent)@.conns[token],
        final(torrent)@.conns == old(torrent)@.conns.insert(token, final(conn)@),
        (TorrentView { conns: old(torrent)@.conns, ..final(torrent)@ }) == old(torrent)@,
        placeable <==> other@.metainfo.placeable(),
{
}

/// The help names each command, in its long and its short form, with what it takes and what it
/// does, one to a line.
pub proof fn law_console_help(r: &'static str)
    requires
        call_ensures(console::help, (), r),
    ensures
        r@ == "Commands:\n"@
            + "add/a <torrent file path>        - add a new torrent file for tracking\n"@
            + "remove/r <torrent id>            - remove given torrent from tracking list\n"@
            + "list/l                           - list torrents being tracked\n"@
            + "showfiles/sf <torrent id>        - show files in the torrent\n"@
            + "download/d <torrent id>          - download this torrent\n"@
            + "seed/s <torrent id>              - seed this torrent\n"@
            + "help/h                           - show this help"@,
{
    reveal_strlit("Commands:
add/a <torrent file path>        - add a new torrent file for tracking
remove/r <torrent id>            - remove given torrent from tracking list
list/l                           - list torrents being tracked
showfiles/sf <torrent id>        - show files in the torrent
download/d <torrent id>          - download this torrent
seed/s <torrent id>              - seed this torrent
help/h                           - show this help");
    reveal_strlit("Commands:\n");
    reveal_strlit("add/a <torrent file path>        - add a new torrent file for tracking\n");
    reveal_strlit("remove/r <torrent id>            - remove given torrent from tracking list\n");
    reveal_strlit("list/l                           - list torrents being tracked\n");
    reveal_strlit("showfiles/sf <torrent id>        - show files in the torrent\n");
    reveal_strlit("download/d <torrent id>          - download this torrent\n");
    reveal_strlit("seed/s <torrent id>              - seed this torrent\n");
    reveal_strlit("help/h                           - show this help");
    assert(r@ =~= "Commands:\n"@
        + "add/a <torrent file path>        - add a new torrent file for tracking\n"@
        + "remove/r <torrent id>            - remove given torrent from tracking list\n"@
        + "list/l                           - list torrents being tracked\n"@
        + "showfiles/sf <torrent id>        - show files in the torrent\n"@
        + "download/d <torrent id>          - download this torrent\n"@
        + "seed/s <torrent id>              - seed this torrent\n"@
        + "help/h                           - show this help"@);
}

/// A query is told to have no place in a URL where it has none: not in one whose fragment would
/// start behind what 32 bits count, nor in one without a query that is longer than that.
pub proof fn law_tracker_overflows(
    url: &str,
    growth: u128,
    r: bool,
    base: Seq<char>,
    tail: Seq<char>,
)
    requires
        call_ensures(tracker::overflows, (url, growth), r),
        url@ == base + tail,
        !base.contains('#'),
        tail.len() == 0 || tail[0] == '#',
    ensures
        r <==> (tail.len() > 0 && base.len() + growth > 0xffff_ffff) || (!base.contains('?')
            && base.len() > 0xffff_ffff),
{
    tracker::law_query_overflows(base, tail, growth as int);
}

/// What a torrent asks for while it reads a connection is what the connection asks for by itself,
/// and without a message the connection is all that changes.
pub proof fn law_torrent_reads_connection(
    torrent: &mut Torrent,
    conn: &mut Connection,
    event: ReadEvent,
    token: usize,
    step: TorrentReadStep,
    alone: ReadStep,
)
    requires
        call_ensures(Torrent::readable, (torrent, token, event), step),
        call_ensures(Connection::readable, (conn, event), alone),
        old(torrent)@.conns.dom().contains(token),
        old(torrent)@.conns[token] == old(conn)@,
    ensures
        alone matches ReadStep::NeedPrefix(n) ==> step == TorrentReadStep::NeedPrefix(n),
        alone matches ReadStep::NeedBody(n) ==> step == TorrentReadStep::NeedBody(n),
        alone matches ReadStep::Finished(Err(e)) ==> step == TorrentReadStep::Finished(Err(e)),
        alone == ReadStep::Finished(Ok(None)) ==> step == TorrentReadStep::Finished(Ok(())),
        alone matches ReadStep::Finished(Ok(Some(message))) ==> (step matches
            TorrentReadStep::Message { bytes, .. } && bytes == message),
        step !is Message ==> final(torrent)@.conns == old(torrent)@.conns.insert(
            token,
            final(conn)@,
        ),
        (TorrentView { conns: old(torrent)@.conns, ..final(torrent)@ }) == old(torrent)@,
{
}

/// A reply is refused by a torrent for what is wrong with its peers, and else its peers are known.
pub proof fn law_torrent_takes_reply(
    torrent: &mut Torrent,
    reply: &[u8],
    r: Result<(), ReplyError>,
    listed: Result<Vec<PeerAddr>, ReplyError>,
)
    requires
        call_ensures(Torrent::contact_tracker, (torrent, reply), r),
        call_ensures(tracker::peers_of_reply, (reply,), listed),
    ensures
        listed matches Err(e) ==> r == Err::<(), _>(e),
        listed matches Ok(addresses) ==> r is Ok && final(torrent)@.tracker_info.peers.len()
            == addresses@.len(),
{
    if listed is Ok {
        let bytes = tracker::bencode_entry(reply@, "peers"@)->0->Bytes_0;
        let addresses = choose|addresses: Seq<PeerAddr>| #[trigger]
            tracker::lists_addresses(bytes, addresses) && final(torrent)@ == (TorrentView {
                tracker_info: tracker::TrackerInfoView::reply(addresses),
                ..old(torrent)@
            });
        assert(tracker::lists_addresses(bytes, addresses));
    }
}

/// A line asks for what its words ask for once it is trimmed and split: each command has a long and
/// a short form, and shows its usage where the number of words is wrong.
pub proof fn law_console_words(
    line: &str,
    trimmed: &str,
    words: Vec<String>,
    r: Action,
)
    requires
        call_ensures(text::trim, (line,), trimmed),
        call_ensures(text::split_words, (trimmed,), words),
        call_ensures(console::parse, (line,), r),
    ensures
        words@.len() > 0,
        ({
            let word = words@[0]@;
            let one = words@.len() == 1;
            let two = words@.len() == 2;
            let number = text::parsed(words@[1]@, usize::MAX as nat);
            &&& r is Help <==> word == "help"@ || word == "h"@
            &&& r is Add <==> (word == "add"@ || word == "a"@) && two
            &&& r matches Action::Add(path) ==> path@ == words@[1]@
            &&& r is Remove <==> (word == "remove"@ || word == "r"@) && two && number is Some
            &&& r matches Action::Remove(id) ==> number == Some(id as nat)
            &&& r is List <==> (word == "list"@ || word == "l"@) && one
            &&& r is ShowFiles <==> (word == "showfiles"@ || word == "sf"@) && two
            &&& r is Download <==> (word == "download"@ || word == "d"@) && two && number is Some
            &&& r matches Action::Download(id) ==> number == Some(id as nat)
            &&& r is Seed <==> (word == "seed"@ || word == "s"@) && two
            &&& r is NotANumber <==> (word == "remove"@ || word == "r"@ || word == "download"@
                || word == "d"@) && two && number is None
            &&& r is Nothing <==> word.len() == 0
            &&& r matches Action::Usage(usage) ==> {
                ||| usage@ == "usage: add <torrent file>"@ && (word == "add"@ || word == "a"@)
                ||| usage@ == "usage: remove <torrent number>"@ && (word == "remove"@ || word
                    == "r"@)
                ||| usage@ == "usage: list"@ && (word == "list"@ || word == "l"@)
                ||| usage@ == "usage: showfiles <torrent id>"@ && (word == "showfiles"@ || word
                    == "sf"@)
                ||| usage@ == "usage: download <torrent id>"@ && (word == "download"@ || word
                    == "d"@)
                ||| usage@ == "usage: seed <torrent id>"@ && (word == "seed"@ || word == "s"@)
            }
            &&& r is Invalid <==> !(word.len() == 0 || word == "help"@ || word == "h"@ || word
                == "add"@ || word == "a"@ || word == "remove"@ || word == "r"@ || word == "list"@
                || word == "l"@ || word == "showfiles"@ || word == "sf"@ || word == "download"@
                || word == "d"@ || word == "seed"@ || word == "s"@)
        }),
{
    let all = text::texts(words@);
    assert(all == text::words(text::trimmed(line@)));
    assert(all[0] == words@[0]@);
    if all.len() == 2 {
        assert(all[1] == words@[1]@);
    }
    console::law_commands(all);
}

/// What is said of a metainfo file is said of its own parts: each part of its view is the part of
/// that name, and so with its files and with the places of files.
pub proof fn law_metainfo_parts(m: Metainfo, i: int, k: int, file: FileT)
    ensures
        m@.info_hash == m.info_hash@,
        m@.main_tracker is Some <==> m.main_tracker is Some,
        m.main_tracker matches Some(s) ==> m@.main_tracker == Some(s@),
        m@.comment is Some <==> m.comment is Some,
        m.comment matches Some(s) ==> m@.comment == Some(s@),
        m@.created_by is Some <==> m.created_by is Some,
        m.created_by matches Some(s) ==> m@.created_by == Some(s@),
        m@.creation_date == m.creation_date,
        m@.directory is Some <==> m.directory is Some,
        m.directory matches Some(s) ==> m@.directory == Some(s@),
        m@.piece_length == m.piece_length,
        m@.piece_count == m.piece_count,
        m@.files.len() == m.files@.len(),
        0 <= i < m.files@.len() ==> {
            &&& m@.files[i].length == m.files@[i].length
            &&& m@.files[i].paths.len() == m.files@[i].paths@.len()
            &&& 0 <= k < m.files@[i].paths@.len() ==> m@.files[i].paths[k] == m.files@[i].paths@[k]@
        },
        file@.name == file.name@,
        file@.start_piece == file.start_piece && file@.start_offset == file.start_offset,
        file@.end_piece == file.end_piece && file@.end_offset == file.end_offset,
{
    if 0 <= i < m.files@.len() {
        assert(m@.files[i] == m.files@[i]@);
    }
}

/// What is said of a request to a tracker and of what the tracker has said is said of their own
/// parts.
pub proof fn law_tracker_parts(request: TrackerRequest, info: TrackerInfo, i: int)
    ensures
        request@.info_hash == request.info_hash@,
        request@.peer_id == request.peer_id@,
        request@.port == request.port,
        request@.uploaded == request.uploaded,
        request@.downloaded == request.downloaded,
        request@.left == request.left,
        info@.interval == info.interval,
        info@.tracker_id is Some <==> info.tracker_id is Some,
        info.tracker_id matches Some(s) ==> info@.tracker_id == Some(s@),
        info@.peers.len() == info.peers@.len(),
        0 <= i < info.peers@.len() ==> {
            let peer = info.peers@[i];
            let told = info@.peers[i];
            &&& told.ip_port == peer.ip_port
            &&& told.id is Some <==> peer.id is Some
            &&& peer.id matches Some(s) ==> told.id == Some(s@)
            &&& told.piece_bitmap == bitfield::bits_of(peer.piece_bitmap)
            &&& told.am_choking == peer.am_choking && told.peer_choking == peer.peer_choking
            &&& told.am_interested == peer.am_interested
            &&& told.peer_interested == peer.peer_interested
        },
{
    if 0 <= i < info.peers@.len() {
        assert(info@.peers[i] == info.peers@[i]@);
    }
}

} // verus!
