//! One peer connection: what it waits for, what it has to send, and how its stream is cut into
//! messages. The stream itself stays with the caller, who performs each read and write that a
//! step asks for and hands back what came of it.

use std::collections::VecDeque;
use std::sync::Arc;

use mio::{PollOpt, Ready};
use vstd::prelude::*;
use vstd::string::*;
use vstd::utf8::*;

use crate::bitfield;
use crate::readiness;
use crate::readiness::{PollOption, Readiness};
use crate::wire;

verus! {

/// Why an event on a connection failed.
#[derive(Clone, Copy, Debug, PartialEq, Eq, Structural)]
pub enum ConnectionError {
    /// The stream gave fewer bytes than a length prefix has.
    InvalidLength,
    /// The stream gave fewer bytes than the message has.
    ShortRead,
    /// There was nothing to send.
    EmptyQueue,
    /// The stream itself failed.
    Io,
}

/// What came of a read.
#[derive(Debug)]
pub enum Received {
    /// The bytes that were read.
    Data(Vec<u8>),
    /// There is nothing to read for now.
    WouldBlock,
    /// The read failed.
    Failed,
}

/// What a readable connection is told.
#[derive(Debug)]
pub enum ReadEvent {
    /// The stream can be read.
    Ready,
    /// What came of reading the length prefix.
    Prefix(Received),
    /// What came of reading the `wanted` bytes of a message.
    Body { wanted: u64, got: Received },
}

/// What a readable connection asks for next.
#[derive(Debug)]
pub enum ReadStep {
    /// Read at most this many bytes and answer with [`ReadEvent::Prefix`].
    NeedPrefix(usize),
    /// Read at most this many bytes and answer with [`ReadEvent::Body`].
    NeedBody(u64),
    /// The event is over: with a message, with none for now, or with an error.
    Finished(Result<Option<Vec<u8>>, ConnectionError>),
}

/// What is known of the length of a message.
#[derive(Clone, Copy, Debug, PartialEq, Eq, Structural)]
pub enum LengthStep {
    /// Nothing yet: at most this many bytes of the prefix are to be read.
    NeedPrefix(usize),
    /// The number of bytes of a message that an earlier read had to wait for.
    Stored(u32),
    /// The number that the prefix holds.
    Held(u32),
    /// Nothing, and there is no prefix to read for now.
    Nothing,
}

/// What a writable connection is told.
#[derive(Debug)]
pub enum WriteEvent {
    /// The stream can be written.
    Ready,
    /// The message, or the first bytes of it, went out.
    Wrote,
    /// The stream takes nothing for now; the message comes back.
    WouldBlock(Arc<Vec<u8>>),
    /// The write failed.
    Failed,
}

/// What a writable connection asks for next.
#[derive(Debug)]
pub enum WriteStep {
    /// Write this message.
    Send(Arc<Vec<u8>>),
    /// The event is over.
    Finished(Result<(), ConnectionError>),
}

/// The state of a connection.
pub struct Connection {
    // token used to register with the poller
    pub token: usize,
    // set of events that the connection waits for
    interest: Ready,
    // whether the connection needs to be (re)registered
    is_idle: bool,
    // whether the connection is reset
    is_reset: bool,
    is_to_be_removed: bool,
    handshake_done: bool,
    // number of bytes that a read which had to wait was meant to read
    read_continuation: Option<u32>,
    send_queue: VecDeque<Arc<Vec<u8>>>,
    write_continuation: bool,
    pub piece_bitmap: bit_vec::BitVec,
    pub piece_buf: Vec<u8>,
}

/// What a connection is, in mathematical terms.
pub struct ConnectionView {
    pub token: usize,
    pub interest: Set<Readiness>,
    pub is_idle: bool,
    pub is_reset: bool,
    pub is_to_be_removed: bool,
    pub handshake_done: bool,
    pub read_continuation: Option<u32>,
    pub send_queue: Seq<Seq<u8>>,
    pub write_continuation: bool,
    pub piece_bitmap: Seq<bool>,
    pub piece_buf: Seq<u8>,
}

impl ConnectionView {
    /// A connection that was just made.
    pub open spec fn fresh(token: usize) -> ConnectionView {
        ConnectionView {
            token,
            interest: set![Readiness::Hup],
            is_idle: true,
            is_reset: false,
            is_to_be_removed: false,
            handshake_done: false,
            read_continuation: None,
            send_queue: Seq::empty(),
            write_continuation: false,
            piece_bitmap: Seq::empty(),
            piece_buf: Seq::empty(),
        }
    }

    /// The connection with one more message to send, and with interest in writing.
    pub open spec fn queued(self, message: Seq<u8>) -> ConnectionView {
        ConnectionView {
            send_queue: self.send_queue.push(message),
            interest: self.interest.insert(Readiness::Writable),
            ..self
        }
    }

    /// The connection once it waits for its stream to be readable and writable.
    pub open spec fn watching(self) -> ConnectionView {
        ConnectionView {
            interest: self.interest.insert(Readiness::Readable).insert(Readiness::Writable),
            ..self
        }
    }

    /// The connection, marked as reset.
    pub open spec fn reset(self) -> ConnectionView {
        ConnectionView { is_reset: true, ..self }
    }

    /// The connection, marked as idle.
    pub open spec fn idle(self) -> ConnectionView {
        ConnectionView { is_idle: true, ..self }
    }

    /// The connection without interest in writing, if it has nothing left to send.
    pub open spec fn settled(self) -> ConnectionView {
        if self.send_queue.len() == 0 {
            ConnectionView { interest: self.interest.remove(Readiness::Writable), ..self }
        } else {
            self
        }
    }

    /// What holds of a connection at all times. It waits for its stream to hang up and, with
    /// something to send, to be writable. A length that is stored is one that can be asked for.
    pub open spec fn inv(self) -> bool {
        &&& self.interest.contains(Readiness::Hup)
        &&& self.send_queue.len() > 0 ==> self.interest.contains(Readiness::Writable)
        &&& self.read_continuation matches Some(n) ==> self.wants(n as int)
    }

    /// Whether this many bytes of a message can be asked for. A message has a byte at least, and a
    /// handshake 49, its first byte not counted.
    pub open spec fn wants(self, n: int) -> bool {
        &&& 0 < n <= u32::MAX
        &&& !self.handshake_done ==> n >= 49
    }

    /// Whether another connection waits for its stream to hang up and to be readable if this one
    /// does, and is reset if this one is.
    pub open spec fn kept_by(self, other: ConnectionView) -> bool {
        &&& self.interest.contains(Readiness::Hup) ==> other.interest.contains(Readiness::Hup)
        &&& self.interest.contains(Readiness::Readable) ==> other.interest.contains(
            Readiness::Readable,
        )
        &&& self.is_reset ==> other.is_reset
    }

    /// The length of the prefix that comes before a message: four bytes, or the one byte that
    /// starts a handshake.
    pub open spec fn prefix_len(self) -> nat {
        if self.handshake_done {
            4
        } else {
            1
        }
    }

    /// The number that a prefix holds.
    pub open spec fn prefix_value(self, prefix: Seq<u8>) -> int {
        if self.handshake_done {
            wire::be32_value(prefix)
        } else {
            prefix[0] as int
        }
    }

    /// The number of bytes that follow a prefix which holds `value`. In a handshake, the prefix
    /// counts the protocol string alone.
    pub open spec fn body_len(self, value: int) -> int {
        if self.handshake_done {
            value
        } else {
            48 + value
        }
    }

    /// The step after a prefix which holds `value`.
    pub open spec fn framed(self, value: int) -> ReadStep {
        if value == 0 {
            ReadStep::Finished(Ok(None))
        } else {
            ReadStep::NeedBody(self.body_len(value) as u64)
        }
    }

    /// What is known of the length of a message, given what came of reading its prefix, if it was
    /// read. A length that is stored is taken without a read.
    pub open spec fn length_step(self, got: Option<Received>) -> Result<
        LengthStep,
        ConnectionError,
    > {
        match (self.read_continuation, got) {
            (Some(n), _) => Ok(LengthStep::Stored(n)),
            (None, None) => Ok(LengthStep::NeedPrefix(self.prefix_len() as usize)),
            (None, Some(Received::Data(bytes))) => if bytes@.len() < self.prefix_len() {
                Err(ConnectionError::InvalidLength)
            } else {
                Ok(LengthStep::Held(self.prefix_value(bytes@) as u32))
            },
            (None, Some(Received::WouldBlock)) => Ok(LengthStep::Nothing),
            (None, Some(Received::Failed)) => Err(ConnectionError::Io),
        }
    }

    /// The connection after a read event.
    pub open spec fn after_read(self, event: ReadEvent) -> ConnectionView {
        match event {
            ReadEvent::Body { wanted, got: Received::Data(bytes) } if bytes@.len() >= wanted =>
                ConnectionView { read_continuation: None, handshake_done: true, ..self },
            ReadEvent::Body { wanted, got: Received::WouldBlock } => ConnectionView {
                read_continuation: Some(low32(wanted as int)),
                ..self
            },
            _ => self,
        }
    }

    /// The step that answers a read event.
    pub open spec fn read_step(self, event: ReadEvent) -> ReadStep {
        match event {
            ReadEvent::Ready => match self.read_continuation {
                Some(n) => if n == 0 {
                    ReadStep::Finished(Ok(None))
                } else {
                    ReadStep::NeedBody(n as u64)
                },
                None => ReadStep::NeedPrefix(self.prefix_len() as usize),
            },
            ReadEvent::Prefix(Received::Data(bytes)) => if bytes@.len() < self.prefix_len() {
                ReadStep::Finished(Err(ConnectionError::InvalidLength))
            } else {
                self.framed(self.prefix_value(bytes@))
            },
            ReadEvent::Body { wanted, got: Received::Data(bytes) } => if bytes@.len() < wanted {
                ReadStep::Finished(Err(ConnectionError::ShortRead))
            } else {
                ReadStep::Finished(Ok(Some(bytes)))
            },
            ReadEvent::Prefix(Received::WouldBlock)
            | ReadEvent::Body { got: Received::WouldBlock, .. } => ReadStep::Finished(Ok(None)),
            ReadEvent::Prefix(Received::Failed)
            | ReadEvent::Body { got: Received::Failed, .. } => ReadStep::Finished(
                Err(ConnectionError::Io),
            ),
        }
    }
}

impl ConnectionView {
    /// The connection after a write event.
    pub open spec fn after_write(self, event: WriteEvent) -> ConnectionView {
        match event {
            WriteEvent::Ready => if self.send_queue.len() > 0 {
                ConnectionView { send_queue: self.send_queue.drop_first(), ..self }
            } else {
                self
            },
            WriteEvent::Wrote => (ConnectionView { write_continuation: false, ..self }).settled(),
            WriteEvent::WouldBlock(message) => ConnectionView {
                send_queue: self.send_queue.push(message@),
                write_continuation: true,
                ..self
            },
            WriteEvent::Failed => self,
        }
    }

    /// What a write event ends with, or `None` where a message is to be written first.
    pub open spec fn write_result(self, event: WriteEvent) -> Option<Result<(), ConnectionError>> {
        match event {
            WriteEvent::Ready => if self.send_queue.len() > 0 {
                None
            } else {
                Some(Err(ConnectionError::EmptyQueue))
            },
            WriteEvent::Wrote => Some(Ok(())),
            WriteEvent::WouldBlock(_) => Some(Ok(())),
            WriteEvent::Failed => Some(Err(ConnectionError::Io)),
        }
    }
}

/// `Arc::clone`: another handle on the same message.
#[verifier::external_body]
pub(crate) fn share(message: &Arc<Vec<u8>>) -> (r: Arc<Vec<u8>>)
    ensures
        r@ == message@,
{
    Arc::clone(message)
}

/// The lower 32 bits of a number.
pub open spec fn low32(n: int) -> u32 {
    (n % 0x1_0000_0000) as u32
}

/// The options by which a connection is registered: edge-triggered, for one event.
pub open spec fn one_event() -> Set<PollOption> {
    set![PollOption::Edge, PollOption::Oneshot]
}

/// Whether a read event gives no more bytes than were asked for. A prefix is read only where no
/// length is stored.
pub open spec fn read_fits(conn: ConnectionView, event: ReadEvent) -> bool {
    match event {
        ReadEvent::Prefix(got) => conn.read_continuation is None && (got matches Received::Data(
            bytes,
        ) ==> bytes@.len() <= conn.prefix_len()),
        ReadEvent::Body { wanted, got: Received::Data(bytes) } => bytes@.len() <= wanted,
        _ => true,
    }
}

/// Whether a read event is about as many bytes of a message as can be asked for.
pub open spec fn asked_for(conn: ConnectionView, event: ReadEvent) -> bool {
    event matches ReadEvent::Body { wanted, .. } ==> conn.wants(wanted as int)
}

impl View for Connection {
    type V = ConnectionView;

    closed spec fn view(&self) -> ConnectionView {
        ConnectionView {
            token: self.token,
            interest: readiness::kinds_of(self.interest),
            is_idle: self.is_idle,
            is_reset: self.is_reset,
            is_to_be_removed: self.is_to_be_removed,
            handshake_done: self.handshake_done,
            read_continuation: self.read_continuation,
            send_queue: self.send_queue@.map_values(|m: Arc<Vec<u8>>| m@),
            write_continuation: self.write_continuation,
            piece_bitmap: bitfield::bits_of(self.piece_bitmap),
            piece_buf: self.piece_buf@,
        }
    }
}

impl Connection {
    /// Makes a connection that is known to the poller as `token`.
    pub fn new(token: usize) -> (r: Connection)
        ensures
            r@ == ConnectionView::fresh(token),
    {
        let r = Connection {
            token,
            interest: readiness::hup(),
            is_idle: true,
            is_reset: false,
            is_to_be_removed: false,
            handshake_done: false,
            read_continuation: None,
            send_queue: VecDeque::new(),
            write_continuation: false,
            piece_bitmap: bitfield::empty_bits(),
            piece_buf: Vec::with_capacity(524288),
        };
        assert(r@.send_queue =~= Seq::empty());
        r
    }

    /// Handles a read event. After [`ReadEvent::Ready`], the caller performs what each step asks
    /// for until the event is finished, and starts over until no message comes.
    pub fn readable(&mut self, event: ReadEvent) -> (step: ReadStep)
        requires
            read_fits(old(self)@, event),
        ensures
            final(self)@ == old(self)@.after_read(event),
            step == old(self)@.read_step(event),
    {
        match event {
            ReadEvent::Ready => self.go_on(None),
            ReadEvent::Prefix(got) => self.go_on(Some(got)),
            ReadEvent::Body { wanted, got } => match got {
                Received::Data(bytes) => {
                    if (bytes.len() as u64) < wanted {
                        return ReadStep::Finished(Err(ConnectionError::ShortRead));
                    }
                    self.read_continuation = None;
                    if !self.handshake_done {
                        self.mark_handshake_done();
                    }
                    ReadStep::Finished(Ok(Some(bytes)))
                },
                Received::WouldBlock => {
                    self.read_continuation = Some((wanted % 0x1_0000_0000) as u32);
                    ReadStep::Finished(Ok(None))
                },
                Received::Failed => ReadStep::Finished(Err(ConnectionError::Io)),
            },
        }
    }

    /// The step after a prefix which holds `n`.
    fn frame(&self, n: u32) -> (step: ReadStep)
        ensures
            step == self@.framed(n as int),
    {
        if n == 0 {
            ReadStep::Finished(Ok(None))
        } else if self.handshake_done {
            ReadStep::NeedBody(n as u64)
        } else {
            ReadStep::NeedBody(48 + n as u64)
        }
    }

    /// The step after what came of reading the prefix, if it was read.
    fn go_on(&self, got: Option<Received>) -> (step: ReadStep)
        requires
            got matches Some(got) ==> read_fits(self@, ReadEvent::Prefix(got)),
        ensures
            step == self@.read_step(
                match got {
                    Some(got) => ReadEvent::Prefix(got),
                    None => ReadEvent::Ready,
                },
            ),
    {
        match self.read_message_length(got) {
            Ok(LengthStep::NeedPrefix(n)) => ReadStep::NeedPrefix(n),
            Ok(LengthStep::Stored(n)) => if n == 0 {
                ReadStep::Finished(Ok(None))
            } else {
                ReadStep::NeedBody(n as u64)
            },
            Ok(LengthStep::Held(n)) => self.frame(n),
            Ok(LengthStep::Nothing) => ReadStep::Finished(Ok(None)),
            Err(e) => ReadStep::Finished(Err(e)),
        }
    }

    /// Finds the length of a message: the one that is stored, without a read, or the one that the
    /// prefix holds. `got` is what came of reading the prefix, or `None` where it was not read.
    pub fn read_message_length(&self, got: Option<Received>) -> (r: Result<
        LengthStep,
        ConnectionError,
    >)
        ensures
            r == self@.length_step(got),
            got matches Some(Received::Data(bytes)) ==> bytes@.len() >= self@.prefix_len() ==> 0
                <= self@.prefix_value(bytes@) <= u32::MAX,
    {
        if let Some(n) = self.read_continuation {
            return Ok(LengthStep::Stored(n));
        }
        let len: usize = if self.handshake_done {
            4
        } else {
            1
        };
        match got {
            None => Ok(LengthStep::NeedPrefix(len)),
            Some(Received::Data(bytes)) => {
                if bytes.len() < len {
                    return Err(ConnectionError::InvalidLength);
                }
                if self.handshake_done {
                    Ok(LengthStep::Held(wire::read_be32(bytes.as_slice())))
                } else {
                    Ok(LengthStep::Held(bytes[0] as u32))
                }
            },
            Some(Received::WouldBlock) => Ok(LengthStep::Nothing),
            Some(Received::Failed) => Err(ConnectionError::Io),
        }
    }

    /// Handles a write event. Of the messages that are queued one is sent, the oldest; one that the
    /// stream does not take is queued again, behind the others. A connection that has nothing left
    /// to send no longer waits for its stream to be writable.
    pub fn writable(&mut self, event: WriteEvent) -> (step: WriteStep)
        ensures
            final(self)@ == old(self)@.after_write(event),
            step matches WriteStep::Send(m) ==> event is Ready && old(self)@.send_queue.len() > 0
                && m@ == old(self)@.send_queue[0],
            step matches WriteStep::Finished(r) ==> old(self)@.write_result(event) == Some(r),
            old(self)@.write_result(event) is Some ==> step is Finished,
    {
        match event {
            WriteEvent::Ready => match self.send_queue.pop_front() {
                Some(message) => {
                    assert(self@.send_queue =~= old(self)@.send_queue.drop_first());
                    WriteStep::Send(message)
                },
                None => {
                    assert(self@.send_queue =~= old(self)@.send_queue);
                    WriteStep::Finished(Err(ConnectionError::EmptyQueue))
                },
            },
            WriteEvent::Wrote => {
                self.write_continuation = false;
                self.settle();
                WriteStep::Finished(Ok(()))
            },
            WriteEvent::WouldBlock(message) => {
                self.send_queue.push_back(message);
                self.write_continuation = true;
                assert(self@.send_queue =~= old(self)@.send_queue.push(message@));
                self.settle();
                WriteStep::Finished(Ok(()))
            },
            WriteEvent::Failed => WriteStep::Finished(Err(ConnectionError::Io)),
        }
    }

    /// Drops the interest in writing, if there is nothing left to send.
    fn settle(&mut self)
        ensures
            final(self)@ == old(self)@.settled(),
    {
        if self.send_queue.len() == 0 {
            readiness::remove(&mut self.interest, readiness::writable());
            assert(self@.interest =~= old(self)@.interest.remove(Readiness::Writable));
        }
    }

    /// Queues a message for the peer and waits for the stream to be writable.
    pub fn send_message(&mut self, message: Arc<Vec<u8>>) -> (r: Result<(), ConnectionError>)
        ensures
            r is Ok,
            final(self)@ == old(self)@.queued(message@),
    {
        self.send_queue.push_back(message);
        assert(self@.send_queue =~= old(self)@.send_queue.push(message@));
        if !readiness::is_writable(&self.interest) {
            readiness::insert(&mut self.interest, readiness::writable());
        }
        assert(self@.interest =~= old(self)@.interest.insert(Readiness::Writable));
        Ok(())
    }

    /// Queues the handshake for an info hash and a peer id.
    pub fn send_handshake(&mut self, info_hash: &[u8], peer_id: String) -> (r: Result<
        (),
        ConnectionError,
    >)
        requires
            info_hash@.len() <= wire::HASH_LEN,
            encode_utf8(peer_id@).len() <= wire::HASH_LEN,
        ensures
            r is Ok,
            final(self)@ == old(self)@.queued(
                wire::handshake_bytes(info_hash@, encode_utf8(peer_id@)),
            ),
    {
        self.send_message(Arc::new(wire::handshake(info_hash, peer_id.as_str())))
    }

    /// Queues the message that tells the peer of interest in its pieces.
    pub fn send_interest(&mut self) -> (r: Result<(), ConnectionError>)
        ensures
            r is Ok,
            final(self)@ == old(self)@.queued(wire::control_bytes(2)),
    {
        self.send_message(Arc::new(wire::interested()))
    }

    /// Queues the request for `length` bytes of piece `idx` from `begin` on. Of each number the
    /// lower 32 bits are sent.
    pub fn send_piece_request(&mut self, idx: usize, begin: usize, length: usize) -> (r: Result<
        (),
        ConnectionError,
    >)
        ensures
            r is Ok,
            final(self)@ == old(self)@.queued(
                wire::request_bytes(low32(idx as int), low32(begin as int), low32(length as int)),
            ),
    {
        let request = wire::piece_request(
            (idx as u64 % 0x1_0000_0000) as u32,
            (begin as u64 % 0x1_0000_0000) as u32,
            (length as u64 % 0x1_0000_0000) as u32,
        );
        self.send_message(Arc::new(request))
    }

    /// Adds interest in reading and writing, and gives the set of events to register with the
    /// poller, and the options: edge-triggered, for one event. What came of it goes to
    /// [`Connection::registered`].
    pub fn register(&mut self) -> (r: (Ready, PollOpt))
        ensures
            final(self)@ == old(self)@.watching(),
            readiness::kinds_of(r.0) == final(self)@.interest,
            readiness::options_of(r.1) == one_event(),
    {
        readiness::insert(&mut self.interest, readiness::readable());
        readiness::insert(&mut self.interest, readiness::writable());
        assert(self@.interest =~= old(self)@.interest.insert(Readiness::Readable).insert(
            Readiness::Writable,
        ));
        self.reregister()
    }

    /// Gives the set of events to register with the poller anew, and the options: edge-triggered,
    /// for one event. What came of it goes to [`Connection::registered`].
    pub fn reregister(&self) -> (r: (Ready, PollOpt))
        ensures
            readiness::kinds_of(r.0) == self@.interest,
            readiness::options_of(r.1) == one_event(),
    {
        let options = readiness::both(readiness::edge(), readiness::oneshot());
        assert(readiness::options_of(options) =~= one_event());
        (self.interest, options)
    }

    /// Notes what came of a registration: a connection that the poller has accepted is not idle.
    pub fn registered(&mut self, accepted: bool)
        ensures
            final(self)@ == (ConnectionView {
                is_idle: old(self)@.is_idle && !accepted,
                ..old(self)@
            }),
    {
        if accepted {
            self.is_idle = false;
        }
    }

    /// Marks the connection as reset.
    pub fn mark_reset(&mut self)
        ensures
            final(self)@ == old(self)@.reset(),
    {
        self.is_reset = true;
    }

    /// Whether the connection is reset.
    pub fn is_reset(&self) -> (r: bool)
        ensures
            r == self@.is_reset,
    {
        self.is_reset
    }

    /// Marks the connection as idle: it has to be registered anew.
    pub fn mark_idle(&mut self)
        ensures
            final(self)@ == old(self)@.idle(),
    {
        self.is_idle = true;
    }

    /// Whether the connection is idle.
    pub fn is_idle(&self) -> (r: bool)
        ensures
            r == self@.is_idle,
    {
        self.is_idle
    }

    /// Marks the connection as one to remove.
    pub fn mark_to_be_removed(&mut self)
        ensures
            final(self)@ == (ConnectionView { is_to_be_removed: true, ..old(self)@ }),
    {
        self.is_to_be_removed = true;
    }

    /// Whether the connection is one to remove.
    pub fn is_to_be_removed(&self) -> (r: bool)
        ensures
            r == self@.is_to_be_removed,
    {
        self.is_to_be_removed
    }

    /// Notes that the handshake of the peer has come.
    pub fn mark_handshake_done(&mut self)
        ensures
            final(self)@ == (ConnectionView { handshake_done: true, ..old(self)@ }),
    {
        self.handshake_done = true;
    }

    /// Whether the handshake of the peer has come.
    pub fn is_handshake_done(&self) -> (r: bool)
        ensures
            r == self@.handshake_done,
    {
        self.handshake_done
    }

    /// Changes the token by which the poller knows the connection.
    pub(crate) fn set_token(&mut self, token: usize)
        ensures
            final(self)@ == (ConnectionView { token, ..old(self)@ }),
    {
        self.token = token;
    }

    /// Takes over the pieces that the peer has, as a bit field lists them.
    pub(crate) fn set_pieces(&mut self, field: &[u8])
        requires
            8 * field@.len() <= usize::MAX,
        ensures
            final(self)@ == (ConnectionView {
                piece_bitmap: bitfield::bits_of_bytes(field@),
                ..old(self)@
            }),
    {
        self.piece_bitmap = bitfield::bits_from_bytes(field);
    }
}

/// A handshake that comes in is read as a whole: its first byte, then all the others. From then on
/// messages are read.
pub proof fn law_handshake_read_back(
    conn: ConnectionView,
    info_hash: Seq<u8>,
    peer_id: Seq<u8>,
    prefix: Vec<u8>,
    body: Vec<u8>,
)
    requires
        !conn.handshake_done,
        conn.read_continuation is None,
        info_hash.len() <= wire::HASH_LEN,
        peer_id.len() <= wire::HASH_LEN,
        prefix@.len() == 1,
        prefix@ + body@ == wire::handshake_bytes(info_hash, peer_id),
    ensures
        ({
            let last = ReadEvent::Body { wanted: body@.len() as u64, got: Received::Data(body) };
            &&& conn.read_step(ReadEvent::Ready) == ReadStep::NeedPrefix(1)
            &&& conn.after_read(ReadEvent::Ready) == conn
            &&& conn.read_step(ReadEvent::Prefix(Received::Data(prefix))) == ReadStep::NeedBody(
                body@.len() as u64,
            )
            &&& conn.after_read(ReadEvent::Prefix(Received::Data(prefix))) == conn
            &&& conn.read_step(last) == ReadStep::Finished(Ok(Some(body)))
            &&& conn.after_read(last) == (ConnectionView { handshake_done: true, ..conn })
        }),
{
    wire::law_handshake_fields(info_hash, peer_id);
    assert((prefix@ + body@)[0] == prefix@[0]);
    assert((prefix@ + body@).len() == 1 + body@.len());
}

/// A message that comes in after the handshake is read as a whole: its length, then as many bytes
/// as that says. The connection is then as it was before.
pub proof fn law_message_read_back(conn: ConnectionView, prefix: Vec<u8>, body: Vec<u8>)
    requires
        conn.handshake_done,
        conn.read_continuation is None,
        0 < body@.len() <= u32::MAX,
        prefix@ == wire::be32(body@.len() as u32),
    ensures
        ({
            let last = ReadEvent::Body { wanted: body@.len() as u64, got: Received::Data(body) };
            &&& conn.read_step(ReadEvent::Ready) == ReadStep::NeedPrefix(4)
            &&& conn.after_read(ReadEvent::Ready) == conn
            &&& conn.read_step(ReadEvent::Prefix(Received::Data(prefix))) == ReadStep::NeedBody(
                body@.len() as u64,
            )
            &&& conn.after_read(ReadEvent::Prefix(Received::Data(prefix))) == conn
            &&& conn.read_step(last) == ReadStep::Finished(Ok(Some(body)))
            &&& conn.after_read(last) == conn
        }),
{
    wire::law_be32_read_back(body@.len() as u32, Seq::empty());
    assert(prefix@ + Seq::empty() =~= prefix@);
}

/// What a connection sends after the handshake can be read by a connection at the other end: the
/// interest in pieces and the request for a block, cut into the four bytes of their length and the
/// rest, are what reading by that length takes.
pub proof fn law_sent_messages_read_back(
    conn: ConnectionView,
    message: Seq<u8>,
    index: u32,
    begin: u32,
    length: u32,
    prefix: Vec<u8>,
    body: Vec<u8>,
)
    requires
        conn.handshake_done,
        conn.read_continuation is None,
        message == wire::control_bytes(2) || message == wire::request_bytes(index, begin, length),
        prefix@.len() == 4,
        prefix@ + body@ == message,
    ensures
        ({
            let last = ReadEvent::Body { wanted: body@.len() as u64, got: Received::Data(body) };
            &&& conn.read_step(ReadEvent::Ready) == ReadStep::NeedPrefix(4)
            &&& conn.read_step(ReadEvent::Prefix(Received::Data(prefix))) == ReadStep::NeedBody(
                body@.len() as u64,
            )
            &&& conn.read_step(last) == ReadStep::Finished(Ok(Some(body)))
            &&& conn.after_read(last) == conn
        }),
{
    assert(prefix@ =~= message.take(4));
    if message == wire::control_bytes(2) {
        assert(prefix@ =~= wire::be32(1));
    } else {
        assert(prefix@ =~= wire::be32(13));
    }
    assert(message.len() == 4 + body@.len());
    law_message_read_back(conn, prefix, body);
}

/// A message of which nothing could be read when its length was known is asked for again, with the
/// same length, when the connection is next readable. Once it has come, the connection is as it
/// would be if the read had not been interrupted.
pub proof fn law_interrupted_read_resumes(conn: ConnectionView, body: Vec<u8>)
    requires
        conn.read_continuation is None,
        0 < body@.len() <= u32::MAX,
    ensures
        ({
            let wanted = body@.len() as u64;
            let waiting = conn.after_read(ReadEvent::Body { wanted, got: Received::WouldBlock });
            &&& conn.read_step(ReadEvent::Body { wanted, got: Received::WouldBlock })
                == ReadStep::Finished(Ok(None))
            &&& waiting.read_step(ReadEvent::Ready) == ReadStep::NeedBody(wanted)
            &&& waiting.after_read(ReadEvent::Ready) == waiting
            &&& waiting.read_step(ReadEvent::Body { wanted, got: Received::Data(body) })
                == ReadStep::Finished(Ok(Some(body)))
            &&& waiting.after_read(ReadEvent::Body { wanted, got: Received::Data(body) }) == (
            ConnectionView { handshake_done: true, ..conn })
            &&& waiting.after_read(ReadEvent::Body { wanted, got: Received::Data(body) })
                == conn.after_read(ReadEvent::Body { wanted, got: Received::Data(body) })
        }),
{
}

/// A connection with something to send waits for its stream to be writable, whatever comes of a
/// write.
pub proof fn law_write_keeps_waiting(conn: ConnectionView, answer: WriteEvent)
    requires
        conn.inv(),
        conn.send_queue.len() > 0,
        !(answer is Ready),
    ensures
        conn.after_write(WriteEvent::Ready).inv(),
        conn.after_write(WriteEvent::Ready).after_write(answer).inv(),
{
}

/// Reading asks for a length that can be asked for: of at least one byte, and of at least 49 before
/// the handshake is done. What waits for more to read keeps that length.
pub proof fn law_read_asks_for_wanted(conn: ConnectionView, event: ReadEvent)
    requires
        conn.inv(),
        read_fits(conn, event),
        asked_for(conn, event),
    ensures
        conn.read_step(event) matches ReadStep::NeedBody(n) ==> conn.wants(n as int),
        conn.after_read(event).inv(),
{
}

/// A message that is read has at least one byte, and at least 49 before the handshake is done.
pub proof fn law_handshake_is_long(conn: ConnectionView, event: ReadEvent, message: Vec<u8>)
    requires
        read_fits(conn, event),
        asked_for(conn, event),
        conn.read_step(event) == ReadStep::Finished(Ok(Some(message))),
    ensures
        message@.len() > 0,
        !conn.handshake_done ==> message@.len() >= 49,
{
}

/// Interest in hang-ups is there from the start and is never dropped, interest in reading is there
/// from the registration on and is never dropped, and nothing makes a connection that is reset one
/// that is not.
pub proof fn law_interest_and_reset_are_kept(
    token: usize,
    conn: ConnectionView,
    message: Seq<u8>,
    read: ReadEvent,
    write: WriteEvent,
    pieces: Seq<bool>,
    accepted: bool,
)
    ensures
        ConnectionView::fresh(token).interest.contains(Readiness::Hup),
        conn.watching().interest.contains(Readiness::Readable),
        conn.kept_by(conn.queued(message)),
        conn.kept_by(conn.after_read(read)),
        conn.kept_by(conn.after_write(write)),
        conn.kept_by(conn.watching()),
        conn.kept_by(ConnectionView { is_idle: conn.is_idle && !accepted, ..conn }),
        conn.kept_by(conn.reset()),
        conn.kept_by(conn.idle()),
        conn.kept_by(ConnectionView { is_to_be_removed: true, ..conn }),
        conn.kept_by(ConnectionView { handshake_done: true, ..conn }),
        conn.kept_by(ConnectionView { piece_bitmap: pieces, ..conn }),
        conn.kept_by(ConnectionView { token, ..conn }),
{
}

/// A new connection has nothing to send, a message that is queued makes the connection wait for
/// its stream to be writable, and reads and registrations change nothing in this.
pub proof fn law_queued_waits(
    token: usize,
    conn: ConnectionView,
    message: Seq<u8>,
    event: ReadEvent,
)
    ensures
        ConnectionView::fresh(token).inv(),
        conn.inv() ==> conn.queued(message).inv(),
        conn.queued(message).interest.contains(Readiness::Writable),
        conn.queued(message).send_queue.last() == message,
        conn.inv() && asked_for(conn, event) ==> conn.after_read(event).inv(),
        conn.inv() ==> conn.watching().inv(),
{
}

impl ConnectionView {
    /// The connection after `n` messages were written.
    pub open spec fn after_sending(self, n: nat) -> ConnectionView
        decreases n,
    {
        if n == 0 {
            self
        } else {
            self.after_sending((n - 1) as nat).after_write(WriteEvent::Ready).after_write(
                WriteEvent::Wrote,
            )
        }
    }
}

/// Messages go out in the order in which they were queued. When the last one is out, the connection
/// does not wait for its stream to be writable any more.
pub proof fn law_messages_go_out_in_order(conn: ConnectionView, n: nat)
    requires
        n <= conn.send_queue.len(),
    ensures
        conn.after_sending(n).send_queue == conn.send_queue.skip(n as int),
        n < conn.send_queue.len() ==> conn.after_sending(n).send_queue[0]
            == conn.send_queue[n as int],
        0 < n == conn.send_queue.len() ==> !conn.after_sending(n).interest.contains(
            Readiness::Writable,
        ),
    decreases n,
{
    if n == 0 {
        assert(conn.send_queue.skip(0) =~= conn.send_queue);
    } else {
        law_messages_go_out_in_order(conn, (n - 1) as nat);
        assert(conn.send_queue.skip(n - 1).drop_first() =~= conn.send_queue.skip(n as int));
    }
}

/// A message that the stream does not take is not lost: it is queued again, behind the others. With
/// no others, the queue is as it was before.
pub proof fn law_blocked_write_loses_nothing(conn: ConnectionView, message: Arc<Vec<u8>>)
    requires
        conn.send_queue.len() > 0,
        message@ == conn.send_queue[0],
    ensures
        ({
            let after = conn.after_write(WriteEvent::Ready).after_write(
                WriteEvent::WouldBlock(message),
            );
            &&& after.send_queue.to_multiset() == conn.send_queue.to_multiset()
            &&& after.send_queue == conn.send_queue.skip(1).push(conn.send_queue[0])
            &&& after.interest == conn.interest
            &&& conn.send_queue.len() == 1 ==> after.send_queue == conn.send_queue
        }),
{
    broadcast use vstd::seq_lib::group_to_multiset_ensures;

    let queue = conn.send_queue;
    assert(queue.drop_first() =~= queue.skip(1));
    assert(queue =~= seq![queue[0]] + queue.skip(1));
    assert(queue.skip(1).push(queue[0]).to_multiset() =~= queue.skip(1).to_multiset().insert(
        queue[0],
    ));
    vstd::seq_lib::lemma_multiset_commutative(seq![queue[0]], queue.skip(1));
    vstd::seq_lib::lemma_multiset_commutative(queue.skip(1), seq![queue[0]]);
    assert(queue.skip(1).push(queue[0]) =~= queue.skip(1) + seq![queue[0]]);
    if queue.len() == 1 {
        assert(queue.skip(1).push(queue[0]) =~= queue);
    }
}

/// A message is never handed over short: what comes with a message is what was read, as many bytes
/// as were asked for. Fewer bytes are an error that changes nothing.
pub proof fn law_message_is_whole(
    conn: ConnectionView,
    event: ReadEvent,
    wanted: u64,
    bytes: Vec<u8>,
    message: Vec<u8>,
)
    ensures
        ({
            let body = ReadEvent::Body { wanted, got: Received::Data(bytes) };
            &&& bytes@.len() < wanted ==> conn.read_step(body) == ReadStep::Finished(
                Err(ConnectionError::ShortRead),
            ) && conn.after_read(body) == conn
            &&& bytes@.len() >= wanted ==> conn.read_step(body) == ReadStep::Finished(
                Ok(Some(bytes)),
            )
        }),
        conn.read_step(event) == ReadStep::Finished(Ok(Some(message))) ==> {
            &&& event matches ReadEvent::Body { wanted: asked, got: Received::Data(got) }
            &&& got == message
            &&& message@.len() >= asked
            &&& read_fits(conn, event) ==> message@.len() == asked
        },
{
}

/// A message that has come as a whole ends the wait for it and the handshake, and changes nothing
/// else of the connection.
pub proof fn law_message_ends_wait(conn: ConnectionView, wanted: u64, bytes: Vec<u8>)
    requires
        bytes@.len() >= wanted,
    ensures
        ({
            let after = conn.after_read(ReadEvent::Body { wanted, got: Received::Data(bytes) });
            &&& after.read_continuation is None
            &&& after.handshake_done
            &&& after.token == conn.token
            &&& after.interest == conn.interest
            &&& after.is_idle == conn.is_idle
            &&& after.is_reset == conn.is_reset
            &&& after.is_to_be_removed == conn.is_to_be_removed
            &&& after.send_queue == conn.send_queue
            &&& after.write_continuation == conn.write_continuation
            &&& after.piece_bitmap == conn.piece_bitmap
            &&& after.piece_buf == conn.piece_buf
        }),
{
}

/// A body that cannot be read yet leaves nothing but the number of bytes to read, and is no error;
/// a stream that fails is one, and leaves nothing.
pub proof fn law_body_that_does_not_come(conn: ConnectionView, wanted: u64)
    ensures
        ({
            let blocked = ReadEvent::Body { wanted, got: Received::WouldBlock };
            let failed = ReadEvent::Body { wanted, got: Received::Failed };
            &&& conn.read_step(blocked) == ReadStep::Finished(Ok(None))
            &&& wanted <= u32::MAX ==> conn.after_read(blocked).read_continuation == Some(
                wanted as u32,
            )
            &&& (ConnectionView {
                read_continuation: conn.read_continuation,
                ..conn.after_read(blocked)
            }) == conn
            &&& conn.read_step(failed) == ReadStep::Finished(Err(ConnectionError::Io))
            &&& conn.after_read(failed) == conn
        }),
{
}

/// The start of a read: a stored length is asked for as it is, and without one the prefix, of four
/// bytes after the handshake and of one before. The prefix tells how many bytes there are: as many
/// as its four bytes say, the most significant one first, or 48 more than its one byte says; none,
/// where it says zero. A prefix that is cut off is an error. Up to here the connection is as it
/// was.
pub proof fn law_read_begins(conn: ConnectionView, bytes: Vec<u8>)
    ensures
        ({
            let held = ReadEvent::Prefix(Received::Data(bytes));
            &&& conn.read_continuation is None && conn.handshake_done ==> conn.read_step(
                ReadEvent::Ready,
            ) == ReadStep::NeedPrefix(4)
            &&& conn.read_continuation is None && !conn.handshake_done ==> conn.read_step(
                ReadEvent::Ready,
            ) == ReadStep::NeedPrefix(1)
            &&& conn.read_continuation matches Some(n) ==> n > 0 ==> conn.read_step(
                ReadEvent::Ready,
            ) == ReadStep::NeedBody(n as u64)
            &&& conn.handshake_done && bytes@.len() < 4 ==> conn.read_step(held)
                == ReadStep::Finished(Err(ConnectionError::InvalidLength))
            &&& !conn.handshake_done && bytes@.len() < 1 ==> conn.read_step(held)
                == ReadStep::Finished(Err(ConnectionError::InvalidLength))
            &&& conn.handshake_done && bytes@.len() >= 4 ==> {
                let n = bytes@[0] * 0x100_0000 + bytes@[1] * 0x1_0000 + bytes@[2] * 0x100 + bytes@[3];
                &&& n == 0 ==> conn.read_step(held) == ReadStep::Finished(Ok(None))
                &&& n > 0 ==> conn.read_step(held) == ReadStep::NeedBody(n as u64)
            }
            &&& !conn.handshake_done && bytes@.len() >= 1 ==> {
                &&& bytes@[0] == 0 ==> conn.read_step(held) == ReadStep::Finished(Ok(None))
                &&& bytes@[0] > 0 ==> conn.read_step(held) == ReadStep::NeedBody(
                    (bytes@[0] + 48) as u64,
                )
            }
            &&& conn.read_step(ReadEvent::Prefix(Received::WouldBlock)) == ReadStep::Finished(
                Ok(None),
            )
            &&& conn.read_step(ReadEvent::Prefix(Received::Failed)) == ReadStep::Finished(
                Err(ConnectionError::Io),
            )
            &&& conn.after_read(ReadEvent::Ready) == conn
            &&& conn.after_read(held) == conn
            &&& conn.after_read(ReadEvent::Prefix(Received::WouldBlock)) == conn
            &&& conn.after_read(ReadEvent::Prefix(Received::Failed)) == conn
        }),
{
}

/// The length of a message, as it is found on its own, is the one that a read goes on with.
pub proof fn law_length_found(conn: ConnectionView, bytes: Vec<u8>)
    ensures
        conn.read_continuation matches Some(n) ==> {
            &&& conn.length_step(None) == Ok::<LengthStep, ConnectionError>(LengthStep::Stored(n))
            &&& conn.length_step(Some(Received::Data(bytes))) == conn.length_step(None)
            &&& conn.length_step(Some(Received::WouldBlock)) == conn.length_step(None)
            &&& conn.length_step(Some(Received::Failed)) == conn.length_step(None)
        },
        conn.read_continuation is None ==> {
            let held = conn.length_step(Some(Received::Data(bytes)));
            let step = conn.read_step(ReadEvent::Prefix(Received::Data(bytes)));
            &&& conn.length_step(None) == Ok::<LengthStep, ConnectionError>(
                LengthStep::NeedPrefix(conn.read_step(ReadEvent::Ready)->NeedPrefix_0),
            )
            &&& held matches Err(e) ==> step == ReadStep::Finished(Err(e))
            &&& held matches Ok(LengthStep::Held(n)) ==> {
                &&& n == 0 ==> step == ReadStep::Finished(Ok(None))
                &&& n > 0 && conn.handshake_done ==> step == ReadStep::NeedBody(n as u64)
                &&& n > 0 && !conn.handshake_done ==> step == ReadStep::NeedBody((n + 48) as u64)
            }
            &&& held is Ok ==> held->Ok_0 is Held
            &&& conn.length_step(Some(Received::WouldBlock)) == Ok::<LengthStep, ConnectionError>(
                LengthStep::Nothing,
            )
            &&& conn.length_step(Some(Received::Failed)) == Err::<LengthStep, ConnectionError>(
                ConnectionError::Io,
            )
        },
{
}

/// What comes of a write: the oldest message leaves the queue to be written, once it is out nothing
/// but the interest in writing can change, and that is dropped only with an empty queue. Writing
/// with an empty queue and a stream that fails are errors that change nothing.
pub proof fn law_write_steps(conn: ConnectionView, message: Arc<Vec<u8>>)
    ensures
        ({
            let ready = conn.after_write(WriteEvent::Ready);
            let wrote = conn.after_write(WriteEvent::Wrote);
            let blocked = conn.after_write(WriteEvent::WouldBlock(message));
            &&& conn.send_queue.len() == 0 ==> ready == conn && conn.write_result(WriteEvent::Ready)
                == Some(Err::<(), _>(ConnectionError::EmptyQueue))
            &&& conn.send_queue.len() > 0 ==> conn.write_result(WriteEvent::Ready) is None
                && seq![conn.send_queue[0]] + ready.send_queue == conn.send_queue && (
            ConnectionView { send_queue: conn.send_queue, ..ready }) == conn
            &&& conn.write_result(WriteEvent::Wrote) == Some(Ok::<(), ConnectionError>(()))
            &&& !wrote.write_continuation
            &&& (ConnectionView {
                write_continuation: conn.write_continuation,
                interest: conn.interest,
                ..wrote
            }) == conn
            &&& conn.send_queue.len() > 0 ==> wrote.interest == conn.interest
            &&& conn.send_queue.len() == 0 ==> !wrote.interest.contains(Readiness::Writable)
            &&& forall|kind: Readiness| !(kind is Writable) ==> (#[trigger] wrote.interest.contains(
                kind,
            ) <==> conn.interest.contains(kind))
            &&& conn.write_result(WriteEvent::WouldBlock(message)) == Some(
                Ok::<(), ConnectionError>(()),
            )
            &&& blocked.write_continuation
            &&& blocked.send_queue.len() == conn.send_queue.len() + 1
            &&& blocked.send_queue.last() == message@
            &&& blocked.send_queue.drop_last() == conn.send_queue
            &&& (ConnectionView {
                write_continuation: conn.write_continuation,
                send_queue: conn.send_queue,
                ..blocked
            }) == conn
            &&& conn.write_result(WriteEvent::Failed) == Some(Err::<(), _>(ConnectionError::Io))
            &&& conn.after_write(WriteEvent::Failed) == conn
        }),
{
    let ready = conn.after_write(WriteEvent::Ready);
    let blocked = conn.after_write(WriteEvent::WouldBlock(message));
    if conn.send_queue.len() > 0 {
        assert(seq![conn.send_queue[0]] + ready.send_queue =~= conn.send_queue);
    }
    assert(blocked.send_queue.drop_last() =~= conn.send_queue);
}

/// A queued message comes behind the others and adds the interest in writing, and nothing else
/// changes. To be registered adds the interest in reading and writing, a mark sets that mark, and
/// nothing else changes.
pub proof fn law_changes_are_single(conn: ConnectionView, message: Seq<u8>, kind: Readiness)
    ensures
        conn.queued(message).send_queue.len() == conn.send_queue.len() + 1,
        conn.queued(message).send_queue.last() == message,
        conn.queued(message).send_queue.drop_last() == conn.send_queue,
        conn.queued(message).interest.contains(kind) <==> kind is Writable
            || conn.interest.contains(kind),
        (ConnectionView {
            send_queue: conn.send_queue,
            interest: conn.interest,
            ..conn.queued(message)
        }) == conn,
        conn.watching().interest.contains(kind) <==> kind is Writable || kind is Readable
            || conn.interest.contains(kind),
        (ConnectionView { interest: conn.interest, ..conn.watching() }) == conn,
        conn.reset().is_reset,
        (ConnectionView { is_reset: conn.is_reset, ..conn.reset() }) == conn,
        conn.idle().is_idle,
        (ConnectionView { is_idle: conn.is_idle, ..conn.idle() }) == conn,
{
    assert(conn.queued(message).send_queue.drop_last() =~= conn.send_queue);
}

/// A new connection has the token that it was made with, is idle, waits for its stream to hang up
/// and for nothing else, and has neither read nor anything to send.
pub proof fn law_new_connection(token: usize, kind: Readiness)
    ensures
        ({
            let conn = ConnectionView::fresh(token);
            &&& conn.token == token
            &&& conn.interest.contains(kind) <==> kind is Hup
            &&& conn.is_idle
            &&& !conn.is_reset
            &&& !conn.is_to_be_removed
            &&& !conn.handshake_done
            &&& conn.read_continuation is None
            &&& conn.send_queue.len() == 0
            &&& !conn.write_continuation
            &&& conn.piece_bitmap.len() == 0
            &&& conn.piece_buf.len() == 0
        }),
{
}

/// The lower 32 bits of a number are what is left of it by 2^32: a smaller number is its own.
pub proof fn law_low32(n: int, k: int)
    requires
        0 <= n < 0x1_0000_0000,
        k >= 0,
    ensures
        low32(n) == n,
        low32(n + k * 0x1_0000_0000) == n,
{
    assert((n + k * 0x1_0000_0000) % 0x1_0000_0000 == n);
}

/// A connection is registered for one event at a time, when it comes up.
pub proof fn law_one_event(option: PollOption)
    ensures
        one_event().contains(option) <==> option is Edge || option is Oneshot,
{
}

/// What is said of a connection is said of the parts that its users see: its token, the pieces of
/// the peer and what has been read of a piece.
proof fn law_parts_of_connection(conn: Connection)
    ensures
        conn@.token == conn.token,
        conn@.piece_bitmap == bitfield::bits_of(conn.piece_bitmap),
        conn@.piece_buf == conn.piece_buf@,
{
}

} // verus!
