//! A torrent: its metainfo, what is known of its pieces, the peers that its tracker has named, and
//! the connections to them. Polling, sockets and the tracker stay with the caller, who performs
//! what each step asks for and hands back what came of it.

use std::sync::Arc;

use mio::{PollOpt, Ready};
use slab::Slab;
use vstd::prelude::*;
use vstd::slice::*;
use vstd::string::*;
use vstd::utf8::*;

use crate::bitfield;
use crate::connection::{
    asked_for, law_read_asks_for_wanted, low32, one_event, read_fits, share, Connection,
    ConnectionError, ConnectionView, ReadEvent, ReadStep, Received,
};
use crate::metainfo;
use crate::metainfo::{
    metainfo_of, FileT, FileTView, Metainfo, MetainfoError, MetainfoView,
};
use crate::readiness;
use crate::readiness::{PollOption, Readiness};
use crate::slots;
use crate::text;
use crate::tracker;
use crate::tracker::{
    AnnounceError, EntryView, PeerAddr, ReplyError, TrackerInfo, TrackerInfoView, TrackerRequest,
    TrackerRequestView,
};
use crate::wire;
use crate::wire::MessageKind;

verus! {

/// The token by which the poller knows the queue of commands. It is far above the tokens of
/// connections.
pub const SERVER: usize = 10_000_000;

/// Number of connections that a torrent can have at a time.
pub const MAX_CONNS: usize = 128;

/// What a torrent can be told to do.
#[derive(Clone, Copy, Debug, PartialEq, Eq, Structural)]
pub enum Command {
    ListFiles,
    StartDownload,
    StartSeed,
    StopDownload,
    StopSeed,
    Exit,
}

/// A torrent.
pub struct Torrent {
    metainfo: Metainfo,
    root_name: String,
    peer_id: String,
    port: u16,
    piece_bitmap: bit_vec::BitVec,
    block_bitmap: Vec<bit_vec::BitVec>,
    files: Vec<FileT>,
    piece_nxt_req: usize,
    uploaded: usize,
    downloaded: usize,
    left: usize,
    num_seeders: usize,
    num_leachers: usize,
    tracker_info: TrackerInfo,
    conns: Slab<Connection, usize>,
    token: usize,
}

/// What a torrent is, in mathematical terms.
pub struct TorrentView {
    pub metainfo: MetainfoView,
    pub root_name: Seq<char>,
    pub peer_id: Seq<char>,
    pub port: u16,
    pub piece_bitmap: Seq<bool>,
    pub block_bitmap: Seq<Seq<bool>>,
    pub files: Seq<FileTView>,
    pub piece_nxt_req: usize,
    pub uploaded: usize,
    pub downloaded: usize,
    pub left: usize,
    pub num_seeders: usize,
    pub num_leachers: usize,
    pub tracker_info: TrackerInfoView,
    pub conns: Map<usize, ConnectionView>,
    pub token: usize,
}

impl TorrentView {
    /// A torrent that was just made: no piece is there, no file is placed, no peer is known.
    pub open spec fn fresh(metainfo: MetainfoView, peer_id: Seq<char>, port: u16) -> TorrentView {
        TorrentView {
            metainfo,
            root_name: metainfo.root_name(),
            peer_id,
            port,
            piece_bitmap: Seq::new(metainfo.piece_count as nat, |i: int| false),
            block_bitmap: Seq::empty(),
            files: Seq::empty(),
            piece_nxt_req: 0,
            uploaded: 0,
            downloaded: 0,
            left: metainfo.total_size() as usize,
            num_seeders: 0,
            num_leachers: 0,
            tracker_info: TrackerInfoView::blank(),
            conns: slots::no_conns(),
            token: SERVER,
        }
    }

    /// The torrent with its files placed among the pieces, and with a map of the blocks, of which
    /// none is there.
    pub open spec fn laid_out(self) -> TorrentView {
        TorrentView {
            block_bitmap: Seq::new(
                self.metainfo.block_count() as nat,
                |i: int| Seq::new(wire::BLOCK_SZ as nat, |j: int| false),
            ),
            files: Seq::new(self.metainfo.files.len(), |i: int| self.metainfo.placed(i)),
            ..self
        }
    }

    /// What the bytes of a metainfo file say, with the overview of it, or why they are of no use.
    pub open spec fn reading(bytes: Seq<u8>) -> Result<(MetainfoView, Seq<char>), MetainfoError> {
        match metainfo_of(bytes) {
            None => Err(MetainfoError::Malformed),
            Some(m) => if !m.usable() {
                Err(MetainfoError::Unusable)
            } else {
                match m.dated_overview() {
                    Some(overview) => Ok((m, overview)),
                    None => Err(MetainfoError::DateOutOfRange),
                }
            },
        }
    }

    /// What the bytes of a metainfo file say, with the overview of it, or why no torrent can be
    /// tracked by them.
    pub open spec fn reading_to_track(bytes: Seq<u8>) -> Result<
        (MetainfoView, Seq<char>),
        MetainfoError,
    > {
        match TorrentView::reading(bytes) {
            Ok((m, overview)) => if m.placeable() {
                Ok((m, overview))
            } else {
                Err(MetainfoError::Unusable)
            },
            Err(e) => Err(e),
        }
    }

    /// What holds of a torrent at all times. Each connection is known to the poller by the index
    /// that it has among the connections, and the queue of commands by none of these. A connection
    /// with something to send waits for its stream to be writable.
    pub open spec fn inv(self) -> bool {
        &&& self.metainfo.usable()
        &&& encode_utf8(self.peer_id).len() <= wire::HASH_LEN
        &&& self.piece_bitmap.len() == self.metainfo.piece_count
        &&& self.block_bitmap.len() == 0 || self.block_bitmap.len() == self.metainfo.block_count()
        &&& forall|i: int|
            0 <= i < self.block_bitmap.len() ==> (#[trigger] self.block_bitmap[i]).len()
                == wire::BLOCK_SZ
        &&& self.files.len() == 0 || self.files.len() == self.metainfo.files.len()
        &&& self.token == SERVER
        &&& self.conns.dom().finite()
        &&& forall|t: usize| #[trigger]
            self.conns.dom().contains(t) ==> t < MAX_CONNS && self.conns[t].token == t
                && self.conns[t].inv()
    }

    /// The torrent with a connection put at a token.
    pub open spec fn with_conn(self, token: usize, conn: ConnectionView) -> TorrentView {
        TorrentView { conns: self.conns.insert(token, conn), ..self }
    }

    /// What comes of the attempt to tell the tracker that the download starts.
    pub open spec fn announced(self, r: Result<String, AnnounceError>) -> bool {
        match self.metainfo.main_tracker {
            None => r == Err::<String, _>(AnnounceError::NoTracker),
            Some(url) => tracker::announces(url, self.request(), r),
        }
    }

    /// Whether another torrent is this one after its tracker has listed peers as `bytes`.
    pub open spec fn told_of_peers(self, bytes: Seq<u8>, other: TorrentView) -> bool {
        exists|addresses: Seq<PeerAddr>| #[trigger]
            tracker::lists_addresses(bytes, addresses) && other == (TorrentView {
                tracker_info: TrackerInfoView::reply(addresses),
                ..self
            })
    }

    /// The number of the next piece to request, or `None` when the numbers are used up.
    pub open spec fn piece_num(self) -> Option<usize> {
        if self.piece_nxt_req <= self.metainfo.piece_count {
            Some(self.piece_nxt_req)
        } else {
            None
        }
    }

    /// The torrent after the number of the next piece was given out.
    pub open spec fn after_piece_num(self) -> TorrentView {
        match self.piece_num() {
            Some(n) => TorrentView { piece_nxt_req: (n + 1) as usize, ..self },
            None => self,
        }
    }

    /// The torrent after numbers of pieces were asked for `k` times.
    pub open spec fn after_piece_nums(self, k: nat) -> TorrentView
        decreases k,
    {
        if k == 0 {
            self
        } else {
            self.after_piece_nums((k - 1) as nat).after_piece_num()
        }
    }

    /// What the torrent tells its tracker.
    pub open spec fn request(self) -> TrackerRequestView {
        TrackerRequestView {
            info_hash: self.metainfo.info_hash,
            peer_id: self.peer_id,
            port: self.port,
            uploaded: self.uploaded,
            downloaded: self.downloaded,
            left: self.left,
        }
    }
}

impl View for Torrent {
    type V = TorrentView;

    closed spec fn view(&self) -> TorrentView {
        TorrentView {
            metainfo: self.metainfo@,
            root_name: self.root_name@,
            peer_id: self.peer_id@,
            port: self.port,
            piece_bitmap: bitfield::bits_of(self.piece_bitmap),
            block_bitmap: self.block_bitmap@.map_values(
                |b: bit_vec::BitVec| bitfield::bits_of(b),
            ),
            files: self.files@.map_values(|f: FileT| f@),
            piece_nxt_req: self.piece_nxt_req,
            uploaded: self.uploaded,
            downloaded: self.downloaded,
            left: self.left,
            num_seeders: self.num_seeders,
            num_leachers: self.num_leachers,
            tracker_info: self.tracker_info@,
            conns: slots::conns_of(self.conns),
            token: self.token,
        }
    }
}

impl Torrent {
    /// What holds of a torrent at all times.
    pub open spec fn wf(&self) -> bool {
        &&& self@.inv()
        &&& self.has_slots()
    }

    /// Whether the slab of connections has the size that it was made with.
    pub closed spec fn has_slots(&self) -> bool {
        slots::slots_of(self.conns) == MAX_CONNS
    }

    /// Makes the torrent that a metainfo file describes.
    pub fn from_metainfo(metainfo: Metainfo, peer_id: String, port: u16) -> (r: Torrent)
        requires
            metainfo@.usable(),
            encode_utf8(peer_id@).len() <= wire::HASH_LEN,
        ensures
            r.wf(),
            r@ == TorrentView::fresh(metainfo@, peer_id@, port),
    {
        let root_name = metainfo.root_name();
        let piece_bitmap = bitfield::repeated_bits(metainfo.piece_count, false);
        let left_bytes: i64 = metainfo.total_size();
        let r = Torrent {
            metainfo,
            root_name,
            peer_id,
            port,
            piece_bitmap,
            block_bitmap: Vec::new(),
            files: Vec::new(),
            piece_nxt_req: 0,
            uploaded: 0,
            downloaded: 0,
            left: left_bytes as usize,
            num_seeders: 0,
            num_leachers: 0,
            tracker_info: TrackerInfo::new(),
            conns: slots::with_capacity(MAX_CONNS),
            token: SERVER,
        };
        proof {
            let fresh = TorrentView::fresh(metainfo@, peer_id@, port);
            assert(r@.piece_bitmap =~= fresh.piece_bitmap);
            assert(r@.block_bitmap =~= fresh.block_bitmap);
            assert(r@.files =~= fresh.files);
        }
        r
    }

    /// Whether the files have a place among the pieces, and the blocks can be counted.
    pub fn placeable(&self) -> (r: bool)
        ensures
            r == self@.metainfo.placeable(),
    {
        self.metainfo.placeable()
    }

    /// Places the files among the pieces, and makes the map of the blocks.
    pub fn lay_out(&mut self)
        requires
            old(self).wf(),
            old(self)@.metainfo.placeable(),
        ensures
            final(self).wf(),
            final(self)@ == old(self)@.laid_out(),
    {
        let total_blocks: usize = self.metainfo.block_count();
        let mut block_bitmap: Vec<bit_vec::BitVec> = Vec::new();
        let ghost empty_block: Seq<bool> = Seq::new(wire::BLOCK_SZ as nat, |j: int| false);
        let mut i: usize = 0;
        while i < total_blocks
            invariant
                i <= total_blocks,
                block_bitmap@.len() == i,
                empty_block == Seq::new(wire::BLOCK_SZ as nat, |j: int| false),
                forall|k: int| 0 <= k < i ==> bitfield::bits_of(#[trigger] block_bitmap@[k])
                    == empty_block,
            decreases total_blocks - i,
        {
            let block = bitfield::repeated_bits(wire::BLOCK_SZ, false);
            assert(bitfield::bits_of(block) =~= empty_block);
            block_bitmap.push(block);
            i = i + 1;
        }
        self.block_bitmap = block_bitmap;
        self.files = self.metainfo.layout();
        assert(self@.block_bitmap =~= old(self)@.laid_out().block_bitmap);
        assert(self@.files =~= old(self)@.laid_out().files);
    }

    /// Makes the torrent that the bytes of a metainfo file describe, and the overview of it.
    pub fn new(bytes: &Vec<u8>, peer_id: String, port: u16) -> (r: Result<
        (Torrent, String),
        MetainfoError,
    >)
        requires
            encode_utf8(peer_id@).len() <= wire::HASH_LEN,
        ensures
            match TorrentView::reading(bytes@) {
                Ok((m, overview)) => r matches Ok((t, shown)) && t.wf() && t@
                    == TorrentView::fresh(m, peer_id@, port) && shown@ == overview,
                Err(e) => r == Err::<(Torrent, String), _>(e),
            },
    {
        match Metainfo::from_bytes(bytes) {
            Err(e) => Err(e),
            Ok(metainfo) => {
                if !metainfo.usable() {
                    return Err(MetainfoError::Unusable);
                }
                match metainfo.overview() {
                    Some(shown) => Ok((Torrent::from_metainfo(metainfo, peer_id, port), shown)),
                    None => Err(MetainfoError::DateOutOfRange),
                }
            },
        }
    }
}

impl Torrent {
    /// The name of the torrent.
    pub fn root_name(&self) -> (r: String)
        ensures
            r@ == self@.root_name,
    {
        self.root_name.clone()
    }

    /// The token, the events and the options to register the queue of commands with the poller:
    /// for reading, edge-triggered.
    pub fn register(&self) -> (r: (usize, Ready, PollOpt))
        ensures
            r.0 == self@.token,
            readiness::kinds_of(r.1) == set![Readiness::Readable],
            readiness::options_of(r.2) == set![PollOption::Edge],
    {
        let interest = readiness::readable();
        assert(readiness::kinds_of(interest) =~= set![Readiness::Readable]);
        let options = readiness::edge();
        assert(readiness::options_of(options) =~= set![PollOption::Edge]);
        (self.token, interest, options)
    }

    /// The names of the files, which are to be created before a download.
    pub fn file_names(&self) -> (r: Vec<String>)
        ensures
            text::texts(r@) == self@.files.map_values(|f: FileTView| f.name),
    {
        let mut names: Vec<String> = Vec::new();
        let mut i: usize = 0;
        while i < self.files.len()
            invariant
                i <= self.files@.len(),
                names@.len() == i,
                forall|k: int| 0 <= k < i ==> (#[trigger] names@[k])@ == self.files@[k].name@,
            decreases self.files@.len() - i,
        {
            names.push(self.files[i].name.clone());
            i = i + 1;
        }
        assert(text::texts(names@) =~= self@.files.map_values(|f: FileTView| f.name));
        names
    }

    /// The URL by which the tracker is told that the download starts.
    pub fn announce_url(&self) -> (r: Result<String, AnnounceError>)
        ensures
            self@.announced(r),
    {
        match &self.metainfo.main_tracker {
            None => Err(AnnounceError::NoTracker),
            Some(url) => tracker::announce_url(
                url.as_str(),
                TrackerRequest {
                    info_hash: self.metainfo.info_hash.as_slice(),
                    peer_id: self.peer_id.as_str(),
                    port: self.port,
                    uploaded: self.uploaded,
                    downloaded: self.downloaded,
                    left: self.left,
                },
            ),
        }
    }

    /// Takes over what the tracker has replied. A reply of no use changes nothing.
    pub fn contact_tracker(&mut self, reply: &[u8]) -> (r: Result<(), ReplyError>)
        requires
            old(self).wf(),
        ensures
            final(self).wf(),
            match tracker::reply_fault(
                tracker::bencode_entry(reply@, "peers"@),
                tracker::bencode_entry(reply@, "interval"@),
            ) {
                Some(fault) => r == Err::<(), _>(fault) && final(self)@ == old(self)@,
                None => r is Ok && (tracker::bencode_entry(reply@, "peers"@) matches Some(
                    EntryView::Bytes(bytes),
                ) && old(self)@.told_of_peers(bytes, final(self)@)),
            },
    {
        let addresses = match tracker::peers_of_reply(reply) {
            Ok(addresses) => addresses,
            Err(fault) => return Err(fault),
        };
        self.take_peers(&addresses);
        Ok(())
    }

    /// Takes over the addresses of the peers that the tracker has named.
    pub fn take_peers(&mut self, addresses: &Vec<PeerAddr>)
        requires
            old(self).wf(),
        ensures
            final(self).wf(),
            final(self)@ == (TorrentView {
                tracker_info: TrackerInfoView::reply(addresses@),
                ..old(self)@
            }),
    {
        self.tracker_info = TrackerInfo::from_addresses(addresses);
    }

    /// The number of the first part of a block that is not there yet.
    pub fn get_block_num(&self, piece_num: usize) -> (r: Result<usize, String>)
        requires
            self.wf(),
            piece_num < self@.block_bitmap.len(),
            self@.block_bitmap[piece_num as int].contains(false),
        ensures
            r matches Ok(pos) && pos < self@.block_bitmap[piece_num as int].len()
                && !self@.block_bitmap[piece_num as int][pos as int] && (forall|k: int|
                0 <= k < pos ==> #[trigger] self@.block_bitmap[piece_num as int][k]),
    {
        let block = &self.block_bitmap[piece_num];
        let ghost bits = bitfield::bits_of(*block);
        assert(bits == self@.block_bitmap[piece_num as int]);
        let mut pos: usize = 0;
        loop
            invariant
                bits == bitfield::bits_of(*block),
                bits == self@.block_bitmap[piece_num as int],
                bits.contains(false),
                bits.len() == wire::BLOCK_SZ,
                pos <= bits.len(),
                forall|k: int| 0 <= k < pos ==> #[trigger] bits[k],
            decreases bits.len() - pos,
        {
            proof {
                let at = choose|k: int| 0 <= k < bits.len() && bits[k] == false;
                assert(pos <= at);
            }
            match bitfield::bit_at(block, pos) {
                Some(true) => {
                    pos = pos + 1;
                },
                _ => {
                    return Ok(pos);
                },
            }
        }
    }

    /// The number of the next piece to request. Numbers are given out in ascending order.
    pub fn get_piece_num(&mut self) -> (r: Result<usize, String>)
        requires
            old(self).wf(),
            old(self)@.piece_num() is Some ==> old(self)@.piece_nxt_req < usize::MAX,
        ensures
            final(self).wf(),
            final(self)@ == old(self)@.after_piece_num(),
            match old(self)@.piece_num() {
                Some(n) => r == Ok::<usize, String>(n),
                None => r matches Err(e) && e@ == "No more pieces to request!"@,
            },
    {
        if self.piece_nxt_req <= self.metainfo.piece_count {
            let piece_num: usize = self.piece_nxt_req;
            self.piece_nxt_req = piece_num + 1;
            Ok(piece_num)
        } else {
            Err("No more pieces to request!".to_owned())
        }
    }

    /// Whether there is a connection with this token.
    pub fn has_connection(&self, token: usize) -> (r: bool)
        ensures
            r == self@.conns.dom().contains(token),
    {
        slots::contains(&self.conns, token)
    }

    /// The connection with this token.
    pub fn find_connection_by_token(&mut self, token: usize) -> (r: &mut Connection)
        requires
            old(self).wf(),
            old(self)@.conns.dom().contains(token),
        ensures
            (*r)@ == old(self)@.conns[token],
            final(self)@ == old(self)@.with_conn(token, (*final(r))@),
            (*final(r))@.token == token && (*final(r))@.inv() ==> final(self).wf(),
    {
        slots::at_mut(&mut self.conns, token)
    }
}

/// What is to be done for an event of the poller.
#[derive(Clone, Copy, Debug, PartialEq, Eq, Structural)]
pub enum ReadyStep {
    /// Nothing more.
    Done,
    /// The peer has closed the connection; nothing more.
    HungUp,
    /// Carry out [`Connection::writable`], then call [`Torrent::ready_after_write`].
    Write,
    /// Carry out [`Torrent::readable`], then call [`Torrent::ready_after_read`].
    Read,
    /// Take a command from the queue and hand it to [`Torrent::accept_cmd`].
    AcceptCommand,
}

impl TorrentView {
    /// Whether an event can come up: one for a connection that there is, or a readable queue of
    /// commands.
    pub open spec fn takes(self, token: usize, kinds: Set<Readiness>) -> bool {
        if token == self.token {
            &&& !kinds.contains(Readiness::Error)
            &&& !kinds.contains(Readiness::Hup)
            &&& !kinds.contains(Readiness::Writable)
        } else {
            self.conns.dom().contains(token)
        }
    }

    /// The torrent after it was told of an event.
    pub open spec fn after_ready(self, token: usize, kinds: Set<Readiness>) -> TorrentView {
        if kinds.contains(Readiness::Error) || kinds.contains(Readiness::Hup) {
            self.with_conn(token, self.conns[token].reset())
        } else if kinds.contains(Readiness::Writable) {
            self
        } else {
            self.after_writing(token, kinds)
        }
    }

    /// What is to be done first for an event.
    pub open spec fn ready_step(self, token: usize, kinds: Set<Readiness>) -> ReadyStep {
        if kinds.contains(Readiness::Error) {
            ReadyStep::Done
        } else if kinds.contains(Readiness::Hup) {
            ReadyStep::HungUp
        } else if kinds.contains(Readiness::Writable) {
            if self.conns[token].is_reset {
                ReadyStep::Done
            } else {
                ReadyStep::Write
            }
        } else {
            self.reading_step(token, kinds)
        }
    }

    /// The torrent once an event needs no write any more. A connection that is not to be read is
    /// idle then.
    pub open spec fn after_writing(self, token: usize, kinds: Set<Readiness>) -> TorrentView {
        if token != self.token && !kinds.contains(Readiness::Readable) {
            self.with_conn(token, self.conns[token].idle())
        } else {
            self
        }
    }

    /// What is to be done once an event needs no write any more.
    pub open spec fn reading_step(self, token: usize, kinds: Set<Readiness>) -> ReadyStep {
        if !kinds.contains(Readiness::Readable) {
            ReadyStep::Done
        } else if token == self.token {
            ReadyStep::AcceptCommand
        } else if self.conns[token].is_reset {
            ReadyStep::Done
        } else {
            ReadyStep::Read
        }
    }

    /// The torrent, with the connection marked as reset unless all went well.
    pub open spec fn unless_ok(self, token: usize, ok: bool) -> TorrentView {
        if ok {
            self
        } else {
            self.with_conn(token, self.conns[token].reset())
        }
    }
}

impl Torrent {
    /// Whether an event can come up: one for a connection that there is, or a readable queue of
    /// commands.
    pub fn takes(&self, token: usize, event: Ready) -> (r: bool)
        requires
            self.wf(),
        ensures
            r == self@.takes(token, readiness::kinds_of(event)),
    {
        if token == self.token {
            !readiness::is_error(&event) && !readiness::is_hup(&event)
                && !readiness::is_writable(&event)
        } else {
            self.has_connection(token)
        }
    }

    /// Handles an event of the poller. A connection that is reset is neither read nor written.
    pub fn ready(&mut self, token: usize, event: Ready) -> (step: ReadyStep)
        requires
            old(self).wf(),
            old(self)@.takes(token, readiness::kinds_of(event)),
        ensures
            final(self).wf(),
            final(self)@ == old(self)@.after_ready(token, readiness::kinds_of(event)),
            step == old(self)@.ready_step(token, readiness::kinds_of(event)),
    {
        if readiness::is_error(&event) {
            self.find_connection_by_token(token).mark_reset();
            return ReadyStep::Done;
        }
        if readiness::is_hup(&event) {
            self.find_connection_by_token(token).mark_reset();
            return ReadyStep::HungUp;
        }
        if readiness::is_writable(&event) {
            return if slots::at(&self.conns, token).is_reset() {
                ReadyStep::Done
            } else {
                ReadyStep::Write
            };
        }
        self.go_on_reading(token, event)
    }

    /// Goes on with an event after a connection was written. One that could not be written is
    /// reset.
    pub fn ready_after_write(&mut self, token: usize, event: Ready, ok: bool) -> (step: ReadyStep)
        requires
            old(self).wf(),
            old(self)@.conns.dom().contains(token),
        ensures
            final(self).wf(),
            final(self)@ == old(self)@.unless_ok(token, ok).after_writing(
                token,
                readiness::kinds_of(event),
            ),
            step == old(self)@.unless_ok(token, ok).reading_step(
                token,
                readiness::kinds_of(event),
            ),
    {
        if !ok {
            self.find_connection_by_token(token).mark_reset();
        }
        self.go_on_reading(token, event)
    }

    /// Goes on with an event after a connection was read: it is idle. One that could not be read
    /// is reset.
    pub fn ready_after_read(&mut self, token: usize, ok: bool)
        requires
            old(self).wf(),
            old(self)@.conns.dom().contains(token),
        ensures
            final(self).wf(),
            final(self)@ == old(self)@.with_conn(
                token,
                old(self)@.unless_ok(token, ok).conns[token].idle(),
            ),
    {
        if !ok {
            self.find_connection_by_token(token).mark_reset();
        }
        self.find_connection_by_token(token).mark_idle();
        assert(self@.conns =~= old(self)@.conns.insert(
            token,
            old(self)@.unless_ok(token, ok).conns[token].idle(),
        ));
    }

    /// Goes on with an event that needs no write any more.
    fn go_on_reading(&mut self, token: usize, event: Ready) -> (step: ReadyStep)
        requires
            old(self).wf(),
            token != SERVER ==> old(self)@.conns.dom().contains(token),
        ensures
            final(self).wf(),
            final(self)@ == old(self)@.after_writing(token, readiness::kinds_of(event)),
            step == old(self)@.reading_step(token, readiness::kinds_of(event)),
    {
        if readiness::is_readable(&event) {
            if token == self.token {
                ReadyStep::AcceptCommand
            } else if slots::at(&self.conns, token).is_reset() {
                ReadyStep::Done
            } else {
                ReadyStep::Read
            }
        } else {
            if token != self.token {
                self.find_connection_by_token(token).mark_idle();
            }
            ReadyStep::Done
        }
    }
}

/// What reading a connection asks for next.
#[derive(Debug)]
pub enum TorrentReadStep {
    /// Read at most this many bytes and answer with [`ReadEvent::Prefix`].
    NeedPrefix(usize),
    /// Read at most this many bytes and answer with [`ReadEvent::Body`].
    NeedBody(u64),
    /// This message has come; go on with [`ReadEvent::Ready`].
    Message { kind: MessageKind, bytes: Vec<u8> },
    /// There are no more messages for now, or the read failed.
    Finished(Result<(), ConnectionError>),
}

/// Whether a read event is an answer to what was asked for: no more bytes than that, of a length
/// that can be asked for. The bits of a bit field can be counted.
pub open spec fn answers(conn: ConnectionView, event: ReadEvent) -> bool {
    &&& read_fits(conn, event)
    &&& asked_for(conn, event)
    &&& event matches ReadEvent::Body { wanted, got: Received::Data(bytes) } ==> bytes@.len()
        == wanted && wire::kind_of(bytes@[0]) == MessageKind::Bitfield ==> 8 * (bytes@.len() - 1)
        <= usize::MAX
}

impl TorrentView {
    /// The torrent with one more message to send to each peer.
    pub open spec fn broadcast(self, message: Seq<u8>) -> TorrentView {
        TorrentView {
            conns: self.conns.map_values(|c: ConnectionView| c.queued(message)),
            ..self
        }
    }

    /// The torrent after a read event of a connection. A bit field replaces what was known of the
    /// pieces of the peer. A message that has come is queued for all connections.
    pub open spec fn after_read(self, token: usize, event: ReadEvent) -> TorrentView {
        let conn = self.conns[token].after_read(event);
        match self.conns[token].read_step(event) {
            ReadStep::Finished(Ok(Some(message))) => self.with_conn(
                token,
                if wire::kind_of(message@[0]) == MessageKind::Bitfield {
                    ConnectionView {
                        piece_bitmap: bitfield::bits_of_bytes(message@.skip(1)),
                        ..conn
                    }
                } else {
                    conn
                },
            ).broadcast(message@),
            _ => self.with_conn(token, conn),
        }
    }

    /// The step that answers a read event of a connection.
    pub open spec fn read_step(self, token: usize, event: ReadEvent) -> TorrentReadStep {
        match self.conns[token].read_step(event) {
            ReadStep::NeedPrefix(n) => TorrentReadStep::NeedPrefix(n),
            ReadStep::NeedBody(n) => TorrentReadStep::NeedBody(n),
            ReadStep::Finished(Ok(Some(message))) => TorrentReadStep::Message {
                kind: wire::kind_of(message@[0]),
                bytes: message,
            },
            ReadStep::Finished(Ok(None)) => TorrentReadStep::Finished(Ok(())),
            ReadStep::Finished(Err(e)) => TorrentReadStep::Finished(Err(e)),
        }
    }
}

impl Torrent {
    /// Reads a connection: message after message, until there are no more for now. The caller
    /// starts with [`ReadEvent::Ready`] and performs what each step asks for. Each message that has
    /// come is pushed to all the existing connections; it has at least one byte, and at least 49
    /// before the handshake is done.
    pub fn readable(&mut self, token: usize, event: ReadEvent) -> (step: TorrentReadStep)
        requires
            old(self).wf(),
            old(self)@.conns.dom().contains(token),
            answers(old(self)@.conns[token], event),
        ensures
            final(self).wf(),
            final(self)@ == old(self)@.after_read(token, event),
            step == old(self)@.read_step(token, event),
            step matches TorrentReadStep::NeedBody(n) ==> old(self)@.conns[token].wants(n as int),
            step matches TorrentReadStep::Message { bytes, .. } ==> old(self)@.conns[token].wants(
                bytes@.len() as int,
            ),
    {
        proof {
            law_read_asks_for_wanted(self@.conns[token], event);
        }
        let conn = self.find_connection_by_token(token);
        match conn.readable(event) {
            ReadStep::NeedPrefix(n) => TorrentReadStep::NeedPrefix(n),
            ReadStep::NeedBody(n) => TorrentReadStep::NeedBody(n),
            ReadStep::Finished(Ok(Some(bytes))) => {
                let kind = wire::message_kind(bytes[0]);
                if kind == MessageKind::Bitfield {
                    conn.set_pieces(slice_subrange(bytes.as_slice(), 1, bytes.len()));
                    assert(bytes@.subrange(1, bytes@.len() as int) =~= bytes@.skip(1));
                }
                let copy = bytes.clone();
                assert(copy@ =~= bytes@);
                self.broadcast(Arc::new(copy));
                TorrentReadStep::Message { kind, bytes }
            },
            ReadStep::Finished(Ok(None)) => TorrentReadStep::Finished(Ok(())),
            ReadStep::Finished(Err(e)) => TorrentReadStep::Finished(Err(e)),
        }
    }
}

impl TorrentView {
    /// Whether a list holds the tokens of the connections that `p` holds of, each once, in
    /// ascending order.
    pub open spec fn lists(self, tokens: Seq<usize>, p: spec_fn(ConnectionView) -> bool) -> bool {
        &&& ascending(tokens)
        &&& forall|t: usize| #[trigger]
            tokens.contains(t) <==> self.conns.dom().contains(t) && p(self.conns[t])
    }

    /// The torrent after a connection was registered anew, or the poller has not accepted it.
    pub open spec fn after_reregistration(self, token: usize, accepted: bool) -> TorrentView {
        self.with_conn(
            token,
            if accepted {
                ConnectionView { is_idle: false, ..self.conns[token] }
            } else {
                self.conns[token].reset()
            },
        )
    }

    /// The torrent after these connections were registered anew, one after the other. The poller
    /// has accepted those whose tokens are in `accepted`.
    pub open spec fn after_reregistrations(
        self,
        tokens: Seq<usize>,
        accepted: Set<usize>,
    ) -> TorrentView
        decreases tokens.len(),
    {
        if tokens.len() == 0 {
            self
        } else {
            self.after_reregistrations(tokens.drop_last(), accepted).after_reregistration(
                tokens.last(),
                accepted.contains(tokens.last()),
            )
        }
    }

    /// The torrent without the connections that are reset.
    pub open spec fn swept(self) -> TorrentView {
        TorrentView {
            conns: self.conns.restrict(Set::new(|t: usize| !self.conns[t].is_reset)),
            ..self
        }
    }
}

/// Whether the numbers of a list grow.
pub open spec fn ascending(list: Seq<usize>) -> bool {
    forall|i: int, j: int| 0 <= i < j < list.len() ==> list[i] < list[j]
}

impl Torrent {
    /// Queues a message for all connections.
    fn broadcast(&mut self, message: Arc<Vec<u8>>)
        requires
            old(self).wf(),
        ensures
            final(self).wf(),
            final(self)@ == old(self)@.broadcast(message@),
    {
        let tokens = self.tokens();
        let mut i: usize = 0;
        while i < tokens.len()
            invariant
                self.wf(),
                i <= tokens@.len(),
                old(self)@.lists(tokens@, |c: ConnectionView| true),
                self@ == (TorrentView { conns: self@.conns, ..old(self)@ }),
                self@.conns.dom() == old(self)@.conns.dom(),
                forall|k: int|
                    0 <= k < i ==> self@.conns[#[trigger] tokens@[k]]
                        == old(self)@.conns[tokens@[k]].queued(message@),
                forall|k: int|
                    i <= k < tokens@.len() ==> self@.conns[#[trigger] tokens@[k]]
                        == old(self)@.conns[tokens@[k]],
            decreases tokens@.len() - i,
        {
            let token: usize = tokens[i];
            assert(tokens@.contains(token));
            let _ = self.find_connection_by_token(token).send_message(share(&message));
            assert(self@.conns.dom() =~= old(self)@.conns.dom());
            i = i + 1;
        }
        assert forall|t: usize| old(self)@.conns.dom().contains(t) implies #[trigger] self@.conns[t]
            == old(self)@.conns[t].queued(message@) by {
            assert(tokens@.contains(t));
            let k = choose|k: int| 0 <= k < tokens@.len() && tokens@[k] == t;
            assert(self@.conns[tokens@[k]] == old(self)@.conns[tokens@[k]].queued(message@));
        }
        assert(self@.conns =~= old(self)@.broadcast(message@).conns);
    }

    /// The tokens of all connections, in ascending order.
    fn tokens(&self) -> (r: Vec<usize>)
        requires
            self.wf(),
        ensures
            self@.lists(r@, |c: ConnectionView| true),
    {
        let r = slots::tokens(&self.conns);
        proof {
            let conns = self@.conns;
            let indices = choose|indices: Seq<usize>| #[trigger]
                slots::visits(conns, indices) && r@ == indices.map_values(
                    |k: usize| conns[k].token,
                );
            assert forall|i: int| 0 <= i < indices.len() implies r@[i] == indices[i] by {
                assert(indices.contains(indices[i]));
                assert(conns.dom().contains(indices[i]));
            }
            assert(r@ =~= indices);
        }
        r
    }

    /// The tokens of the connections that are to be registered with the poller anew: those that
    /// are idle and not reset.
    pub fn idle_connections(&self) -> (r: Vec<usize>)
        requires
            self.wf(),
        ensures
            self@.lists(r@, |c: ConnectionView| c.is_idle && !c.is_reset),
    {
        let tokens = self.tokens();
        let mut r: Vec<usize> = Vec::new();
        let mut i: usize = 0;
        while i < tokens.len()
            invariant
                self.wf(),
                i <= tokens@.len(),
                self@.lists(tokens@, |c: ConnectionView| true),
                ascending(r@),
                forall|k: int|
                    0 <= k < r@.len() ==> tokens@.take(i as int).contains(#[trigger] r@[k]),
                forall|t: usize| #[trigger]
                    r@.contains(t) <==> tokens@.take(i as int).contains(t) && self@.conns[t].is_idle
                        && !self@.conns[t].is_reset,
            decreases tokens@.len() - i,
        {
            let token: usize = tokens[i];
            assert(tokens@.contains(token));
            let conn = slots::at(&self.conns, token);
            proof {
                lemma_next_token(tokens@, i as int, r@);
            }
            if conn.is_idle() && !conn.is_reset() {
                r.push(token);
            }
            i = i + 1;
        }
        assert(tokens@.take(i as int) =~= tokens@);
        r
    }

    /// Notes what came of registering a connection anew. One that the poller does not accept is
    /// reset.
    pub fn reregistered(&mut self, token: usize, accepted: bool)
        requires
            old(self).wf(),
            old(self)@.conns.dom().contains(token),
        ensures
            final(self).wf(),
            final(self)@ == old(self)@.after_reregistration(token, accepted),
    {
        let conn = self.find_connection_by_token(token);
        conn.registered(accepted);
        if !accepted {
            conn.mark_reset();
        }
    }

    /// Ends a round of events: removes the connections that are reset, and gives their tokens.
    pub fn tick(&mut self) -> (r: Vec<usize>)
        requires
            old(self).wf(),
        ensures
            final(self).wf(),
            final(self)@ == old(self)@.swept(),
            old(self)@.lists(r@, |c: ConnectionView| c.is_reset),
    {
        let tokens = self.tokens();
        let mut r: Vec<usize> = Vec::new();
        let mut i: usize = 0;
        while i < tokens.len()
            invariant
                self.wf(),
                old(self).wf(),
                i <= tokens@.len(),
                old(self)@.lists(tokens@, |c: ConnectionView| true),
                self@ == (TorrentView { conns: self@.conns, ..old(self)@ }),
                forall|t: usize| #[trigger]
                    self@.conns.dom().contains(t) <==> old(self)@.conns.dom().contains(t)
                        && !r@.contains(t),
                forall|t: usize| #[trigger]
                    self@.conns.dom().contains(t) ==> self@.conns[t] == old(self)@.conns[t],
                ascending(r@),
                forall|k: int|
                    0 <= k < r@.len() ==> tokens@.take(i as int).contains(#[trigger] r@[k]),
                forall|t: usize| #[trigger]
                    r@.contains(t) <==> tokens@.take(i as int).contains(t)
                        && old(self)@.conns[t].is_reset,
            decreases tokens@.len() - i,
        {
            let token: usize = tokens[i];
            proof {
                lemma_next_token(tokens@, i as int, r@);
                assert(tokens@.contains(token));
                assert(self@.conns.dom().contains(token));
            }
            if slots::at(&self.conns, token).is_reset() {
                slots::remove(&mut self.conns, token);
                r.push(token);
            }
            i = i + 1;
        }
        assert(tokens@.take(i as int) =~= tokens@);
        assert(self@.conns =~= old(self)@.swept().conns);
        r
    }
}

/// The token at index `i` of an ascending list is above those before it, and so above all of a list
/// `chosen` that was taken from these.
proof fn lemma_next_token(tokens: Seq<usize>, i: int, chosen: Seq<usize>)
    requires
        ascending(tokens),
        0 <= i < tokens.len(),
        forall|k: int| 0 <= k < chosen.len() ==> tokens.take(i).contains(#[trigger] chosen[k]),
    ensures
        !chosen.contains(tokens[i]),
        forall|k: int| 0 <= k < chosen.len() ==> #[trigger] chosen[k] < tokens[i],
        forall|t: usize| #[trigger]
            tokens.take(i + 1).contains(t) <==> tokens.take(i).contains(t) || t == tokens[i],
        forall|t: usize| #[trigger]
            chosen.push(tokens[i]).contains(t) <==> chosen.contains(t) || t == tokens[i],
{
    let seen = tokens.take(i);
    assert(tokens.take(i + 1) =~= seen.push(tokens[i]));
    assert forall|t: usize| #[trigger]
        tokens.take(i + 1).contains(t) <==> seen.contains(t) || t == tokens[i] by {
        lemma_push_contains(seen, tokens[i], t);
    }
    assert forall|t: usize| #[trigger]
        chosen.push(tokens[i]).contains(t) <==> chosen.contains(t) || t == tokens[i] by {
        lemma_push_contains(chosen, tokens[i], t);
    }
    assert forall|k: int| 0 <= k < chosen.len() implies #[trigger] chosen[k] < tokens[i] by {
        assert(seen.contains(chosen[k]));
        let m = choose|m: int| 0 <= m < seen.len() && seen[m] == chosen[k];
        assert(tokens[m] < tokens[i]);
    }
}

proof fn lemma_push_contains(list: Seq<usize>, last: usize, t: usize)
    ensures
        list.push(last).contains(t) <==> list.contains(t) || t == last,
{
    if list.contains(t) {
        let m = choose|m: int| 0 <= m < list.len() && list[m] == t;
        assert(list.push(last)[m] == t);
    }
    assert(list.push(last)[list.len() as int] == last);
}

/// What a command asks for.
#[derive(Debug)]
pub enum CommandStep {
    /// Print this text.
    Print(String),
    /// Ask the tracker at this URL, hand its reply to [`Torrent::contact_tracker`], then carry out
    /// [`Torrent::dial`]; or fail for want of a URL.
    Announce(Result<String, AnnounceError>),
    /// There is no such thing yet.
    NotImplemented,
}

/// What the attempt to connect to the peers is told.
#[derive(Clone, Copy, Debug)]
pub enum DialEvent {
    /// Begin with the first peer.
    Start,
    /// The peer could not be connected to.
    Failed,
    /// There is a stream to the peer with this index.
    Connected { peer: usize },
    /// The poller was asked to register the connection to the peer with this index.
    Registered { peer: usize, token: usize, accepted: bool },
}

/// What the attempt to connect to the peers asks for next.
#[derive(Clone, Copy)]
pub enum DialStep {
    /// Connect to the peer with this index and address.
    Connect { peer: usize, address: PeerAddr },
    /// Register the stream to the peer with this index, under this token, for these events and
    /// with these options.
    Register { peer: usize, token: usize, interest: Ready, options: PollOpt },
    /// The attempt is over.
    Finished,
}

impl TorrentView {
    /// The connection to a peer after the poller has accepted it: it is to send the handshake, the
    /// interest in the pieces of the peer, and the request for the first block of a piece. To each
    /// peer goes the request for another piece.
    pub open spec fn greeted(self, conn: ConnectionView, peer: usize) -> ConnectionView {
        (ConnectionView { is_idle: false, ..conn }).queued(
            wire::handshake_bytes(self.metainfo.info_hash, encode_utf8(self.peer_id)),
        ).queued(wire::control_bytes(2)).queued(
            wire::request_bytes(low32(peer as int), 0, wire::BLOCK_SZ as u32),
        )
    }

    /// The torrent after its attempt to connect was told of a registration.
    pub open spec fn after_registration(
        self,
        peer: usize,
        token: usize,
        accepted: bool,
    ) -> TorrentView {
        if accepted {
            self.with_conn(token, self.greeted(self.conns[token], peer))
        } else {
            TorrentView { conns: self.conns.remove(token), ..self }
        }
    }

    /// Whether a step is to connect to the peer with this index, or to finish where there is none.
    pub open spec fn turns_to(self, peer: int, step: DialStep) -> bool {
        if peer < self.tracker_info.peers.len() {
            step == (DialStep::Connect {
                peer: peer as usize,
                address: self.tracker_info.peers[peer].ip_port,
            })
        } else {
            step == DialStep::Finished
        }
    }

    /// Whether an event can come up while peers are connected to.
    pub open spec fn dials(self, event: DialEvent) -> bool {
        match event {
            DialEvent::Start | DialEvent::Failed => true,
            DialEvent::Connected { peer } => peer < self.tracker_info.peers.len(),
            DialEvent::Registered { peer, token, accepted } => peer < self.tracker_info.peers.len()
                && self.conns.dom().contains(token),
        }
    }

    /// What comes of a step while peers are connected to. A peer that cannot be connected to ends
    /// the attempt, and so does a torrent that has as many connections as it can have. A
    /// connection that the poller does not accept is dropped, and the next peer is tried.
    pub open spec fn dialled(self, event: DialEvent, other: TorrentView, step: DialStep) -> bool {
        match event {
            DialEvent::Start => other == self && self.turns_to(0, step),
            DialEvent::Failed => other == self && step == DialStep::Finished,
            DialEvent::Connected { peer } => if self.conns.dom().len() < MAX_CONNS {
                &&& step matches DialStep::Register { peer: of, token, interest, options }
                &&& of == peer
                &&& token < MAX_CONNS
                &&& !self.conns.dom().contains(token)
                &&& other == self.with_conn(token, ConnectionView::fresh(token).watching())
                &&& readiness::kinds_of(interest) == other.conns[token].interest
                &&& readiness::options_of(options) == one_event()
            } else {
                other == self && step == DialStep::Finished
            },
            DialEvent::Registered { peer, token, accepted } => other == self.after_registration(
                peer,
                token,
                accepted,
            ) && self.turns_to(peer + 1, step),
        }
    }
}

impl Torrent {
    /// Carries out a command as far as it can be without the tracker and the peers.
    pub fn accept_cmd(&self, command: Command) -> (step: CommandStep)
        ensures
            match command {
                Command::ListFiles => step matches CommandStep::Print(text) && text@
                    == self@.metainfo.file_list(),
                Command::StartDownload => step matches CommandStep::Announce(r) && self@.announced(
                    r,
                ),
                _ => step is NotImplemented,
            },
    {
        match command {
            Command::ListFiles => CommandStep::Print(self.metainfo.file_list()),
            Command::StartDownload => CommandStep::Announce(self.announce_url()),
            _ => CommandStep::NotImplemented,
        }
    }

    /// Connects to the peers that the tracker has named, one after the other.
    pub fn dial(&mut self, event: DialEvent) -> (step: DialStep)
        requires
            old(self).wf(),
            old(self)@.dials(event),
        ensures
            final(self).wf(),
            old(self)@.dialled(event, final(self)@, step),
    {
        match event {
            DialEvent::Start => self.turn_to(0),
            DialEvent::Failed => DialStep::Finished,
            DialEvent::Connected { peer } => match self.add_connection() {
                Some(token) => {
                    let (interest, options) = self.find_connection_by_token(token).register();
                    assert(self@.conns =~= old(self)@.conns.insert(
                        token,
                        ConnectionView::fresh(token).watching(),
                    ));
                    DialStep::Register { peer, token, interest, options }
                },
                None => DialStep::Finished,
            },
            DialEvent::Registered { peer, token, accepted } => {
                assert(peer < self.tracker_info.peers.len());
                if accepted {
                    self.greet(peer, token);
                } else {
                    slots::remove(&mut self.conns, token);
                }
                self.turn_to(peer + 1)
            },
        }
    }

    /// The step for the peer with this index.
    fn turn_to(&self, peer: usize) -> (step: DialStep)
        ensures
            self@.turns_to(peer as int, step),
    {
        if peer < self.tracker_info.peers.len() {
            DialStep::Connect { peer, address: self.tracker_info.peers[peer].ip_port }
        } else {
            DialStep::Finished
        }
    }

    /// Adds a connection and gives its token, or `None` where there is no room for it.
    fn add_connection(&mut self) -> (r: Option<usize>)
        requires
            old(self).wf(),
        ensures
            final(self).wf(),
            r is Some <==> old(self)@.conns.dom().len() < MAX_CONNS,
            match r {
                Some(token) => token < MAX_CONNS && !old(self)@.conns.dom().contains(token)
                    && final(self)@ == old(self)@.with_conn(token, ConnectionView::fresh(token)),
                None => final(self)@ == old(self)@,
            },
    {
        // the token is put right once the slot is known
        match slots::insert(&mut self.conns, Connection::new(self.token)) {
            Ok(token) => {
                slots::at_mut(&mut self.conns, token).set_token(token);
                assert(self@.conns =~= old(self)@.conns.insert(
                    token,
                    ConnectionView::fresh(token),
                ));
                Some(token)
            },
            Err(_) => None,
        }
    }

    /// Notes that the poller has accepted a connection, and queues what is first sent to a peer.
    fn greet(&mut self, peer: usize, token: usize)
        requires
            old(self).wf(),
            old(self)@.conns.dom().contains(token),
            peer < old(self)@.tracker_info.peers.len(),
        ensures
            final(self).wf(),
            final(self)@ == old(self)@.with_conn(
                token,
                old(self)@.greeted(old(self)@.conns[token], peer),
            ),
    {
        let count: usize = self.tracker_info.peers.len();
        let piece: usize = peer % count;
        assert(piece == peer) by {
            vstd::arithmetic::div_mod::lemma_small_mod(peer as nat, count as nat);
        }
        let peer_id = self.peer_id.clone();
        let conn = slots::at_mut(&mut self.conns, token);
        conn.registered(true);
        let _ = conn.send_handshake(self.metainfo.info_hash.as_slice(), peer_id);
        let _ = conn.send_interest();
        let _ = conn.send_piece_request(piece, 0, wire::BLOCK_SZ);
    }
}

/// The numbers of pieces are given out in ascending order from zero on, each once; the last one is
/// the number of pieces. Nothing else of the torrent changes.
pub proof fn law_piece_numbers_ascend(t: TorrentView, k: nat)
    requires
        t.piece_nxt_req == 0,
        t.metainfo.piece_count < usize::MAX,
    ensures
        k <= t.metainfo.piece_count ==> t.after_piece_nums(k).piece_num() == Some(k as usize),
        k > t.metainfo.piece_count ==> t.after_piece_nums(k).piece_num() is None,
        t.after_piece_nums(k) == (TorrentView {
            piece_nxt_req: t.after_piece_nums(k).piece_nxt_req,
            ..t
        }),
    decreases k,
{
    if k > 0 {
        law_piece_numbers_ascend(t, (k - 1) as nat);
    }
}

/// A connection that is reset is neither read nor written any more, and stays reset until it is
/// removed at the end of the round.
pub proof fn law_reset_is_left_alone(t: TorrentView, token: usize, kinds: Set<Readiness>)
    requires
        t.inv(),
        t.conns.dom().contains(token),
        t.conns[token].is_reset,
    ensures
        t.ready_step(token, kinds) == ReadyStep::Done || t.ready_step(token, kinds)
            == ReadyStep::HungUp,
        t.reading_step(token, kinds) == ReadyStep::Done,
        t.after_ready(token, kinds).conns[token].is_reset,
        t.after_writing(token, kinds).conns[token].is_reset,
        !t.swept().conns.dom().contains(token),
{
}

/// Whatever happens to a torrent, each of its connections goes on to wait for its stream to hang up
/// and to be readable, as it did before, and one that is reset stays so as long as it is there.
pub proof fn law_connections_keep_interest_and_reset(
    t: TorrentView,
    token: usize,
    kinds: Set<Readiness>,
    ok: bool,
    event: ReadEvent,
    peer: usize,
    message: Seq<u8>,
    other: usize,
)
    requires
        t.conns.dom().contains(token),
        t.conns.dom().contains(other),
    ensures
        t.conns[other].kept_by(t.after_ready(token, kinds).conns[other]),
        t.conns[other].kept_by(t.after_writing(token, kinds).conns[other]),
        t.conns[other].kept_by(t.unless_ok(token, ok).conns[other]),
        t.conns[other].kept_by(t.after_read(token, event).conns[other]),
        t.conns[other].kept_by(t.broadcast(message).conns[other]),
        t.conns[other].kept_by(t.after_reregistration(token, ok).conns[other]),
        t.conns[other].kept_by(t.after_registration(peer, token, true).conns[other]),
        other != token ==> t.after_registration(peer, token, false).conns[other] == t.conns[other],
        !t.conns[other].is_reset ==> t.swept().conns[other] == t.conns[other],
{
}

/// When the poller's event for a connection has been dealt with, the connection is idle or reset:
/// at the end of the round it is registered anew or removed.
pub proof fn law_event_leaves_idle_or_reset(
    t: TorrentView,
    token: usize,
    kinds: Set<Readiness>,
    ok: bool,
)
    requires
        t.inv(),
        t.conns.dom().contains(token),
    ensures
        t.ready_step(token, kinds) == ReadyStep::Done || t.ready_step(token, kinds)
            == ReadyStep::HungUp ==> {
            let after = t.after_ready(token, kinds).conns[token];
            after.is_idle || after.is_reset
        },
        t.unless_ok(token, ok).reading_step(token, kinds) == ReadyStep::Done ==> {
            let after = t.unless_ok(token, ok).after_writing(token, kinds).conns[token];
            after.is_idle || after.is_reset
        },
        t.unless_ok(token, ok).conns[token].idle().is_idle,
        t.ready_step(token, kinds) != ReadyStep::AcceptCommand,
{
}

/// The end of a round removes the connections that are reset and no others, and leaves the others
/// and everything else as they are. A second one right behind it changes nothing.
pub proof fn law_tick_removes_reset(t: TorrentView, token: usize)
    ensures
        t.swept().conns.dom().contains(token) <==> t.conns.dom().contains(token)
            && !t.conns[token].is_reset,
        t.swept().conns.dom().contains(token) ==> t.swept().conns[token] == t.conns[token],
        t.swept() == (TorrentView { conns: t.swept().conns, ..t }),
        t.swept().swept() == t.swept(),
{
    assert(t.swept().swept().conns =~= t.swept().conns);
}

proof fn lemma_reregistrations(t: TorrentView, tokens: Seq<usize>, accepted: Set<usize>)
    requires
        ascending(tokens),
        forall|k: int| 0 <= k < tokens.len() ==> t.conns.dom().contains(#[trigger] tokens[k]),
    ensures
        ({
            let after = t.after_reregistrations(tokens, accepted);
            &&& after == (TorrentView { conns: after.conns, ..t })
            &&& after.conns.dom() == t.conns.dom()
            &&& forall|k: usize| #[trigger]
                t.conns.dom().contains(k) ==> after.conns[k] == if !tokens.contains(k) {
                    t.conns[k]
                } else if accepted.contains(k) {
                    ConnectionView { is_idle: false, ..t.conns[k] }
                } else {
                    t.conns[k].reset()
                }
        }),
    decreases tokens.len(),
{
    let after = t.after_reregistrations(tokens, accepted);
    if tokens.len() > 0 {
        let rest = tokens.drop_last();
        let last = tokens.last();
        assert forall|k: int| 0 <= k < rest.len() implies t.conns.dom().contains(
            #[trigger] rest[k],
        ) by {
            assert(rest[k] == tokens[k]);
        }
        lemma_reregistrations(t, rest, accepted);
        assert(tokens =~= rest.push(last));
        assert(t.conns.dom().contains(tokens[tokens.len() - 1]));
        assert(after.conns.dom() =~= t.conns.dom());
        assert(!rest.contains(last)) by {
            if rest.contains(last) {
                let m = choose|m: int| 0 <= m < rest.len() && rest[m] == last;
                assert(tokens[m] < tokens[tokens.len() - 1]);
            }
        }
        assert forall|k: usize| #[trigger] t.conns.dom().contains(k) implies after.conns[k]
            == if !tokens.contains(k) {
            t.conns[k]
        } else if accepted.contains(k) {
            ConnectionView { is_idle: false, ..t.conns[k] }
        } else {
            t.conns[k].reset()
        } by {
            lemma_push_contains(rest, last, k);
        }
    }
}

/// The end of a round of events: the idle connections are registered anew, whatever the poller
/// answers to each, and those that are reset are removed. Exactly the connections are left that
/// were neither reset nor idle and refused; none of them is idle, and otherwise they are as they
/// were, like all else of the torrent.
pub proof fn law_round(t: TorrentView, tokens: Seq<usize>, accepted: Set<usize>, token: usize)
    requires
        t.inv(),
        t.lists(tokens, |c: ConnectionView| c.is_idle && !c.is_reset),
    ensures
        ({
            let after = t.after_reregistrations(tokens, accepted).swept();
            &&& after == (TorrentView { conns: after.conns, ..t })
            &&& after.conns.dom().contains(token) <==> t.conns.dom().contains(token)
                && !t.conns[token].is_reset && (t.conns[token].is_idle ==> accepted.contains(token))
            &&& after.conns.dom().contains(token) ==> after.conns[token] == (ConnectionView {
                is_idle: false,
                ..t.conns[token]
            })
        }),
{
    assert forall|k: int| 0 <= k < tokens.len() implies t.conns.dom().contains(
        #[trigger] tokens[k],
    ) by {
        assert(tokens.contains(tokens[k]));
    }
    lemma_reregistrations(t, tokens, accepted);
    let listed = tokens.contains(token);
    assert(t.conns.dom().contains(token) ==> listed == (t.conns[token].is_idle
        && !t.conns[token].is_reset));
}

/// A peer that was connected to and accepted by the poller is first sent the handshake, then the
/// interest in its pieces, then the request for the first block of a piece. The connection waits
/// for its stream to be readable and writable, and is neither idle nor reset. The other
/// connections are left alone.
pub proof fn law_peer_is_greeted(
    t: TorrentView,
    connected: TorrentView,
    peer: usize,
    token: usize,
    interest: Ready,
    options: PollOpt,
)
    requires
        t.inv(),
        t.dials(DialEvent::Connected { peer }),
        t.dialled(
            DialEvent::Connected { peer },
            connected,
            DialStep::Register { peer, token, interest, options },
        ),
    ensures
        ({
            let conn = connected.after_registration(peer, token, true).conns[token];
            &&& conn.token == token
            &&& conn.send_queue == seq![
                wire::handshake_bytes(t.metainfo.info_hash, encode_utf8(t.peer_id)),
                wire::control_bytes(2),
                wire::request_bytes(low32(peer as int), 0, 16384),
            ]
            &&& conn.interest.contains(Readiness::Readable)
            &&& conn.interest.contains(Readiness::Writable)
            &&& conn.interest.contains(Readiness::Hup)
            &&& !conn.interest.contains(Readiness::Error)
            &&& !conn.handshake_done
            &&& !conn.is_to_be_removed
            &&& conn.read_continuation is None
            &&& !conn.write_continuation
            &&& conn.piece_bitmap.len() == 0
            &&& conn.piece_buf.len() == 0
            &&& !conn.is_idle
            &&& !conn.is_reset
        }),
        connected.after_registration(peer, token, true).conns.remove(token) == t.conns,
        connected.after_registration(peer, token, false).conns == t.conns,
{
    let greeted = connected.after_registration(peer, token, true);
    assert(greeted.conns[token].send_queue =~= seq![
        wire::handshake_bytes(t.metainfo.info_hash, encode_utf8(t.peer_id)),
        wire::control_bytes(2),
        wire::request_bytes(low32(peer as int), 0, 16384),
    ]);
    assert(greeted.conns.remove(token) =~= t.conns);
    assert(connected.conns.remove(token) =~= t.conns);
}

/// An attempt to connect, as far as it has come: what the poller was asked for each peer, and how
/// the torrent was before each peer, and after a connection to it was made.
pub struct Attempt {
    /// The torrent before each peer, and at the end.
    pub states: Seq<TorrentView>,
    /// The torrent after a connection to each peer was made.
    pub connected: Seq<TorrentView>,
    /// The token of each connection.
    pub tokens: Seq<usize>,
    /// The events that each connection was registered for.
    pub interests: Seq<Ready>,
    /// The options that it was registered with.
    pub options: Seq<PollOpt>,
    /// Whether the poller has accepted it.
    pub accepted: Seq<bool>,
    /// What was to be done after that.
    pub steps: Seq<DialStep>,
}

impl Attempt {
    /// The number of peers that could be connected to.
    pub open spec fn len(self) -> nat {
        self.tokens.len()
    }

    /// Whether the attempt is one that starts with a torrent and goes on as the torrent asks.
    pub open spec fn starts_with(self, t: TorrentView) -> bool {
        &&& self.states.len() == self.len() + 1
        &&& self.connected.len() == self.len()
        &&& self.interests.len() == self.len()
        &&& self.options.len() == self.len()
        &&& self.accepted.len() == self.len()
        &&& self.steps.len() == self.len()
        &&& self.len() <= t.tracker_info.peers.len()
        &&& self.states[0] == t
        &&& forall|i: int| 0 <= i < self.len() ==> #[trigger] self.goes_on(i)
    }

    /// Whether the attempt deals with peer `i` as the torrent asks.
    pub open spec fn goes_on(self, i: int) -> bool {
        &&& self.states[i].dialled(
            DialEvent::Connected { peer: i as usize },
            self.connected[i],
            DialStep::Register {
                peer: i as usize,
                token: self.tokens[i],
                interest: self.interests[i],
                options: self.options[i],
            },
        )
        &&& self.connected[i].dialled(
            DialEvent::Registered {
                peer: i as usize,
                token: self.tokens[i],
                accepted: self.accepted[i],
            },
            self.states[i + 1],
            self.steps[i],
        )
    }

    /// Whether the connection to one of the first `n` peers was accepted under this token.
    pub open spec fn accepted_as(self, n: int, token: usize) -> bool {
        exists|i: int| 0 <= i < n && self.accepted[i] && #[trigger] self.tokens[i] == token
    }
}

/// An attempt to connect gives the torrent exactly the connections that the poller has accepted, up
/// to the peer at which the attempt ends. Each has a token of its own, which no connection had
/// before, and is greeted as the peer with its index. All other connections, and all else of the
/// torrent, are as they were. After each peer the next one is turned to; a peer that cannot be
/// connected to, or for which there is no room, ends the attempt and changes nothing.
pub proof fn law_attempt_connects_accepted(
    t: TorrentView,
    attempt: Attempt,
    n: int,
    token: usize,
    event: DialEvent,
    end: TorrentView,
    step: DialStep,
)
    requires
        t.inv(),
        t.tracker_info.peers.len() <= usize::MAX,
        attempt.starts_with(t),
        0 <= n <= attempt.len(),
        event is Failed || (event is Connected && attempt.states[n].conns.dom().len()
            >= MAX_CONNS),
        attempt.states[n].dialled(event, end, step),
    ensures
        end == attempt.states[n],
        step == DialStep::Finished,
        end == (TorrentView { conns: end.conns, ..t }),
        end.conns.dom().contains(token) <==> t.conns.dom().contains(token) || attempt.accepted_as(
            n,
            token,
        ),
        t.conns.dom().contains(token) ==> end.conns[token] == t.conns[token],
        forall|i: int|
            0 <= i < n && attempt.accepted[i] ==> {
                let own = #[trigger] attempt.tokens[i];
                &&& !t.conns.dom().contains(own)
                &&& end.conns.dom().contains(own)
                &&& end.conns[own] == t.greeted(ConnectionView::fresh(own).watching(), i as usize)
            },
        forall|i: int, j: int|
            0 <= i < j < n && attempt.accepted[i] && attempt.accepted[j] ==> #[trigger]
            attempt.tokens[i] != #[trigger] attempt.tokens[j],
        n > 0 ==> t.turns_to(n, attempt.steps[n - 1]),
    decreases n,
{
    if n > 0 {
        let before = attempt.states[n - 1];
        let new = attempt.tokens[n - 1];
        let peer = (n - 1) as usize;
        law_attempt_connects_accepted(
            t,
            attempt,
            n - 1,
            token,
            DialEvent::Failed,
            before,
            DialStep::Finished,
        );
        law_attempt_connects_accepted(
            t,
            attempt,
            n - 1,
            new,
            DialEvent::Failed,
            before,
            DialStep::Finished,
        );
        assert(attempt.goes_on(n - 1));
        let connected = attempt.connected[n - 1];
        assert(connected == before.with_conn(new, ConnectionView::fresh(new).watching()));
        if attempt.accepted[n - 1] {
            assert(end == connected.with_conn(new, connected.greeted(connected.conns[new], peer)));
            assert(t.greeted(connected.conns[new], peer) == connected.greeted(
                connected.conns[new],
                peer,
            ));
            assert(!before.conns.dom().contains(new));
            assert(attempt.accepted_as(n, token) <==> attempt.accepted_as(n - 1, token) || token
                == new) by {
                assert(attempt.tokens[n - 1] == new);
            }
        } else {
            assert(end.conns =~= before.conns);
            assert(attempt.accepted_as(n, token) <==> attempt.accepted_as(n - 1, token));
        }
    } else {
        assert(!attempt.accepted_as(0, token));
    }
}

impl TorrentView {
    /// The torrent after read events of a connection.
    pub open spec fn after_reads(self, token: usize, events: Seq<ReadEvent>) -> TorrentView
        decreases events.len(),
    {
        if events.len() == 0 {
            self
        } else {
            self.after_reads(token, events.drop_last()).after_read(token, events.last())
        }
    }

    /// The messages that have come with read events of a connection.
    pub open spec fn messages(self, token: usize, events: Seq<ReadEvent>) -> Seq<Seq<u8>>
        decreases events.len(),
    {
        if events.len() == 0 {
            Seq::empty()
        } else {
            let before = self.messages(token, events.drop_last());
            match self.after_reads(token, events.drop_last()).conns[token].read_step(
                events.last(),
            ) {
                ReadStep::Finished(Ok(Some(message))) => before.push(message@),
                _ => before,
            }
        }
    }
}

/// What is read from one connection reaches all of them: each has the messages that have come, in
/// their order, behind those that it had to send before, and waits for its stream to be writable.
pub proof fn law_messages_reach_all(
    t: TorrentView,
    token: usize,
    events: Seq<ReadEvent>,
    other: usize,
)
    requires
        t.conns.dom().contains(token),
        t.conns.dom().contains(other),
    ensures
        t.after_reads(token, events).conns.dom() == t.conns.dom(),
        t.after_reads(token, events).conns[other].send_queue == t.conns[other].send_queue
            + t.messages(token, events),
        t.messages(token, events).len() > 0 ==> t.after_reads(
            token,
            events,
        ).conns[other].interest.contains(Readiness::Writable),
    decreases events.len(),
{
    let after = t.after_reads(token, events);
    if events.len() > 0 {
        law_messages_reach_all(t, token, events.drop_last(), other);
    }
    assert(after.conns.dom() =~= t.conns.dom());
    assert(after.conns[other].send_queue =~= t.conns[other].send_queue + t.messages(
        token,
        events,
    ));
}

/// A torrent that was just made is as a torrent is at all times, and so is one whose files are
/// placed.
pub proof fn law_fresh_torrent(m: MetainfoView, peer_id: Seq<char>, port: u16)
    requires
        m.usable(),
        encode_utf8(peer_id).len() <= wire::HASH_LEN,
    ensures
        TorrentView::fresh(m, peer_id, port).inv(),
        m.placeable() ==> TorrentView::fresh(m, peer_id, port).laid_out().inv(),
{
}

/// To put a connection at a token changes that connection and nothing else.
pub proof fn law_one_connection_changes(
    t: TorrentView,
    token: usize,
    conn: ConnectionView,
    other: usize,
)
    ensures
        t.with_conn(token, conn).conns.dom().contains(token),
        t.with_conn(token, conn).conns[token] == conn,
        other != token ==> t.with_conn(token, conn).conns.dom().contains(other)
            == t.conns.dom().contains(other) && t.with_conn(token, conn).conns[other]
            == t.conns[other],
        (TorrentView { conns: t.conns, ..t.with_conn(token, conn) }) == t,
{
}

/// A connection that is not reset is read whenever it is readable, be its handshake done or not,
/// and written before that whenever it is writable; up to then the torrent is as it was. One that
/// is neither has nothing done to it but that it becomes idle.
pub proof fn law_live_connection_is_served(t: TorrentView, token: usize, kinds: Set<Readiness>)
    requires
        t.inv(),
        t.conns.dom().contains(token),
        !t.conns[token].is_reset,
    ensures
        ({
            let quiet = !kinds.contains(Readiness::Error) && !kinds.contains(Readiness::Hup);
            let idle = ConnectionView { is_idle: true, ..t.conns[token] };
            &&& quiet && kinds.contains(Readiness::Writable) ==> t.ready_step(token, kinds)
                == ReadyStep::Write && t.after_ready(token, kinds) == t
            &&& quiet && !kinds.contains(Readiness::Writable) && kinds.contains(Readiness::Readable)
                ==> t.ready_step(token, kinds) == ReadyStep::Read && t.after_ready(token, kinds)
                == t
            &&& quiet && !kinds.contains(Readiness::Writable) && !kinds.contains(
                Readiness::Readable,
            ) ==> {
                &&& t.ready_step(token, kinds) == ReadyStep::Done
                &&& t.after_ready(token, kinds) == (TorrentView {
                    conns: t.conns.insert(token, idle),
                    ..t
                })
            }
            &&& t.unless_ok(token, true) == t
            &&& kinds.contains(Readiness::Readable) ==> t.reading_step(token, kinds)
                == ReadyStep::Read && t.after_writing(token, kinds) == t
            &&& !kinds.contains(Readiness::Readable) ==> {
                &&& t.reading_step(token, kinds) == ReadyStep::Done
                &&& t.after_writing(token, kinds) == (TorrentView {
                    conns: t.conns.insert(token, idle),
                    ..t
                })
            }
        }),
{
}

/// An error and a hang-up reset the connection, which is then neither read nor written; a hang-up
/// without an error is told of. A write that fails resets it too, and it is not read. Nothing else
/// changes.
pub proof fn law_broken_connection_is_reset(t: TorrentView, token: usize, kinds: Set<Readiness>)
    requires
        t.inv(),
        t.conns.dom().contains(token),
    ensures
        ({
            let reset = TorrentView {
                conns: t.conns.insert(
                    token,
                    ConnectionView { is_reset: true, ..t.conns[token] },
                ),
                ..t
            };
            &&& kinds.contains(Readiness::Error) ==> t.ready_step(token, kinds) == ReadyStep::Done
                && t.after_ready(token, kinds) == reset
            &&& !kinds.contains(Readiness::Error) && kinds.contains(Readiness::Hup)
                ==> t.ready_step(token, kinds) == ReadyStep::HungUp && t.after_ready(token, kinds)
                == reset
            &&& t.unless_ok(token, false) == reset
            &&& t.unless_ok(token, false).reading_step(token, kinds) == ReadyStep::Done
        }),
{
}

/// The queue of commands is taken from exactly when it is readable, and that changes nothing. The
/// events that can come up are its being readable, and any for a connection that there is.
pub proof fn law_commands_are_accepted(t: TorrentView, token: usize, kinds: Set<Readiness>)
    requires
        t.inv(),
    ensures
        t.takes(10_000_000, kinds) <==> !kinds.contains(Readiness::Error) && !kinds.contains(
            Readiness::Hup,
        ) && !kinds.contains(Readiness::Writable),
        token != 10_000_000 ==> (t.takes(token, kinds) <==> t.conns.dom().contains(token)),
        t.takes(10_000_000, kinds) ==> {
            &&& t.after_ready(10_000_000, kinds) == t
            &&& kinds.contains(Readiness::Readable) ==> t.ready_step(10_000_000, kinds)
                == ReadyStep::AcceptCommand
            &&& !kinds.contains(Readiness::Readable) ==> t.ready_step(10_000_000, kinds)
                == ReadyStep::Done
        },
{
}

/// A message that comes from a peer is handed on with its bytes and with what its first byte says
/// that it is. A bit field is what is known of the pieces of that peer from then on: eight of its
/// bits for each byte behind the first, the most significant one first. No other message changes
/// what is known of the pieces of a peer.
pub proof fn law_message_is_handled(
    t: TorrentView,
    token: usize,
    wanted: u64,
    bytes: Vec<u8>,
    j: int,
    other: usize,
)
    requires
        t.conns.dom().contains(token),
        t.conns.dom().contains(other),
        0 < wanted <= bytes@.len(),
    ensures
        ({
            let event = ReadEvent::Body { wanted, got: Received::Data(bytes) };
            let after = t.after_read(token, event);
            &&& t.read_step(token, event) == (TorrentReadStep::Message {
                kind: wire::kind_of(bytes@[0]),
                bytes,
            })
            &&& bytes@[0] == 5 ==> after.conns[token].piece_bitmap.len() == 8 * (bytes@.len() - 1)
            &&& bytes@[0] == 5 && 0 <= j < 8 * (bytes@.len() - 1)
                ==> after.conns[token].piece_bitmap[j] == bitfield::byte_bit(
                bytes@[1 + j / 8],
                j % 8,
            )
            &&& bytes@[0] != 5 ==> after.conns[token].piece_bitmap == t.conns[token].piece_bitmap
            &&& after.conns[token].handshake_done
            &&& after.conns[token].read_continuation is None
            &&& after.conns.dom() == t.conns.dom()
            &&& after.conns[other].send_queue == t.conns[other].send_queue.push(bytes@)
            &&& after.conns[other].interest == t.conns[other].interest.insert(Readiness::Writable)
            &&& after.conns[other].token == t.conns[other].token
            &&& after.conns[other].is_idle == t.conns[other].is_idle
            &&& after.conns[other].is_reset == t.conns[other].is_reset
            &&& after.conns[other].is_to_be_removed == t.conns[other].is_to_be_removed
            &&& after.conns[other].write_continuation == t.conns[other].write_continuation
            &&& after.conns[other].piece_buf == t.conns[other].piece_buf
            &&& other != token ==> after.conns[other].piece_bitmap == t.conns[other].piece_bitmap
                && after.conns[other].handshake_done == t.conns[other].handshake_done
                && after.conns[other].read_continuation == t.conns[other].read_continuation
            &&& (TorrentView { conns: t.conns, ..after }) == t
        }),
{
    let event = ReadEvent::Body { wanted, got: Received::Data(bytes) };
    let after = t.after_read(token, event);
    assert(after.conns.dom() =~= t.conns.dom());
    if bytes@[0] == 5 && 0 <= j < 8 * (bytes@.len() - 1) {
        assert(bytes@.skip(1)[j / 8] == bytes@[1 + j / 8]);
    }
}

/// A read that brings no message yet is passed on as the connection asks, and changes that
/// connection alone.
pub proof fn law_read_without_message(t: TorrentView, token: usize, event: ReadEvent, other: usize)
    requires
        t.conns.dom().contains(token),
    ensures
        t.conns[token].read_step(event) matches ReadStep::NeedPrefix(n) ==> t.read_step(token, event)
            == TorrentReadStep::NeedPrefix(n),
        t.conns[token].read_step(event) matches ReadStep::NeedBody(n) ==> t.read_step(token, event)
            == TorrentReadStep::NeedBody(n),
        t.conns[token].read_step(event) == ReadStep::Finished(Ok(None)) ==> t.read_step(token, event)
            == TorrentReadStep::Finished(Ok(())),
        t.conns[token].read_step(event) matches ReadStep::Finished(Err(e)) ==> t.read_step(
            token,
            event,
        ) == TorrentReadStep::Finished(Err(e)),
        !(t.read_step(token, event) is Message) ==> {
            let after = t.after_read(token, event);
            &&& after.conns[token] == t.conns[token].after_read(event)
            &&& other != token ==> after.conns.dom().contains(other) == t.conns.dom().contains(other)
                && after.conns[other] == t.conns[other]
            &&& (TorrentView { conns: t.conns, ..after }) == t
        },
{
}

/// What the tracker lists is what is dialled: after a reply whose peers are these bytes, the
/// torrent knows one peer for each six of them, and turns to the host and the port that they say,
/// peer after peer, until there are no more. All else of the torrent is as it was.
pub proof fn law_listed_address_is_dialled(
    t: TorrentView,
    bytes: Seq<u8>,
    told: TorrentView,
    i: int,
    step: DialStep,
)
    requires
        t.told_of_peers(bytes, told),
        told.turns_to(i, step),
        0 <= i <= usize::MAX,
    ensures
        told.tracker_info.peers.len() * 6 == bytes.len(),
        (TorrentView { tracker_info: t.tracker_info, ..told }) == t,
        6 * i < bytes.len() ==> {
            &&& step matches DialStep::Connect { peer, address }
            &&& peer == i
            &&& address.ip@ == seq![
                bytes[6 * i],
                bytes[6 * i + 1],
                bytes[6 * i + 2],
                bytes[6 * i + 3],
            ]
            &&& address.port == 256 * bytes[6 * i + 4] + bytes[6 * i + 5]
            &&& told.tracker_info.peers[i].ip_port == address
        },
        6 * i >= bytes.len() ==> step == DialStep::Finished,
{
    let addresses = choose|addresses: Seq<PeerAddr>| #[trigger]
        tracker::lists_addresses(bytes, addresses) && told == (TorrentView {
            tracker_info: TrackerInfoView::reply(addresses),
            ..t
        });
    tracker::law_reply_names_peers(addresses, i);
    tracker::law_addresses(bytes, addresses, i, 0);
    if i < addresses.len() {
        tracker::law_addresses(bytes, addresses, i, 1);
        tracker::law_addresses(bytes, addresses, i, 2);
        tracker::law_addresses(bytes, addresses, i, 3);
        assert(addresses[i].ip@ =~= seq![
            bytes[6 * i],
            bytes[6 * i + 1],
            bytes[6 * i + 2],
            bytes[6 * i + 3],
        ]);
    }
}

/// The steps of an attempt to connect: it starts with the first peer, and goes on with the next one
/// after each that was registered or refused. There is a connection for a peer as long as there are
/// fewer than 128, under a token that none had. It is registered for what it waits for, for one
/// event. A refused one is dropped, and a peer that cannot be connected to ends the attempt.
pub proof fn law_dial_steps(t: TorrentView, event: DialEvent, after: TorrentView, step: DialStep)
    requires
        t.inv(),
        t.dials(event),
        t.tracker_info.peers.len() <= usize::MAX,
        t.dialled(event, after, step),
    ensures
        ({
            let peers = t.tracker_info.peers;
            match event {
                DialEvent::Start => {
                    &&& after == t
                    &&& peers.len() == 0 ==> step == DialStep::Finished
                    &&& peers.len() > 0 ==> step == (DialStep::Connect {
                        peer: 0,
                        address: peers[0].ip_port,
                    })
                },
                DialEvent::Failed => after == t && step == DialStep::Finished,
                DialEvent::Connected { peer } => {
                    &&& t.conns.dom().len() >= 128 ==> after == t && step == DialStep::Finished
                    &&& t.conns.dom().len() < 128 ==> {
                        &&& step matches DialStep::Register { peer: of, token, interest, options }
                        &&& of == peer
                        &&& token < 128
                        &&& !t.conns.dom().contains(token)
                        &&& after.conns.dom() == t.conns.dom().insert(token)
                        &&& after.conns.remove(token) == t.conns
                        &&& (TorrentView { conns: t.conns, ..after }) == t
                        &&& after.conns[token].token == token
                        &&& after.conns[token].is_idle
                        &&& after.conns[token].send_queue.len() == 0
                        &&& readiness::kinds_of(interest) == set![
                            Readiness::Hup,
                            Readiness::Readable,
                            Readiness::Writable,
                        ]
                        &&& readiness::options_of(options) == set![
                            PollOption::Edge,
                            PollOption::Oneshot,
                        ]
                    }
                },
                DialEvent::Registered { peer, token, accepted } => {
                    &&& peer + 1 < peers.len() ==> step == (DialStep::Connect {
                        peer: (peer + 1) as usize,
                        address: peers[peer + 1].ip_port,
                    })
                    &&& peer + 1 >= peers.len() ==> step == DialStep::Finished
                    &&& !accepted ==> after.conns == t.conns.remove(token)
                    &&& accepted ==> after.conns.dom() == t.conns.dom()
                    &&& after.conns.remove(token) == t.conns.remove(token)
                    &&& (TorrentView { conns: t.conns, ..after }) == t
                },
            }
        }),
{
    match event {
        DialEvent::Connected { peer } => {
            if t.conns.dom().len() < 128 {
                let token = step->Register_token;
                assert(after.conns.remove(token) =~= t.conns);
                assert(readiness::kinds_of(step->interest) =~= set![
                    Readiness::Hup,
                    Readiness::Readable,
                    Readiness::Writable,
                ]);
            }
        },
        DialEvent::Registered { peer, token, accepted } => {
            if accepted {
                assert(after.conns.dom() =~= t.conns.dom());
            }
            assert(after.conns.remove(token) =~= t.conns.remove(token));
        },
        _ => {},
    }
}

/// What comes of a registration after a connection was made: greeted, it has what it had to send
/// before and then a handshake, the interest in pieces and a request, and is not idle any more.
pub proof fn law_greeting_is_added(t: TorrentView, conn: ConnectionView, peer: usize)
    ensures
        ({
            let greeted = t.greeted(conn, peer);
            &&& greeted.send_queue == conn.send_queue + seq![
                wire::handshake_bytes(t.metainfo.info_hash, encode_utf8(t.peer_id)),
                seq![0u8, 0u8, 0u8, 1u8, 2u8],
                wire::request_bytes(low32(peer as int), 0, 16384),
            ]
            &&& !greeted.is_idle
            &&& greeted.interest == conn.interest.insert(Readiness::Writable)
            &&& (ConnectionView {
                send_queue: conn.send_queue,
                is_idle: conn.is_idle,
                interest: conn.interest,
                ..greeted
            }) == conn
        }),
{
    wire::law_message_bytes(2, low32(peer as int), 0, 16384);
    let greeted = t.greeted(conn, peer);
    assert(greeted.send_queue =~= conn.send_queue + seq![
        wire::handshake_bytes(t.metainfo.info_hash, encode_utf8(t.peer_id)),
        seq![0u8, 0u8, 0u8, 1u8, 2u8],
        wire::request_bytes(low32(peer as int), 0, 16384),
    ]);
    assert(greeted.interest =~= conn.interest.insert(Readiness::Writable));
}

/// A new torrent has the name that its metainfo gives it, all its bytes left to get, a bit for each
/// piece, none of which is there, and neither peers nor connections nor files that are placed.
pub proof fn law_new_torrent(m: MetainfoView, peer_id: Seq<char>, port: u16, i: int)
    ensures
        ({
            let t = TorrentView::fresh(m, peer_id, port);
            let size = metainfo::sum_of_lengths(m.files);
            &&& t.metainfo == m
            &&& m.directory matches Some(name) ==> t.root_name == name
            &&& m.directory is None ==> t.root_name == m.files[0].paths[0]
            &&& t.peer_id == peer_id
            &&& t.port == port
            &&& t.piece_bitmap.len() == m.piece_count
            &&& 0 <= i < m.piece_count ==> !t.piece_bitmap[i]
            &&& t.block_bitmap.len() == 0
            &&& t.files.len() == 0
            &&& t.piece_nxt_req == 0
            &&& t.uploaded == 0
            &&& t.downloaded == 0
            &&& 0 <= size <= usize::MAX ==> t.left == size
            &&& t.num_seeders == 0
            &&& t.num_leachers == 0
            &&& t.tracker_info.peers.len() == 0
            &&& t.tracker_info.interval == 0
            &&& t.tracker_info.tracker_id is None
            &&& t.conns.dom() == Set::<usize>::empty()
            &&& t.token == 10_000_000
        }),
{
    metainfo::law_size_is_sum(m, 0);
}

/// To place the files gives each of them a place, and each block of 16384 bytes of each piece a map
/// in which nothing is there, and changes nothing else.
pub proof fn law_laid_out(t: TorrentView, i: int, j: int)
    requires
        t.metainfo.block_count() >= 0,
    ensures
        t.laid_out().files.len() == t.metainfo.files.len(),
        0 <= i < t.metainfo.files.len() ==> t.laid_out().files[i] == t.metainfo.placed(i),
        t.laid_out().block_bitmap.len() == t.metainfo.piece_count * t.metainfo.blocks_per_piece(),
        0 <= i < t.laid_out().block_bitmap.len() ==> t.laid_out().block_bitmap[i].len() == 16384,
        0 <= i < t.laid_out().block_bitmap.len() && 0 <= j < 16384
            ==> !t.laid_out().block_bitmap[i][j],
        (TorrentView { files: t.files, block_bitmap: t.block_bitmap, ..t.laid_out() }) == t,
{
    assert(t.metainfo.piece_count * t.metainfo.blocks_per_piece() == t.metainfo.blocks_per_piece()
        * t.metainfo.piece_count) by (nonlinear_arith);
}

/// What a torrent tells its tracker are its own numbers: the bytes left, as they are read back, are
/// those of the torrent, and for a new one the size of its files together. Without a tracker
/// nothing is asked.
pub proof fn law_torrent_announces_itself(
    t: TorrentView,
    m: MetainfoView,
    peer_id: Seq<char>,
    port: u16,
    r: Result<String, AnnounceError>,
)
    requires
        t.announced(r),
    ensures
        t.metainfo.main_tracker is None <==> r == Err::<String, _>(AnnounceError::NoTracker),
        t.metainfo.main_tracker matches Some(url) ==> {
            &&& tracker::url_of(url) is None ==> r == Err::<String, _>(AnnounceError::InvalidUrl)
            &&& tracker::url_of(url) matches Some(base) ==> (r matches Ok(text) ==> text@
                == tracker::with_pairs(base, t.request().pairs()))
        },
        t.request().pairs()[0].1 == t.metainfo.info_hash,
        t.request().pairs()[1].1 == encode_utf8(t.peer_id),
        text::parsed(tracker::text_of_bytes(t.request().pairs()[2].1), 0xffff) == Some(
            t.port as nat,
        ),
        text::parsed(tracker::text_of_bytes(t.request().pairs()[3].1), usize::MAX as nat) == Some(
            t.uploaded as nat,
        ),
        text::parsed(tracker::text_of_bytes(t.request().pairs()[4].1), usize::MAX as nat) == Some(
            t.downloaded as nat,
        ),
        text::parsed(tracker::text_of_bytes(t.request().pairs()[5].1), usize::MAX as nat) == Some(
            t.left as nat,
        ),
        0 <= metainfo::sum_of_lengths(m.files) <= usize::MAX ==> text::parsed(
            tracker::text_of_bytes(
                TorrentView::fresh(m, peer_id, port).request().pairs()[5].1,
            ),
            usize::MAX as nat,
        ) == Some(metainfo::sum_of_lengths(m.files) as nat),
{
    tracker::law_announced_values(t.request());
    tracker::law_announced_values(TorrentView::fresh(m, peer_id, port).request());
    law_new_torrent(m, peer_id, port, 0);
}

/// A torrent is made of the bytes of a metainfo file exactly where they are one, its sizes can be
/// counted, and its creation date has a text; it can be tracked where its files have a place too.
pub proof fn law_reading(bytes: Seq<u8>)
    ensures
        metainfo_of(bytes) is None <==> TorrentView::reading(bytes) == Err::<
            (MetainfoView, Seq<char>),
            _,
        >(MetainfoError::Malformed),
        metainfo_of(bytes) matches Some(m) ==> {
            &&& !m.usable() <==> TorrentView::reading(bytes) == Err::<(MetainfoView, Seq<char>), _>(
                MetainfoError::Unusable,
            )
            &&& m.usable() && m.dated_overview() is None <==> TorrentView::reading(bytes) == Err::<
                (MetainfoView, Seq<char>),
                _,
            >(MetainfoError::DateOutOfRange)
            &&& m.usable() ==> (m.dated_overview() matches Some(overview) ==> TorrentView::reading(
                bytes,
            ) == Ok::<_, MetainfoError>((m, overview)))
            &&& m.placeable() ==> TorrentView::reading_to_track(bytes) == TorrentView::reading(
                bytes,
            )
            &&& !m.placeable() ==> TorrentView::reading_to_track(bytes) is Err
            &&& TorrentView::reading(bytes) is Ok && !m.placeable()
                ==> TorrentView::reading_to_track(bytes) == Err::<(MetainfoView, Seq<char>), _>(
                MetainfoError::Unusable,
            )
        },
        TorrentView::reading(bytes) matches Err(e) ==> TorrentView::reading_to_track(bytes) == Err::<
            (MetainfoView, Seq<char>),
            _,
        >(e),
{
}

/// What is listed of the connections: the tokens of those that `p` holds of, from the smallest to
/// the largest.
pub proof fn law_lists(
    t: TorrentView,
    tokens: Seq<usize>,
    p: spec_fn(ConnectionView) -> bool,
    i: int,
    token: usize,
)
    requires
        t.lists(tokens, p),
    ensures
        0 < i < tokens.len() ==> tokens[i - 1] < tokens[i],
        t.conns.dom().contains(token) && p(t.conns[token]) <==> exists|k: int|
            0 <= k < tokens.len() && tokens[k] == token,
{
    assert(tokens.contains(token) <==> t.conns.dom().contains(token) && p(t.conns[token]));
    assert(ascending(tokens));
}

/// After a connection was registered anew it is not idle, and one that was refused is reset.
/// Nothing else changes.
pub proof fn law_reregistration(t: TorrentView, token: usize, other: usize)
    requires
        t.conns.dom().contains(token),
    ensures
        t.after_reregistration(token, true).conns[token] == (ConnectionView {
            is_idle: false,
            ..t.conns[token]
        }),
        t.after_reregistration(token, false).conns[token] == (ConnectionView {
            is_reset: true,
            ..t.conns[token]
        }),
        other != token ==> t.after_reregistration(token, true).conns[other] == t.conns[other]
            && t.after_reregistration(token, false).conns[other] == t.conns[other],
        t.after_reregistration(token, true).conns.dom() == t.conns.dom(),
        t.after_reregistration(token, false).conns.dom() == t.conns.dom(),
        (TorrentView { conns: t.conns, ..t.after_reregistration(token, true) }) == t,
        (TorrentView { conns: t.conns, ..t.after_reregistration(token, false) }) == t,
{
    assert(t.after_reregistration(token, true).conns.dom() =~= t.conns.dom());
    assert(t.after_reregistration(token, false).conns.dom() =~= t.conns.dom());
}

} // verus!
