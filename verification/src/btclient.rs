//! The client: the torrents that it tracks, and who it is to its peers.

use std::collections::{HashMap, HashSet};

use vstd::arithmetic::power::pow;
use vstd::prelude::*;
use vstd::std_specs::iter::IteratorSpec;
use vstd::string::*;
use vstd::utf8::*;

use crate::metainfo::MetainfoError;
use crate::text;
use crate::torrent::{Command, Torrent, TorrentView};
use crate::wire;

verus! {

broadcast use vstd::std_specs::hash::group_hash_axioms;

/// A client.
pub struct BTClient {
    torrents: HashSet<usize>,
    torrent_roots: HashMap<usize, String>,
    // peer_id or client id
    peer_id: String,
    // between 6881-6889
    port: u16,
    next_id: usize,
}

/// What a client is, in mathematical terms.
pub struct BTClientView {
    pub torrents: Set<usize>,
    pub torrent_roots: Map<usize, Seq<char>>,
    pub peer_id: Seq<char>,
    pub port: u16,
    pub next_id: usize,
}

/// The id by which a client that was started at a point in time, in seconds since the start of
/// 1970, goes among its peers.
pub open spec fn peer_id_at(secs: nat) -> Seq<char> {
    "-bittorrent-rs-"@ + text::decimal(secs % 100_000)
}

impl BTClientView {
    /// A client that was just started.
    pub open spec fn fresh(port: u16, secs: nat) -> BTClientView {
        BTClientView {
            torrents: Set::empty(),
            torrent_roots: Map::empty(),
            peer_id: peer_id_at(secs),
            port,
            next_id: 0,
        }
    }

    /// What holds of a client at all times: each torrent has a name, the ids of torrents are below
    /// the next one to be given out, and the peer id fits in its field of a handshake.
    pub open spec fn inv(self) -> bool {
        &&& self.torrents == self.torrent_roots.dom()
        &&& self.torrents.finite()
        &&& forall|id: usize| #[trigger] self.torrents.contains(id) ==> id < self.next_id
        &&& encode_utf8(self.peer_id).len() <= wire::HASH_LEN
    }

    /// The client with one more torrent.
    pub open spec fn tracking(self, root_name: Seq<char>) -> BTClientView {
        BTClientView {
            torrents: self.torrents.insert(self.next_id),
            torrent_roots: self.torrent_roots.insert(self.next_id, root_name),
            next_id: (self.next_id + 1) as usize,
            ..self
        }
    }

    /// The client without a torrent.
    pub open spec fn without(self, id: usize) -> BTClientView {
        BTClientView {
            torrents: self.torrents.remove(id),
            torrent_roots: self.torrent_roots.remove(id),
            ..self
        }
    }

    /// Whether a list holds the ids and names of all torrents, each torrent once.
    pub open spec fn lists(self, list: Seq<(usize, String)>) -> bool {
        &&& forall|i: int|
            0 <= i < list.len() ==> self.torrent_roots.dom().contains((#[trigger] list[i]).0)
                && list[i].1@ == self.torrent_roots[list[i].0]
        &&& forall|i: int, j: int| 0 <= i < j < list.len() ==> (#[trigger] list[i]).0 != (
        #[trigger] list[j]).0
        &&& forall|id: usize| #[trigger]
            self.torrent_roots.dom().contains(id) ==> exists|i: int|
                0 <= i < list.len() && (#[trigger] list[i]).0 == id
    }
}

impl View for BTClient {
    type V = BTClientView;

    closed spec fn view(&self) -> BTClientView {
        BTClientView {
            torrents: self.torrents@,
            torrent_roots: self.torrent_roots@.map_values(|s: String| s@),
            peer_id: self.peer_id@,
            port: self.port,
            next_id: self.next_id,
        }
    }
}

/// A torrent that was added.
pub struct Added {
    pub id: usize,
    pub torrent: Torrent,
    /// The overview of its metainfo file.
    pub overview: String,
}

impl BTClient {
    /// What holds of a client at all times.
    pub open spec fn wf(&self) -> bool {
        self@.inv()
    }

    /// Makes a client that listens on `port`, started at `secs` seconds after the start of 1970.
    pub fn new(port: u16, secs: u64) -> (r: BTClient)
        ensures
            r.wf(),
            r@ == BTClientView::fresh(port, secs as nat),
    {
        let mut peer_id = "-bittorrent-rs-".to_owned();
        text::push_decimal(&mut peer_id, secs % 100_000);
        let r = BTClient {
            torrents: HashSet::new(),
            torrent_roots: HashMap::new(),
            peer_id,
            port,
            next_id: 0,
        };
        proof {
            law_peer_id(secs as nat);
            assert(r@.torrents =~= Set::empty());
            assert(r@.torrent_roots =~= Map::empty());
        }
        r
    }

    /// The id that the next torrent gets.
    pub fn next_id(&self) -> (r: usize)
        ensures
            r == self@.next_id,
    {
        self.next_id
    }

    /// Adds the torrent that the bytes of a metainfo file describe. The torrent goes to the caller,
    /// who runs it.
    pub fn add(&mut self, bytes: &Vec<u8>) -> (r: Result<Added, MetainfoError>)
        requires
            old(self).wf(),
            old(self)@.next_id < usize::MAX,
        ensures
            final(self).wf(),
            match TorrentView::reading_to_track(bytes@) {
                Ok((m, overview)) => {
                    &&& r matches Ok(added)
                    &&& added.id == old(self)@.next_id
                    &&& added.torrent.wf()
                    &&& added.torrent@ == TorrentView::fresh(
                        m,
                        old(self)@.peer_id,
                        old(self)@.port,
                    ).laid_out()
                    &&& added.overview@ == overview
                    &&& final(self)@ == old(self)@.tracking(m.root_name())
                },
                Err(e) => r == Err::<Added, _>(e) && final(self)@ == old(self)@,
            },
    {
        match Torrent::new(bytes, self.peer_id.clone(), self.port) {
            Ok((mut torrent, overview)) => {
                if !torrent.placeable() {
                    return Err(MetainfoError::Unusable);
                }
                torrent.lay_out();
                let id: usize = self.track(torrent.root_name());
                Ok(Added { id, torrent, overview })
            },
            Err(e) => Err(e),
        }
    }

    /// Takes a torrent of this name into the list, and gives its id.
    pub fn track(&mut self, root_name: String) -> (id: usize)
        requires
            old(self).wf(),
            old(self)@.next_id < usize::MAX,
        ensures
            final(self).wf(),
            id == old(self)@.next_id,
            final(self)@ == old(self)@.tracking(root_name@),
    {
        let id: usize = self.next_id;
        self.torrent_roots.insert(id, root_name);
        self.torrents.insert(id);
        self.next_id = id + 1;
        assert(self@.torrent_roots =~= old(self)@.torrent_roots.insert(id, root_name@));
        assert(self@.torrents =~= self@.torrent_roots.dom());
        id
    }

    /// Removes a torrent, if there is one with this id, and gives the number of those that are
    /// left.
    pub fn remove(&mut self, id: usize) -> (r: Result<usize, String>)
        requires
            old(self).wf(),
        ensures
            final(self).wf(),
            final(self)@ == old(self)@.without(id),
            r matches Ok(left) && left == final(self)@.torrents.len(),
    {
        self.torrents.remove(&id);
        self.torrent_roots.remove(&id);
        assert(self@.torrents =~= old(self)@.torrents.remove(id));
        assert(self@.torrent_roots =~= old(self)@.torrent_roots.remove(id));
        assert(self@.torrents =~= self@.torrent_roots.dom());
        Ok(self.torrents.len())
    }

    /// The ids and names of all torrents, in no particular order.
    pub fn list(&self) -> (r: Vec<(usize, String)>)
        requires
            self.wf(),
        ensures
            self@.lists(r@),
    {
        let mut r: Vec<(usize, String)> = Vec::new();
        let pairs = self.torrent_roots.iter();
        let ghost all = pairs.remaining();
        for (id, root_name) in it: pairs
            invariant
                it.seq() == all,
                r@.len() == it.index(),
                forall|i: int|
                    0 <= i < r@.len() ==> (#[trigger] r@[i]).0 == *all[i].0 && r@[i].1@ == (
                    *all[i].1)@,
        {
            r.push((*id, root_name.clone()));
        }
        proof {
            let roots = self.torrent_roots@;
            assert forall|i: int| 0 <= i < r@.len() implies self@.torrent_roots.dom().contains(
                (#[trigger] r@[i]).0,
            ) && r@[i].1@ == self@.torrent_roots[r@[i].0] by {
                assert(roots.contains_key(*all[i].0));
            }
            assert forall|i: int, j: int| 0 <= i < j < r@.len() implies (#[trigger] r@[i]).0 != (
            #[trigger] r@[j]).0 by {
                assert(roots[*all[i].0] == *all[i].1);
                assert(roots[*all[j].0] == *all[j].1);
                assert(all[i] != all[j]);
            }
            assert forall|id: usize| #[trigger]
                self@.torrent_roots.dom().contains(id) implies exists|i: int|
                0 <= i < r@.len() && (#[trigger] r@[i]).0 == id by {
                assert(roots.contains_key(id));
                let at = choose|i: int| 0 <= i < all.len() && all[i] == (&id, &roots[id]);
                assert(r@[at].0 == id);
            }
        }
        r
    }

    /// Whether there is a torrent with this id.
    pub fn contains(&self, id: usize) -> (r: bool)
        ensures
            r == self@.torrents.contains(id),
    {
        self.torrents.contains(&id)
    }

    /// Starts the download of a torrent: gives the id of the torrent to send to, and the one
    /// command to send.
    pub fn start_download(&self, id: usize) -> (r: (usize, Command))
        requires
            self@.torrents.contains(id),
        ensures
            r == (id, Command::StartDownload),
    {
        (id, Command::StartDownload)
    }

    /// Lists the files of a torrent: gives the id of the torrent to send to, and the one command to
    /// send.
    pub fn showfiles(&self, id: usize) -> (r: (usize, Command))
        requires
            self@.torrents.contains(id),
        ensures
            r == (id, Command::ListFiles),
    {
        (id, Command::ListFiles)
    }
}

/// A peer id has sixteen to twenty bytes, as many as characters, and so fits in its field of a
/// handshake. It starts with the name of the client.
pub proof fn law_peer_id(secs: nat)
    ensures
        encode_utf8(peer_id_at(secs)) == wire::ascii_bytes(peer_id_at(secs)),
        16 <= encode_utf8(peer_id_at(secs)).len() <= wire::HASH_LEN,
        peer_id_at(secs).take(15) == "-bittorrent-rs-"@,
{
    reveal_strlit("-bittorrent-rs-");
    let id = peer_id_at(secs);
    let digits = text::decimal(secs % 100_000);
    text::lemma_decimal_digits(secs % 100_000);
    assert(pow(10, 5) == 100_000) by {
        reveal(pow);
        reveal_with_fuel(pow, 6);
    }
    text::lemma_decimal_len(secs % 100_000, 5);
    assert forall|i: int| 0 <= i < id.len() implies (#[trigger] id[i]) as u32 <= 0x7f by {
        if i >= 15 {
            assert(text::is_digit(digits[i - 15]));
        }
    }
    is_ascii_chars_encode_utf8(id);
    assert(id.take(15) =~= "-bittorrent-rs-"@);
    assert(encode_utf8(id) =~= wire::ascii_bytes(id));
}

/// Each torrent gets an id that no torrent has or had before: ids are given out in ascending
/// order, and removing a torrent gives none back.
pub proof fn law_ids_are_new(c: BTClientView, root_name: Seq<char>, id: usize)
    requires
        c.inv(),
        c.next_id < usize::MAX,
    ensures
        !c.torrents.contains(c.next_id),
        c.tracking(root_name).inv(),
        c.tracking(root_name).next_id > c.next_id,
        c.without(id).inv(),
        c.without(id).next_id == c.next_id,
{
    assert(c.tracking(root_name).torrents =~= c.tracking(root_name).torrent_roots.dom());
    assert(c.without(id).torrents =~= c.without(id).torrent_roots.dom());
}

/// To add a torrent and to remove it again leaves the torrents as they were, and so does to remove
/// one that is not there. Adding or removing one torrent leaves the others alone.
pub proof fn law_add_and_remove(c: BTClientView, root_name: Seq<char>, id: usize, other: usize)
    requires
        c.inv(),
        c.next_id < usize::MAX,
    ensures
        c.tracking(root_name).without(c.next_id).torrents == c.torrents,
        c.tracking(root_name).without(c.next_id).torrent_roots == c.torrent_roots,
        c.tracking(root_name).torrents.len() == c.torrents.len() + 1,
        c.tracking(root_name).torrent_roots[c.next_id] == root_name,
        !c.torrents.contains(id) ==> c.without(id) == c,
        other != c.next_id ==> c.tracking(root_name).torrents.contains(other)
            == c.torrents.contains(other) && c.tracking(root_name).torrent_roots[other]
            == c.torrent_roots[other],
        other != id ==> c.without(id).torrents.contains(other) == c.torrents.contains(other)
            && c.without(id).torrent_roots[other] == c.torrent_roots[other],
{
    assert(!c.torrents.contains(c.next_id));
    assert(!c.torrent_roots.dom().contains(c.next_id));
    assert(c.tracking(root_name).without(c.next_id).torrents =~= c.torrents);
    assert(c.tracking(root_name).without(c.next_id).torrent_roots =~= c.torrent_roots);
    if !c.torrents.contains(id) {
        assert(c.without(id).torrents =~= c.torrents);
        assert(c.without(id).torrent_roots =~= c.torrent_roots);
    }
}

/// A torrent that is added comes on top of the list of all torrents.
pub proof fn law_list_grows(c: BTClientView, list: Seq<(usize, String)>, root_name: String)
    requires
        c.inv(),
        c.next_id < usize::MAX,
        c.lists(list),
    ensures
        c.tracking(root_name@).lists(list.push((c.next_id, root_name))),
{
    let after = c.tracking(root_name@);
    let longer = list.push((c.next_id, root_name));
    assert forall|i: int| 0 <= i < longer.len() implies after.torrent_roots.dom().contains(
        (#[trigger] longer[i]).0,
    ) && longer[i].1@ == after.torrent_roots[longer[i].0] by {
        if i < list.len() {
            assert(longer[i] == list[i]);
            assert(c.torrents.contains(list[i].0));
        }
    }
    assert forall|i: int, j: int| 0 <= i < j < longer.len() implies (#[trigger] longer[i]).0 != (
    #[trigger] longer[j]).0 by {
        assert(longer[i] == list[i]);
        assert(c.torrents.contains(list[i].0));
        if j < list.len() {
            assert(longer[j] == list[j]);
        }
    }
    assert forall|id: usize| #[trigger]
        after.torrent_roots.dom().contains(id) implies exists|i: int|
        0 <= i < longer.len() && (#[trigger] longer[i]).0 == id by {
        if id == c.next_id {
            assert(longer[list.len() as int].0 == id);
        } else {
            assert(c.torrent_roots.dom().contains(id));
            let i = choose|i: int| 0 <= i < list.len() && (#[trigger] list[i]).0 == id;
            assert(longer[i].0 == id);
        }
    }
}

/// A list of all torrents has as many entries as there are torrents.
pub proof fn law_list_is_complete(c: BTClientView, list: Seq<(usize, String)>)
    requires
        c.inv(),
        c.lists(list),
    ensures
        list.len() == c.torrents.len(),
{
    let ids = list.map_values(|e: (usize, String)| e.0);
    assert(ids.no_duplicates());
    ids.unique_seq_to_set();
    assert forall|id: usize| #[trigger] ids.to_set().contains(id) == c.torrents.contains(id) by {
        if c.torrents.contains(id) {
            assert(c.torrent_roots.dom().contains(id));
            let i = choose|i: int| 0 <= i < list.len() && (#[trigger] list[i]).0 == id;
            assert(ids[i] == id);
        }
        if ids.to_set().contains(id) {
            let i = choose|i: int| 0 <= i < ids.len() && ids[i] == id;
            assert(list[i].0 == id);
        }
    }
    assert(ids.to_set() =~= c.torrents);
}

/// Behind the name of the client, a peer id has the last five digits of the time, without zeros in
/// front: a number that is read back as what the time leaves by a hundred thousand.
pub proof fn law_peer_id_tells_time(secs: nat)
    ensures
        peer_id_at(secs).skip(15) == text::decimal(secs % 100_000),
        text::parsed(peer_id_at(secs).skip(15), 99_999) == Some(secs % 100_000),
{
    reveal_strlit("-bittorrent-rs-");
    assert(peer_id_at(secs).skip(15) =~= text::decimal(secs % 100_000));
    text::law_decimal_read_back(secs % 100_000, 99_999);
}

/// A new client has no torrents, the port that it was given, and gives out ids from zero on.
pub proof fn law_new_client(port: u16, secs: nat)
    ensures
        BTClientView::fresh(port, secs).torrents == Set::<usize>::empty(),
        BTClientView::fresh(port, secs).torrent_roots.dom() == Set::<usize>::empty(),
        BTClientView::fresh(port, secs).peer_id == peer_id_at(secs),
        BTClientView::fresh(port, secs).port == port,
        BTClientView::fresh(port, secs).next_id == 0,
{
}

/// A torrent is added under the next id, with its name, and the id behind that one is the next. One
/// that is removed is gone with its name. The others, the peer id and the port are as they were.
pub proof fn law_tracking(c: BTClientView, root_name: Seq<char>, id: usize, other: usize)
    requires
        c.inv(),
        c.next_id < usize::MAX,
    ensures
        ({
            let more = c.tracking(root_name);
            &&& more.torrents.contains(other) <==> other == c.next_id || c.torrents.contains(other)
            &&& more.torrent_roots.dom().contains(other) <==> more.torrents.contains(other)
            &&& more.torrent_roots[c.next_id] == root_name
            &&& other != c.next_id ==> more.torrent_roots[other] == c.torrent_roots[other]
            &&& more.next_id == c.next_id + 1
            &&& more.peer_id == c.peer_id
            &&& more.port == c.port
        }),
        ({
            let fewer = c.without(id);
            &&& fewer.torrents.contains(other) <==> other != id && c.torrents.contains(other)
            &&& fewer.torrent_roots.dom().contains(other) <==> fewer.torrents.contains(other)
            &&& other != id ==> fewer.torrent_roots[other] == c.torrent_roots[other]
            &&& c.torrents.contains(id) ==> fewer.torrents.len() == c.torrents.len() - 1
            &&& !c.torrents.contains(id) ==> fewer.torrents.len() == c.torrents.len()
            &&& fewer.next_id == c.next_id
            &&& fewer.peer_id == c.peer_id
            &&& fewer.port == c.port
        }),
{
    if !c.torrents.contains(id) {
        assert(c.without(id).torrents =~= c.torrents);
    }
}

/// A list of the torrents has each of them once, under its own name.
pub proof fn law_list_names_each_once(
    c: BTClientView,
    list: Seq<(usize, String)>,
    i: int,
    j: int,
    id: usize,
)
    requires
        c.inv(),
        c.lists(list),
    ensures
        0 <= i < list.len() ==> c.torrents.contains(list[i].0) && list[i].1@
            == c.torrent_roots[list[i].0],
        0 <= i < list.len() && 0 <= j < list.len() && list[i].0 == list[j].0 ==> i == j,
        c.torrents.contains(id) ==> exists|k: int| 0 <= k < list.len() && list[k].0 == id,
{
    if 0 <= i < list.len() && 0 <= j < list.len() && list[i].0 == list[j].0 {
        if i < j {
            assert(list[i].0 != list[j].0);
        } else if j < i {
            assert(list[j].0 != list[i].0);
        }
    }
    if c.torrents.contains(id) {
        assert(c.torrent_roots.dom().contains(id));
        let k = choose|k: int| 0 <= k < list.len() && (#[trigger] list[k]).0 == id;
        assert(list[k].0 == id);
    }
}

} // verus!
