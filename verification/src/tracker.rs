//! Talking to a tracker: the URL of an announcement, and the peers of its reply.

use bip_bencode::{Bencode, BencodeParseError};
use bip_utracker::contact::CompactPeersV4;
use url::Url;
use vstd::prelude::*;
use vstd::string::*;
use vstd::utf8::*;

use crate::bitfield;
use crate::metainfo::optional_text;
use crate::text;
use crate::wire;

verus! {

/// The error of the bencode parser of `bip_bencode`.
#[verifier::external_type_specification]
#[verifier::external_body]
pub struct ExBencodeParseError(bip_bencode::BencodeParseError);

/// The error of the URL parser of `url`.
#[verifier::external_type_specification]
#[verifier::external_body]
pub struct ExUrlParseError(url::ParseError);

/// `String::push`: appends a character.
pub assume_specification[ String::push ](s: &mut String, c: char)
    ensures
        final(s)@ == old(s)@.push(c),
;

/// Where a peer listens.
#[derive(Clone, Copy, Debug, PartialEq, Eq)]
pub struct PeerAddr {
    pub ip: [u8; 4],
    pub port: u16,
}

/// A value that was looked up in a bencoded dictionary.
#[derive(Debug)]
pub enum Entry {
    /// The bencoded value is no dictionary.
    NotDict,
    /// The dictionary has no such key.
    Missing,
    /// The key has a value that is no byte string.
    NotBytes,
    /// The byte string under the key.
    Bytes(Vec<u8>),
}

/// What was looked up, in mathematical terms.
pub enum EntryView {
    NotDict,
    Missing,
    NotBytes,
    Bytes(Seq<u8>),
}

impl View for Entry {
    type V = EntryView;

    open spec fn view(&self) -> EntryView {
        match self {
            Entry::NotDict => EntryView::NotDict,
            Entry::Missing => EntryView::Missing,
            Entry::NotBytes => EntryView::NotBytes,
            Entry::Bytes(bytes) => EntryView::Bytes(bytes@),
        }
    }
}

/// Whether a byte stands for itself in form encoding.
pub open spec fn form_plain(b: u8) -> bool {
    ||| b == 0x2a
    ||| b == 0x2d
    ||| b == 0x2e
    ||| 0x30 <= b <= 0x39
    ||| 0x41 <= b <= 0x5a
    ||| b == 0x5f
    ||| 0x61 <= b <= 0x7a
}

/// The character of a hexadecimal digit, in upper case.
pub open spec fn upper_hex_char(d: int) -> char {
    if d < 10 {
        text::digit_char(d)
    } else {
        (55 + d) as char
    }
}

/// A byte in form encoding: itself, a plus sign for a space, or a percent sign and two digits.
pub open spec fn form_byte(b: u8) -> Seq<char> {
    if form_plain(b) {
        seq![b as char]
    } else if b == 0x20 {
        seq!['+']
    } else {
        seq!['%', upper_hex_char(b as int / 16), upper_hex_char(b as int % 16)]
    }
}

/// A byte string in form encoding.
pub open spec fn form_encoded(bytes: Seq<u8>) -> Seq<char>
    decreases bytes.len(),
{
    if bytes.len() == 0 {
        Seq::empty()
    } else {
        form_encoded(bytes.drop_last()) + form_byte(bytes.last())
    }
}

/// The part of a URL before its fragment.
pub open spec fn before_fragment(url: Seq<char>) -> Seq<char> {
    match url.index_of_first('#') {
        Some(i) => url.take(i),
        None => url,
    }
}

/// The fragment of a URL with its number sign, or nothing.
pub open spec fn fragment(url: Seq<char>) -> Seq<char> {
    match url.index_of_first('#') {
        Some(i) => url.skip(i),
        None => Seq::empty(),
    }
}

/// What comes between a URL without its fragment and a further query pair.
pub open spec fn separator(url: Seq<char>) -> Seq<char> {
    match url.index_of_first('?') {
        None => seq!['?'],
        Some(i) => if i + 1 == url.len() {
            Seq::empty()
        } else {
            seq!['&']
        },
    }
}

/// A URL with a further pair at the end of its query.
pub open spec fn with_pair(url: Seq<char>, name: Seq<u8>, value: Seq<u8>) -> Seq<char> {
    let base = before_fragment(url);
    base + separator(base) + form_encoded(name) + seq!['='] + form_encoded(value) + fragment(url)
}

/// A URL with further pairs at the end of its query.
pub open spec fn with_pairs(url: Seq<char>, pairs: Seq<(Seq<u8>, Seq<u8>)>) -> Seq<char>
    decreases pairs.len(),
{
    if pairs.len() == 0 {
        url
    } else {
        with_pair(with_pairs(url, pairs.drop_last()), pairs.last().0, pairs.last().1)
    }
}

/// The text of the URL that `Url::parse` makes of a text, or `None` where it gives an error.
pub uninterp spec fn url_of(input: Seq<char>) -> Option<Seq<char>>;

/// Whether all characters of a text are below 256, so that each stands for a byte.
pub open spec fn is_latin1(text: Seq<char>) -> bool {
    forall|i: int| 0 <= i < text.len() ==> (#[trigger] text[i]) as u32 <= 0xff
}

/// The pairs of byte strings that pairs of texts stand for.
pub open spec fn byte_pairs(pairs: Seq<(String, String)>) -> Seq<(Seq<u8>, Seq<u8>)> {
    pairs.map_values(|p: (String, String)| (wire::ascii_bytes(p.0@), wire::ascii_bytes(p.1@)))
}

/// By how much pairs at the end of its query make a URL longer.
pub open spec fn growth(url: Seq<char>, pairs: Seq<(Seq<u8>, Seq<u8>)>) -> int {
    with_pairs(url, pairs).len() - url.len()
}

/// Whether a query that makes a URL longer by `growth` has no place in it: where the query starts,
/// if there is none yet, and where the fragment starts, if there is one, is counted in 32 bits.
pub open spec fn query_overflows(url: Seq<char>, growth: int) -> bool {
    let base = before_fragment(url);
    ||| base.index_of_first('?') is None && base.len() > u32::MAX
    ||| url.index_of_first('#') is Some && base.len() + growth > u32::MAX
}

/// `Url::parse`, and the text of the URL that it gives.
#[verifier::external_body]
fn parse_url(text: &str) -> (r: Result<String, url::ParseError>)
    ensures
        r is Ok <==> url_of(text@) is Some,
        r matches Ok(url) ==> url_of(text@) == Some(url@),
{
    Ok(String::from(Url::parse(text)?))
}

/// `query_pairs_mut` and `extend_pairs` on what `Url::parse` gives, with an encoding by which each
/// character is one byte. The pairs come at the end of the query, before the fragment, in form
/// encoding. The text of a URL is ASCII, so it has as many bytes as characters; where the start of
/// the query or of the fragment exceeds 32 bits, the calls panic.
#[verifier::external_body]
fn extend_query(url: &str, pairs: &Vec<(String, String)>) -> (r: Result<String, url::ParseError>)
    requires
        0 < pairs@.len(),
        url_of(url@) matches Some(parsed) ==> !query_overflows(
            parsed,
            growth(parsed, byte_pairs(pairs@)),
        ),
    ensures
        r is Ok <==> url_of(url@) is Some,
        r matches Ok(text) ==> text@ == with_pairs(url_of(url@)->Some_0, byte_pairs(pairs@)),
{
    let mut url = Url::parse(url)?;
    url.query_pairs_mut()
        .encoding_override(Some(&|s: &str| latin1_bytes(s).into()))
        .extend_pairs(pairs);
    Ok(String::from(url))
}

/// The bytes that the characters of a text stand for. Of a character from 256 on, the lowest byte
/// is taken.
pub fn latin1_bytes(text: &str) -> (r: Vec<u8>)
    ensures
        r@ == wire::ascii_bytes(text@),
{
    let mut out: Vec<u8> = Vec::new();
    for c in it: text.chars()
        invariant
            it.seq() == text@,
            out@ == wire::ascii_bytes(text@).take(it.index()),
    {
        let ghost all = wire::ascii_bytes(text@);
        assert(all.take(it.index() + 1) =~= all.take(it.index()).push(all[it.index()]));
        out.push(c as u8);
    }
    assert(wire::ascii_bytes(text@).take(text@.len() as int) =~= wire::ascii_bytes(text@));
    out
}

/// The text whose characters stand for the bytes of a byte string.
pub fn latin1_text(bytes: &[u8]) -> (r: String)
    ensures
        is_latin1(r@),
        wire::ascii_bytes(r@) == bytes@,
        r@.len() == bytes@.len(),
{
    let mut out = String::new();
    let mut i: usize = 0;
    while i < bytes.len()
        invariant
            i <= bytes@.len(),
            is_latin1(out@),
            out@.len() == i,
            wire::ascii_bytes(out@) == bytes@.take(i as int),
        decreases bytes@.len() - i,
    {
        out.push(bytes[i] as char);
        assert(wire::ascii_bytes(out@) =~= bytes@.take(i + 1));
        i = i + 1;
    }
    assert(bytes@.take(i as int) =~= bytes@);
    out
}

/// What a client tells a tracker of itself when a download starts.
pub struct TrackerRequest<'a> {
    pub info_hash: &'a [u8],
    pub peer_id: &'a str,
    pub port: u16,
    pub uploaded: usize,
    pub downloaded: usize,
    pub left: usize,
}

/// What a client tells a tracker of itself, in mathematical terms.
pub struct TrackerRequestView {
    pub info_hash: Seq<u8>,
    pub peer_id: Seq<char>,
    pub port: u16,
    pub uploaded: usize,
    pub downloaded: usize,
    pub left: usize,
}

impl<'a> View for TrackerRequest<'a> {
    type V = TrackerRequestView;

    open spec fn view(&self) -> TrackerRequestView {
        TrackerRequestView {
            info_hash: self.info_hash@,
            peer_id: self.peer_id@,
            port: self.port,
            uploaded: self.uploaded,
            downloaded: self.downloaded,
            left: self.left,
        }
    }
}

impl TrackerRequestView {
    /// The query pairs of the announcement that a download starts.
    pub open spec fn pairs(self) -> Seq<(Seq<u8>, Seq<u8>)> {
        seq![
            pair("info_hash"@, self.info_hash),
            pair("peer_id"@, encode_utf8(self.peer_id)),
            pair("port"@, wire::ascii_bytes(text::decimal(self.port as nat))),
            pair("uploaded"@, wire::ascii_bytes(text::decimal(self.uploaded as nat))),
            pair("downloaded"@, wire::ascii_bytes(text::decimal(self.downloaded as nat))),
            pair("left"@, wire::ascii_bytes(text::decimal(self.left as nat))),
            pair("compact"@, wire::ascii_bytes("1"@)),
            pair("event"@, wire::ascii_bytes("started"@)),
            pair("supportcrypto"@, wire::ascii_bytes("0"@)),
        ]
    }
}

/// What an announcement comes to, given the URL of the tracker: the URL to ask, or an error.
pub open spec fn announces(
    tracker: Seq<char>,
    request: TrackerRequestView,
    r: Result<String, AnnounceError>,
) -> bool {
    match url_of(tracker) {
        None => r == Err::<String, _>(AnnounceError::InvalidUrl),
        Some(url) => if query_overflows(url, growth(url, request.pairs())) {
            r == Err::<String, _>(AnnounceError::TooLong)
        } else {
            r matches Ok(text) && text@ == with_pairs(url, request.pairs())
        },
    }
}

/// A query pair.
pub open spec fn pair(name: Seq<char>, value: Seq<u8>) -> (Seq<u8>, Seq<u8>) {
    (wire::ascii_bytes(name), value)
}

/// Why a tracker cannot be asked.
#[derive(Clone, Copy, Debug, PartialEq, Eq, Structural)]
pub enum AnnounceError {
    /// The torrent names no tracker.
    NoTracker,
    /// What it names is too long for a URL.
    TooLong,
    /// What it names is no URL.
    InvalidUrl,
}

/// Appends a pair to the pairs of a query.
fn push_pair(pairs: &mut Vec<(String, String)>, name: &str, value: String)
    ensures
        final(pairs)@.len() == old(pairs)@.len() + 1,
        byte_pairs(final(pairs)@) == byte_pairs(old(pairs)@).push(
            pair(name@, wire::ascii_bytes(value@)),
        ),
{
    pairs.push((name.to_owned(), value));
    assert(byte_pairs(pairs@) =~= byte_pairs(old(pairs)@).push(
        pair(name@, wire::ascii_bytes(value@)),
    ));
}

/// The number of characters of a text in form encoding, each character taken as one byte.
fn form_len(text: &str) -> (n: u128)
    ensures
        n == form_encoded(wire::ascii_bytes(text@)).len(),
        n <= 3 * u64::MAX,
{
    let bytes = latin1_bytes(text);
    let mut n: u128 = 0;
    let mut i: usize = 0;
    assert(bytes@.take(0) =~= Seq::empty());
    while i < bytes.len()
        invariant
            i <= bytes@.len(),
            n == form_encoded(bytes@.take(i as int)).len(),
            n <= 3 * i,
        decreases bytes@.len() - i,
    {
        let b: u8 = bytes[i];
        assert(bytes@.take(i + 1).drop_last() =~= bytes@.take(i as int));
        let plain: bool = b == 0x2a || b == 0x2d || b == 0x2e || (0x30 <= b && b <= 0x39) || (0x41
            <= b && b <= 0x5a) || b == 0x5f || (0x61 <= b && b <= 0x7a);
        if plain || b == 0x20 {
            n = n + 1;
        } else {
            n = n + 3;
        }
        i = i + 1;
    }
    assert(bytes@.take(i as int) =~= bytes@);
    n
}

/// The number of characters of pairs in a query, with an equals sign in each and an ampersand
/// between two.
pub open spec fn pairs_len(pairs: Seq<(Seq<u8>, Seq<u8>)>) -> nat
    decreases pairs.len(),
{
    if pairs.len() == 0 {
        0
    } else {
        pairs_len(pairs.drop_last()) + form_encoded(pairs.last().0).len() + form_encoded(
            pairs.last().1,
        ).len() + if pairs.len() == 1 {
            1nat
        } else {
            2nat
        }
    }
}

/// The number of characters of pairs in a query.
fn query_len(pairs: &Vec<(String, String)>) -> (n: u128)
    requires
        pairs@.len() <= 16,
    ensures
        n == pairs_len(byte_pairs(pairs@)),
        n <= 16 * 0x8_0000_0000_0000_0000,
{
    let ghost all = byte_pairs(pairs@);
    let mut n: u128 = 0;
    let mut i: usize = 0;
    assert(all.take(0) =~= Seq::empty());
    while i < pairs.len()
        invariant
            i <= pairs@.len() <= 16,
            all == byte_pairs(pairs@),
            n == pairs_len(all.take(i as int)),
            n <= i * 0x8_0000_0000_0000_0000,
        decreases pairs@.len() - i,
    {
        assert(all.take(i + 1).drop_last() =~= all.take(i as int));
        n = n + form_len(pairs[i].0.as_str()) + form_len(pairs[i].1.as_str()) + if i == 0 {
            1
        } else {
            2
        };
        i = i + 1;
    }
    assert(all.take(i as int) =~= all);
    n
}

/// The parts of a URL that tell whether a query has a place in it: the number of characters before
/// its fragment, where its query starts, and whether it has a fragment.
fn outline(url: &str) -> (r: (usize, Option<usize>, bool))
    ensures
        r.0 == before_fragment(url@).len(),
        match before_fragment(url@).index_of_first('?') {
            Some(i) => r.1 == Some(i as usize) && 0 <= i < r.0,
            None => r.1 is None,
        },
        r.2 == url@.index_of_first('#') is Some,
{
    let len: usize = url.unicode_len();
    let mut base: usize = 0;
    let mut query: Option<usize> = None;
    let mut fragment: bool = false;
    for c in it: url.chars()
        invariant
            it.seq() == url@,
            url@.len() == len,
            base <= it.index(),
            !fragment ==> base == it.index(),
            fragment ==> base < it.index() && url@[base as int] == '#',
            forall|j: int| 0 <= j < base ==> url@[j] != '#',
            match query {
                Some(i) => i < base && url@[i as int] == '?' && (forall|j: int|
                    0 <= j < i ==> url@[j] != '?'),
                None => forall|j: int| 0 <= j < base ==> url@[j] != '?',
            },
    {
        if !fragment {
            if c == '#' {
                fragment = true;
            } else {
                if c == '?' && query.is_none() {
                    query = Some(base);
                }
                base = base + 1;
            }
        }
    }
    proof {
        url@.index_of_first_ensures('#');
        let front = before_fragment(url@);
        front.index_of_first_ensures('?');
        assert(fragment ==> url@.contains(url@[base as int]));
        assert(front =~= url@.take(base as int));
        if let Some(i) = query {
            assert(front[i as int] == '?');
        }
    }
    (base, query, fragment)
}

/// Whether a query that makes a URL longer by `growth` has no place in it.
pub fn overflows(url: &str, growth: u128) -> (r: bool)
    requires
        growth <= u128::MAX - usize::MAX,
    ensures
        r == query_overflows(url@, growth as int),
{
    let (base, query, fragment) = outline(url);
    let limit: u128 = u32::MAX as u128;
    (query.is_none() && base as u128 > limit) || (fragment && base as u128 + growth > limit)
}

/// The number of characters that come between a URL and a further query pair.
fn separator_len(url: &str) -> (n: u128)
    ensures
        n == separator(before_fragment(url@)).len(),
        n <= 1,
{
    let (base, query, _) = outline(url);
    match query {
        Some(i) => if i + 1 == base {
            0
        } else {
            1
        },
        None => 1,
    }
}

/// The URL by which a tracker is told that a download starts: that of the tracker, with what the
/// client tells of itself at the end of its query.
pub fn announce_url(tracker: &str, request: TrackerRequest) -> (r: Result<String, AnnounceError>)
    ensures
        announces(tracker@, request@, r),
{
    let parsed = match parse_url(tracker) {
        Ok(parsed) => parsed,
        Err(_) => return Err(AnnounceError::InvalidUrl),
    };
    let mut pairs: Vec<(String, String)> = Vec::new();
    push_pair(&mut pairs, "info_hash", latin1_text(request.info_hash));
    push_pair(&mut pairs, "peer_id", latin1_text(request.peer_id.as_bytes()));
    push_pair(&mut pairs, "port", text::decimal_text(request.port as u64));
    push_pair(&mut pairs, "uploaded", text::decimal_text(request.uploaded as u64));
    push_pair(&mut pairs, "downloaded", text::decimal_text(request.downloaded as u64));
    push_pair(&mut pairs, "left", text::decimal_text(request.left as u64));
    push_pair(&mut pairs, "compact", "1".to_owned());
    push_pair(&mut pairs, "event", "started".to_owned());
    push_pair(&mut pairs, "supportcrypto", "0".to_owned());
    assert(byte_pairs(pairs@) =~= request@.pairs());
    proof {
        lemma_growth(parsed@, request@.pairs());
    }
    let growth: u128 = separator_len(parsed.as_str()) + query_len(&pairs);
    if overflows(parsed.as_str(), growth) {
        return Err(AnnounceError::TooLong);
    }
    match extend_query(tracker, &pairs) {
        Ok(text) => Ok(text),
        Err(_) => Err(AnnounceError::InvalidUrl),
    }
}

/// Form encoding has neither question marks nor number signs.
proof fn lemma_form_encoded_chars(bytes: Seq<u8>)
    ensures
        !form_encoded(bytes).contains('?'),
        !form_encoded(bytes).contains('#'),
    decreases bytes.len(),
{
    if bytes.len() > 0 {
        let rest = form_encoded(bytes.drop_last());
        let last = form_byte(bytes.last());
        lemma_form_encoded_chars(bytes.drop_last());
        assert(form_plain(bytes.last()) ==> last[0] as u32 == bytes.last() as u32);
        lemma_upper_hex_char(bytes.last() as int / 16);
        lemma_upper_hex_char(bytes.last() as int % 16);
        assert forall|i: int| 0 <= i < form_encoded(bytes).len() implies form_encoded(bytes)[i]
            != '?' && form_encoded(bytes)[i] != '#' by {
            if i < rest.len() {
                assert(rest.contains(rest[i]));
            } else {
                assert(form_encoded(bytes)[i] == last[i - rest.len()]);
            }
        }
    }
}

/// A further pair goes between the rest of a URL and its fragment, and is followed by an ampersand
/// where another one comes.
proof fn lemma_with_pair(url: Seq<char>, name: Seq<u8>, value: Seq<u8>)
    ensures
        ({
            let base = before_fragment(url);
            let after = with_pair(url, name, value);
            &&& before_fragment(after).len() == base.len() + separator(base).len() + form_encoded(
                name,
            ).len() + 1 + form_encoded(value).len()
            &&& fragment(after) == fragment(url)
            &&& separator(before_fragment(after)).len() == 1
            &&& after.len() == before_fragment(after).len() + fragment(url).len()
            &&& url.len() == base.len() + fragment(url).len()
        }),
{
    let base = before_fragment(url);
    let front = base + separator(base) + form_encoded(name) + seq!['='] + form_encoded(value);
    let after = with_pair(url, name, value);
    url.index_of_first_ensures('#');
    base.index_of_first_ensures('?');
    lemma_form_encoded_chars(name);
    lemma_form_encoded_chars(value);
    assert(url =~= base + fragment(url));
    assert(after =~= front + fragment(url));
    assert forall|i: int| 0 <= i < front.len() implies front[i] != '#' by {
        let a = base.len() as int;
        let b = a + separator(base).len();
        let c = b + form_encoded(name).len();
        if i < a {
            assert(base[i] == url[i]);
        } else if b <= i < c {
            assert(form_encoded(name).contains(form_encoded(name)[i - b]));
            assert(front[i] == form_encoded(name)[i - b]);
        } else if i > c {
            assert(form_encoded(value).contains(form_encoded(value)[i - c - 1]));
            assert(front[i] == form_encoded(value)[i - c - 1]);
        }
    }
    after.index_of_first_ensures('#');
    match url.index_of_first('#') {
        Some(i) => {
            assert(fragment(url)[0] == '#');
            assert(after[front.len() as int] == '#');
            assert(after.contains('#'));
            let j = after.index_of_first('#')->Some_0;
            assert(j == front.len()) by {
                if j < front.len() {
                    assert(after[j] == front[j]);
                }
            }
        },
        None => {
            if after.contains('#') {
                let j = after.index_of_first('#')->Some_0;
                assert(after[j] == front[j]);
            }
        },
    }
    assert(before_fragment(after) =~= front);
    assert(fragment(after) =~= fragment(url));
    front.index_of_first_ensures('?');
    match base.index_of_first('?') {
        Some(i) => {
            assert(front[i] == base[i]);
            assert(front.contains('?'));
            let j = front.index_of_first('?')->Some_0;
            assert(j <= i);
        },
        None => {
            assert(front[base.len() as int] == '?');
            assert(front.contains('?'));
            let j = front.index_of_first('?')->Some_0;
            assert(j <= base.len());
        },
    }
}

/// How much longer pairs make a URL.
proof fn lemma_growth(url: Seq<char>, pairs: Seq<(Seq<u8>, Seq<u8>)>)
    requires
        pairs.len() > 0,
    ensures
        growth(url, pairs) == separator(before_fragment(url)).len() + pairs_len(pairs),
        separator(before_fragment(with_pairs(url, pairs))).len() == 1,
        fragment(with_pairs(url, pairs)) == fragment(url),
    decreases pairs.len(),
{
    let rest = pairs.drop_last();
    let before = with_pairs(url, rest);
    lemma_with_pair(before, pairs.last().0, pairs.last().1);
    if rest.len() > 0 {
        lemma_growth(url, rest);
    } else {
        assert(before == url);
        assert(pairs_len(rest) == 0);
    }
}

/// What stands under a key of a bencoded dictionary, as `Bencode::decode` and its accessors give
/// it, or `None` where the bytes are not bencoded.
pub uninterp spec fn bencode_entry(bytes: Seq<u8>, key: Seq<char>) -> Option<EntryView>;

/// `Bencode::decode`, then `dict`, `lookup` and `bytes` on what it gives. A value nested so deep
/// that the stack of the thread cannot hold its parts is not spoken of.
#[verifier::external_body]
fn look_up(bytes: &[u8], key: &str) -> (r: Result<Entry, BencodeParseError>)
    ensures
        r is Ok <==> bencode_entry(bytes@, key@) is Some,
        r matches Ok(entry) ==> bencode_entry(bytes@, key@) == Some(entry@),
{
    let value = Bencode::decode(bytes)?;
    Ok(match value.dict() {
        None => Entry::NotDict,
        Some(dict) => match dict.lookup(key) {
            None => Entry::Missing,
            Some(found) => match found.bytes() {
                None => Entry::NotBytes,
                Some(bytes) => Entry::Bytes(bytes.to_vec()),
            },
        },
    })
}

/// The address in the six bytes from `at` on: four of the host, then two of the port, the more
/// significant one first.
pub open spec fn address_at(bytes: Seq<u8>, at: int, address: PeerAddr) -> bool {
    &&& address.ip@ == bytes.subrange(at, at + 4)
    &&& address.port == bytes[at + 4] * 0x100 + bytes[at + 5]
}

/// Whether addresses are those that a byte string lists, six bytes each, in its order.
pub open spec fn lists_addresses(bytes: Seq<u8>, addresses: Seq<PeerAddr>) -> bool {
    &&& bytes.len() == 6 * addresses.len()
    &&& forall|i: int|
        0 <= i < addresses.len() ==> address_at(bytes, 6 * i, #[trigger] addresses[i])
}

/// `CompactPeersV4::from_bytes` and its iterator: the addresses in a byte string, six bytes each,
/// or `None` where the last one is cut off.
#[verifier::external_body]
fn read_addresses(bytes: &[u8]) -> (r: Option<Vec<PeerAddr>>)
    ensures
        r is Some <==> bytes@.len() % 6 == 0,
        r matches Some(addresses) ==> lists_addresses(bytes@, addresses@),
{
    let parsed = CompactPeersV4::from_bytes(bytes);
    if !parsed.is_done() {
        return None;
    }
    let (_, peers) = parsed.unwrap();
    Some(peers.iter().map(|a| PeerAddr { ip: a.ip().octets(), port: a.port() }).collect())
}

/// Why a reply of a tracker is of no use.
#[derive(Clone, Copy, Debug, PartialEq, Eq, Structural)]
pub enum ReplyError {
    /// It is not bencoded.
    Malformed,
    /// It is no dictionary.
    NotDictionary,
    /// It has no peers.
    NoPeers,
    /// Its peers are no byte string.
    PeersNotBytes,
    /// The last of its peers is cut off.
    TruncatedPeer,
    /// It has no interval.
    NoInterval,
}

/// The error that the entries of a reply give, or `None` for a reply that can be used.
pub open spec fn reply_fault(
    peers: Option<EntryView>,
    interval: Option<EntryView>,
) -> Option<ReplyError> {
    match peers {
        None => Some(ReplyError::Malformed),
        Some(EntryView::NotDict) => Some(ReplyError::NotDictionary),
        Some(EntryView::Missing) => Some(ReplyError::NoPeers),
        Some(EntryView::NotBytes) => Some(ReplyError::PeersNotBytes),
        Some(EntryView::Bytes(bytes)) => if bytes.len() % 6 != 0 {
            Some(ReplyError::TruncatedPeer)
        } else {
            match interval {
                Some(EntryView::NotBytes) | Some(EntryView::Bytes(_)) => None,
                _ => Some(ReplyError::NoInterval),
            }
        },
    }
}

/// What an optional entry is, in mathematical terms.
pub open spec fn optional_entry(entry: Option<Entry>) -> Option<EntryView> {
    match entry {
        Some(entry) => Some(entry@),
        None => None,
    }
}

/// The addresses of the peers, given what stands in a reply under the keys for the peers and for
/// the interval. An entry is `None` where the reply is not bencoded.
pub fn peers_of_entries(peers: Option<Entry>, interval: Option<Entry>) -> (r: Result<
    Vec<PeerAddr>,
    ReplyError,
>)
    ensures
        match reply_fault(optional_entry(peers), optional_entry(interval)) {
            Some(fault) => r == Err::<Vec<PeerAddr>, _>(fault),
            None => r matches Ok(addresses) && optional_entry(peers) matches Some(
                EntryView::Bytes(bytes),
            ) && lists_addresses(bytes, addresses@),
        },
{
    let bytes: Vec<u8> = match peers {
        None => return Err(ReplyError::Malformed),
        Some(Entry::NotDict) => return Err(ReplyError::NotDictionary),
        Some(Entry::Missing) => return Err(ReplyError::NoPeers),
        Some(Entry::NotBytes) => return Err(ReplyError::PeersNotBytes),
        Some(Entry::Bytes(bytes)) => bytes,
    };
    match read_addresses(bytes.as_slice()) {
        None => Err(ReplyError::TruncatedPeer),
        Some(addresses) => match interval {
            Some(Entry::NotBytes) | Some(Entry::Bytes(_)) => Ok(addresses),
            _ => Err(ReplyError::NoInterval),
        },
    }
}

/// The addresses of the peers that a reply of a tracker lists.
pub fn peers_of_reply(reply: &[u8]) -> (r: Result<Vec<PeerAddr>, ReplyError>)
    ensures
        match reply_fault(
            bencode_entry(reply@, "peers"@),
            bencode_entry(reply@, "interval"@),
        ) {
            Some(fault) => r == Err::<Vec<PeerAddr>, _>(fault),
            None => r matches Ok(addresses) && bencode_entry(reply@, "peers"@) matches Some(
                EntryView::Bytes(bytes),
            ) && lists_addresses(bytes, addresses@),
        },
{
    let peers = look_up(reply, "peers").ok();
    let interval = look_up(reply, "interval").ok();
    peers_of_entries(peers, interval)
}

/// A peer that a tracker has named.
pub struct Peer {
    pub id: Option<String>,
    pub ip_port: PeerAddr,
    pub piece_bitmap: bit_vec::BitVec,
    pub am_choking: bool,
    pub peer_choking: bool,
    pub am_interested: bool,
    pub peer_interested: bool,
}

/// What a peer is, in mathematical terms.
pub struct PeerView {
    pub id: Option<Seq<char>>,
    pub ip_port: PeerAddr,
    pub piece_bitmap: Seq<bool>,
    pub am_choking: bool,
    pub peer_choking: bool,
    pub am_interested: bool,
    pub peer_interested: bool,
}

impl PeerView {
    /// A peer of which only the address is known: both sides choke, neither is interested.
    pub open spec fn fresh(ip_port: PeerAddr) -> PeerView {
        PeerView {
            id: None,
            ip_port,
            piece_bitmap: Seq::empty(),
            am_choking: true,
            peer_choking: true,
            am_interested: false,
            peer_interested: false,
        }
    }
}

impl View for Peer {
    type V = PeerView;

    open spec fn view(&self) -> PeerView {
        PeerView {
            id: optional_text(self.id),
            ip_port: self.ip_port,
            piece_bitmap: bitfield::bits_of(self.piece_bitmap),
            am_choking: self.am_choking,
            peer_choking: self.peer_choking,
            am_interested: self.am_interested,
            peer_interested: self.peer_interested,
        }
    }
}

impl Peer {
    /// Makes a peer of which only the address is known.
    pub fn new(ip_port: PeerAddr) -> (r: Peer)
        ensures
            r@ == PeerView::fresh(ip_port),
    {
        Peer {
            id: None,
            ip_port,
            piece_bitmap: bitfield::empty_bits(),
            am_choking: true,
            peer_choking: true,
            am_interested: false,
            peer_interested: false,
        }
    }
}

/// What a tracker has said.
pub struct TrackerInfo {
    pub peers: Vec<Peer>,
    // in seconds
    pub interval: usize,
    pub tracker_id: Option<String>,
}

/// What a tracker has said, in mathematical terms.
pub struct TrackerInfoView {
    pub peers: Seq<PeerView>,
    pub interval: usize,
    pub tracker_id: Option<Seq<char>>,
}

impl TrackerInfoView {
    /// What is known of a tracker that was not asked yet.
    pub open spec fn blank() -> TrackerInfoView {
        TrackerInfoView { peers: Seq::empty(), interval: 0, tracker_id: None }
    }

    /// What a reply with these addresses says.
    pub open spec fn reply(addresses: Seq<PeerAddr>) -> TrackerInfoView {
        TrackerInfoView {
            peers: addresses.map_values(|a: PeerAddr| PeerView::fresh(a)),
            interval: 100,
            tracker_id: None,
        }
    }
}

impl View for TrackerInfo {
    type V = TrackerInfoView;

    open spec fn view(&self) -> TrackerInfoView {
        TrackerInfoView {
            peers: self.peers@.map_values(|p: Peer| p@),
            interval: self.interval,
            tracker_id: optional_text(self.tracker_id),
        }
    }
}

impl TrackerInfo {
    /// What is known of a tracker that was not asked yet.
    pub fn new() -> (r: TrackerInfo)
        ensures
            r@ == TrackerInfoView::blank(),
    {
        let r = TrackerInfo { peers: Vec::new(), interval: 0, tracker_id: None };
        assert(r@.peers =~= Seq::empty());
        r
    }

    /// What a reply with these addresses says.
    pub fn from_addresses(addresses: &Vec<PeerAddr>) -> (r: TrackerInfo)
        ensures
            r@ == TrackerInfoView::reply(addresses@),
    {
        let mut peers: Vec<Peer> = Vec::new();
        let mut i: usize = 0;
        while i < addresses.len()
            invariant
                i <= addresses@.len(),
                peers@.len() == i,
                forall|k: int|
                    0 <= k < i ==> (#[trigger] peers@[k])@ == PeerView::fresh(addresses@[k]),
            decreases addresses@.len() - i,
        {
            peers.push(Peer::new(addresses[i]));
            i = i + 1;
        }
        let r = TrackerInfo { peers, interval: 100, tracker_id: None };
        assert(r@.peers =~= TrackerInfoView::reply(addresses@).peers);
        r
    }
}

proof fn lemma_form_encoded_front(bytes: Seq<u8>)
    requires
        bytes.len() > 0,
    ensures
        form_encoded(bytes) == form_byte(bytes[0]) + form_encoded(bytes.skip(1)),
    decreases bytes.len(),
{
    if bytes.len() == 1 {
        assert(bytes.drop_last() =~= Seq::empty());
        assert(bytes.skip(1) =~= Seq::empty());
        assert(form_encoded(bytes) =~= form_byte(bytes[0]) + form_encoded(bytes.skip(1)));
    } else {
        lemma_form_encoded_front(bytes.drop_last());
        assert(bytes.drop_last().skip(1) =~= bytes.skip(1).drop_last());
        assert(form_encoded(bytes) =~= form_byte(bytes[0]) + form_encoded(bytes.skip(1)));
    }
}

proof fn lemma_form_byte_prefix(a: u8, b: u8, x: Seq<char>, y: Seq<char>)
    requires
        form_byte(a) + x == form_byte(b) + y,
    ensures
        a == b,
        x == y,
{
    let left = form_byte(a) + x;
    let right = form_byte(b) + y;
    assert(left[0] == form_byte(a)[0]);
    assert(right[0] == form_byte(b)[0]);
    assert(form_plain(a) ==> form_byte(a)[0] as u32 == a as u32);
    assert(form_plain(b) ==> form_byte(b)[0] as u32 == b as u32);
    if form_byte(a).len() == 3 {
        assert(left[1] == form_byte(a)[1] && left[2] == form_byte(a)[2]);
        assert(right[1] == form_byte(b)[1] && right[2] == form_byte(b)[2]);
        lemma_upper_hex_char(a as int / 16);
        lemma_upper_hex_char(a as int % 16);
        lemma_upper_hex_char(b as int / 16);
        lemma_upper_hex_char(b as int % 16);
    }
    assert(x =~= left.skip(form_byte(a).len() as int));
    assert(y =~= right.skip(form_byte(b).len() as int));
}

proof fn lemma_upper_hex_char(d: int)
    requires
        0 <= d < 16,
    ensures
        upper_hex_char(d) as int == if d < 10 {
            48 + d
        } else {
            55 + d
        },
{
}

/// Form encoding loses nothing: byte strings that differ are written differently, so a tracker can
/// tell what was sent.
pub proof fn law_form_encoding_is_faithful(a: Seq<u8>, b: Seq<u8>)
    requires
        form_encoded(a) == form_encoded(b),
    ensures
        a == b,
    decreases a.len(),
{
    if a.len() > 0 {
        lemma_form_encoded_front(a);
    }
    if b.len() > 0 {
        lemma_form_encoded_front(b);
    }
    if a.len() == 0 || b.len() == 0 {
        assert(form_encoded(a).len() == 0 || form_encoded(b).len() == 0);
        assert(a =~= b);
    } else {
        lemma_form_byte_prefix(a[0], b[0], form_encoded(a.skip(1)), form_encoded(b.skip(1)));
        law_form_encoding_is_faithful(a.skip(1), b.skip(1));
        assert(a =~= seq![a[0]] + a.skip(1));
        assert(b =~= seq![b[0]] + b.skip(1));
    }
}

/// In form encoding, letters, digits and four signs stand for themselves, a space becomes a plus
/// sign, and any other byte a percent sign and its two hexadecimal digits in upper case.
pub proof fn law_form_byte(b: u8)
    ensures
        ({
            let plain = {
                ||| 48 <= b <= 57
                ||| 65 <= b <= 90
                ||| 97 <= b <= 122
                ||| b == 42
                ||| b == 45
                ||| b == 46
                ||| b == 95
            };
            &&& plain ==> form_byte(b).len() == 1 && form_byte(b)[0] as int == b
            &&& b == 32 ==> form_byte(b) == seq!['+']
            &&& !plain && b != 32 ==> form_byte(b) == seq![
                '%',
                "0123456789ABCDEF"@[b as int / 16],
                "0123456789ABCDEF"@[b as int % 16],
            ]
        }),
{
    reveal_strlit("0123456789ABCDEF");
    lemma_upper_hex_char(b as int / 16);
    lemma_upper_hex_char(b as int % 16);
}

/// Byte strings are encoded byte by byte: one behind another is encoded as both, one behind the
/// other.
pub proof fn law_form_encoding_is_by_byte(a: Seq<u8>, b: Seq<u8>, c: u8)
    ensures
        form_encoded(Seq::empty()) == Seq::<char>::empty(),
        form_encoded(seq![c]) == form_byte(c),
        form_encoded(a + b) == form_encoded(a) + form_encoded(b),
    decreases b.len(),
{
    assert(seq![c].drop_last() =~= Seq::empty());
    assert(form_encoded(Seq::empty()) =~= Seq::empty());
    assert(seq![c].last() == c);
    assert(form_encoded(seq![c]) =~= form_byte(c));
    if b.len() == 0 {
        assert(a + b =~= a);
        assert(form_encoded(a + b) =~= form_encoded(a) + form_encoded(b));
    } else {
        law_form_encoding_is_by_byte(a, b.drop_last(), c);
        assert((a + b).drop_last() =~= a + b.drop_last());
        assert((a + b).last() == b.last());
        assert(form_encoded(a + b) =~= form_encoded(a) + form_encoded(b));
    }
}

/// The pairs of a query: name and value in form encoding with an equals sign between them, and an
/// ampersand between two pairs.
pub open spec fn query_of(pairs: Seq<(Seq<u8>, Seq<u8>)>) -> Seq<char>
    decreases pairs.len(),
{
    if pairs.len() == 0 {
        Seq::empty()
    } else {
        let last = form_encoded(pairs.last().0) + seq!['='] + form_encoded(pairs.last().1);
        if pairs.len() == 1 {
            last
        } else {
            query_of(pairs.drop_last()) + seq!['&'] + last
        }
    }
}

proof fn lemma_with_pairs(base: Seq<char>, tail: Seq<char>, pairs: Seq<(Seq<u8>, Seq<u8>)>)
    requires
        pairs.len() > 0,
        !base.contains('#'),
        tail.len() == 0 || tail[0] == '#',
    ensures
        with_pairs(base + tail, pairs) == base + separator(base) + query_of(pairs) + tail,
        before_fragment(with_pairs(base + tail, pairs)) == base + separator(base) + query_of(pairs),
        fragment(with_pairs(base + tail, pairs)) == tail,
        separator(before_fragment(with_pairs(base + tail, pairs))) == seq!['&'],
    decreases pairs.len(),
{
    let url = base + tail;
    lemma_parts(base, tail);
    let rest = pairs.drop_last();
    let before = with_pairs(url, rest);
    let last = form_encoded(pairs.last().0) + seq!['='] + form_encoded(pairs.last().1);
    lemma_with_pair(before, pairs.last().0, pairs.last().1);
    let after = with_pairs(url, pairs);
    if rest.len() > 0 {
        lemma_with_pairs(base, tail, rest);
        let front = base + separator(base) + query_of(rest);
        assert(after =~= front + seq!['&'] + last + tail);
        assert(after =~= base + separator(base) + query_of(pairs) + tail);
    } else {
        assert(before == url);
        assert(after =~= base + separator(base) + last + tail);
        assert(query_of(pairs) == last);
    }
    let front = base + separator(base) + query_of(pairs);
    let split = before_fragment(after);
    after.index_of_first_ensures('#');
    assert(after =~= split + fragment(after));
    assert(fragment(after) == tail);
    assert(split.len() == front.len());
    assert(split =~= front);
    front.index_of_first_ensures('?');
    assert(separator(split).len() == 1);
    assert(separator(split) =~= seq!['&']) by {
        base.index_of_first_ensures('?');
        match base.index_of_first('?') {
            Some(i) => {
                assert(front[i] == '?');
            },
            None => {
                assert(front[base.len() as int] == '?');
            },
        }
        assert(front.contains('?'));
    }
}

/// A text without a number sign, and what starts with one, are what comes before the fragment and
/// the fragment of both together.
proof fn lemma_parts(base: Seq<char>, tail: Seq<char>)
    requires
        !base.contains('#'),
        tail.len() == 0 || tail[0] == '#',
    ensures
        before_fragment(base + tail) == base,
        fragment(base + tail) == tail,
{
    let url = base + tail;
    url.index_of_first_ensures('#');
    assert forall|i: int| 0 <= i < base.len() implies url[i] != '#' by {
        assert(base.contains(base[i]));
    }
    if tail.len() > 0 {
        assert(url[base.len() as int] == '#');
        assert(url.contains('#'));
        assert(url.index_of_first('#') == Some(base.len() as int));
    } else if url.contains('#') {
        let i = url.index_of_first('#')->Some_0;
        assert(url[i] == base[i]);
    }
    assert(before_fragment(url) =~= base);
    assert(fragment(url) =~= tail);
}

/// Pairs are added to a URL behind what it has before its fragment, and the fragment, which starts
/// with a number sign, stays at its end. They come behind a question mark where the URL has none,
/// right behind it where nothing follows it, and behind an ampersand otherwise.
pub proof fn law_pairs_are_appended(
    path: Seq<char>,
    query: Seq<char>,
    tail: Seq<char>,
    pairs: Seq<(Seq<u8>, Seq<u8>)>,
)
    requires
        pairs.len() > 0,
        !path.contains('#'),
        !path.contains('?'),
        !query.contains('#'),
        tail.len() == 0 || tail[0] == '#',
    ensures
        with_pairs(path + tail, pairs) == path + seq!['?'] + query_of(pairs) + tail,
        with_pairs(path + seq!['?'] + tail, pairs) == path + seq!['?'] + query_of(pairs) + tail,
        query.len() > 0 ==> with_pairs(path + seq!['?'] + query + tail, pairs) == path + seq!['?']
            + query + seq!['&'] + query_of(pairs) + tail,
{
    path.index_of_first_ensures('?');
    lemma_with_pairs(path, tail, pairs);
    assert forall|i: int| 0 <= i < path.len() implies path[i] != '?' && path[i] != '#' by {
        assert(path.contains(path[i]));
    }
    assert forall|i: int| 0 <= i < query.len() implies query[i] != '#' by {
        assert(query.contains(query[i]));
    }
    let marked = path + seq!['?'];
    marked.index_of_first_ensures('?');
    assert(marked[path.len() as int] == '?');
    assert(marked.contains('?'));
    assert(marked.index_of_first('?') == Some(path.len() as int));
    assert(!marked.contains('#'));
    lemma_with_pairs(marked, tail, pairs);
    assert(marked + separator(marked) =~= marked);
    let full = path + seq!['?'] + query;
    full.index_of_first_ensures('?');
    assert(full[path.len() as int] == '?');
    assert(full.contains('?'));
    assert(full.index_of_first('?') == Some(path.len() as int));
    assert(!full.contains('#'));
    lemma_with_pairs(full, tail, pairs);
}

/// The pairs of a query are parted by ampersands: more pairs come behind one.
pub proof fn law_query_of_pairs(pairs: Seq<(Seq<u8>, Seq<u8>)>, name: Seq<u8>, value: Seq<u8>)
    ensures
        query_of(seq![(name, value)]) == form_encoded(name) + seq!['='] + form_encoded(value),
        pairs.len() > 0 ==> query_of(pairs.push((name, value))) == query_of(pairs) + seq!['&']
            + form_encoded(name) + seq!['='] + form_encoded(value),
{
    assert(pairs.push((name, value)).drop_last() =~= pairs);
    if pairs.len() > 0 {
        assert(query_of(pairs.push((name, value))) =~= query_of(pairs) + seq!['&'] + form_encoded(
            name,
        ) + seq!['='] + form_encoded(value));
    }
}

/// The text whose characters have these bytes as their numbers.
pub open spec fn text_of_bytes(bytes: Seq<u8>) -> Seq<char> {
    Seq::new(bytes.len(), |i: int| bytes[i] as char)
}

/// An announcement has nine pairs, in this order: the info hash as it is, the peer id, four numbers
/// that are read back as the port and the bytes that went up, came down and are left, and three
/// that are the same in each.
pub proof fn law_announced_values(request: TrackerRequestView)
    ensures
        ({
            let pairs = request.pairs();
            &&& pairs.len() == 9
            &&& text_of_bytes(pairs[0].0) == "info_hash"@
            &&& pairs[0].1 == request.info_hash
            &&& text_of_bytes(pairs[1].0) == "peer_id"@
            &&& pairs[1].1 == encode_utf8(request.peer_id)
            &&& text_of_bytes(pairs[2].0) == "port"@
            &&& text::parsed(text_of_bytes(pairs[2].1), 0xffff) == Some(request.port as nat)
            &&& text_of_bytes(pairs[3].0) == "uploaded"@
            &&& text::parsed(text_of_bytes(pairs[3].1), usize::MAX as nat) == Some(
                request.uploaded as nat,
            )
            &&& text_of_bytes(pairs[4].0) == "downloaded"@
            &&& text::parsed(text_of_bytes(pairs[4].1), usize::MAX as nat) == Some(
                request.downloaded as nat,
            )
            &&& text_of_bytes(pairs[5].0) == "left"@
            &&& text::parsed(text_of_bytes(pairs[5].1), usize::MAX as nat) == Some(
                request.left as nat,
            )
            &&& text_of_bytes(pairs[6].0) == "compact"@
            &&& text_of_bytes(pairs[6].1) == "1"@
            &&& text_of_bytes(pairs[7].0) == "event"@
            &&& text_of_bytes(pairs[7].1) == "started"@
            &&& text_of_bytes(pairs[8].0) == "supportcrypto"@
            &&& text_of_bytes(pairs[8].1) == "0"@
        }),
        // a number is written without a sign and without zeros in front
        request.pairs()[2].1 == wire::ascii_bytes(text::decimal(request.port as nat)),
        request.pairs()[3].1 == wire::ascii_bytes(text::decimal(request.uploaded as nat)),
        request.pairs()[4].1 == wire::ascii_bytes(text::decimal(request.downloaded as nat)),
        request.pairs()[5].1 == wire::ascii_bytes(text::decimal(request.left as nat)),
{
    reveal_strlit("info_hash");
    reveal_strlit("peer_id");
    reveal_strlit("port");
    reveal_strlit("uploaded");
    reveal_strlit("downloaded");
    reveal_strlit("left");
    reveal_strlit("compact");
    reveal_strlit("1");
    reveal_strlit("event");
    reveal_strlit("started");
    reveal_strlit("supportcrypto");
    reveal_strlit("0");
    lemma_text_of_ascii("info_hash"@);
    lemma_text_of_ascii("peer_id"@);
    lemma_text_of_ascii("port"@);
    lemma_text_of_ascii("uploaded"@);
    lemma_text_of_ascii("downloaded"@);
    lemma_text_of_ascii("left"@);
    lemma_text_of_ascii("compact"@);
    lemma_text_of_ascii("1"@);
    lemma_text_of_ascii("event"@);
    lemma_text_of_ascii("started"@);
    lemma_text_of_ascii("supportcrypto"@);
    lemma_text_of_ascii("0"@);
    lemma_number_read_back(request.port as nat, 0xffff);
    lemma_number_read_back(request.uploaded as nat, usize::MAX as nat);
    lemma_number_read_back(request.downloaded as nat, usize::MAX as nat);
    lemma_number_read_back(request.left as nat, usize::MAX as nat);
}

proof fn lemma_text_of_ascii(text: Seq<char>)
    requires
        forall|i: int| 0 <= i < text.len() ==> 0 <= (#[trigger] text[i]) as int <= 127,
    ensures
        text_of_bytes(wire::ascii_bytes(text)) == text,
{
    assert forall|i: int| 0 <= i < text.len() implies #[trigger] text_of_bytes(
        wire::ascii_bytes(text),
    )[i] == text[i] by {
        wire::law_ascii_bytes(text, i);
        assert(0 <= text[i] as int <= 127);
        assert(text_of_bytes(wire::ascii_bytes(text))[i] as int == text[i] as int);
    }
    assert(text_of_bytes(wire::ascii_bytes(text)) =~= text);
}

proof fn lemma_number_read_back(n: nat, max: nat)
    requires
        n <= max,
    ensures
        text::parsed(text_of_bytes(wire::ascii_bytes(text::decimal(n))), max) == Some(n),
{
    text::lemma_decimal_digits(n);
    text::law_decimal_read_back(n, max);
    let shown = text::decimal(n);
    assert forall|i: int| 0 <= i < shown.len() implies 0 <= (#[trigger] shown[i]) as int
        <= 127 by {
        assert(text::is_digit(shown[i]));
    }
    lemma_text_of_ascii(shown);
}

/// A query has a place in a URL where all of it is counted in 32 bits, and in one that has a query
/// but no fragment however long it is. It has none where the fragment would start behind that, nor
/// where the query would.
pub proof fn law_query_overflows(base: Seq<char>, tail: Seq<char>, growth: int)
    requires
        !base.contains('#'),
        tail.len() == 0 || tail[0] == '#',
        growth >= 0,
    ensures
        base.len() + growth <= 0xffff_ffff ==> !query_overflows(base + tail, growth),
        tail.len() == 0 && base.contains('?') ==> !query_overflows(base + tail, growth),
        tail.len() > 0 && base.len() + growth > 0xffff_ffff ==> query_overflows(base + tail, growth),
        !base.contains('?') && base.len() > 0xffff_ffff ==> query_overflows(base + tail, growth),
        tail.len() == 0 && base.len() <= 0xffff_ffff ==> !query_overflows(base + tail, growth),
{
    lemma_parts(base, tail);
    base.index_of_first_ensures('?');
    (base + tail).index_of_first_ensures('#');
    if tail.len() > 0 {
        assert((base + tail)[base.len() as int] == '#');
        assert((base + tail).contains('#'));
    } else {
        assert(base + tail =~= base);
    }
}

/// Pairs make a URL longer by what is added to it.
pub proof fn law_growth(url: Seq<char>, pairs: Seq<(Seq<u8>, Seq<u8>)>)
    requires
        pairs.len() > 0,
    ensures
        url.len() + growth(url, pairs) == with_pairs(url, pairs).len(),
        growth(url, pairs) == separator(before_fragment(url)).len() + pairs_len(pairs),
{
    lemma_growth(url, pairs);
}

/// A tracker can be asked exactly where its URL is one and the query has a place in it. What is
/// asked is the URL with the pairs of the announcement.
pub proof fn law_announces(
    tracker: Seq<char>,
    request: TrackerRequestView,
    r: Result<String, AnnounceError>,
)
    requires
        announces(tracker, request, r),
    ensures
        url_of(tracker) is None <==> r == Err::<String, _>(AnnounceError::InvalidUrl),
        url_of(tracker) matches Some(url) ==> {
            &&& query_overflows(url, growth(url, request.pairs())) <==> r == Err::<String, _>(
                AnnounceError::TooLong,
            )
            &&& r matches Ok(text) ==> text@ == with_pairs(url, request.pairs())
            &&& with_pairs(url, request.pairs()).len() <= 0xffff_ffff ==> r is Ok
        },
        r is Err ==> r == Err::<String, _>(AnnounceError::InvalidUrl) || r == Err::<String, _>(
            AnnounceError::TooLong,
        ),
{
    if let Some(url) = url_of(tracker) {
        lemma_growth(url, request.pairs());
        lemma_with_pair(url, Seq::empty(), Seq::empty());
    }
}

/// A list of addresses has one for each six bytes, in their order: four of the host, and the port
/// of two, the more significant one first.
pub proof fn law_addresses(bytes: Seq<u8>, addresses: Seq<PeerAddr>, i: int, k: int)
    requires
        lists_addresses(bytes, addresses),
    ensures
        addresses.len() * 6 == bytes.len(),
        0 <= i < addresses.len() && 0 <= k < 4 ==> addresses[i].ip@[k] == bytes[6 * i + k],
        0 <= i < addresses.len() ==> addresses[i].port == 256 * bytes[6 * i + 4] + bytes[6 * i + 5],
{
    if 0 <= i < addresses.len() {
        assert(address_at(bytes, 6 * i, addresses[i]));
        assert(addresses[i].ip@ == bytes.subrange(6 * i, 6 * i + 4));
    }
}

/// What is known of a peer at first is its address, as it was named. Both sides choke, and neither
/// is interested.
pub proof fn law_new_peer(address: PeerAddr)
    ensures
        ({
            let peer = PeerView::fresh(address);
            &&& peer.ip_port == address
            &&& peer.id is None
            &&& peer.piece_bitmap.len() == 0
            &&& peer.am_choking && peer.peer_choking
            &&& !peer.am_interested && !peer.peer_interested
        }),
{
}

/// A reply names as many peers as it has addresses, in their order. Before one there are none.
pub proof fn law_reply_names_peers(addresses: Seq<PeerAddr>, i: int)
    ensures
        TrackerInfoView::blank().peers.len() == 0,
        TrackerInfoView::blank().interval == 0,
        TrackerInfoView::blank().tracker_id is None,
        TrackerInfoView::reply(addresses).peers.len() == addresses.len(),
        0 <= i < addresses.len() ==> TrackerInfoView::reply(addresses).peers[i].ip_port
            == addresses[i] && TrackerInfoView::reply(addresses).peers[i] == PeerView::fresh(
            addresses[i],
        ),
        TrackerInfoView::reply(addresses).interval == 100,
        TrackerInfoView::reply(addresses).tracker_id is None,
{
}

/// A reply can be used exactly where it is a dictionary with a byte string of whole addresses for
/// its peers, and with an interval. Each thing that is wrong with it has an error of its own; of
/// several, the first one counts.
pub proof fn law_reply_faults(peers: Option<EntryView>, interval: Option<EntryView>)
    ensures
        reply_fault(peers, interval) == Some(ReplyError::Malformed) <==> peers is None,
        reply_fault(peers, interval) == Some(ReplyError::NotDictionary) <==> peers == Some(
            EntryView::NotDict,
        ),
        reply_fault(peers, interval) == Some(ReplyError::NoPeers) <==> peers == Some(
            EntryView::Missing,
        ),
        reply_fault(peers, interval) == Some(ReplyError::PeersNotBytes) <==> peers == Some(
            EntryView::NotBytes,
        ),
        reply_fault(peers, interval) == Some(ReplyError::TruncatedPeer) <==> (peers matches Some(
            EntryView::Bytes(bytes),
        ) && bytes.len() % 6 != 0),
        reply_fault(peers, interval) == Some(ReplyError::NoInterval) <==> (peers matches Some(
            EntryView::Bytes(bytes),
        ) && bytes.len() % 6 == 0 && !(interval is Some && (interval->Some_0 is Bytes
            || interval->Some_0 is NotBytes))),
        reply_fault(peers, interval) is None <==> (peers matches Some(EntryView::Bytes(bytes))
            && bytes.len() % 6 == 0 && interval is Some && (interval->Some_0 is Bytes
            || interval->Some_0 is NotBytes)),
{
}

/// The bytes of pairs of texts are those of their texts, pair by pair.
pub proof fn law_byte_pairs(pairs: Seq<(String, String)>, i: int)
    ensures
        byte_pairs(pairs).len() == pairs.len(),
        0 <= i < pairs.len() ==> byte_pairs(pairs)[i].0 == wire::ascii_bytes(pairs[i].0@)
            && byte_pairs(pairs)[i].1 == wire::ascii_bytes(pairs[i].1@),
{
}

} // verus!
