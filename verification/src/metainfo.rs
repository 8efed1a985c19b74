//! Metainfo files: what they say of a torrent, and where its files lie within its pieces.

use bip_metainfo::MetainfoFile;
use chrono::{TimeZone, UTC};
use vstd::prelude::*;
use vstd::string::*;

use crate::text;
use crate::wire;

verus! {

/// The error of the `bip_metainfo` parser.
#[verifier::external_type_specification]
#[verifier::external_body]
pub struct ExParseError(bip_metainfo::error::ParseError);

/// A file of a torrent.
#[derive(Debug)]
pub struct FileEntry {
    pub length: i64,
    pub paths: Vec<String>,
}

/// What a metainfo file says.
#[derive(Debug)]
pub struct Metainfo {
    pub info_hash: Vec<u8>,
    pub main_tracker: Option<String>,
    pub comment: Option<String>,
    pub created_by: Option<String>,
    pub creation_date: Option<i64>,
    pub directory: Option<String>,
    pub piece_length: i64,
    pub piece_count: usize,
    pub files: Vec<FileEntry>,
}

/// Where a file begins and ends, in pieces and in bytes of a piece.
#[derive(Debug)]
pub struct FileT {
    pub name: String,
    pub start_piece: usize,
    pub start_offset: i64,
    pub end_piece: usize,
    pub end_offset: i64,
}

/// What a file of a torrent is, in mathematical terms.
pub struct FileEntryView {
    pub length: i64,
    pub paths: Seq<Seq<char>>,
}

/// What a metainfo file says, in mathematical terms.
pub struct MetainfoView {
    pub info_hash: Seq<u8>,
    pub main_tracker: Option<Seq<char>>,
    pub comment: Option<Seq<char>>,
    pub created_by: Option<Seq<char>>,
    pub creation_date: Option<i64>,
    pub directory: Option<Seq<char>>,
    pub piece_length: i64,
    pub piece_count: usize,
    pub files: Seq<FileEntryView>,
}

/// Where a file lies, in mathematical terms.
pub struct FileTView {
    pub name: Seq<char>,
    pub start_piece: usize,
    pub start_offset: i64,
    pub end_piece: usize,
    pub end_offset: i64,
}

/// An optional text.
pub open spec fn optional_text(s: Option<String>) -> Option<Seq<char>> {
    match s {
        Some(s) => Some(s@),
        None => None,
    }
}

impl View for FileEntry {
    type V = FileEntryView;

    open spec fn view(&self) -> FileEntryView {
        FileEntryView { length: self.length, paths: text::texts(self.paths@) }
    }
}

impl View for Metainfo {
    type V = MetainfoView;

    open spec fn view(&self) -> MetainfoView {
        MetainfoView {
            info_hash: self.info_hash@,
            main_tracker: optional_text(self.main_tracker),
            comment: optional_text(self.comment),
            created_by: optional_text(self.created_by),
            creation_date: self.creation_date,
            directory: optional_text(self.directory),
            piece_length: self.piece_length,
            piece_count: self.piece_count,
            files: self.files@.map_values(|f: FileEntry| f@),
        }
    }
}

impl View for FileT {
    type V = FileTView;

    open spec fn view(&self) -> FileTView {
        FileTView {
            name: self.name@,
            start_piece: self.start_piece,
            start_offset: self.start_offset,
            end_piece: self.end_piece,
            end_offset: self.end_offset,
        }
    }
}

/// What `MetainfoFile::from_bytes` reads out of a byte string, or `None` where it gives an error.
pub uninterp spec fn metainfo_of(bytes: Seq<u8>) -> Option<MetainfoView>;

/// `MetainfoFile::from_bytes`, with what the accessors of the file that it gives return. An info
/// hash has twenty bytes. Of a torrent without a directory there is one file, with one path
/// element. The hashes of the pieces, twenty bytes each, are a part of the input. A file nested so
/// deep that the stack of the thread cannot hold its parts is not spoken of.
#[verifier::external_body]
fn read_metainfo(bytes: &Vec<u8>) -> (r: Result<Metainfo, bip_metainfo::error::ParseError>)
    ensures
        r is Ok <==> metainfo_of(bytes@) is Some,
        r matches Ok(m) ==> metainfo_of(bytes@) == Some(m@) && m@.info_hash.len() == 20 && 20
            * m.piece_count <= bytes@.len() && (m@.directory is None ==> m@.files.len() == 1
            && m@.files[0].paths.len() == 1),
{
    let m = MetainfoFile::from_bytes(bytes)?;
    Ok(Metainfo {
        info_hash: m.info_hash().as_ref().to_vec(),
        main_tracker: m.main_tracker().map(String::from),
        comment: m.comment().map(String::from),
        created_by: m.created_by().map(String::from),
        creation_date: m.creation_date(),
        directory: m.info().directory().map(String::from),
        piece_length: m.info().piece_length(),
        piece_count: m.info().pieces().count(),
        files: m.info().files()
            .map(|f| FileEntry { length: f.length(), paths: f.paths().map(String::from).collect() })
            .collect(),
    })
}

/// Why a metainfo file is of no use.
#[derive(Clone, Copy, Debug, PartialEq, Eq, Structural)]
pub enum MetainfoError {
    /// It is no metainfo file.
    Malformed,
    /// Its sizes cannot be counted in the integers of this machine, or it has files but pieces
    /// without length.
    Unusable,
    /// Its creation date is out of range.
    DateOutOfRange,
}

/// The quotient of two integers, rounded towards zero.
pub open spec fn quotient(a: int, b: int) -> int {
    if a >= 0 {
        a / b
    } else {
        -((-a) / b)
    }
}

/// What [`quotient`] leaves: it has the sign of `a`.
pub open spec fn remainder(a: int, b: int) -> int {
    if a >= 0 {
        a % b
    } else {
        -((-a) % b)
    }
}

impl FileEntryView {
    /// The name that a file goes by: the first element of its path.
    pub open spec fn name(self) -> Seq<char> {
        if self.paths.len() > 0 {
            self.paths[0]
        } else {
            "<unknown>"@
        }
    }
}

impl MetainfoView {
    /// The number of bytes of the first `n` files together.
    pub open spec fn size_of_first(self, n: int) -> int
        decreases n,
    {
        if n <= 0 {
            0
        } else {
            self.size_of_first(n - 1) + self.files[n - 1].length
        }
    }

    /// The number of bytes of all files together.
    pub open spec fn total_size(self) -> int {
        self.size_of_first(self.files.len() as int)
    }

    /// Whether the number of bytes of the first files, however many, is one of 64 bits.
    pub open spec fn sizes_fit(self) -> bool {
        forall|n: int|
            0 <= n <= self.files.len() ==> i64::MIN <= #[trigger] self.size_of_first(n) <= i64::MAX
    }

    /// Whether each file has a place among the pieces: pieces have a length where there are files,
    /// and neither the position of a last byte nor its division by that length exceeds 64 bits.
    pub open spec fn layout_fits(self) -> bool {
        &&& self.files.len() > 0 ==> self.piece_length != 0
        &&& self.sizes_fit()
        &&& forall|n: int|
            0 < n <= self.files.len() ==> i64::MIN < #[trigger] self.size_of_first(n) && !(
            self.piece_length == -1 && self.size_of_first(n) - 1 == i64::MIN)
    }

    /// The number of blocks of a piece, as far as they are whole.
    pub open spec fn blocks_per_piece(self) -> int {
        (self.piece_length as usize) as int / wire::BLOCK_SZ as int
    }

    /// The number of blocks of all pieces.
    pub open spec fn block_count(self) -> int {
        self.blocks_per_piece() * self.piece_count
    }

    /// Whether the torrent has a name: that of its directory, or that of its first file.
    pub open spec fn has_root(self) -> bool {
        self.directory is Some || (self.files.len() > 0 && self.files[0].paths.len() > 0)
    }

    /// The name of the torrent.
    pub open spec fn root_name(self) -> Seq<char> {
        match self.directory {
            Some(name) => name,
            None => self.files[0].paths[0],
        }
    }

    /// Whether a torrent can be made of it: it has a name, and its size can be counted.
    pub open spec fn usable(self) -> bool {
        &&& self.has_root()
        &&& self.sizes_fit()
        &&& self.info_hash.len() <= wire::HASH_LEN
    }

    /// Whether its files have a place among the pieces, and its blocks can be counted.
    pub open spec fn placeable(self) -> bool {
        &&& self.layout_fits()
        &&& self.block_count() <= usize::MAX
    }

    /// Where the file with index `i` lies. The files follow one another in the order of the
    /// metainfo file, and fill the pieces one after the other.
    pub open spec fn placed(self, i: int) -> FileTView {
        let begin = self.size_of_first(i);
        let end = self.size_of_first(i + 1) - 1;
        FileTView {
            name: self.files[i].name(),
            start_piece: quotient(begin, self.piece_length as int) as usize,
            start_offset: remainder(begin, self.piece_length as int) as i64,
            end_piece: quotient(end, self.piece_length as int) as usize,
            end_offset: remainder(end, self.piece_length as int) as i64,
        }
    }
}

proof fn lemma_quotient_bound(a: int, b: int)
    requires
        a >= 0,
        b != 0,
    ensures
        -a <= a / b <= a,
        b != -1 && a != 0 ==> a / b > -a,
{
    assert(-a <= a / b <= a) by (nonlinear_arith)
        requires
            a >= 0,
            b != 0,
    ;
    assert(b != -1 && a != 0 ==> a / b > -a) by (nonlinear_arith)
        requires
            a >= 0,
            b != 0,
    ;
}

/// Divides, rounding towards zero.
fn divide(a: i64, b: i64) -> (r: (i64, i64))
    requires
        b != 0,
        !(a == i64::MIN && b == -1),
    ensures
        r.0 == quotient(a as int, b as int),
        r.1 == remainder(a as int, b as int),
{
    proof {
        if a >= 0 {
            lemma_quotient_bound(a as int, b as int);
        } else {
            lemma_quotient_bound(-a, b as int);
        }
    }
    (a / b, a % b)
}

impl Metainfo {
    /// Reads a metainfo file.
    pub fn from_bytes(bytes: &Vec<u8>) -> (r: Result<Metainfo, MetainfoError>)
        ensures
            r == Err::<Metainfo, _>(MetainfoError::Malformed) <==> metainfo_of(bytes@) is None,
            r matches Err(e) ==> e == MetainfoError::Malformed,
            r matches Ok(m) ==> metainfo_of(bytes@) == Some(m@) && m@.has_root()
                && m@.info_hash.len() == 20,
    {
        match read_metainfo(bytes) {
            Ok(m) => Ok(m),
            Err(_) => Err(MetainfoError::Malformed),
        }
    }

    /// Whether a torrent can be made of it: it has a name, and its size can be counted.
    pub fn usable(&self) -> (r: bool)
        ensures
            r == self@.usable(),
    {
        if self.info_hash.len() > wire::HASH_LEN {
            return false;
        }
        if self.directory.is_none() && (self.files.len() == 0 || self.files[0].paths.len() == 0) {
            assert(self@.files.len() > 0 ==> self@.files[0] == self.files@[0]@);
            return false;
        }
        assert(self@.has_root()) by {
            assert(self@.files.len() > 0 ==> self@.files[0] == self.files@[0]@);
        }
        let mut n: usize = 0;
        let mut size: i128 = 0;
        while n < self.files.len()
            invariant
                n <= self.files@.len(),
                size == self@.size_of_first(n as int),
                forall|k: int|
                    0 <= k <= n ==> i64::MIN <= #[trigger] self@.size_of_first(k) <= i64::MAX,
            decreases self.files@.len() - n,
        {
            assert(self@.files[n as int] == self.files@[n as int]@);
            size = size + self.files[n].length as i128;
            assert(size == self@.size_of_first(n + 1));
            if size < i64::MIN as i128 || size > i64::MAX as i128 {
                return false;
            }
            n = n + 1;
        }
        true
    }

    /// Whether its files have a place among the pieces, and its blocks can be counted.
    pub fn placeable(&self) -> (r: bool)
        ensures
            r == self@.placeable(),
    {
        if self.files.len() > 0 && self.piece_length == 0 {
            return false;
        }
        let blocks_per_piece: usize = self.piece_length as usize / wire::BLOCK_SZ;
        if blocks_per_piece.checked_mul(self.piece_count).is_none() {
            return false;
        }
        let mut n: usize = 0;
        let mut size: i128 = 0;
        while n < self.files.len()
            invariant
                n <= self.files@.len(),
                size == self@.size_of_first(n as int),
                forall|k: int|
                    0 <= k <= n ==> i64::MIN <= #[trigger] self@.size_of_first(k) <= i64::MAX,
                forall|k: int|
                    0 < k <= n ==> i64::MIN < #[trigger] self@.size_of_first(k) && !(
                    self.piece_length == -1 && self@.size_of_first(k) - 1 == i64::MIN),
            decreases self.files@.len() - n,
        {
            assert(self@.files[n as int] == self.files@[n as int]@);
            size = size + self.files[n].length as i128;
            assert(size == self@.size_of_first(n + 1));
            if size <= i64::MIN as i128 || size > i64::MAX as i128 || (self.piece_length == -1
                && size - 1 == i64::MIN as i128) {
                return false;
            }
            n = n + 1;
        }
        true
    }

    /// The number of bytes of all files together.
    pub fn total_size(&self) -> (r: i64)
        requires
            self@.sizes_fit(),
        ensures
            r == self@.total_size(),
    {
        let mut n: usize = 0;
        let mut size: i64 = 0;
        while n < self.files.len()
            invariant
                n <= self.files@.len(),
                self@.sizes_fit(),
                size == self@.size_of_first(n as int),
            decreases self.files@.len() - n,
        {
            assert(self@.files[n as int] == self.files@[n as int]@);
            assert(self@.size_of_first(n + 1) == size + self.files@[n as int].length);
            size = size + self.files[n].length;
            n = n + 1;
        }
        size
    }

    /// The name of the torrent.
    pub fn root_name(&self) -> (r: String)
        requires
            self@.has_root(),
        ensures
            r@ == self@.root_name(),
    {
        match &self.directory {
            Some(name) => name.clone(),
            None => {
                assert(self@.files[0] == self.files@[0]@);
                self.files[0].paths[0].clone()
            },
        }
    }

    /// Where the files lie among the pieces.
    pub fn layout(&self) -> (r: Vec<FileT>)
        requires
            self@.layout_fits(),
        ensures
            r@.len() == self@.files.len(),
            forall|i: int| 0 <= i < r@.len() ==> (#[trigger] r@[i])@ == self@.placed(i),
    {
        let mut out: Vec<FileT> = Vec::new();
        let mut pos: i64 = 0;
        let mut i: usize = 0;
        while i < self.files.len()
            invariant
                i <= self.files@.len(),
                self@.layout_fits(),
                pos == self@.size_of_first(i as int),
                out@.len() == i,
                forall|k: int| 0 <= k < i ==> (#[trigger] out@[k])@ == self@.placed(k),
            decreases self.files@.len() - i,
        {
            assert(self@.files[i as int] == self.files@[i as int]@);
            assert(self@.size_of_first(i + 1) == pos + self.files@[i as int].length);
            let begin: i64 = pos;
            pos = begin + self.files[i].length;
            let end: i64 = pos - 1;
            let (piece_begin, offset_begin) = divide(begin, self.piece_length);
            let (piece_end, offset_end) = divide(end, self.piece_length);
            out.push(
                FileT {
                    name: self.files[i].name(),
                    start_piece: piece_begin as usize,
                    start_offset: offset_begin,
                    end_piece: piece_end as usize,
                    end_offset: offset_end,
                },
            );
            i = i + 1;
        }
        out
    }

    /// The number of blocks of all pieces.
    pub fn block_count(&self) -> (r: usize)
        requires
            self@.block_count() <= usize::MAX,
        ensures
            r == self@.block_count(),
    {
        let blocks_per_piece: usize = self.piece_length as usize / wire::BLOCK_SZ;
        blocks_per_piece * self.piece_count
    }
}

impl FileEntry {
    /// The name that the file goes by.
    pub fn name(&self) -> (r: String)
        ensures
            r@ == self@.name(),
    {
        if self.paths.len() > 0 {
            self.paths[0].clone()
        } else {
            "<unknown>".to_owned()
        }
    }
}

/// Appends a label, a text and the end of the line.
pub(crate) fn push_line(out: &mut String, label: &str, value: &str)
    ensures
        final(out)@ == old(out)@ + line(label@, value@),
{
    out.append(label);
    out.append(value);
    out.append("\n");
    assert(out@ =~= old(out)@ + line(label@, value@));
}

/// A label, a text and the end of the line.
pub open spec fn line(label: Seq<char>, value: Seq<char>) -> Seq<char> {
    label + value + "\n"@
}

/// An optional text, or what stands in for it.
pub open spec fn text_or(value: Option<Seq<char>>, missing: Seq<char>) -> Seq<char> {
    match value {
        Some(value) => value,
        None => missing,
    }
}

/// The point in time that an optional creation date is, as it is printed.
pub open spec fn date_line(date: Option<Seq<char>>) -> Seq<char> {
    match date {
        Some(date) => "Some("@ + date + ")"@,
        None => "None"@,
    }
}

/// The text of `DateTime<UTC>` for a number of seconds since the start of 1970, as `chrono` prints
/// it for debugging, or `None` where the date is out of its range.
pub uninterp spec fn utc_text(secs: i64) -> Option<Seq<char>>;

/// `UTC.timestamp_opt` and the debug format of the `DateTime<UTC>` that it gives. Its sum of days
/// exceeds 32 bits some millions of years from now, long after its range of dates has ended.
#[verifier::external_body]
fn format_utc(secs: i64) -> (r: Option<String>)
    requires
        -DATE_LIMIT <= secs <= DATE_LIMIT,
    ensures
        optional_text(r) == utc_text(secs),
{
    UTC.timestamp_opt(secs, 0).single().map(|date| format!("{:?}", date))
}

/// Number of seconds that no date of `chrono` is away from the start of 1970.
pub const DATE_LIMIT: i64 = 10_000_000_000_000;

/// The text of a creation date, or `None` where the date is out of range.
pub open spec fn date_text(secs: i64) -> Option<Seq<char>> {
    if -DATE_LIMIT <= secs <= DATE_LIMIT {
        utc_text(secs)
    } else {
        None
    }
}

impl MetainfoView {
    /// The line of a file within the list of files.
    pub open spec fn file_line(self, i: int) -> Seq<char> {
        line(
            text::right_aligned(text::signed_decimal(self.files[i].length as int), 12) + "\t"@,
            self.files[i].name(),
        )
    }

    /// The lines of the first `n` files.
    pub open spec fn file_lines(self, n: int) -> Seq<char>
        decreases n,
    {
        if n <= 0 {
            Seq::empty()
        } else {
            self.file_lines(n - 1) + self.file_line(n - 1)
        }
    }

    /// The list of files.
    pub open spec fn file_list(self) -> Seq<char> {
        line("File List:"@, Seq::empty()) + line("Size (bytes)\tPath"@, Seq::empty()) + line(
            "------------\t----------------------------------------------"@,
            Seq::empty(),
        ) + self.file_lines(self.files.len() as int)
    }

    /// The overview, given the text of the creation date.
    pub open spec fn overview(self, date: Option<Seq<char>>) -> Seq<char> {
        line("------Metainfo File Overview-----"@, Seq::empty()) + line(
            "InfoHash: "@,
            text::hex(self.info_hash),
        ) + line("Main Tracker: "@, text_or(self.main_tracker, "<missing>"@)) + line(
            "Comment: "@,
            text_or(self.comment, "<missing>"@),
        ) + line("Creator: "@, text_or(self.created_by, "None"@)) + line(
            "Creation Date: "@,
            date_line(date),
        ) + line("Directory: "@, text_or(self.directory, "None"@)) + line(
            "Piece Length: "@,
            text::signed_decimal(self.piece_length as int),
        ) + line("Number Of Pieces: "@, text::decimal(self.piece_count as nat)) + line(
            "Number Of Files: "@,
            text::decimal(self.files.len()),
        ) + line("Total File Size: "@, text::signed_decimal(self.total_size())) + "\n"@
            + self.file_list()
    }

    /// The overview, or `None` where the creation date is out of range.
    pub open spec fn dated_overview(self) -> Option<Seq<char>> {
        match self.creation_date {
            Some(secs) => match date_text(secs) {
                Some(date) => Some(self.overview(Some(date))),
                None => None,
            },
            None => Some(self.overview(None)),
        }
    }
}

/// The text of an optional string, or what stands in for it.
fn string_or<'a>(value: &'a Option<String>, missing: &'a str) -> (r: &'a str)
    ensures
        r@ == text_or(optional_text(*value), missing@),
{
    match value {
        Some(value) => value.as_str(),
        None => missing,
    }
}

/// An integer in decimal notation.
fn integer_text(i: i64) -> (r: String)
    ensures
        r@ == text::signed_decimal(i as int),
{
    let mut out = String::new();
    text::push_signed_decimal(&mut out, i);
    assert(out@ =~= text::signed_decimal(i as int));
    out
}

impl Metainfo {
    /// The list of files, one to a line, under its title.
    pub fn file_list(&self) -> (r: String)
        ensures
            r@ == self@.file_list(),
    {
        let mut out = String::new();
        push_line(&mut out, "File List:", "");
        push_line(&mut out, "Size (bytes)\tPath", "");
        push_line(
            &mut out,
            "------------\t----------------------------------------------",
            "",
        );
        proof {
            reveal_strlit("");
            assert(""@ =~= Seq::<char>::empty());
        }
        let ghost title = out@;
        let mut i: usize = 0;
        assert(title + self@.file_lines(0) =~= title);
        while i < self.files.len()
            invariant
                i <= self.files@.len(),
                out@ == title + self@.file_lines(i as int),
            decreases self.files@.len() - i,
        {
            assert(self@.files[i as int] == self.files@[i as int]@);
            text::push_right_aligned(&mut out, integer_text(self.files[i].length).as_str(), 12);
            let name = self.files[i].name();
            push_line(&mut out, "\t", name.as_str());
            assert(out@ =~= title + self@.file_lines(i + 1));
            i = i + 1;
        }
        assert(out@ =~= self@.file_list());
        out
    }

    /// The overview, given the text of the creation date.
    pub fn overview_with_date(&self, date: &Option<String>) -> (r: String)
        requires
            self@.sizes_fit(),
        ensures
            r@ == self@.overview(optional_text(*date)),
    {
        let mut out = String::new();
        proof {
            reveal_strlit("");
            assert(""@ =~= Seq::<char>::empty());
        }
        push_line(&mut out, "------Metainfo File Overview-----", "");
        let mut hash = String::new();
        text::push_hex(&mut hash, self.info_hash.as_slice());
        assert(hash@ =~= text::hex(self@.info_hash));
        push_line(&mut out, "InfoHash: ", hash.as_str());
        push_line(&mut out, "Main Tracker: ", string_or(&self.main_tracker, "<missing>"));
        push_line(&mut out, "Comment: ", string_or(&self.comment, "<missing>"));
        push_line(&mut out, "Creator: ", string_or(&self.created_by, "None"));
        match date {
            Some(date) => {
                let shown = "Some(".to_owned().concat(date.as_str()).concat(")");
                push_line(&mut out, "Creation Date: ", shown.as_str());
            },
            None => push_line(&mut out, "Creation Date: ", "None"),
        }
        push_line(&mut out, "Directory: ", string_or(&self.directory, "None"));
        push_line(&mut out, "Piece Length: ", integer_text(self.piece_length).as_str());
        push_line(
            &mut out,
            "Number Of Pieces: ",
            text::decimal_text(self.piece_count as u64).as_str(),
        );
        push_line(
            &mut out,
            "Number Of Files: ",
            text::decimal_text(self.files.len() as u64).as_str(),
        );
        push_line(&mut out, "Total File Size: ", integer_text(self.total_size()).as_str());
        out.append("\n");
        out.append(self.file_list().as_str());
        assert(out@ =~= self@.overview(optional_text(*date)));
        out
    }

    /// The overview of the torrent, or `None` where its creation date is out of range.
    pub fn overview(&self) -> (r: Option<String>)
        requires
            self@.sizes_fit(),
        ensures
            optional_text(r) == self@.dated_overview(),
    {
        match self.creation_date {
            Some(secs) => {
                if secs < -DATE_LIMIT || DATE_LIMIT < secs {
                    return None;
                }
                match format_utc(secs) {
                    Some(date) => Some(self.overview_with_date(&Some(date))),
                    None => None,
                }
            },
            None => Some(self.overview_with_date(&None)),
        }
    }
}

proof fn lemma_sizes_grow(m: MetainfoView, i: int, j: int)
    requires
        0 <= i <= j <= m.files.len(),
        forall|k: int| 0 <= k < m.files.len() ==> (#[trigger] m.files[k]).length >= 0,
    ensures
        0 <= m.size_of_first(i) <= m.size_of_first(j),
    decreases j,
{
    if i < j {
        lemma_sizes_grow(m, i, j - 1);
    } else if i > 0 {
        lemma_sizes_grow(m, i - 1, j - 1);
    }
}

/// The files fill the pieces without a gap: a file starts right behind the last byte of the files
/// before it, and ends right before the first byte of the files behind it. Offsets lie within a
/// piece. This holds where no length is negative and the pieces can be counted in a `usize`; the
/// end is that of a file which has bytes before it or in it.
pub proof fn law_files_adjoin(m: MetainfoView, i: int)
    requires
        0 <= i < m.files.len(),
        m.layout_fits(),
        m.piece_length > 0,
        forall|k: int| 0 <= k < m.files.len() ==> (#[trigger] m.files[k]).length >= 0,
        m.total_size() / (m.piece_length as int) <= usize::MAX,
    ensures
        m.placed(i).start_piece * m.piece_length + m.placed(i).start_offset == m.size_of_first(i),
        0 <= m.placed(i).start_offset < m.piece_length,
        m.size_of_first(i + 1) > 0 ==> {
            &&& m.placed(i).end_piece * m.piece_length + m.placed(i).end_offset + 1
                == m.size_of_first(i + 1)
            &&& 0 <= m.placed(i).end_offset < m.piece_length
        },
        i + 1 < m.files.len() ==> m.size_of_first(i + 1) == m.placed(i + 1).start_piece
            * m.piece_length + m.placed(i + 1).start_offset,
        i + 1 == m.files.len() ==> m.size_of_first(i + 1) == m.total_size(),
{
    let n = m.files.len() as int;
    lemma_sizes_grow(m, i, n);
    lemma_sizes_grow(m, i + 1, n);
    lemma_position(m.size_of_first(i), m.total_size(), m.piece_length as int);
    if m.size_of_first(i + 1) > 0 {
        lemma_position(m.size_of_first(i + 1) - 1, m.total_size(), m.piece_length as int);
    }
    if i + 1 < n {
        lemma_position(m.size_of_first(i + 1), m.total_size(), m.piece_length as int);
    }
}

proof fn lemma_position(pos: int, total: int, piece: int)
    requires
        0 <= pos <= total <= i64::MAX,
        piece > 0,
        total / piece <= usize::MAX,
    ensures
        (quotient(pos, piece) as usize) * piece + (remainder(pos, piece) as i64) == pos,
        0 <= (remainder(pos, piece) as i64) < piece,
{
    vstd::arithmetic::div_mod::lemma_fundamental_div_mod(pos, piece);
    vstd::arithmetic::div_mod::lemma_div_is_ordered(pos, total, piece);
    vstd::arithmetic::div_mod::lemma_div_pos_is_pos(pos, piece);
    vstd::arithmetic::div_mod::lemma_mod_bound(pos, piece);
    vstd::arithmetic::div_mod::lemma_mod_decreases(pos as nat, piece as nat);
    vstd::arithmetic::mul::lemma_mul_is_commutative(piece, pos / piece);
}

/// The sum of the lengths of files.
pub open spec fn sum_of_lengths(files: Seq<FileEntryView>) -> int {
    files.fold_left(0int, |sum: int, f: FileEntryView| sum + f.length)
}

/// The size of a torrent is the sum of the lengths of its files, each counted once, and that of its
/// first files the sum of theirs.
pub proof fn law_size_is_sum(m: MetainfoView, n: int)
    requires
        0 <= n <= m.files.len(),
    ensures
        m.size_of_first(n) == sum_of_lengths(m.files.take(n)),
        m.total_size() == sum_of_lengths(m.files),
        n < m.files.len() ==> m.size_of_first(n + 1) - m.size_of_first(n) == m.files[n].length,
    decreases m.files.len(), n,
{
    lemma_size_of_first(m, n);
    lemma_size_of_first(m, m.files.len() as int);
    assert(m.files.take(m.files.len() as int) =~= m.files);
}

proof fn lemma_size_of_first(m: MetainfoView, n: int)
    requires
        0 <= n <= m.files.len(),
    ensures
        m.size_of_first(n) == sum_of_lengths(m.files.take(n)),
    decreases n,
{
    if n > 0 {
        lemma_size_of_first(m, n - 1);
        assert(m.files.take(n).drop_last() =~= m.files.take(n - 1));
        assert(m.files.take(n).last() == m.files[n - 1]);
    }
}

/// Each file covers exactly its own length: from its first byte to its last there are as many bytes
/// as it is long, and its first byte comes right behind those of the files before it. It keeps its
/// name. This holds where no length is negative and the pieces can be counted in a `usize`; a file
/// without bytes has a last byte only behind other bytes.
pub proof fn law_file_covers_its_length(m: MetainfoView, i: int)
    requires
        0 <= i < m.files.len(),
        m.layout_fits(),
        m.piece_length > 0,
        forall|k: int| 0 <= k < m.files.len() ==> (#[trigger] m.files[k]).length >= 0,
        sum_of_lengths(m.files) / (m.piece_length as int) <= usize::MAX,
    ensures
        ({
            let file = m.placed(i);
            let first = file.start_piece * m.piece_length + file.start_offset;
            let last = file.end_piece * m.piece_length + file.end_offset;
            &&& first == sum_of_lengths(m.files.take(i))
            &&& 0 <= file.start_offset < m.piece_length
            &&& first + m.files[i].length > 0 ==> last + 1 - first == m.files[i].length && 0
                <= file.end_offset < m.piece_length
            &&& m.files[i].paths.len() > 0 ==> file.name == m.files[i].paths[0]
            &&& m.files[i].paths.len() == 0 ==> file.name == "<unknown>"@
        }),
{
    law_size_is_sum(m, i);
    law_files_adjoin(m, i);
}

/// A division rounded towards zero and what it leaves make up what was divided. What is left is
/// smaller than the divisor, and has the sign of what was divided.
pub proof fn law_quotient_and_remainder(a: int, b: int)
    requires
        b != 0,
    ensures
        quotient(a, b) * b + remainder(a, b) == a,
        -(if b < 0 {
            -b
        } else {
            b
        }) < remainder(a, b) < (if b < 0 {
            -b
        } else {
            b
        }),
        a >= 0 ==> remainder(a, b) >= 0,
        a <= 0 ==> remainder(a, b) <= 0,
{
    let x = if a >= 0 {
        a
    } else {
        -a
    };
    let q = x / b;
    let r = x % b;
    assert(x == b * q + r && 0 <= r && (x == 0 ==> r == 0) && r < (if b < 0 {
        -b
    } else {
        b
    })) by (nonlinear_arith)
        requires
            b != 0,
            x >= 0,
            q == x / b,
            r == x % b,
    ;
    assert(b * q == q * b) by (nonlinear_arith);
    assert((-q) * b == -(b * q)) by (nonlinear_arith);
}

/// A torrent can be made where it has a name, its info hash fits in a handshake, and the sum of the
/// lengths of its first files, however many, is an integer of 64 bits.
pub proof fn law_usable(m: MetainfoView)
    ensures
        m.usable() <==> {
            &&& m.directory is Some || (m.files.len() > 0 && m.files[0].paths.len() > 0)
            &&& m.info_hash.len() <= 20
            &&& forall|n: int|
                0 <= n <= m.files.len() ==> -0x8000_0000_0000_0000 <= #[trigger] sum_of_lengths(
                    m.files.take(n),
                ) <= 0x7fff_ffff_ffff_ffff
        },
{
    assert forall|n: int| 0 <= n <= m.files.len() implies #[trigger] m.size_of_first(n)
        == sum_of_lengths(m.files.take(n)) by {
        lemma_size_of_first(m, n);
    }
    assert forall|n: int| 0 <= n <= m.files.len() implies #[trigger] sum_of_lengths(
        m.files.take(n),
    ) == m.size_of_first(n) by {
        lemma_size_of_first(m, n);
    }
}

/// Files that have a length have a place where their pieces have one, their sum is an integer of 64
/// bits, and their blocks can be counted. Without files, pieces need no length.
pub proof fn law_placeable(m: MetainfoView)
    requires
        forall|k: int| 0 <= k < m.files.len() ==> (#[trigger] m.files[k]).length >= 0,
        m.piece_length >= 0,
    ensures
        m.placeable() <==> {
            &&& m.files.len() > 0 ==> m.piece_length > 0
            &&& sum_of_lengths(m.files) <= 0x7fff_ffff_ffff_ffff
            &&& m.block_count() <= usize::MAX
        },
{
    let count = m.files.len() as int;
    law_size_is_sum(m, count);
    assert(m.size_of_first(count) == m.total_size());
    assert forall|n: int| 0 <= n <= count implies 0 <= #[trigger] m.size_of_first(n)
        <= m.total_size() by {
        lemma_sizes_grow(m, n, count);
    }
    if sum_of_lengths(m.files) > 0x7fff_ffff_ffff_ffff {
        assert(!(m.size_of_first(count) <= i64::MAX));
    }
}

/// Each piece has as many blocks of 16384 bytes as fit in it.
pub proof fn law_block_count(m: MetainfoView)
    requires
        0 <= m.piece_length <= usize::MAX,
    ensures
        m.blocks_per_piece() * 16384 <= m.piece_length < (m.blocks_per_piece() + 1) * 16384,
        m.block_count() == m.piece_count * m.blocks_per_piece(),
{
    assert(m.piece_count * m.blocks_per_piece() == m.blocks_per_piece() * m.piece_count)
        by (nonlinear_arith);
}

/// A torrent has the name of its directory, or else that of its file; a file goes by the first
/// element of its path.
pub proof fn law_names(m: MetainfoView, f: FileEntryView)
    ensures
        m.directory matches Some(name) ==> m.has_root() && m.root_name() == name,
        m.directory is None && m.files.len() > 0 && m.files[0].paths.len() > 0 ==> m.has_root()
            && m.root_name() == m.files[0].paths[0],
        m.directory is None && (m.files.len() == 0 || m.files[0].paths.len() == 0)
            ==> !m.has_root(),
        f.paths.len() > 0 ==> f.name() == f.paths[0],
        f.paths.len() == 0 ==> f.name() == "<unknown>"@,
{
}

/// The list of files has a title of three lines, and then one line for each file, in the order of
/// the files: the length, aligned to twelve characters, a tab and the name.
pub proof fn law_file_list(m: MetainfoView, i: int)
    requires
        0 <= i < m.files.len(),
    ensures
        m.file_list() == "File List:"@ + "\n"@ + "Size (bytes)\tPath"@ + "\n"@
            + "------------\t----------------------------------------------"@ + "\n"@
            + m.file_lines(m.files.len() as int),
        m.file_lines(0) == Seq::<char>::empty(),
        m.file_lines(i + 1) == m.file_lines(i) + text::right_aligned(
            text::signed_decimal(m.files[i].length as int),
            12,
        ) + "\t"@ + m.files[i].name() + "\n"@,
{
    let title = "File List:"@ + "\n"@ + "Size (bytes)\tPath"@ + "\n"@
        + "------------\t----------------------------------------------"@ + "\n"@;
    assert(m.file_list() =~= title + m.file_lines(m.files.len() as int));
    assert(m.file_lines(i + 1) =~= m.file_lines(i) + text::right_aligned(
        text::signed_decimal(m.files[i].length as int),
        12,
    ) + "\t"@ + m.files[i].name() + "\n"@);
}

/// A part of a text between two others.
pub open spec fn stands_in(part: Seq<char>, whole: Seq<char>) -> bool {
    exists|at: int| 0 <= at <= whole.len() - part.len() && part == #[trigger] whole.subrange(
        at,
        at + part.len(),
    )
}

proof fn lemma_stands_in(before: Seq<char>, part: Seq<char>)
    ensures
        stands_in(part, before + part),
{
    let at = before.len() as int;
    assert(part =~= (before + part).subrange(at, at + part.len()));
}

proof fn lemma_stands_in_longer(part: Seq<char>, whole: Seq<char>, after: Seq<char>)
    requires
        stands_in(part, whole),
    ensures
        stands_in(part, whole + after),
{
    let at = choose|at: int|
        0 <= at <= whole.len() - part.len() && part == #[trigger] whole.subrange(
            at,
            at + part.len(),
        );
    assert(part =~= (whole + after).subrange(at, at + part.len()));
}

/// Lines, one behind the other.
pub open spec fn joined(lines: Seq<Seq<char>>) -> Seq<char>
    decreases lines.len(),
{
    if lines.len() == 0 {
        Seq::empty()
    } else {
        joined(lines.drop_last()) + lines.last()
    }
}

proof fn lemma_line_stands_in(lines: Seq<Seq<char>>, i: int)
    requires
        0 <= i < lines.len(),
    ensures
        stands_in(lines[i], joined(lines)),
    decreases lines.len(),
{
    if i == lines.len() - 1 {
        lemma_stands_in(joined(lines.drop_last()), lines.last());
    } else {
        lemma_line_stands_in(lines.drop_last(), i);
        assert(lines.drop_last()[i] == lines[i]);
        lemma_stands_in_longer(lines[i], joined(lines.drop_last()), lines.last());
    }
}

proof fn lemma_joined_push(lines: Seq<Seq<char>>, line: Seq<char>)
    ensures
        joined(lines.push(line)) == joined(lines) + line,
{
    assert(lines.push(line).drop_last() =~= lines);
}

/// The overview names the info hash in hexadecimal notation, the tracker, the comment, the creator,
/// the date, the directory, the length and the number of pieces, the number of files and their
/// length together, each on a line of its own and in this order, and ends with the list of files.
/// What a metainfo file does not name is told to be missing.
pub proof fn law_overview(m: MetainfoView, date: Option<Seq<char>>)
    ensures
        ({
            let whole = m.overview(date);
            &&& stands_in("InfoHash: "@ + text::hex(m.info_hash) + "\n"@, whole)
            &&& m.main_tracker matches Some(s) ==> stands_in("Main Tracker: "@ + s + "\n"@, whole)
            &&& m.main_tracker is None ==> stands_in("Main Tracker: "@ + "<missing>"@ + "\n"@, whole)
            &&& m.comment matches Some(s) ==> stands_in("Comment: "@ + s + "\n"@, whole)
            &&& m.comment is None ==> stands_in("Comment: "@ + "<missing>"@ + "\n"@, whole)
            &&& m.created_by matches Some(s) ==> stands_in("Creator: "@ + s + "\n"@, whole)
            &&& m.created_by is None ==> stands_in("Creator: "@ + "None"@ + "\n"@, whole)
            &&& date matches Some(s) ==> stands_in(
                "Creation Date: "@ + ("Some("@ + s + ")"@) + "\n"@,
                whole,
            )
            &&& date is None ==> stands_in("Creation Date: "@ + "None"@ + "\n"@, whole)
            &&& m.directory matches Some(s) ==> stands_in("Directory: "@ + s + "\n"@, whole)
            &&& m.directory is None ==> stands_in("Directory: "@ + "None"@ + "\n"@, whole)
            &&& stands_in(
                "Piece Length: "@ + text::signed_decimal(m.piece_length as int) + "\n"@,
                whole,
            )
            &&& stands_in(
                "Number Of Pieces: "@ + text::decimal(m.piece_count as nat) + "\n"@,
                whole,
            )
            &&& stands_in("Number Of Files: "@ + text::decimal(m.files.len()) + "\n"@, whole)
            &&& stands_in(
                "Total File Size: "@ + text::signed_decimal(sum_of_lengths(m.files)) + "\n"@,
                whole,
            )
            &&& whole.len() >= m.file_list().len()
            &&& whole.skip(whole.len() - m.file_list().len()) == m.file_list()
            &&& whole == joined(
                seq![
                    line("------Metainfo File Overview-----"@, Seq::empty()),
                    line("InfoHash: "@, text::hex(m.info_hash)),
                    line("Main Tracker: "@, text_or(m.main_tracker, "<missing>"@)),
                    line("Comment: "@, text_or(m.comment, "<missing>"@)),
                    line("Creator: "@, text_or(m.created_by, "None"@)),
                    line("Creation Date: "@, date_line(date)),
                    line("Directory: "@, text_or(m.directory, "None"@)),
                    line("Piece Length: "@, text::signed_decimal(m.piece_length as int)),
                    line("Number Of Pieces: "@, text::decimal(m.piece_count as nat)),
                    line("Number Of Files: "@, text::decimal(m.files.len())),
                    line("Total File Size: "@, text::signed_decimal(sum_of_lengths(m.files))),
                ],
            ) + "\n"@ + m.file_list()
        }),
{
    law_size_is_sum(m, 0);
    let whole = m.overview(date);
    let l0 = line("------Metainfo File Overview-----"@, Seq::empty());
    let l1 = line("InfoHash: "@, text::hex(m.info_hash));
    let l2 = line("Main Tracker: "@, text_or(m.main_tracker, "<missing>"@));
    let l3 = line("Comment: "@, text_or(m.comment, "<missing>"@));
    let l4 = line("Creator: "@, text_or(m.created_by, "None"@));
    let l5 = line("Creation Date: "@, date_line(date));
    let l6 = line("Directory: "@, text_or(m.directory, "None"@));
    let l7 = line("Piece Length: "@, text::signed_decimal(m.piece_length as int));
    let l8 = line("Number Of Pieces: "@, text::decimal(m.piece_count as nat));
    let l9 = line("Number Of Files: "@, text::decimal(m.files.len()));
    let l10 = line("Total File Size: "@, text::signed_decimal(m.total_size()));
    let none = Seq::<Seq<char>>::empty();
    let lines = none.push(l0).push(l1).push(l2).push(l3).push(l4).push(l5).push(l6).push(l7).push(
        l8,
    ).push(l9).push(l10);
    assert(joined(lines) == joined(none) + l0 + l1 + l2 + l3 + l4 + l5 + l6 + l7 + l8 + l9 + l10)
        by {
        lemma_joined_push(none, l0);
        lemma_joined_push(none.push(l0), l1);
        lemma_joined_push(none.push(l0).push(l1), l2);
        lemma_joined_push(none.push(l0).push(l1).push(l2), l3);
        lemma_joined_push(none.push(l0).push(l1).push(l2).push(l3), l4);
        lemma_joined_push(none.push(l0).push(l1).push(l2).push(l3).push(l4), l5);
        lemma_joined_push(none.push(l0).push(l1).push(l2).push(l3).push(l4).push(l5), l6);
        lemma_joined_push(none.push(l0).push(l1).push(l2).push(l3).push(l4).push(l5).push(l6), l7);
        lemma_joined_push(
            none.push(l0).push(l1).push(l2).push(l3).push(l4).push(l5).push(l6).push(l7),
            l8,
        );
        lemma_joined_push(
            none.push(l0).push(l1).push(l2).push(l3).push(l4).push(l5).push(l6).push(l7).push(l8),
            l9,
        );
        lemma_joined_push(
            none.push(l0).push(l1).push(l2).push(l3).push(l4).push(l5).push(l6).push(l7).push(
                l8,
            ).push(l9),
            l10,
        );
    }
    assert(joined(none) + l0 =~= l0);
    let front = joined(lines) + "\n"@;
    assert(whole == front + m.file_list());
    assert(lines =~= seq![l0, l1, l2, l3, l4, l5, l6, l7, l8, l9, l10]);
    assert forall|i: int| 0 <= i < 11 implies stands_in(#[trigger] lines[i], whole) by {
        lemma_line_stands_in(lines, i);
        lemma_stands_in_longer(lines[i], joined(lines), "\n"@);
        lemma_stands_in_longer(lines[i], front, m.file_list());
    }
    assert(lines[1] == l1 && lines[2] == l2 && lines[3] == l3 && lines[4] == l4 && lines[5] == l5);
    assert(lines[6] == l6 && lines[7] == l7 && lines[8] == l8 && lines[9] == l9 && lines[10]
        == l10);
    assert(whole.skip(whole.len() - m.file_list().len()) =~= m.file_list());
}

proof fn lemma_front_is_kept(front: Seq<char>, whole: Seq<char>, after: Seq<char>)
    requires
        whole.len() >= front.len(),
        whole.take(front.len() as int) == front,
    ensures
        (whole + after).len() >= front.len(),
        (whole + after).take(front.len() as int) == front,
{
    assert((whole + after).take(front.len() as int) =~= whole.take(front.len() as int));
}

proof fn lemma_overview_title(m: MetainfoView, date: Option<Seq<char>>)
    ensures
        m.overview(date).take("------Metainfo File Overview-----"@.len() as int)
            == "------Metainfo File Overview-----"@,
{
    let title = "------Metainfo File Overview-----"@;
    let s0 = line(title, Seq::empty());
    assert(s0.take(title.len() as int) =~= title);
    let l1 = line("InfoHash: "@, text::hex(m.info_hash));
    lemma_front_is_kept(title, s0, l1);
    let s1 = s0 + l1;
    let l2 = line("Main Tracker: "@, text_or(m.main_tracker, "<missing>"@));
    lemma_front_is_kept(title, s1, l2);
    let s2 = s1 + l2;
    let l3 = line("Comment: "@, text_or(m.comment, "<missing>"@));
    lemma_front_is_kept(title, s2, l3);
    let s3 = s2 + l3;
    let l4 = line("Creator: "@, text_or(m.created_by, "None"@));
    lemma_front_is_kept(title, s3, l4);
    let s4 = s3 + l4;
    let l5 = line("Creation Date: "@, date_line(date));
    lemma_front_is_kept(title, s4, l5);
    let s5 = s4 + l5;
    let l6 = line("Directory: "@, text_or(m.directory, "None"@));
    lemma_front_is_kept(title, s5, l6);
    let s6 = s5 + l6;
    let l7 = line("Piece Length: "@, text::signed_decimal(m.piece_length as int));
    lemma_front_is_kept(title, s6, l7);
    let s7 = s6 + l7;
    let l8 = line("Number Of Pieces: "@, text::decimal(m.piece_count as nat));
    lemma_front_is_kept(title, s7, l8);
    let s8 = s7 + l8;
    let l9 = line("Number Of Files: "@, text::decimal(m.files.len()));
    lemma_front_is_kept(title, s8, l9);
    let s9 = s8 + l9;
    let l10 = line("Total File Size: "@, text::signed_decimal(m.total_size()));
    lemma_front_is_kept(title, s9, l10);
    let s10 = s9 + l10;
    lemma_front_is_kept(title, s10, "\n"@);
    lemma_front_is_kept(title, s10 + "\n"@, m.file_list());
}

/// The overview has no more than its title, its ten lines, an empty line and the list of files.
pub proof fn law_overview_length(m: MetainfoView, date: Option<Seq<char>>)
    ensures
        ({
            let whole = m.overview(date);
            &&& whole.len() == "------Metainfo File Overview-----"@.len() + "InfoHash: "@.len()
                + text::hex(m.info_hash).len() + "Main Tracker: "@.len() + (match m.main_tracker {
                Some(s) => s.len(),
                None => "<missing>"@.len(),
            }) + "Comment: "@.len() + (match m.comment {
                Some(s) => s.len(),
                None => "<missing>"@.len(),
            }) + "Creator: "@.len() + (match m.created_by {
                Some(s) => s.len(),
                None => "None"@.len(),
            }) + "Creation Date: "@.len() + (match date {
                Some(s) => "Some("@.len() + s.len() + ")"@.len(),
                None => "None"@.len(),
            }) + "Directory: "@.len() + (match m.directory {
                Some(s) => s.len(),
                None => "None"@.len(),
            }) + "Piece Length: "@.len() + text::signed_decimal(m.piece_length as int).len()
                + "Number Of Pieces: "@.len() + text::decimal(m.piece_count as nat).len()
                + "Number Of Files: "@.len() + text::decimal(m.files.len()).len()
                + "Total File Size: "@.len() + text::signed_decimal(sum_of_lengths(m.files)).len()
                + 12 * "\n"@.len() + m.file_list().len()
            &&& whole.take("------Metainfo File Overview-----"@.len() as int)
                == "------Metainfo File Overview-----"@
        }),
{
    law_size_is_sum(m, 0);
    lemma_overview_title(m, date);
}

/// An overview can be given without a creation date, and with any for which there is a text. Within
/// ten million million seconds of 1970, whether there is one is for the calendar to say.
pub proof fn law_dated_overview(m: MetainfoView)
    ensures
        m.creation_date is None ==> m.dated_overview() == Some(m.overview(None)),
        m.creation_date matches Some(secs) ==> {
            &&& -10_000_000_000_000 <= secs <= 10_000_000_000_000 ==> {
                &&& utc_text(secs) matches Some(date) ==> m.dated_overview() == Some(
                    m.overview(Some(date)),
                )
                &&& utc_text(secs) is None ==> m.dated_overview() is None
            }
            &&& !(-10_000_000_000_000 <= secs <= 10_000_000_000_000) ==> m.dated_overview() is None
        },
{
}

} // verus!
